//! Collection metadata, schedule slots and the name rules (slugs, titles, profile names).
use vstd::prelude::*;

use crate::text::{
    append_chars, ascii_lower, char_to_lowercase, char_to_uppercase, chars_of, has_char,
    is_ascii_alnum, is_ascii_alnum_char, is_ascii_digit, is_ascii_lower, is_white_space,
    is_whitespace_char, lowercase, slice_chars, str_eq, string_of, strip_suffix, trim, contains_char, strip_suffix_chars,
    trim_chars, trim_start, unicode_lowercase, unicode_uppercase, is_blank_str, lemma_trim_empty_iff_blank,
};

verus! {

/// How a collection chooses its wallpaper.
#[derive(Clone, Copy, Debug, PartialEq, Eq, Structural)]
pub enum Strategy {
    Static,
    Dynamic,
    Schedule,
}

impl Strategy {
    /// The lowercase name used in configuration files and messages.
    pub fn as_str(&self) -> (r: &'static str)
        ensures
            r@ == strategy_name(*self),
    {
        match self {
            Strategy::Static => "static",
            Strategy::Dynamic => "dynamic",
            Strategy::Schedule => "schedule",
        }
    }
}

pub open spec fn strategy_name(s: Strategy) -> Seq<char> {
    match s {
        Strategy::Static => "static"@,
        Strategy::Dynamic => "dynamic"@,
        Strategy::Schedule => "schedule"@,
    }
}

/// How much of a profile is written when it is applied.
#[derive(Clone, Copy, Debug, PartialEq, Eq, Structural)]
pub enum ApplyMode {
    WallpaperOnly,
    FullProfile,
    Smart,
}

pub open spec fn apply_mode_name(m: ApplyMode) -> Seq<char> {
    match m {
        ApplyMode::WallpaperOnly => "wallpaper-only"@,
        ApplyMode::FullProfile => "full-profile"@,
        ApplyMode::Smart => "smart"@,
    }
}

impl ApplyMode {
    /// The kebab-case name used in configuration files and messages.
    pub fn as_str(&self) -> (r: &'static str)
        ensures
            r@ == apply_mode_name(*self),
    {
        match self {
            ApplyMode::WallpaperOnly => "wallpaper-only",
            ApplyMode::FullProfile => "full-profile",
            ApplyMode::Smart => "smart",
        }
    }

    /// The mode a configuration gets when it names none.
    pub fn default_mode() -> (r: ApplyMode)
        ensures
            r == ApplyMode::Smart,
    {
        ApplyMode::Smart
    }

    /// Parses a mode from its name; any other text is refused.
    pub fn from_name(value: &str) -> (r: Result<ApplyMode, ConfigError>)
        ensures
            r matches Ok(m) ==> apply_mode_name(m) == value@,
            r is Err <==> (value@ != apply_mode_name(ApplyMode::WallpaperOnly) && value@
                != apply_mode_name(ApplyMode::FullProfile) && value@ != apply_mode_name(
                ApplyMode::Smart,
            )),
            r matches Err(e) ==> e@ == ConfigFault::UnknownApplyMode(value@),
    {
        let wallpaper_only = "wallpaper-only";
        let full_profile = "full-profile";
        let smart = "smart";
        if str_eq(value, wallpaper_only) {
            Ok(ApplyMode::WallpaperOnly)
        } else if str_eq(value, full_profile) {
            Ok(ApplyMode::FullProfile)
        } else if str_eq(value, smart) {
            Ok(ApplyMode::Smart)
        } else {
            Err(ConfigError::UnknownApplyMode { value: string_of_str(value) })
        }
    }
}

/// One fixed hour of a schedule and the profile shown from that hour on.
#[derive(Clone, Debug, PartialEq, Eq)]
pub struct ScheduleSlot {
    pub hour: u8,
    pub profile: String,
}

/// The metadata of one collection (`collection.toml`).
#[derive(Clone, Debug, PartialEq, Eq)]
pub struct CollectionConfig {
    pub name: String,
    pub title: String,
    pub strategy: Strategy,
    pub apply_mode: ApplyMode,
    pub default_profile: Option<String>,
    pub slots: Vec<ScheduleSlot>,
}

/// The fixed schedules offered when a scheduled collection is created.
#[derive(Clone, Copy, Debug, PartialEq, Eq, Structural)]
pub enum Preset {
    Three,
    Four,
}

/// The profile name of static and dynamic collections.
pub const DEFAULT_PROFILE: &'static str = "default";

/// Why a profile name was refused.
#[derive(Clone, Debug, PartialEq, Eq)]
pub enum ProfileNameError {
    Empty,
    PathSeparator { name: String },
    NoUsableCharacters { name: String },
}

/// Mathematical form of [`ProfileNameError`].
pub enum ProfileNameFault {
    Empty,
    PathSeparator(Seq<char>),
    NoUsableCharacters(Seq<char>),
}

impl View for ProfileNameError {
    type V = ProfileNameFault;

    open spec fn view(&self) -> ProfileNameFault {
        match self {
            ProfileNameError::Empty => ProfileNameFault::Empty,
            ProfileNameError::PathSeparator { name } => ProfileNameFault::PathSeparator(name@),
            ProfileNameError::NoUsableCharacters { name } => ProfileNameFault::NoUsableCharacters(
                name@,
            ),
        }
    }
}

/// Why a list of schedule slots was refused.
#[derive(Clone, Debug, PartialEq, Eq)]
pub enum SlotError {
    NoSlots,
    HourOutOfRange { hour: u8 },
    DuplicateHour { hour: u8 },
    InvalidProfileName { hour: u8, cause: ProfileNameError },
}

/// Mathematical form of [`SlotError`].
pub enum SlotFault {
    NoSlots,
    HourOutOfRange(u8),
    DuplicateHour(u8),
    InvalidProfileName(u8, ProfileNameFault),
}

impl View for SlotError {
    type V = SlotFault;

    open spec fn view(&self) -> SlotFault {
        match self {
            SlotError::NoSlots => SlotFault::NoSlots,
            SlotError::HourOutOfRange { hour } => SlotFault::HourOutOfRange(*hour),
            SlotError::DuplicateHour { hour } => SlotFault::DuplicateHour(*hour),
            SlotError::InvalidProfileName { hour, cause } => SlotFault::InvalidProfileName(
                *hour,
                cause@,
            ),
        }
    }
}

/// Why collection metadata was refused.
#[derive(Clone, Debug, PartialEq, Eq)]
pub enum ConfigError {
    EmptyName,
    NameNotSlug { name: String, expected: String },
    EmptyTitle { name: String },
    MissingDefaultProfile { strategy: Strategy, name: String },
    UnexpectedSlots { strategy: Strategy, name: String },
    InvalidSlots { name: String, cause: SlotError },
    NoDefaultProfile { name: String },
    UnknownApplyMode { value: String },
}

/// Mathematical form of [`ConfigError`].
pub enum ConfigFault {
    EmptyName,
    NameNotSlug(Seq<char>, Seq<char>),
    EmptyTitle(Seq<char>),
    MissingDefaultProfile(Strategy, Seq<char>),
    UnexpectedSlots(Strategy, Seq<char>),
    InvalidSlots(Seq<char>, SlotFault),
    NoDefaultProfile(Seq<char>),
    UnknownApplyMode(Seq<char>),
}

impl View for ConfigError {
    type V = ConfigFault;

    open spec fn view(&self) -> ConfigFault {
        match self {
            ConfigError::EmptyName => ConfigFault::EmptyName,
            ConfigError::NameNotSlug { name, expected } => ConfigFault::NameNotSlug(
                name@,
                expected@,
            ),
            ConfigError::EmptyTitle { name } => ConfigFault::EmptyTitle(name@),
            ConfigError::MissingDefaultProfile { strategy, name } =>
                ConfigFault::MissingDefaultProfile(*strategy, name@),
            ConfigError::UnexpectedSlots { strategy, name } => ConfigFault::UnexpectedSlots(
                *strategy,
                name@,
            ),
            ConfigError::InvalidSlots { name, cause } => ConfigFault::InvalidSlots(name@, cause@),
            ConfigError::NoDefaultProfile { name } => ConfigFault::NoDefaultProfile(name@),
            ConfigError::UnknownApplyMode { value } => ConfigFault::UnknownApplyMode(value@),
        }
    }
}

/// Wraps `str::to_string`: an owned copy of `s`.
#[verifier::external_body]
pub(crate) fn string_of_str(s: &str) -> (r: String)
    ensures
        r@ == s@,
{
    s.to_string()
}

// ---------------------------------------------------------------------------
// Slugs
// ---------------------------------------------------------------------------
/// One step of the slug scan: alphanumerics are kept, any other character
/// becomes a single dash between words.
pub open spec fn slug_step(acc: (Seq<char>, bool), c: char) -> (Seq<char>, bool) {
    if is_ascii_alnum(c) {
        (acc.0.push(c), false)
    } else if !acc.1 && acc.0.len() > 0 {
        (acc.0.push('-'), true)
    } else {
        acc
    }
}

/// The slug scan over a character sequence: the text so far and whether it ends in a dash.
pub open spec fn slug_scan(cs: Seq<char>) -> (Seq<char>, bool)
    decreases cs.len(),
{
    if cs.len() == 0 {
        (Seq::empty(), false)
    } else {
        slug_step(slug_scan(cs.drop_last()), cs.last())
    }
}

pub open spec fn drop_trailing_dashes(s: Seq<char>) -> Seq<char>
    decreases s.len(),
{
    if s.len() > 0 && s.last() == '-' {
        drop_trailing_dashes(s.drop_last())
    } else {
        s
    }
}

/// The slug of `input`: the input trimmed and lowercased, runs of ASCII letters and
/// digits kept, everything between them collapsed to one dash, no dash at either end.
pub open spec fn slugify_spec(input: Seq<char>) -> Seq<char> {
    drop_trailing_dashes(slug_scan(lowercase(trim(input))).0)
}

/// `s` is in slug form: lowercase ASCII letters, digits and single inner dashes.
pub open spec fn is_slug(s: Seq<char>) -> bool {
    &&& forall|i: int|
        0 <= i < s.len() ==> (is_ascii_digit(#[trigger] s[i]) || is_ascii_lower(s[i]) || s[i]
            == '-')
    &&& s.len() > 0 ==> s[0] != '-' && s.last() != '-'
    &&& forall|i: int| 0 <= i < s.len() - 1 ==> !(#[trigger] s[i] == '-' && s[i + 1] == '-')
}

proof fn lemma_lowercase_push(s: Seq<char>, c: char)
    ensures
        lowercase(s.push(c)) == lowercase(s) + crate::text::char_lower(c),
{
    assert(s.push(c).drop_last() =~= s);
}

proof fn lemma_slug_scan_push(s: Seq<char>, c: char)
    ensures
        slug_scan(s.push(c)) == slug_step(slug_scan(s), c),
{
    assert(s.push(c).drop_last() =~= s);
}

/// Characters a slug may hold: ASCII letters, digits and dashes.
pub open spec fn slug_char(c: char) -> bool {
    is_ascii_alnum(c) || c == '-'
}

/// Slug shape: slug characters, no dash first or last, no two dashes in a row.
pub open spec fn slug_shaped(s: Seq<char>) -> bool {
    &&& forall|i: int| 0 <= i < s.len() ==> slug_char(#[trigger] s[i])
    &&& s.len() > 0 ==> s[0] != '-' && s.last() != '-'
    &&& forall|i: int| 0 <= i < s.len() - 1 ==> !(#[trigger] s[i] == '-' && s[i + 1] == '-')
}

proof fn lemma_scan_shape(cs: Seq<char>)
    ensures
        ({
            let (out, dash) = slug_scan(cs);
            &&& forall|i: int| 0 <= i < out.len() ==> slug_char(#[trigger] out[i])
            &&& out.len() > 0 ==> out[0] != '-'
            &&& forall|i: int| 0 <= i < out.len() - 1 ==> !(#[trigger] out[i] == '-' && out[i + 1] == '-')
            &&& dash == (out.len() > 0 && out.last() == '-')
        }),
    decreases cs.len(),
{
    if cs.len() > 0 {
        lemma_scan_shape(cs.drop_last());
        let (prev, _) = slug_scan(cs.drop_last());
        let (out, _) = slug_scan(cs);
        assert forall|i: int| 0 <= i < out.len() implies slug_char(#[trigger] out[i]) by {
            if i < prev.len() {
                assert(out[i] == prev[i]);
            }
        }
        assert forall|i: int| 0 <= i < out.len() - 1 implies !(#[trigger] out[i] == '-' && out[i + 1] == '-') by {
            if i + 1 < prev.len() {
                assert(out[i] == prev[i] && out[i + 1] == prev[i + 1]);
            } else if i + 1 == prev.len() {
                assert(out[i] == prev[i]);
            }
        }
        if prev.len() > 0 {
            assert(out[0] == prev[0]);
        }
    }
}

proof fn lemma_drop_dashes(s: Seq<char>)
    ensures
        drop_trailing_dashes(s).len() <= s.len(),
        drop_trailing_dashes(s) == s.subrange(0, drop_trailing_dashes(s).len() as int),
        drop_trailing_dashes(s).len() > 0 ==> drop_trailing_dashes(s).last() != '-',
    decreases s.len(),
{
    if s.len() > 0 && s.last() == '-' {
        lemma_drop_dashes(s.drop_last());
        let r = drop_trailing_dashes(s.drop_last());
        assert(s.drop_last().subrange(0, r.len() as int) =~= s.subrange(0, r.len() as int));
    } else {
        assert(s.subrange(0, s.len() as int) =~= s);
    }
}

proof fn lemma_scan_no_upper(cs: Seq<char>)
    requires
        crate::text::no_ascii_upper(cs),
    ensures
        crate::text::no_ascii_upper(slug_scan(cs).0),
    decreases cs.len(),
{
    if cs.len() > 0 {
        assert forall|i: int| 0 <= i < cs.drop_last().len() implies !crate::text::is_ascii_upper(
            #[trigger] cs.drop_last()[i],
        ) by {
            assert(cs.drop_last()[i] == cs[i]);
        }
        lemma_scan_no_upper(cs.drop_last());
        let prev = slug_scan(cs.drop_last()).0;
        let out = slug_scan(cs).0;
        assert(!crate::text::is_ascii_upper(cs[cs.len() - 1]));
        assert forall|i: int| 0 <= i < out.len() implies !crate::text::is_ascii_upper(#[trigger] out[i]) by {
            if i < prev.len() {
                assert(out[i] == prev[i]);
            }
        }
    }
}

/// A slug whose lowercased input holds no ASCII capital is in slug form.
proof fn lemma_slug_of_lowered(input: Seq<char>)
    requires
        crate::text::no_ascii_upper(lowercase(trim(input))),
    ensures
        is_slug(slugify_spec(input)),
{
    law_slug_shape(input);
    let scanned = slug_scan(lowercase(trim(input))).0;
    lemma_scan_no_upper(lowercase(trim(input)));
    lemma_drop_dashes(scanned);
    let r = slugify_spec(input);
    assert forall|i: int| 0 <= i < r.len() implies (is_ascii_digit(#[trigger] r[i]) || is_ascii_lower(r[i]) || r[i]
        == '-') by {
        assert(r[i] == scanned[i]);
        assert(slug_char(r[i]));
    }
}

/// A slug is in slug shape: ASCII letters, digits and single inner dashes.
pub proof fn law_slug_shape(input: Seq<char>)
    ensures
        slug_shaped(slugify_spec(input)),
{
    let scanned = slug_scan(lowercase(trim(input))).0;
    lemma_scan_shape(lowercase(trim(input)));
    lemma_drop_dashes(scanned);
    let r = slugify_spec(input);
    assert forall|i: int| 0 <= i < r.len() implies slug_char(#[trigger] r[i]) by {
        assert(r[i] == scanned[i]);
    }
    assert forall|i: int| 0 <= i < r.len() - 1 implies !(#[trigger] r[i] == '-' && r[i + 1] == '-') by {
        assert(r[i] == scanned[i] && r[i + 1] == scanned[i + 1]);
    }
    if r.len() > 0 {
        assert(r[0] == scanned[0]);
    }
}

proof fn lemma_lowercase_of_slug(s: Seq<char>)
    requires
        forall|i: int| 0 <= i < s.len() ==> (is_ascii_digit(#[trigger] s[i]) || is_ascii_lower(s[i]) || s[i] == '-'),
    ensures
        lowercase(s) == s,
    decreases s.len(),
{
    if s.len() > 0 {
        assert forall|i: int| 0 <= i < s.drop_last().len() implies (is_ascii_digit(#[trigger] s.drop_last()[i])
            || is_ascii_lower(s.drop_last()[i]) || s.drop_last()[i] == '-') by {
            assert(s.drop_last()[i] == s[i]);
        }
        lemma_lowercase_of_slug(s.drop_last());
        let c = s.last();
        assert(is_ascii_digit(c) || is_ascii_lower(c) || c == '-');
        assert(crate::text::char_lower(c) =~= seq![c]);
        assert(s =~= s.drop_last() + seq![c]);
    }
}

proof fn lemma_scan_of_slug(s: Seq<char>, k: int)
    requires
        is_slug(s),
        0 <= k <= s.len(),
    ensures
        slug_scan(s.subrange(0, k)) == (s.subrange(0, k), k > 0 && s[k - 1] == '-'),
    decreases k,
{
    if k > 0 {
        lemma_scan_of_slug(s, k - 1);
        assert(s.subrange(0, k).drop_last() =~= s.subrange(0, k - 1));
        assert(s.subrange(0, k - 1).push(s[k - 1]) =~= s.subrange(0, k));
        if s[k - 1] == '-' {
            assert(k - 1 > 0);
            assert(!(s[k - 2] == '-' && s[k - 1] == '-'));
        }
    }
}

/// A slug is its own slug, so slugging is idempotent on slugs.
pub proof fn law_slug_fixed_point(s: Seq<char>)
    requires
        is_slug(s),
    ensures
        slugify_spec(s) == s,
{
    if s.len() > 0 {
        assert(!is_white_space(s[0]));
        assert(!is_white_space(s.last()));
    }
    assert(trim_start(s) == s);
    assert(trim(s) == s);
    lemma_lowercase_of_slug(s);
    lemma_scan_of_slug(s, s.len() as int);
    assert(s.subrange(0, s.len() as int) =~= s);
}

/// A normalized profile name normalizes to itself (for names in lower case, which is
/// what normalizing gives), so a profile saved under its normalized name is found again
/// by normalizing that name.
pub proof fn law_profile_name_fixed_point(input: Seq<char>, name: Seq<char>)
    requires
        profile_name_spec(input) == Ok::<Seq<char>, ProfileNameFault>(name),
        is_slug(name),
    ensures
        profile_name_spec(name) == Ok::<Seq<char>, ProfileNameFault>(name),
{
    law_slug_fixed_point(name);
    assert(!is_white_space(name[0]));
    assert(!is_white_space(name.last()));
    assert(trim_start(name) == name);
    assert(trim(name) == name);
    assert(!has_char(name, '/')) by {
        if has_char(name, '/') {
            let i = choose|i: int| 0 <= i < name.len() && name[i] == '/';
            assert(is_ascii_digit(name[i]) || is_ascii_lower(name[i]) || name[i] == '-');
        }
    }
    assert(!has_char(name, '\\')) by {
        if has_char(name, '\\') {
            let i = choose|i: int| 0 <= i < name.len() && name[i] == '\\';
            assert(is_ascii_digit(name[i]) || is_ascii_lower(name[i]) || name[i] == '-');
        }
    }
    assert(strip_suffix(name, ".plist"@) is None) by {
        reveal_strlit(".plist");
        if crate::text::ends_with(name, ".plist"@) {
            let i = name.len() - 6;
            assert(name.subrange(i, name.len() as int)[0] == '.');
            assert(name[i] == '.');
            assert(is_ascii_digit(name[i]) || is_ascii_lower(name[i]) || name[i] == '-');
        }
    }
}

/// Converts a character sequence into a slug.
pub fn slugify_chars(input: &Vec<char>) -> (r: Vec<char>)
    ensures
        r@ == slugify_spec(input@),
        is_slug(r@),
{
    let trimmed = trim_chars(input);
    let mut out: Vec<char> = Vec::new();
    let mut prev_dash = false;
    let mut i: usize = 0;
    while i < trimmed.len()
        invariant
            i <= trimmed.len(),
            trimmed@ == trim(input@),
            (out@, prev_dash) == slug_scan(lowercase(trimmed@.subrange(0, i as int))),
            crate::text::no_ascii_upper(lowercase(trimmed@.subrange(0, i as int))),
        decreases trimmed.len() - i,
    {
        let lowered = char_to_lowercase(trimmed[i]);
        let ghost before = lowercase(trimmed@.subrange(0, i as int));
        let mut j: usize = 0;
        while j < lowered.len()
            invariant
                j <= lowered.len(),
                (out@, prev_dash) == slug_scan(before + lowered@.subrange(0, j as int)),
            decreases lowered.len() - j,
        {
            let ch = lowered[j];
            proof {
                lemma_slug_scan_push(before + lowered@.subrange(0, j as int), ch);
                assert((before + lowered@.subrange(0, j as int)).push(ch) =~= before
                    + lowered@.subrange(0, j + 1));
            }
            if is_ascii_alnum_char(ch) {
                out.push(ch);
                prev_dash = false;
            } else if !prev_dash && out.len() > 0 {
                out.push('-');
                prev_dash = true;
            }
            j += 1;
        }
        proof {
            assert(lowered@.subrange(0, lowered@.len() as int) =~= lowered@);
            lemma_lowercase_push(trimmed@.subrange(0, i as int), trimmed@[i as int]);
            assert(trimmed@.subrange(0, i as int).push(trimmed@[i as int]) =~= trimmed@.subrange(
                0,
                i + 1,
            ));
            let c = trimmed@[i as int];
            assert(crate::text::char_lower(c) == lowered@);
            let next = lowercase(trimmed@.subrange(0, i + 1));
            assert(next == before + lowered@);
            assert forall|k: int| 0 <= k < next.len() implies !crate::text::is_ascii_upper(#[trigger] next[k]) by {
                if k < before.len() {
                    assert(next[k] == before[k]);
                } else {
                    assert(next[k] == lowered@[k - before.len()]);
                }
            }
        }
        i += 1;
    }
    assert(trimmed@.subrange(0, trimmed@.len() as int) =~= trimmed@);
    proof {
        lemma_slug_of_lowered(input@);
    }
    while out.len() > 0 && out[out.len() - 1] == '-'
        invariant
            drop_trailing_dashes(out@) == slugify_spec(input@),
        decreases out.len(),
    {
        out.pop();
    }
    out
}

/// Converts a friendly name into a slug ("Focus Mode" becomes "focus-mode").
pub fn slugify(input: &str) -> (r: String)
    ensures
        r@ == slugify_spec(input@),
        is_slug(r@),
        slugify_spec(r@) == r@,
{
    let cs = chars_of(input);
    let out = slugify_chars(&cs);
    proof {
        law_slug_fixed_point(out@);
    }
    string_of(out.as_slice())
}

/// A `Result` taken to its mathematical form.
pub open spec fn result_view<T: View, E: View>(r: Result<T, E>) -> Result<T::V, E::V> {
    match r {
        Ok(t) => Ok(t@),
        Err(e) => Err(e@),
    }
}

/// What `normalize_profile_name` gives for `input`.
pub open spec fn profile_name_spec(input: Seq<char>) -> Result<Seq<char>, ProfileNameFault> {
    let t = trim(input);
    if t.len() == 0 {
        Err(ProfileNameFault::Empty)
    } else if has_char(t, '/') || has_char(t, '\\') {
        Err(ProfileNameFault::PathSeparator(t))
    } else {
        let base = match strip_suffix(t, ".plist"@) {
            Some(b) => b,
            None => t,
        };
        let slug = slugify_spec(base);
        if slug.len() == 0 {
            Err(ProfileNameFault::NoUsableCharacters(t))
        } else {
            Ok(slug)
        }
    }
}

/// Normalizes a profile name: trimmed, without a `.plist` suffix, as a slug.
pub fn normalize_profile_name(input: &str) -> (r: Result<String, ProfileNameError>)
    ensures
        result_view(r) == profile_name_spec(input@),
        r matches Ok(name) ==> is_slug(name@) && profile_name_spec(name@) == Ok::<
            Seq<char>,
            ProfileNameFault,
        >(name@),
{
    let all = chars_of(input);
    let t = trim_chars(&all);
    if t.len() == 0 {
        return Err(ProfileNameError::Empty);
    }
    if contains_char(&t, '/') || contains_char(&t, '\\') {
        return Err(ProfileNameError::PathSeparator { name: string_of(t.as_slice()) });
    }
    let suffix = chars_of(".plist");
    let base = match strip_suffix_chars(&t, &suffix) {
        Some(b) => b,
        None => slice_chars(&t, 0, t.len()),
    };
    assert(t@.subrange(0, t@.len() as int) =~= t@);
    let slug = slugify_chars(&base);
    if slug.len() == 0 {
        return Err(ProfileNameError::NoUsableCharacters { name: string_of(t.as_slice()) });
    }
    proof {
        law_profile_name_fixed_point(input@, slug@);
    }
    Ok(string_of(slug.as_slice()))
}

// ---------------------------------------------------------------------------
// Titles
// ---------------------------------------------------------------------------
pub open spec fn is_title_separator(c: char) -> bool {
    is_white_space(c) || c == '-' || c == '_'
}

/// Word scan: finished words and the word being read.
pub open spec fn word_step(acc: (Seq<Seq<char>>, Seq<char>), c: char) -> (
    Seq<Seq<char>>,
    Seq<char>,
) {
    if is_title_separator(c) {
        if acc.1.len() > 0 {
            (acc.0.push(acc.1), Seq::empty())
        } else {
            acc
        }
    } else {
        (acc.0, acc.1.push(c))
    }
}

pub open spec fn word_scan(cs: Seq<char>) -> (Seq<Seq<char>>, Seq<char>)
    decreases cs.len(),
{
    if cs.len() == 0 {
        (Seq::empty(), Seq::empty())
    } else {
        word_step(word_scan(cs.drop_last()), cs.last())
    }
}

/// The non-empty runs of `cs` between separators, in order.
pub open spec fn words(cs: Seq<char>) -> Seq<Seq<char>> {
    let scan = word_scan(cs);
    if scan.1.len() > 0 {
        scan.0.push(scan.1)
    } else {
        scan.0
    }
}

/// A word with its first character mapped to uppercase.
pub open spec fn title_word(w: Seq<char>) -> Seq<char> {
    if w.len() == 0 {
        w
    } else {
        crate::text::char_upper(w[0]) + w.drop_first()
    }
}

/// The words joined with `sep` between them.
pub open spec fn join(ws: Seq<Seq<char>>, sep: Seq<char>) -> Seq<char>
    decreases ws.len(),
{
    if ws.len() == 0 {
        Seq::empty()
    } else if ws.len() == 1 {
        ws[0]
    } else {
        join(ws.drop_last(), sep) + sep + ws.last()
    }
}

/// The display title made from a name: each word capitalised, words joined by spaces;
/// the trimmed input when it has no words.
pub open spec fn title_spec(input: Seq<char>) -> Seq<char> {
    let ws = words(trim(input));
    if ws.len() == 0 {
        trim(input)
    } else {
        join(ws.map_values(|w: Seq<char>| title_word(w)), seq![' '])
    }
}

proof fn lemma_word_scan_push(s: Seq<char>, c: char)
    ensures
        word_scan(s.push(c)) == word_step(word_scan(s), c),
{
    assert(s.push(c).drop_last() =~= s);
}

pub proof fn lemma_join_push(ws: Seq<Seq<char>>, w: Seq<char>, sep: Seq<char>)
    ensures
        join(ws.push(w), sep) == if ws.len() == 0 {
            w
        } else {
            join(ws, sep) + sep + w
        },
{
    assert(ws.push(w).drop_last() =~= ws);
}

fn title_case_word(w: &Vec<char>) -> (r: Vec<char>)
    requires
        w.len() > 0,
    ensures
        r@ == title_word(w@),
{
    let mut r = char_to_uppercase(w[0]);
    let rest = slice_chars(w, 1, w.len());
    append_chars(&mut r, &rest);
    assert(rest@ =~= w@.drop_first());
    r
}

/// Builds a display title from a user-supplied name ("focus-mode" becomes "Focus Mode").
pub fn title_from_input(input: &str) -> (r: String)
    ensures
        r@ == title_spec(input@),
{
    let all = chars_of(input);
    let trimmed = trim_chars(&all);
    let mut done: Vec<Vec<char>> = Vec::new();
    let mut current: Vec<char> = Vec::new();
    let mut i: usize = 0;
    while i < trimmed.len()
        invariant
            i <= trimmed.len(),
            trimmed@ == trim(input@),
            done@.len() == word_scan(trimmed@.subrange(0, i as int)).0.len(),
            forall|k: int|
                0 <= k < done@.len() ==> #[trigger] done@[k]@ == word_scan(
                    trimmed@.subrange(0, i as int),
                ).0[k],
            current@ == word_scan(trimmed@.subrange(0, i as int)).1,
            forall|k: int| 0 <= k < done@.len() ==> (#[trigger] done@[k]@).len() > 0,
        decreases trimmed.len() - i,
    {
        let c = trimmed[i];
        let ghost prefix = trimmed@.subrange(0, i as int);
        proof {
            lemma_word_scan_push(prefix, c);
            assert(prefix.push(c) =~= trimmed@.subrange(0, i + 1));
        }
        if is_whitespace_char(c) || c == '-' || c == '_' {
            if current.len() > 0 {
                let w = current;
                done.push(w);
                current = Vec::new();
            }
        } else {
            current.push(c);
        }
        i += 1;
    }
    assert(trimmed@.subrange(0, trimmed@.len() as int) =~= trimmed@);
    if current.len() > 0 {
        done.push(current);
    }
    let ghost ws = words(trimmed@);
    assert(done@.len() == ws.len());
    assert(forall|k: int| 0 <= k < done@.len() ==> #[trigger] done@[k]@ == ws[k]);
    if done.len() == 0 {
        return string_of(trimmed.as_slice());
    }
    let ghost titled = ws.map_values(|w: Seq<char>| title_word(w));
    let mut out: Vec<char> = Vec::new();
    let mut k: usize = 0;
    while k < done.len()
        invariant
            k <= done@.len() == ws.len(),
            forall|m: int| 0 <= m < done@.len() ==> #[trigger] done@[m]@ == ws[m],
            forall|m: int| 0 <= m < done@.len() ==> (#[trigger] done@[m]@).len() > 0,
            titled == ws.map_values(|w: Seq<char>| title_word(w)),
            out@ == join(titled.subrange(0, k as int), seq![' ']),
        decreases done.len() - k,
    {
        let word = title_case_word(&done[k]);
        proof {
            lemma_join_push(titled.subrange(0, k as int), titled[k as int], seq![' ']);
            assert(titled.subrange(0, k as int).push(titled[k as int]) =~= titled.subrange(
                0,
                k + 1,
            ));
        }
        if k > 0 {
            out.push(' ');
        }
        append_chars(&mut out, &word);
        proof {
            if k > 0 {
                assert(out@ =~= join(titled.subrange(0, k as int), seq![' ']) + seq![' ']
                    + titled[k as int]);
            }
        }
        k += 1;
    }
    assert(titled.subrange(0, titled.len() as int) =~= titled);
    string_of(out.as_slice())
}

} // verus!

verus! {

// ---------------------------------------------------------------------------
// Schedule slots
// ---------------------------------------------------------------------------
/// The fault of `slot` when it follows the slots `prev`, if any.
pub open spec fn slot_fault(prev: Seq<ScheduleSlot>, slot: ScheduleSlot) -> Option<SlotFault> {
    if slot.hour > 23 {
        Some(SlotFault::HourOutOfRange(slot.hour))
    } else if exists|j: int| 0 <= j < prev.len() && (#[trigger] prev[j]).hour == slot.hour {
        Some(SlotFault::DuplicateHour(slot.hour))
    } else {
        match profile_name_spec(slot.profile@) {
            Err(f) => Some(SlotFault::InvalidProfileName(slot.hour, f)),
            Ok(_) => None,
        }
    }
}

/// The first fault met when the slots are read in order.
pub open spec fn slots_scan(s: Seq<ScheduleSlot>) -> Option<SlotFault>
    decreases s.len(),
{
    if s.len() == 0 {
        None
    } else {
        match slots_scan(s.drop_last()) {
            Some(f) => Some(f),
            None => slot_fault(s.drop_last(), s.last()),
        }
    }
}

/// What `validate_slots` reports for `s`: `None` when the slots are accepted.
pub open spec fn slots_check(s: Seq<ScheduleSlot>) -> Option<SlotFault> {
    if s.len() == 0 {
        Some(SlotFault::NoSlots)
    } else {
        slots_scan(s)
    }
}

/// The slots form a valid schedule: at least one slot, hours 0 to 23, no hour twice,
/// every profile name usable.
pub open spec fn slots_valid(s: Seq<ScheduleSlot>) -> bool {
    s.len() > 0 && slots_well_formed(s)
}

/// Hours 0 to 23, no hour twice, every profile name usable.
pub open spec fn slots_well_formed(s: Seq<ScheduleSlot>) -> bool {
    &&& forall|i: int| 0 <= i < s.len() ==> (#[trigger] s[i]).hour <= 23
    &&& forall|i: int, j: int| 0 <= i < j < s.len() ==> (#[trigger] s[i]).hour != (#[trigger] s[j]).hour
    &&& forall|i: int| 0 <= i < s.len() ==> (#[trigger] profile_name_spec(s[i].profile@)) is Ok
}

proof fn lemma_slots_scan_push(s: Seq<ScheduleSlot>, x: ScheduleSlot)
    ensures
        slots_scan(s.push(x)) == match slots_scan(s) {
            Some(f) => Some(f),
            None => slot_fault(s, x),
        },
{
    assert(s.push(x).drop_last() =~= s);
}

/// Checks a schedule: at least one slot, hours 0 to 23, no hour twice, valid
/// profile names; the first problem in slot order is reported.
pub fn validate_slots(slots: &[ScheduleSlot]) -> (r: Result<(), SlotError>)
    ensures
        r is Ok <==> slots_check(slots@) is None,
        r matches Err(e) ==> slots_check(slots@) == Some(e@),
{
    if slots.len() == 0 {
        return Err(SlotError::NoSlots);
    }
    let mut i: usize = 0;
    while i < slots.len()
        invariant
            0 < slots@.len(),
            i <= slots@.len(),
            slots_scan(slots@.subrange(0, i as int)) is None,
        decreases slots.len() - i,
    {
        let ghost prev = slots@.subrange(0, i as int);
        proof {
            lemma_slots_scan_push(prev, slots@[i as int]);
            assert(prev.push(slots@[i as int]) =~= slots@.subrange(0, i + 1));
        }
        let slot = &slots[i];
        if slot.hour > 23 {
            proof {
                assert(slots_scan(slots@.subrange(0, i + 1)) == Some(
                    SlotFault::HourOutOfRange(slot.hour),
                ));
                lemma_scan_fault_persists(slots@, i as int + 1);
            }
            return Err(SlotError::HourOutOfRange { hour: slot.hour });
        }
        let mut j: usize = 0;
        while j < i
            invariant
                j <= i < slots@.len(),
                prev == slots@.subrange(0, i as int),
                *slot == slots@[i as int],
                slot.hour <= 23,
                slots_scan(slots@.subrange(0, i + 1)) == slot_fault(prev, slots@[i as int]),
                forall|k: int| 0 <= k < j ==> (#[trigger] slots@[k]).hour != slots@[i as int].hour,
            decreases i - j,
        {
            if slots[j].hour == slot.hour {
                proof {
                    assert(prev[j as int] == slots@[j as int]);
                    assert(slot_fault(prev, slots@[i as int]) == Some(
                        SlotFault::DuplicateHour(slot.hour),
                    ));
                    lemma_scan_fault_persists(slots@, i as int + 1);
                }
                return Err(SlotError::DuplicateHour { hour: slot.hour });
            }
            j += 1;
        }
        proof {
            assert forall|k: int| 0 <= k < prev.len() implies (#[trigger] prev[k]).hour
                != slots@[i as int].hour by {
                assert(prev[k] == slots@[k]);
            }
        }
        match normalize_profile_name(slot.profile.as_str()) {
            Err(e) => {
                proof {
                    lemma_scan_fault_persists(slots@, i as int + 1);
                }
                return Err(SlotError::InvalidProfileName { hour: slot.hour, cause: e });
            },
            Ok(_) => {},
        }
        i += 1;
    }
    assert(slots@.subrange(0, slots@.len() as int) =~= slots@);
    Ok(())
}

/// Once a prefix of the slots has a fault, the whole list reports that fault.
proof fn lemma_scan_fault_persists(s: Seq<ScheduleSlot>, k: int)
    requires
        0 <= k <= s.len(),
        slots_scan(s.subrange(0, k)) is Some,
    ensures
        slots_scan(s) == slots_scan(s.subrange(0, k)),
    decreases s.len() - k,
{
    if k == s.len() {
        assert(s.subrange(0, k) =~= s);
    } else {
        lemma_slots_scan_push(s.subrange(0, k), s[k]);
        assert(s.subrange(0, k).push(s[k]) =~= s.subrange(0, k + 1));
        lemma_scan_fault_persists(s, k + 1);
    }
}

/// A schedule is accepted by `validate_slots` exactly when it is a valid schedule.
pub proof fn lemma_slots_check_valid(s: Seq<ScheduleSlot>)
    ensures
        slots_check(s) is None <==> slots_valid(s),
{
    if s.len() > 0 {
        lemma_slots_scan_valid(s);
    }
}

proof fn lemma_slots_scan_valid(s: Seq<ScheduleSlot>)
    ensures
        slots_scan(s) is None <==> slots_well_formed(s),
    decreases s.len(),
{
    if s.len() > 0 {
        let p = s.drop_last();
        lemma_slots_scan_valid(p);
        assert forall|i: int| 0 <= i < p.len() implies #[trigger] p[i] == s[i] by {}
        let x = s.last();
        if slots_scan(s) is None {
            assert(slots_scan(p) is None);
            assert(slot_fault(p, x) is None);
            assert forall|i: int, j: int| 0 <= i < j < s.len() implies (#[trigger] s[i]).hour
                != (#[trigger] s[j]).hour by {
                if j == s.len() - 1 {
                    assert(p[i] == s[i]);
                } else {
                    assert(p[i] == s[i] && p[j] == s[j]);
                }
            }
            assert forall|i: int| 0 <= i < s.len() implies (#[trigger] s[i]).hour <= 23 by {
                if i < s.len() - 1 {
                    assert(p[i] == s[i]);
                }
            }
            assert forall|i: int| 0 <= i < s.len() implies (#[trigger] profile_name_spec(
                s[i].profile@,
            )) is Ok by {
                if i < s.len() - 1 {
                    assert(p[i] == s[i]);
                }
            }
        } else {
            if slots_scan(p) is None {
                assert(slot_fault(p, x) is Some);
                let n = s.len() - 1;
                assert(s[n] == x);
                if x.hour > 23 {
                } else if exists|j: int| 0 <= j < p.len() && (#[trigger] p[j]).hour == x.hour {
                    let j = choose|j: int| 0 <= j < p.len() && (#[trigger] p[j]).hour == x.hour;
                    assert(s[j] == p[j]);
                    assert(s[j].hour == s[n].hour);
                } else {
                    assert(profile_name_spec(s[n].profile@) is Err);
                }
            } else {
                if (forall|i: int| 0 <= i < s.len() ==> (#[trigger] s[i]).hour <= 23) && (forall|
                    i: int,
                    j: int,
                |
                    0 <= i < j < s.len() ==> (#[trigger] s[i]).hour != (#[trigger] s[j]).hour) && (
                forall|i: int|
                    0 <= i < s.len() ==> (#[trigger] profile_name_spec(s[i].profile@)) is Ok) {
                    assert forall|i: int| 0 <= i < p.len() implies (#[trigger] p[i]).hour
                        <= 23 by {
                        assert(p[i] == s[i]);
                    }
                    assert forall|i: int, j: int| 0 <= i < j < p.len() implies (
                    #[trigger] p[i]).hour != (#[trigger] p[j]).hour by {
                        assert(p[i] == s[i] && p[j] == s[j]);
                    }
                    assert forall|i: int| 0 <= i < p.len() implies (#[trigger] profile_name_spec(
                        p[i].profile@,
                    )) is Ok by {
                        assert(p[i] == s[i]);
                    }
                }
            }
        }
    }
}

// ---------------------------------------------------------------------------
// Presets and collection metadata
// ---------------------------------------------------------------------------
/// The hours and profile names of a preset.
pub open spec fn preset_spec(p: Preset) -> Seq<(u8, Seq<char>)> {
    match p {
        Preset::Three => seq![(6u8, "morning"@), (10u8, "day"@), (19u8, "night"@)],
        Preset::Four => seq![(6u8, "morning"@), (10u8, "day"@), (17u8, "evening"@), (20u8, "night"@)],
    }
}

/// The slots as hour and profile-name pairs.
pub open spec fn slot_pairs(s: Seq<ScheduleSlot>) -> Seq<(u8, Seq<char>)> {
    s.map_values(|x: ScheduleSlot| (x.hour, x.profile@))
}

fn make_slot(hour: u8, profile: &str) -> (r: ScheduleSlot)
    ensures
        r.hour == hour,
        r.profile@ == profile@,
{
    ScheduleSlot { hour, profile: string_of_str(profile) }
}

impl Preset {
    /// The schedule slots of the preset.
    pub fn slots(self) -> (r: Vec<ScheduleSlot>)
        ensures
            slot_pairs(r@) == preset_spec(self),
    {
        let mut v: Vec<ScheduleSlot> = Vec::new();
        match self {
            Preset::Three => {
                v.push(make_slot(6, "morning"));
                v.push(make_slot(10, "day"));
                v.push(make_slot(19, "night"));
            },
            Preset::Four => {
                v.push(make_slot(6, "morning"));
                v.push(make_slot(10, "day"));
                v.push(make_slot(17, "evening"));
                v.push(make_slot(20, "night"));
            },
        }
        assert(slot_pairs(v@) =~= preset_spec(self));
        v
    }
}

/// What `validate_metadata` reports for a configuration: `None` when it is accepted.
pub open spec fn metadata_check(c: CollectionConfig) -> Option<ConfigFault> {
    if trim(c.name@).len() == 0 {
        Some(ConfigFault::EmptyName)
    } else if slugify_spec(c.name@) != c.name@ {
        Some(ConfigFault::NameNotSlug(c.name@, slugify_spec(c.name@)))
    } else if trim(c.title@).len() == 0 {
        Some(ConfigFault::EmptyTitle(c.name@))
    } else {
        match c.strategy {
            Strategy::Static | Strategy::Dynamic => {
                if (match c.default_profile {
                    Some(p) => p@.len() == 0,
                    None => true,
                }) {
                    Some(ConfigFault::MissingDefaultProfile(c.strategy, c.name@))
                } else if c.slots@.len() > 0 {
                    Some(ConfigFault::UnexpectedSlots(c.strategy, c.name@))
                } else {
                    None
                }
            },
            Strategy::Schedule => {
                if c.slots@.len() > 0 {
                    match slots_check(c.slots@) {
                        Some(f) => Some(ConfigFault::InvalidSlots(c.name@, f)),
                        None => None,
                    }
                } else {
                    None
                }
            },
        }
    }
}

impl CollectionConfig {
    /// A new static collection with the default profile.
    pub fn new_static(name: String, title: String) -> (r: CollectionConfig)
        ensures
            r.name == name,
            r.title == title,
            r.strategy == Strategy::Static,
            r.apply_mode == ApplyMode::Smart,
            r.default_profile matches Some(p) && p@ == DEFAULT_PROFILE@,
            r.slots@.len() == 0,
    {
        CollectionConfig {
            name,
            title,
            strategy: Strategy::Static,
            apply_mode: ApplyMode::Smart,
            default_profile: Some(string_of_str(DEFAULT_PROFILE)),
            slots: Vec::new(),
        }
    }

    /// A new dynamic collection with the default profile.
    pub fn new_dynamic(name: String, title: String) -> (r: CollectionConfig)
        ensures
            r.name == name,
            r.title == title,
            r.strategy == Strategy::Dynamic,
            r.apply_mode == ApplyMode::Smart,
            r.default_profile matches Some(p) && p@ == DEFAULT_PROFILE@,
            r.slots@.len() == 0,
    {
        CollectionConfig {
            name,
            title,
            strategy: Strategy::Dynamic,
            apply_mode: ApplyMode::Smart,
            default_profile: Some(string_of_str(DEFAULT_PROFILE)),
            slots: Vec::new(),
        }
    }

    /// A new scheduled collection, with the preset's slots or none.
    pub fn new_schedule(name: String, title: String, preset: Option<Preset>) -> (r:
        CollectionConfig)
        ensures
            r.name == name,
            r.title == title,
            r.strategy == Strategy::Schedule,
            r.apply_mode == ApplyMode::Smart,
            r.default_profile is None,
            match preset {
                Some(p) => slot_pairs(r.slots@) == preset_spec(p),
                None => r.slots@.len() == 0,
            },
    {
        let slots = match preset {
            Some(p) => p.slots(),
            None => Vec::new(),
        };
        CollectionConfig {
            name,
            title,
            strategy: Strategy::Schedule,
            apply_mode: ApplyMode::Smart,
            default_profile: None,
            slots,
        }
    }

    /// The default profile name, which static and dynamic collections have.
    pub fn default_profile_name(&self) -> (r: Result<&str, ConfigError>)
        ensures
            match self.default_profile {
                Some(p) => r matches Ok(s) && s@ == p@,
                None => r matches Err(e) && e@ == ConfigFault::NoDefaultProfile(self.name@),
            },
    {
        match &self.default_profile {
            Some(p) => Ok(p.as_str()),
            None => Err(ConfigError::NoDefaultProfile { name: self.name.clone() }),
        }
    }

    /// Checks the metadata: the name is a non-empty slug, the title is not blank, static
    /// and dynamic collections have a default profile and no slots, and the slots of a
    /// scheduled collection (when it has any) form a valid schedule.
    pub fn validate_metadata(&self) -> (r: Result<(), ConfigError>)
        ensures
            r is Ok <==> metadata_check(*self) is None,
            r matches Err(e) ==> metadata_check(*self) == Some(e@),
    {
        proof {
            lemma_trim_empty_iff_blank(self.name@);
            lemma_trim_empty_iff_blank(self.title@);
        }
        if is_blank_str(self.name.as_str()) {
            return Err(ConfigError::EmptyName);
        }
        let slug = slugify(self.name.as_str());
        if !str_eq(slug.as_str(), self.name.as_str()) {
            return Err(ConfigError::NameNotSlug { name: self.name.clone(), expected: slug });
        }
        if is_blank_str(self.title.as_str()) {
            return Err(ConfigError::EmptyTitle { name: self.name.clone() });
        }
        match self.strategy {
            Strategy::Static | Strategy::Dynamic => {
                let missing = match &self.default_profile {
                    Some(p) => p.as_str().is_empty(),
                    None => true,
                };
                if missing {
                    return Err(
                        ConfigError::MissingDefaultProfile {
                            strategy: self.strategy,
                            name: self.name.clone(),
                        },
                    );
                }
                if self.slots.len() > 0 {
                    return Err(
                        ConfigError::UnexpectedSlots {
                            strategy: self.strategy,
                            name: self.name.clone(),
                        },
                    );
                }
            },
            Strategy::Schedule => {
                if self.slots.len() > 0 {
                    match validate_slots(self.slots.as_slice()) {
                        Err(e) => {
                            return Err(ConfigError::InvalidSlots { name: self.name.clone(), cause: e });
                        },
                        Ok(()) => {},
                    }
                }
            },
        }
        Ok(())
    }
}

} // verus!
