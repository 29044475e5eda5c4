//! The preview catalog a GUI shows: for each profile of each collection, what it is,
//! whether it can be used, and which images and videos stand for it.
use vstd::prelude::*;

use crate::asset_refs::strings_view;
use crate::config::{string_of_str, ApplyMode, CollectionConfig, ScheduleSlot, Strategy};
use crate::fs_path::{extension, extension_of, path_order, compare_paths, lemma_path_order, lemma_path_order_trans};
use crate::profile::opt_chars;
use crate::json::{get, items_of, json_get, json_trees, str_of, array_of, string_members, string_members_of, string_of_value, text_pairs, JsonTree, JsonValue};
use crate::text::{
    append_str, ascii_lower, ascii_lowercase, ascii_lowercase_chars, chars_of, ends_with, is_ascii_alnum,
    is_ascii_alnum_char, starts_with, str_eq, string_of,
};

verus! {

/// The catalog of all collections.
pub struct Catalog {
    pub collections: Vec<CollectionPreview>,
}

/// One collection of the catalog.
pub struct CollectionPreview {
    pub name: String,
    pub title: String,
    pub strategy: Strategy,
    pub apply_mode: ApplyMode,
    pub slots: Vec<ScheduleSlot>,
    pub profiles: Vec<ProfilePreview>,
}

/// One profile of the catalog.
pub struct ProfilePreview {
    pub name: String,
    pub captured: bool,
    pub valid: bool,
    pub profile_path: Option<String>,
    pub provider: Option<String>,
    pub aerial_asset_id: Option<String>,
    pub display_name: Option<String>,
    pub preview_image_url: Option<String>,
    pub still_image_path: Option<String>,
    pub light_image_path: Option<String>,
    pub dark_image_path: Option<String>,
    pub light_video_path: Option<String>,
    pub dark_video_path: Option<String>,
    pub video_path: Option<String>,
    pub live_capable: bool,
    pub automatic_live_asset: bool,
    pub issues: Vec<String>,
}

/// The profiles a preview lists: the default profile of static and dynamic
/// collections (when set), the profile of each slot of a schedule.
pub open spec fn preview_names_spec(c: CollectionConfig) -> Seq<Seq<char>> {
    match c.strategy {
        Strategy::Schedule => c.slots@.map_values(|s: ScheduleSlot| s.profile@),
        _ => match c.default_profile {
            Some(p) => seq![p@],
            None => Seq::empty(),
        },
    }
}

/// The profiles a preview lists (see [`preview_names_spec`]).
pub fn expected_profile_names(config: &CollectionConfig) -> (r: Vec<String>)
    ensures
        strings_view(r@) == preview_names_spec(*config),
{
    let mut out: Vec<String> = Vec::new();
    match config.strategy {
        Strategy::Schedule => {
            let mut i: usize = 0;
            while i < config.slots.len()
                invariant
                    i <= config.slots@.len(),
                    strings_view(out@) == config.slots@.subrange(0, i as int).map_values(
                        |s: ScheduleSlot| s.profile@,
                    ),
                decreases config.slots.len() - i,
            {
                let ghost before = strings_view(out@);
                let p = config.slots[i].profile.clone();
                out.push(p);
                assert(strings_view(out@) =~= before.push(config.slots@[i as int].profile@));
                assert(strings_view(out@) =~= config.slots@.subrange(0, i + 1).map_values(
                    |s: ScheduleSlot| s.profile@,
                ));
                i += 1;
            }
            assert(config.slots@.subrange(0, config.slots@.len() as int) =~= config.slots@);
        },
        _ => {
            if let Some(p) = &config.default_profile {
                out.push(p.clone());
            }
            assert(strings_view(out@) =~= preview_names_spec(*config));
        },
    }
    out
}

// ---------------------------------------------------------------------------
// Tokens and names of wallpaper extension files
// ---------------------------------------------------------------------------
/// Scan step over text: finished words and the word being read; any character that
/// is not an ASCII letter or digit ends a word.
pub open spec fn token_step(acc: (Seq<Seq<char>>, Seq<char>), c: char) -> (Seq<Seq<char>>, Seq<char>) {
    if is_ascii_alnum(c) {
        (acc.0, acc.1.push(ascii_lower(c)))
    } else if acc.1.len() > 0 {
        (acc.0.push(acc.1), Seq::empty())
    } else {
        acc
    }
}

pub open spec fn token_scan(s: Seq<char>) -> (Seq<Seq<char>>, Seq<char>)
    decreases s.len(),
{
    if s.len() == 0 {
        (Seq::empty(), Seq::empty())
    } else {
        token_step(token_scan(s.drop_last()), s.last())
    }
}

/// The ASCII letter-and-digit words of the text, in lower case.
pub open spec fn tokens_spec(s: Seq<char>) -> Seq<Seq<char>> {
    let t = token_scan(s);
    if t.1.len() > 0 {
        t.0.push(t.1)
    } else {
        t.0
    }
}

/// The words of a name, for matching videos to wallpapers (see [`tokens_spec`]).
pub fn normalized_tokens(value: &str) -> (r: Vec<String>)
    ensures
        strings_view(r@) == tokens_spec(value@),
{
    let cs = chars_of(value);
    let mut done: Vec<String> = Vec::new();
    let mut cur: Vec<char> = Vec::new();
    let mut i: usize = 0;
    while i < cs.len()
        invariant
            i <= cs@.len(),
            (strings_view(done@), cur@) == token_scan(cs@.subrange(0, i as int)),
        decreases cs.len() - i,
    {
        assert(cs@.subrange(0, i + 1).drop_last() =~= cs@.subrange(0, i as int));
        let c = cs[i];
        if is_ascii_alnum_char(c) {
            cur.push(crate::text::ascii_lower_char(c));
        } else if cur.len() > 0 {
            let ghost before = strings_view(done@);
            let w = string_of(cur.as_slice());
            done.push(w);
            assert(strings_view(done@) =~= before.push(cur@));
            cur = Vec::new();
        }
        i += 1;
    }
    assert(cs@.subrange(0, cs@.len() as int) =~= cs@);
    if cur.len() > 0 {
        let ghost before = strings_view(done@);
        let w = string_of(cur.as_slice());
        done.push(w);
        assert(strings_view(done@) =~= before.push(cur@));
    }
    done
}

/// Which appearance a container video is for.
#[derive(Clone, Copy, Debug, PartialEq, Eq, Structural)]
pub enum VideoTheme {
    Light,
    Dark,
}

pub open spec fn is_video_ext(e: Seq<char>) -> bool {
    e == "mov"@ || e == "mp4"@ || e == "m4v"@
}

/// A video of an extension's container stands for a wallpaper when it is a movie, its
/// name holds every word of the wallpaper's identifier and the word `landscape`; it is
/// the light one when its name holds `light`, else the dark one when it holds `dark`.
pub open spec fn container_video_spec(identifier_tokens: Seq<Seq<char>>, file: Seq<char>) -> Option<VideoTheme> {
    let ext = match extension(file) {
        Some(e) => Some(ascii_lowercase(e)),
        None => None,
    };
    let stem = crate::assets::file_stem(match crate::fs_path::file_name(file) {
        Some(n) => n,
        None => Seq::empty(),
    });
    let words = tokens_spec(stem);
    if !(ext matches Some(e) && is_video_ext(e)) {
        None
    } else if !(forall|i: int| 0 <= i < identifier_tokens.len() ==> words.contains(identifier_tokens[i]))
        || !words.contains("landscape"@) {
        None
    } else if words.contains("light"@) {
        Some(VideoTheme::Light)
    } else if words.contains("dark"@) {
        Some(VideoTheme::Dark)
    } else {
        None
    }
}

fn contains_word(words: &Vec<String>, w: &str) -> (r: bool)
    ensures
        r == strings_view(words@).contains(w@),
{
    let mut i: usize = 0;
    while i < words.len()
        invariant
            i <= words@.len(),
            forall|j: int| 0 <= j < i ==> strings_view(words@)[j] != w@,
        decreases words.len() - i,
    {
        if str_eq(words[i].as_str(), w) {
            assert(strings_view(words@)[i as int] == w@);
            return true;
        }
        i += 1;
    }
    false
}

/// Which appearance a file of an extension's video directory is for (see
/// [`container_video_spec`]); the file is a path with a file name.
pub fn container_video_theme(identifier_tokens: &Vec<String>, file: &str) -> (r: Option<VideoTheme>)
    ensures
        r == container_video_spec(strings_view(identifier_tokens@), file@),
{
    let cs = chars_of(file);
    let is_video = match extension_of(&cs) {
        Some(e) => {
            let l = string_of(ascii_lowercase_chars(&e).as_slice());
            str_eq(l.as_str(), "mov") || str_eq(l.as_str(), "mp4") || str_eq(l.as_str(), "m4v")
        },
        None => false,
    };
    if !is_video {
        return None;
    }
    let name = match crate::fs_path::file_name_of(&cs) {
        Some(n) => n,
        None => Vec::new(),
    };
    let stem_text = stem_of(&name);
    let words = normalized_tokens(stem_text.as_str());
    let mut i: usize = 0;
    let ghost idt = strings_view(identifier_tokens@);
    while i < identifier_tokens.len()
        invariant
            i <= identifier_tokens@.len(),
            idt == strings_view(identifier_tokens@),
            forall|j: int| 0 <= j < i ==> strings_view(words@).contains(idt[j]),
            strings_view(words@) == tokens_spec(
                crate::assets::file_stem(
                    match crate::fs_path::file_name(file@) {
                        Some(n) => n,
                        None => Seq::empty(),
                    },
                ),
            ),
            match extension(file@) {
                Some(e) => is_video_ext(ascii_lowercase(e)),
                None => false,
            },
        decreases identifier_tokens.len() - i,
    {
        if !contains_word(&words, identifier_tokens[i].as_str()) {
            proof {
                assert(!strings_view(words@).contains(idt[i as int]));
                assert(!(forall|j: int| 0 <= j < idt.len() ==> strings_view(words@).contains(idt[j])));
            }
            return None;
        }
        i += 1;
    }
    if !contains_word(&words, "landscape") {
        return None;
    }
    if contains_word(&words, "light") {
        Some(VideoTheme::Light)
    } else if contains_word(&words, "dark") {
        Some(VideoTheme::Dark)
    } else {
        None
    }
}

fn stem_of(name: &Vec<char>) -> (r: String)
    ensures
        r@ == crate::assets::file_stem(name@),
{
    let mut i: usize = name.len();
    assert(name@.subrange(0, name@.len() as int) =~= name@);
    while i > 0 && name[i - 1] != '.'
        invariant
            i <= name@.len(),
            crate::fs_path::last_dot(name@) == crate::fs_path::last_dot(name@.subrange(0, i as int)),
        decreases i,
    {
        assert(name@.subrange(0, i as int).drop_last() =~= name@.subrange(0, i - 1));
        i -= 1;
    }
    proof {
        if i > 0 {
            assert(name@.subrange(0, i as int).last() == name@[i - 1]);
        } else {
            assert(crate::fs_path::last_dot(name@.subrange(0, 0)) == -1);
        }
    }
    if i <= 1 {
        string_of(name.as_slice())
    } else {
        string_of(crate::text::slice_chars(name, 0, i - 1).as_slice())
    }
}

// ---------------------------------------------------------------------------
// Videos named by an extension's manifest
// ---------------------------------------------------------------------------
/// `t` occurs in `s`.
pub open spec fn contains_text(s: Seq<char>, t: Seq<char>) -> bool {
    exists|i: int| 0 <= i <= s.len() - t.len() && #[trigger] s.subrange(i, i + t.len()) == t
}

fn contains_str(s: &str, t: &str) -> (r: bool)
    ensures
        r == contains_text(s@, t@),
{
    let sc = chars_of(s);
    let tc = chars_of(t);
    if tc.len() > sc.len() {
        return false;
    }
    let n = sc.len();
    let mut i: usize = 0;
    while i <= sc.len() - tc.len()
        invariant
            n == sc@.len(),
            tc@.len() <= sc@.len(),
            i <= sc@.len() - tc@.len() + 1,
            sc@ == s@,
            tc@ == t@,
            forall|j: int| 0 <= j < i ==> #[trigger] sc@.subrange(j, j + tc@.len()) != tc@,
        decreases sc.len() - tc.len() + 1 - i,
    {
        let mut k: usize = 0;
        let mut same = true;
        while k < tc.len()
            invariant
                n == sc@.len(),
                k <= tc@.len(),
                i <= sc@.len() - tc@.len(),
                i + tc@.len() <= sc@.len(),
                same == forall|j: int| 0 <= j < k ==> sc@[i + j] == tc@[j],
            decreases tc.len() - k,
        {
            assert(i + k < sc@.len());
            if sc[i + k] != tc[k] {
                same = false;
            }
            k += 1;
        }
        if same {
            assert(sc@.subrange(i as int, i + tc@.len()) =~= tc@);
            return true;
        }
        proof {
            let j0 = choose|j: int| 0 <= j < tc@.len() && sc@[i + j] != tc@[j];
            assert(sc@.subrange(i as int, i + tc@.len())[j0] != tc@[j0]);
        }
        i += 1;
    }
    false
}

/// The text after the last `sep` (all of it without one).
pub open spec fn last_segment(s: Seq<char>, sep: char) -> Seq<char>
    decreases s.len(),
{
    if s.len() == 0 {
        s
    } else if s.last() == sep {
        Seq::empty()
    } else {
        last_segment(s.drop_last(), sep).push(s.last())
    }
}

fn last_segment_of(s: &str, sep: char) -> (r: String)
    ensures
        r@ == last_segment(s@, sep),
{
    let cs = chars_of(s);
    let mut i: usize = cs.len();
    while i > 0 && cs[i - 1] != sep
        invariant
            i <= cs@.len(),
            forall|j: int| i <= j < cs@.len() ==> cs@[j] != sep,
        decreases i,
    {
        i -= 1;
    }
    proof {
        lemma_last_segment(cs@, sep, i as int);
    }
    string_of(crate::text::slice_chars(&cs, i, cs.len()).as_slice())
}

proof fn lemma_last_segment(s: Seq<char>, sep: char, i: int)
    requires
        0 <= i <= s.len(),
        i > 0 ==> s[i - 1] == sep,
        forall|j: int| i <= j < s.len() ==> s[j] != sep,
    ensures
        last_segment(s, sep) == s.subrange(i, s.len() as int),
    decreases s.len(),
{
    if s.len() > i {
        assert forall|j: int| i <= j < s.drop_last().len() implies s.drop_last()[j] != sep by {
            assert(s.drop_last()[j] == s[j]);
        }
        if i > 0 {
            assert(s.drop_last()[i - 1] == s[i - 1]);
        }
        lemma_last_segment(s.drop_last(), sep, i);
        assert(s.drop_last().subrange(i, s.len() - 1).push(s.last()) =~= s.subrange(i, s.len() as int));
    } else if i > 0 {
        assert(s.subrange(i, s.len() as int) =~= Seq::<char>::empty());
    } else {
        assert(s.len() == 0);
    }
}

/// The name part of a wallpaper-extension provider: the last dot-separated part of the
/// provider without its `Extension` suffix (`com.apple.NeptuneOneExtension` gives
/// `NeptuneOne`); `None` when the part does not end in `Extension`.
pub open spec fn extension_stem_spec(provider: Seq<char>) -> Option<Seq<char>> {
    crate::text::strip_suffix(last_segment(provider, '.'), "Extension"@)
}

/// The name part of a wallpaper-extension provider (see [`extension_stem_spec`]).
pub fn extension_stem(provider: &str) -> (r: Option<String>)
    ensures
        opt_chars(r) == extension_stem_spec(provider@),
{
    let last = last_segment_of(provider, '.');
    match crate::text::strip_suffix_chars(&chars_of(last.as_str()), &chars_of("Extension")) {
        Some(stem) => Some(string_of(stem.as_slice())),
        None => None,
    }
}

/// The manifest entries that name a landscape video, as (not light, file name) pairs,
/// in the manifest's key order.
pub open spec fn video_entries(entries: Seq<(String, Option<String>)>) -> Seq<(bool, Seq<char>)>
    decreases entries.len(),
{
    if entries.len() == 0 {
        Seq::empty()
    } else {
        let rest = video_entries(entries.drop_last());
        let e = entries.last();
        if ends_with(e.0@, "RemoteURL"@) && contains_text(e.0@, "Landscape"@) && e.1 is Some {
            rest.push((!starts_with(e.0@, "light"@), last_segment(e.1->0@, '/')))
        } else {
            rest
        }
    }
}

pub open spec fn pairs_of(v: Seq<(bool, String)>) -> Seq<(bool, Seq<char>)> {
    v.map_values(|e: (bool, String)| (e.0, e.1@))
}

/// `a` comes before `b`: light entries first, then by file name.
pub open spec fn entry_le(a: (bool, Seq<char>), b: (bool, Seq<char>)) -> bool {
    (!a.0 && b.0) || (a.0 == b.0 && crate::fs_path::order_chars(a.1, b.1) <= 0)
}

/// `sorted` with `x` placed after every entry that comes before it.
pub open spec fn insert_entry(sorted: Seq<(bool, Seq<char>)>, x: (bool, Seq<char>)) -> Seq<(bool, Seq<char>)>
    decreases sorted.len(),
{
    if sorted.len() == 0 {
        seq![x]
    } else if entry_le(sorted.last(), x) {
        sorted.push(x)
    } else {
        insert_entry(sorted.drop_last(), x).push(sorted.last())
    }
}

/// The entries in order (see [`entry_le`]).
pub open spec fn sort_entries(es: Seq<(bool, Seq<char>)>) -> Seq<(bool, Seq<char>)>
    decreases es.len(),
{
    if es.len() == 0 {
        Seq::empty()
    } else {
        insert_entry(sort_entries(es.drop_last()), es.last())
    }
}

/// The file names of the landscape videos an extension's manifest names, light ones
/// first and otherwise by name.
pub open spec fn video_filenames_spec(entries: Seq<(String, Option<String>)>) -> Seq<Seq<char>> {
    sort_entries(video_entries(entries)).map_values(|e: (bool, Seq<char>)| e.1)
}

proof fn lemma_insert_entry(s: Seq<(bool, Seq<char>)>, x: (bool, Seq<char>), pos: int)
    requires
        0 <= pos <= s.len(),
        pos > 0 ==> entry_le(s[pos - 1], x),
        forall|j: int| pos <= j < s.len() ==> !entry_le(#[trigger] s[j], x),
    ensures
        insert_entry(s, x) == s.insert(pos, x),
    decreases s.len(),
{
    s.insert_ensures(pos, x);
    if s.len() == 0 {
        assert(s.insert(pos, x) =~= seq![x]);
    } else if pos == s.len() {
        assert(s.insert(pos, x) =~= s.push(x));
    } else {
        let d = s.drop_last();
        assert forall|j: int| pos <= j < d.len() implies !entry_le(#[trigger] d[j], x) by {
            assert(d[j] == s[j]);
        }
        if pos > 0 {
            assert(d[pos - 1] == s[pos - 1]);
        }
        lemma_insert_entry(d, x, pos);
        d.insert_ensures(pos, x);
        assert(s.insert(pos, x) =~= d.insert(pos, x).push(s.last()));
    }
}

/// The videos an extension's manifest names (see [`video_filenames_spec`]); `None` when it
/// names none. `entries` are the manifest's string-keyed values, their text where they
/// are strings.
pub fn extension_video_filenames(entries: &Vec<(String, Option<String>)>) -> (r: Option<Vec<String>>)
    ensures
        match r {
            Some(v) => v@.len() > 0 && strings_view(v@) == video_filenames_spec(entries@),
            None => video_entries(entries@).len() == 0,
        },
{
    let mut found: Vec<(bool, String)> = Vec::new();
    let mut i: usize = 0;
    while i < entries.len()
        invariant
            i <= entries@.len(),
            pairs_of(found@) == video_entries(entries@.subrange(0, i as int)),
        decreases entries.len() - i,
    {
        assert(entries@.subrange(0, i + 1).drop_last() =~= entries@.subrange(0, i as int));
        let key = entries[i].0.as_str();
        let ghost before = pairs_of(found@);
        match &entries[i].1 {
            Some(v) => {
                let rk = chars_of(key);
                let wanted = crate::text::ends_with_chars(&rk, &chars_of("RemoteURL")) && contains_str(key, "Landscape");
                if wanted {
                    let light = crate::text::starts_with_chars(&rk, &chars_of("light"));
                    let name = last_segment_of(v.as_str(), '/');
                    found.push((!light, name));
                    assert(pairs_of(found@) =~= before.push((!light, name@)));
                }
            },
            None => {},
        }
        i += 1;
    }
    assert(entries@.subrange(0, entries@.len() as int) =~= entries@);
    if found.len() == 0 {
        return None;
    }
    let ghost es = video_entries(entries@);
    let mut sorted: Vec<(bool, String)> = Vec::new();
    let mut k: usize = 0;
    while k < found.len()
        invariant
            k <= found@.len(),
            es == pairs_of(found@),
            pairs_of(sorted@) == sort_entries(es.subrange(0, k as int)),
        decreases found.len() - k,
    {
        let x = (found[k].0, found[k].1.clone());
        let ghost sv = pairs_of(sorted@);
        let ghost xv = (x.0, x.1@);
        let xc = chars_of(x.1.as_str());
        let mut pos: usize = sorted.len();
        while pos > 0 && !entry_le_exec(&sorted[pos - 1], x.0, &xc)
            invariant
                pos <= sorted@.len(),
                sv == pairs_of(sorted@),
                xc@ == xv.1,
                xv == (x.0, x.1@),
                forall|j: int| pos <= j < sorted@.len() ==> !entry_le(#[trigger] sv[j], xv),
            decreases pos,
        {
            pos -= 1;
        }
        proof {
            lemma_insert_entry(sv, xv, pos as int);
            assert(es.subrange(0, k + 1).drop_last() =~= es.subrange(0, k as int));
            assert(es.subrange(0, k + 1).last() == xv);
        }
        sorted.insert(pos, x);
        assert(pairs_of(sorted@) =~= sv.insert(pos as int, xv));
        k += 1;
    }
    assert(es.subrange(0, es.len() as int) =~= es);
    let mut names: Vec<String> = Vec::new();
    let mut j: usize = 0;
    while j < sorted.len()
        invariant
            j <= sorted@.len(),
            strings_view(names@) == pairs_of(sorted@).map_values(|e: (bool, Seq<char>)| e.1).subrange(0, j as int),
        decreases sorted.len() - j,
    {
        let ghost before = strings_view(names@);
        let n = sorted[j].1.clone();
        names.push(n);
        assert(strings_view(names@) =~= before.push(sorted@[j as int].1@));
        j += 1;
    }
    assert(pairs_of(sorted@).map_values(|e: (bool, Seq<char>)| e.1).subrange(0, sorted@.len() as int)
        =~= pairs_of(sorted@).map_values(|e: (bool, Seq<char>)| e.1));
    Some(names)
}

fn entry_le_exec(a: &(bool, String), b_not_light: bool, b_name: &Vec<char>) -> (r: bool)
    ensures
        r == entry_le((a.0, a.1@), (b_not_light, b_name@)),
{
    if !a.0 && b_not_light {
        return true;
    }
    if a.0 != b_not_light {
        return false;
    }
    let c = compare_char_seqs_local(&chars_of(a.1.as_str()), b_name);
    c <= 0
}

fn compare_char_seqs_local(a: &Vec<char>, b: &Vec<char>) -> (r: i8)
    ensures
        r as int == crate::fs_path::order_chars(a@, b@),
{
    crate::fs_path::compare_char_seqs(a, b)
}

// ---------------------------------------------------------------------------
// One profile's preview
// ---------------------------------------------------------------------------
/// An Aerial asset as Apple's manifest describes it.
#[derive(Debug, PartialEq, Eq)]
pub struct ManifestAsset {
    pub accessibility_label: String,
    pub preview_image: Option<String>,
}

/// The pictures and videos a wallpaper extension offers for a wallpaper.
pub struct ExtensionWallpaperAsset {
    pub display_name: String,
    pub thumbnail_path: Option<String>,
    pub light_image_path: Option<String>,
    pub dark_image_path: Option<String>,
    pub light_video_path: Option<String>,
    pub dark_video_path: Option<String>,
}

/// How far a profile's file could be read.
pub enum ProfileLoad {
    /// No profile file.
    NotCaptured,
    /// The file could not be read or is not a usable profile.
    Failed { message: String },
    /// The profile, with its provider, its Aerial asset and the still image it names.
    Loaded { provider: String, aerial_asset_id: Option<String>, still_image: Option<String> },
}

/// What the file system and the manifests say about one profile.
pub struct PreviewFacts {
    pub name: String,
    pub profile_path: String,
    pub assigned_video: Option<String>,
    pub load: ProfileLoad,
    /// The manifest's description of the profile's Aerial asset.
    pub manifest_asset: Option<ManifestAsset>,
    /// What the provider's wallpaper extension offers; consulted only without a
    /// manifest asset.
    pub extension_asset: Option<ExtensionWallpaperAsset>,
    /// The Aerial video found in Apple's cache or the backup.
    pub aerial_video: Option<String>,
    /// Why the profile's files are not in order, if they are not.
    pub assets_issue: Option<String>,
    /// Whether the chosen video is a file.
    pub video_is_file: bool,
}

pub open spec fn or_opt(a: Option<String>, b: Option<String>) -> Option<String> {
    match a {
        Some(x) => Some(x),
        None => b,
    }
}

/// The extension asset that counts: none when the manifest describes the asset.
pub open spec fn extension_used(f: PreviewFacts) -> Option<ExtensionWallpaperAsset> {
    if f.manifest_asset is Some {
        None
    } else {
        f.extension_asset
    }
}

/// The video chosen without an assignment: the Aerial video, else the extension's
/// light one, else its dark one.
pub open spec fn automatic_video(f: PreviewFacts) -> Option<String> {
    or_opt(
        f.aerial_video,
        match extension_used(f) {
            Some(e) => or_opt(e.light_video_path, e.dark_video_path),
            None => None,
        },
    )
}

/// The preview of a profile that was not captured or could not be loaded.
pub open spec fn unusable_preview_ok(f: PreviewFacts, p: ProfilePreview, captured: bool, issue: Seq<char>) -> bool {
    &&& p.name@ == f.name@
    &&& p.captured == captured
    &&& !p.valid
    &&& opt_chars(p.profile_path) == (if captured {
        Some(f.profile_path@)
    } else {
        None
    })
    &&& p.provider is None && p.aerial_asset_id is None && p.display_name is None
    &&& p.preview_image_url is None && p.still_image_path is None
    &&& p.light_image_path is None && p.dark_image_path is None
    &&& p.light_video_path is None && p.dark_video_path is None
    &&& p.live_capable == f.assigned_video is Some
    &&& !p.automatic_live_asset
    &&& opt_chars(p.video_path) == opt_chars(f.assigned_video)
    &&& strings_view(p.issues@) == seq![issue]
}

/// The preview of a profile (see [`profile_preview`]).
pub open spec fn preview_ok(f: PreviewFacts, p: ProfilePreview) -> bool {
    match f.load {
        ProfileLoad::NotCaptured => unusable_preview_ok(
            f,
            p,
            false,
            "profile has not been captured: "@ + f.profile_path@,
        ),
        ProfileLoad::Failed { message } => unusable_preview_ok(f, p, true, message@),
        ProfileLoad::Loaded { provider, aerial_asset_id, still_image } => {
            let ext = extension_used(f);
            let video = or_opt(f.assigned_video, automatic_video(f));
            &&& p.name@ == f.name@
            &&& p.captured
            &&& p.valid == f.assets_issue is None
            &&& opt_chars(p.profile_path) == Some(f.profile_path@)
            &&& opt_chars(p.provider) == Some(provider@)
            &&& opt_chars(p.aerial_asset_id) == opt_chars(aerial_asset_id)
            &&& opt_chars(p.display_name) == match f.manifest_asset {
                Some(m) => Some(m.accessibility_label@),
                None => match ext {
                    Some(e) => Some(e.display_name@),
                    None => None,
                },
            }
            &&& opt_chars(p.preview_image_url) == match f.manifest_asset {
                Some(m) => opt_chars(m.preview_image),
                None => None,
            }
            &&& opt_chars(p.still_image_path) == opt_chars(or_opt(
                still_image,
                match ext {
                    Some(e) => e.thumbnail_path,
                    None => None,
                },
            ))
            &&& opt_chars(p.light_image_path) == match ext {
                Some(e) => opt_chars(e.light_image_path),
                None => None,
            }
            &&& opt_chars(p.dark_image_path) == match ext {
                Some(e) => opt_chars(e.dark_image_path),
                None => None,
            }
            &&& opt_chars(p.light_video_path) == match ext {
                Some(e) => opt_chars(e.light_video_path),
                None => None,
            }
            &&& opt_chars(p.dark_video_path) == match ext {
                Some(e) => opt_chars(e.dark_video_path),
                None => None,
            }
            &&& opt_chars(p.video_path) == opt_chars(video)
            &&& p.automatic_live_asset == (f.assigned_video is None && automatic_video(f) is Some)
            &&& p.live_capable == (video is Some && f.video_is_file)
            &&& strings_view(p.issues@) == (match f.assets_issue {
                Some(m) => seq![m@],
                None => Seq::empty(),
            }) + (if video is Some && !f.video_is_file {
                seq!["assigned live video is missing: "@ + video->0@]
            } else {
                Seq::empty()
            })
        },
    }
}

fn copy_opt(o: &Option<String>) -> (r: Option<String>)
    ensures
        opt_chars(r) == opt_chars(*o),
{
    match o {
        Some(s) => Some(s.clone()),
        None => None,
    }
}

fn unusable(f: &PreviewFacts, captured: bool, issue: String) -> (r: ProfilePreview)
    ensures
        unusable_preview_ok(*f, r, captured, issue@),
{
    let mut issues: Vec<String> = Vec::new();
    let ghost iv = issue@;
    issues.push(issue);
    assert(strings_view(issues@) =~= seq![iv]);
    ProfilePreview {
        name: f.name.clone(),
        captured,
        valid: false,
        profile_path: if captured {
            Some(f.profile_path.clone())
        } else {
            None
        },
        provider: None,
        aerial_asset_id: None,
        display_name: None,
        preview_image_url: None,
        still_image_path: None,
        light_image_path: None,
        dark_image_path: None,
        light_video_path: None,
        dark_video_path: None,
        video_path: copy_opt(&f.assigned_video),
        live_capable: f.assigned_video.is_some(),
        automatic_live_asset: false,
        issues,
    }
}

/// Builds the preview of one profile from what was found out about it: an uncaptured
/// or unreadable profile is listed with its problem; a loaded one with its provider,
/// its Aerial asset, the manifest's or the extension's name and pictures, the assigned
/// video or else the automatic one, and the problems with its files (see
/// [`preview_ok`]).
pub fn profile_preview(f: &PreviewFacts) -> (r: ProfilePreview)
    ensures
        preview_ok(*f, r),
{
    match &f.load {
        ProfileLoad::NotCaptured => {
            let mut text = chars_of("profile has not been captured: ");
            append_str(&mut text, f.profile_path.as_str());
            unusable(f, false, string_of(text.as_slice()))
        },
        ProfileLoad::Failed { message } => unusable(f, true, message.clone()),
        ProfileLoad::Loaded { provider, aerial_asset_id, still_image } => {
            let ext: Option<&ExtensionWallpaperAsset> = if f.manifest_asset.is_some() {
                None
            } else {
                match &f.extension_asset {
                    Some(e) => Some(e),
                    None => None,
                }
            };
            let (light_video, dark_video, light_image, dark_image, thumbnail, ext_name) = match ext {
                Some(e) => (
                    copy_opt(&e.light_video_path),
                    copy_opt(&e.dark_video_path),
                    copy_opt(&e.light_image_path),
                    copy_opt(&e.dark_image_path),
                    copy_opt(&e.thumbnail_path),
                    Some(e.display_name.clone()),
                ),
                None => (None, None, None, None, None, None),
            };
            let automatic = match &f.aerial_video {
                Some(v) => Some(v.clone()),
                None => match &light_video {
                    Some(v) => Some(v.clone()),
                    None => copy_opt(&dark_video),
                },
            };
            let automatic_live_asset = f.assigned_video.is_none() && automatic.is_some();
            let video = match &f.assigned_video {
                Some(v) => Some(v.clone()),
                None => automatic,
            };
            let still = match still_image {
                Some(s) => Some(s.clone()),
                None => thumbnail,
            };
            let mut issues: Vec<String> = Vec::new();
            if let Some(m) = &f.assets_issue {
                issues.push(m.clone());
            }
            let ghost first = strings_view(issues@);
            let live_capable = video.is_some() && f.video_is_file;
            if let Some(v) = &video {
                if !f.video_is_file {
                    let mut text = chars_of("assigned live video is missing: ");
                    append_str(&mut text, v.as_str());
                    issues.push(string_of(text.as_slice()));
                }
            }
            proof {
                assert(strings_view(issues@) =~= first + (if video is Some && !f.video_is_file {
                    seq!["assigned live video is missing: "@ + video->0@]
                } else {
                    Seq::empty()
                }));
                assert(first =~= match f.assets_issue {
                    Some(m) => seq![m@],
                    None => Seq::<Seq<char>>::empty(),
                });
            }
            let (display_name, preview_image_url) = match &f.manifest_asset {
                Some(m) => (Some(m.accessibility_label.clone()), copy_opt(&m.preview_image)),
                None => (ext_name, None),
            };
            ProfilePreview {
                name: f.name.clone(),
                captured: true,
                valid: f.assets_issue.is_none(),
                profile_path: Some(f.profile_path.clone()),
                provider: Some(provider.clone()),
                aerial_asset_id: copy_opt(aerial_asset_id),
                display_name,
                preview_image_url,
                still_image_path: still,
                light_image_path: light_image,
                dark_image_path: dark_image,
                light_video_path: light_video,
                dark_video_path: dark_video,
                video_path: video,
                live_capable,
                automatic_live_asset,
                issues,
            }
        },
    }
}

// ---------------------------------------------------------------------------
// Themed images of a wallpaper extension
// ---------------------------------------------------------------------------
/// An image of an extension's resources for a theme: its lower-case stem contains the
/// theme and its lower-case extension is that of a still image.
pub open spec fn is_themed_image(file: Seq<char>, theme: Seq<char>) -> bool {
    let stem = ascii_lowercase(crate::assets::file_stem(match crate::fs_path::file_name(file) {
        Some(n) => n,
        None => Seq::empty(),
    }));
    let ext = ascii_lowercase(match extension(file) {
        Some(e) => e,
        None => Seq::empty(),
    });
    contains_text(stem, theme) && (ext == "heic"@ || ext == "heif"@ || ext == "png"@ || ext == "jpg"@
        || ext == "jpeg"@)
}

fn themed(file: &str, theme: &str) -> (r: bool)
    ensures
        r == is_themed_image(file@, theme@),
{
    let cs = chars_of(file);
    let name = match crate::fs_path::file_name_of(&cs) {
        Some(n) => n,
        None => Vec::new(),
    };
    let stem = stem_of(&name);
    let lower_stem = string_of(ascii_lowercase_chars(&chars_of(stem.as_str())).as_slice());
    let e = match extension_of(&cs) {
        Some(e) => e,
        None => Vec::new(),
    };
    let lower_ext = string_of(ascii_lowercase_chars(&e).as_slice());
    let l = lower_ext.as_str();
    contains_str(lower_stem.as_str(), theme) && (str_eq(l, "heic") || str_eq(l, "heif") || str_eq(l, "png")
        || str_eq(l, "jpg") || str_eq(l, "jpeg"))
}

/// `files[k]` is the image for the theme: a themed image that no earlier themed image
/// equals or precedes and no later one precedes, as sorting and taking the first gives.
pub open spec fn is_first_themed(files: Seq<Seq<char>>, theme: Seq<char>, k: int) -> bool {
    &&& 0 <= k < files.len()
    &&& is_themed_image(files[k], theme)
    &&& forall|j: int| 0 <= j < k && is_themed_image(files[j], theme) ==> path_order(#[trigger] files[j], files[k]) > 0
    &&& forall|j: int| k < j < files.len() && is_themed_image(files[j], theme) ==> path_order(files[k], #[trigger] files[j]) <= 0
}

/// The image of an extension's resources for a theme (see [`is_first_themed`]).
pub fn themed_image(files: &[String], theme: &str) -> (r: Option<String>)
    ensures
        match r {
            Some(f) => exists|k: int| is_first_themed(strings_view(files@), theme@, k) && strings_view(files@)[k] == f@,
            None => forall|j: int| 0 <= j < files@.len() ==> !is_themed_image(#[trigger] strings_view(files@)[j], theme@),
        },
{
    let ghost fv = strings_view(files@);
    let mut best: Option<usize> = None;
    let mut i: usize = 0;
    while i < files.len()
        invariant
            i <= files@.len(),
            fv == strings_view(files@),
            match best {
                Some(b) => b < i && is_themed_image(fv[b as int], theme@) && (forall|j: int|
                    0 <= j < b && is_themed_image(fv[j], theme@) ==> path_order(#[trigger] fv[j], fv[b as int]) > 0)
                    && (forall|j: int| b < j < i && is_themed_image(fv[j], theme@) ==> path_order(fv[b as int], #[trigger] fv[j]) <= 0),
                None => forall|j: int| 0 <= j < i ==> !is_themed_image(#[trigger] fv[j], theme@),
            },
        decreases files.len() - i,
    {
        assert(fv[i as int] == files@[i as int]@);
        if themed(files[i].as_str(), theme) {
            match best {
                None => {
                    best = Some(i);
                },
                Some(b) => {
                    let c = compare_paths(files[i].as_str(), files[b].as_str());
                    assert(fv[b as int] == files@[b as int]@);
                    proof {
                        lemma_path_order(fv[i as int], fv[b as int]);
                    }
                    if c < 0 {
                        proof {
                            assert forall|j: int| 0 <= j < i && is_themed_image(fv[j], theme@) implies path_order(#[trigger] fv[j], fv[i as int]) > 0 by {
                                lemma_path_order(fv[i as int], fv[j]);
                                if j < b {
                                    lemma_path_order(fv[j], fv[b as int]);
                                    lemma_path_order_trans(fv[i as int], fv[b as int], fv[j]);
                                } else if j > b {
                                    lemma_path_order(fv[b as int], fv[j]);
                                    if path_order(fv[b as int], fv[j]) < 0 {
                                        lemma_path_order_trans(fv[i as int], fv[b as int], fv[j]);
                                    } else {
                                        assert(crate::fs_path::components(fv[b as int]) == crate::fs_path::components(fv[j]));
                                    }
                                }
                            }
                        }
                        best = Some(i);
                    }
                },
            }
        }
        i += 1;
    }
    match best {
        Some(b) => {
            assert(is_first_themed(fv, theme@, b as int));
            assert(fv[b as int] == files@[b as int]@);
            Some(files[b].clone())
        },
        None => None,
    }
}

// ---------------------------------------------------------------------------
// Manifests read from JSON
// ---------------------------------------------------------------------------
/// The landscape-video entries of name and optional text pairs (see [`video_entries`]).
pub open spec fn video_entries_of(pairs: Seq<(Seq<char>, Option<Seq<char>>)>) -> Seq<(bool, Seq<char>)>
    decreases pairs.len(),
{
    if pairs.len() == 0 {
        Seq::empty()
    } else {
        let rest = video_entries_of(pairs.drop_last());
        let e = pairs.last();
        if ends_with(e.0, "RemoteURL"@) && contains_text(e.0, "Landscape"@) && e.1 is Some {
            rest.push((!starts_with(e.0, "light"@), last_segment(e.1->0, '/')))
        } else {
            rest
        }
    }
}

/// The video file names of name and optional text pairs (see [`video_filenames_spec`]).
pub open spec fn video_filenames_of(pairs: Seq<(Seq<char>, Option<Seq<char>>)>) -> Seq<Seq<char>> {
    sort_entries(video_entries_of(pairs)).map_values(|e: (bool, Seq<char>)| e.1)
}

proof fn lemma_video_entries_texts(entries: Seq<(String, Option<String>)>)
    ensures
        video_entries(entries) == video_entries_of(text_pairs(entries)),
    decreases entries.len(),
{
    if entries.len() > 0 {
        lemma_video_entries_texts(entries.drop_last());
        assert(text_pairs(entries.drop_last()) =~= text_pairs(entries).drop_last());
    } else {
        assert(text_pairs(entries) =~= Seq::<(Seq<char>, Option<Seq<char>>)>::empty());
    }
}

/// The display name of a wallpaper extension: the `identifier` string of its manifest,
/// else the name part of its provider.
pub open spec fn extension_display_name(manifest: Option<JsonTree>, stem: Seq<char>) -> Seq<char> {
    match manifest {
        Some(t) => match str_of(json_get(t, "identifier"@)) {
            Some(n) => n,
            None => stem,
        },
        None => stem,
    }
}

/// What an extension's manifest gives: its display name (see
/// [`extension_display_name`]) and the file names of the landscape videos it names (see
/// [`video_filenames_of`]), `None` when the manifest is no object or names none.
pub fn extension_manifest_choice(manifest: Option<&JsonValue>, stem: &str) -> (r: (String, Option<Vec<String>>))
    ensures
        r.0@ == extension_display_name(
            match manifest {
                Some(v) => Some(v.tree()),
                None => None,
            },
            stem@,
        ),
        match r.1 {
            Some(v) => string_members(
                match manifest {
                    Some(x) => Some(x.tree()),
                    None => None,
                },
            ) matches Some(ps) && v@.len() > 0 && strings_view(v@) == video_filenames_of(ps),
            None => match string_members(
                match manifest {
                    Some(x) => Some(x.tree()),
                    None => None,
                },
            ) {
                Some(ps) => video_entries_of(ps).len() == 0,
                None => true,
            },
        },
{
    let name = match manifest {
        Some(v) => match string_of_value(get(v, "identifier")) {
            Some(n) => n,
            None => string_of_str(stem),
        },
        None => string_of_str(stem),
    };
    let names = match string_members_of(manifest) {
        Some(entries) => {
            proof {
                lemma_video_entries_texts(entries@);
            }
            extension_video_filenames(&entries)
        },
        None => None,
    };
    (name, names)
}

/// The light video of an extension: the one in its container, else the one its manifest
/// names.
pub fn extension_light_video(container: Option<String>, manifest_video: Option<String>) -> (r: Option<String>)
    ensures
        opt_chars(r) == match opt_chars(container) {
            Some(c) => Some(c),
            None => opt_chars(manifest_video),
        },
{
    match container {
        Some(c) => Some(c),
        None => manifest_video,
    }
}

/// Index of the last asset whose `id` string is `id`, or -1.
pub open spec fn last_asset(ts: Seq<JsonTree>, id: Seq<char>) -> int
    decreases ts.len(),
{
    if ts.len() == 0 {
        -1
    } else if str_of(json_get(ts.last(), "id"@)) == Some(id) {
        ts.len() - 1
    } else {
        last_asset(ts.drop_last(), id)
    }
}

/// What Apple's Aerial manifest says of an asset: of the `assets` entries with that id,
/// the last (a later entry replaces an earlier one), its `accessibilityLabel` (else the
/// id) and its `previewImage`.
pub open spec fn manifest_asset_spec(t: JsonTree, id: Seq<char>) -> Option<(Seq<char>, Option<Seq<char>>)> {
    match array_of(json_get(t, "assets"@)) {
        Some(ts) => {
            let j = last_asset(ts, id);
            if 0 <= j < ts.len() {
                Some(
                    (
                        match str_of(json_get(ts[j], "accessibilityLabel"@)) {
                            Some(l) => l,
                            None => id,
                        },
                        str_of(json_get(ts[j], "previewImage"@)),
                    ),
                )
            } else {
                None
            }
        },
        None => None,
    }
}

/// What Apple's Aerial manifest says of an asset (see [`manifest_asset_spec`]).
pub fn manifest_asset_for(manifest: &JsonValue, id: &str) -> (r: Option<ManifestAsset>)
    ensures
        match r {
            Some(a) => manifest_asset_spec(manifest.tree(), id@) == Some(
                (a.accessibility_label@, opt_chars(a.preview_image)),
            ),
            None => manifest_asset_spec(manifest.tree(), id@) is None,
        },
{
    let items = match items_of(get(manifest, "assets")) {
        Some(items) => items,
        None => {
            return None;
        },
    };
    let ghost ts = json_trees(items@);
    let mut best: Option<usize> = None;
    let mut i: usize = 0;
    while i < items.len()
        invariant
            i <= items@.len(),
            ts == json_trees(items@),
            match best {
                Some(b) => b < i && last_asset(ts.subrange(0, i as int), id@) == b as int,
                None => last_asset(ts.subrange(0, i as int), id@) == -1,
            },
        decreases items.len() - i,
    {
        let ghost pre = ts.subrange(0, i as int);
        let ghost now = ts.subrange(0, i + 1);
        assert(now.drop_last() =~= pre);
        assert(now.last() == items@[i as int].tree());
        let this = string_of_value(get(&items[i], "id"));
        if let Some(t) = &this {
            if str_eq(t.as_str(), id) {
                best = Some(i);
            }
        }
        i += 1;
    }
    assert(ts.subrange(0, ts.len() as int) =~= ts);
    match best {
        Some(b) => {
            let label = match string_of_value(get(&items[b], "accessibilityLabel")) {
                Some(l) => l,
                None => string_of_str(id),
            };
            let preview_image = string_of_value(get(&items[b], "previewImage"));
            Some(ManifestAsset { accessibility_label: label, preview_image })
        },
        None => None,
    }
}

// ---------------------------------------------------------------------------
// The catalog
// ---------------------------------------------------------------------------
/// The previews of a collection's profiles, one for each set of facts.
pub fn profile_previews(facts: &Vec<PreviewFacts>) -> (r: Vec<ProfilePreview>)
    ensures
        r@.len() == facts@.len(),
        forall|j: int| 0 <= j < facts@.len() ==> preview_ok(#[trigger] facts@[j], r@[j]),
{
    let mut out: Vec<ProfilePreview> = Vec::new();
    let mut j: usize = 0;
    while j < facts.len()
        invariant
            j <= facts@.len(),
            out@.len() == j,
            forall|k: int| 0 <= k < j ==> preview_ok(#[trigger] facts@[k], out@[k]),
        decreases facts.len() - j,
    {
        let p = profile_preview(&facts[j]);
        out.push(p);
        j += 1;
    }
    out
}

/// The last of `files` whose theme (see [`container_video_spec`]) is `theme`.
pub open spec fn last_themed(tokens: Seq<Seq<char>>, files: Seq<Seq<char>>, theme: VideoTheme) -> Option<Seq<char>>
    decreases files.len(),
{
    if files.len() == 0 {
        None
    } else if container_video_spec(tokens, files.last()) == Some(theme) {
        Some(files.last())
    } else {
        last_themed(tokens, files.drop_last(), theme)
    }
}

/// The light and the dark landscape video among the files of an extension's container
/// (see [`container_video_spec`]): of each, the last one listed.
pub fn container_videos(identifier_tokens: &Vec<String>, files: &Vec<String>) -> (r: (Option<String>, Option<String>))
    ensures
        opt_chars(r.0) == last_themed(strings_view(identifier_tokens@), strings_view(files@), VideoTheme::Light),
        opt_chars(r.1) == last_themed(strings_view(identifier_tokens@), strings_view(files@), VideoTheme::Dark),
{
    let ghost tokens = strings_view(identifier_tokens@);
    let mut light: Option<String> = None;
    let mut dark: Option<String> = None;
    let mut i: usize = 0;
    while i < files.len()
        invariant
            i <= files@.len(),
            tokens == strings_view(identifier_tokens@),
            opt_chars(light) == last_themed(tokens, strings_view(files@).subrange(0, i as int), VideoTheme::Light),
            opt_chars(dark) == last_themed(tokens, strings_view(files@).subrange(0, i as int), VideoTheme::Dark),
        decreases files.len() - i,
    {
        let theme = container_video_theme(identifier_tokens, files[i].as_str());
        proof {
            let pre = strings_view(files@).subrange(0, i + 1);
            assert(pre.drop_last() =~= strings_view(files@).subrange(0, i as int));
            assert(pre.last() == files@[i as int]@);
        }
        match theme {
            Some(VideoTheme::Light) => {
                light = Some(files[i].clone());
            },
            Some(VideoTheme::Dark) => {
                dark = Some(files[i].clone());
            },
            None => {},
        }
        i += 1;
    }
    assert(strings_view(files@).subrange(0, files@.len() as int) =~= strings_view(files@));
    (light, dark)
}

/// Whether `row` describes, in order, the profiles that the preview of `cfg` lists.
pub open spec fn facts_fit_collection(cfg: CollectionConfig, row: Seq<PreviewFacts>) -> bool {
    let names = preview_names_spec(cfg);
    &&& row.len() == names.len()
    &&& forall|j: int| 0 <= j < names.len() ==> (#[trigger] row[j]).name@ == names[j]
}

/// Whether `facts[i]` describes the profiles of `collections[i]`, for each `i`.
pub open spec fn facts_fit(collections: Seq<CollectionConfig>, facts: Seq<Vec<PreviewFacts>>) -> bool {
    &&& facts.len() == collections.len()
    &&& forall|i: int| 0 <= i < collections.len() ==> facts_fit_collection(#[trigger] collections[i], facts[i]@)
}

/// Whether `facts` describes the profiles of `collections` (see [`facts_fit`]).
pub fn catalog_facts_fit(collections: &Vec<CollectionConfig>, facts: &Vec<Vec<PreviewFacts>>) -> (r: bool)
    ensures
        r == facts_fit(collections@, facts@),
{
    if facts.len() != collections.len() {
        return false;
    }
    let mut i: usize = 0;
    while i < collections.len()
        invariant
            i <= collections@.len(),
            facts@.len() == collections@.len(),
            forall|k: int| 0 <= k < i ==> facts_fit_collection(#[trigger] collections@[k], facts@[k]@),
        decreases collections.len() - i,
    {
        let names = expected_profile_names(&collections[i]);
        let row = &facts[i];
        if row.len() != names.len() {
            assert(!facts_fit_collection(collections@[i as int], facts@[i as int]@));
            assert(!facts_fit(collections@, facts@));
            return false;
        }
        let mut j: usize = 0;
        while j < names.len()
            invariant
                j <= names@.len(),
                i < collections@.len(),
                facts@.len() == collections@.len(),
                row@.len() == names@.len(),
                strings_view(names@) == preview_names_spec(collections@[i as int]),
                row == facts@[i as int],
                forall|m: int| 0 <= m < j ==> (#[trigger] row@[m]).name@ == names@[m]@,
            decreases names.len() - j,
        {
            if !str_eq(row[j].name.as_str(), names[j].as_str()) {
                assert(strings_view(names@)[j as int] == names@[j as int]@);
                assert(row@[j as int].name@ != preview_names_spec(collections@[i as int])[j as int]);
                assert(!facts_fit_collection(collections@[i as int], facts@[i as int]@));
                assert(!facts_fit(collections@, facts@));
                return false;
            }
            j += 1;
        }
        assert forall|m: int| 0 <= m < preview_names_spec(collections@[i as int]).len() implies (#[trigger] row@[m]).name@
            == preview_names_spec(collections@[i as int])[m] by {
            assert(strings_view(names@)[m] == names@[m]@);
        }
        i += 1;
    }
    true
}

/// The catalog: each collection with its settings and the previews of its profiles,
/// in the order given; `facts[i]` describes the profiles that the preview of
/// `collections[i]` lists, in order.
pub fn load_catalog(collections: Vec<CollectionConfig>, facts: &Vec<Vec<PreviewFacts>>) -> (r: Catalog)
    requires
        facts_fit(collections@, facts@),
    ensures
        r.collections@.len() == collections@.len(),
        forall|i: int| 0 <= i < collections@.len() ==> {
            let c = #[trigger] r.collections@[i];
            let cfg = collections@[i];
            &&& c.name == cfg.name && c.title == cfg.title && c.strategy == cfg.strategy
            &&& c.apply_mode == cfg.apply_mode && c.slots == cfg.slots
            &&& c.profiles@.len() == preview_names_spec(cfg).len()
            &&& forall|j: int| 0 <= j < c.profiles@.len() ==> (#[trigger] c.profiles@[j]).name@ == preview_names_spec(cfg)[j]
            &&& forall|j: int| 0 <= j < facts@[i]@.len() ==> preview_ok(#[trigger] facts@[i]@[j], c.profiles@[j])
        },
{
    let ghost input = collections@;
    let mut rest = collections;
    let mut out: Vec<CollectionPreview> = Vec::new();
    let mut i: usize = 0;
    let total = rest.len();
    while rest.len() > 0
        invariant
            total == input.len(),
            i + rest@.len() == input.len(),
            facts_fit(input, facts@),
            rest@ == input.subrange(i as int, input.len() as int),
            out@.len() == i,
            forall|k: int| 0 <= k < i ==> {
                let c = #[trigger] out@[k];
                let cfg = input[k];
                &&& c.name == cfg.name && c.title == cfg.title && c.strategy == cfg.strategy
                &&& c.apply_mode == cfg.apply_mode && c.slots == cfg.slots
                &&& c.profiles@.len() == preview_names_spec(cfg).len()
                &&& forall|j: int| 0 <= j < c.profiles@.len() ==> (#[trigger] c.profiles@[j]).name@ == preview_names_spec(cfg)[j]
                &&& forall|j: int| 0 <= j < facts@[k]@.len() ==> preview_ok(#[trigger] facts@[k]@[j], c.profiles@[j])
            },
        decreases rest.len(),
    {
        let cfg = rest.remove(0);
        assert(cfg == input[i as int]);
        assert(rest@ =~= input.subrange(i + 1, input.len() as int));
        assert(facts_fit_collection(input[i as int], facts@[i as int]@));
        let profiles = profile_previews(&facts[i]);
        assert forall|j: int| 0 <= j < profiles@.len() implies (#[trigger] profiles@[j]).name@
            == preview_names_spec(cfg)[j] by {
            assert(preview_ok(facts@[i as int]@[j], profiles@[j]));
            assert(facts@[i as int]@[j].name@ == preview_names_spec(cfg)[j]);
        }
        out.push(CollectionPreview {
            name: cfg.name,
            title: cfg.title,
            strategy: cfg.strategy,
            apply_mode: cfg.apply_mode,
            slots: cfg.slots,
            profiles,
        });
        i += 1;
    }
    Catalog { collections: out }
}

} // verus!
