//! Live (video) wallpaper settings: which video belongs to which profile of which
//! collection, and the preferences of the live wallpaper player.
use vstd::prelude::*;

use crate::config::{
    normalize_profile_name, profile_name_spec, slugify, slugify_spec, ProfileNameError,
    ProfileNameFault,
};
use crate::fs_path::{compare_paths, extension, extension_of, join, join_spec, path_eq, path_starts_with, starts_with_path};
use crate::paths::{assets_dir_spec, WallctlPaths};
use crate::profile::opt_chars;
use crate::sorted_map::{
    find_key, has_key, key_map, lemma_insert_entry, lemma_key_map_at, lemma_remove_entry,
    lemma_set_value, sorted_keys,
};

verus! {

/// The live settings of one profile.
pub struct LiveProfile {
    pub video_path: Option<String>,
}

impl View for LiveProfile {
    type V = Option<Seq<char>>;

    open spec fn view(&self) -> Option<Seq<char>> {
        opt_chars(self.video_path)
    }
}

/// The live settings of the profiles of one collection, sorted by profile name.
pub struct LiveCollection {
    pub profiles: Vec<(String, LiveProfile)>,
}

impl View for LiveCollection {
    type V = Map<Seq<char>, Option<Seq<char>>>;

    open spec fn view(&self) -> Map<Seq<char>, Option<Seq<char>>> {
        key_map(self.profiles@)
    }
}

/// The live wallpaper settings.
pub struct LiveConfig {
    pub enabled: bool,
    pub follow_active_collection: bool,
    pub pinned_collection: Option<String>,
    pub pause_on_battery: bool,
    /// Collections sorted by name.
    pub collections: Vec<(String, LiveCollection)>,
}

/// Changes to the preferences; `None` leaves a preference as it is.
pub struct LivePreferencesUpdate {
    pub enabled: Option<bool>,
    pub follow_active_collection: Option<bool>,
    pub pinned_collection: Option<Option<String>>,
    pub pause_on_battery: Option<bool>,
}

/// Video assignments: collection name to profile name to video.
pub type Assignments = Map<Seq<char>, Map<Seq<char>, Option<Seq<char>>>>;

impl LiveConfig {
    /// Collections and their profiles are sorted by name, so no name occurs twice.
    pub open spec fn well_formed(&self) -> bool {
        &&& sorted_keys(self.collections@)
        &&& forall|i: int|
            0 <= i < self.collections@.len() ==> sorted_keys(
                (#[trigger] self.collections@[i]).1.profiles@,
            )
    }

    /// The video assignments.
    pub open spec fn assignments(&self) -> Assignments {
        key_map(self.collections@)
    }

    /// Whether collections and their profiles are sorted by name (see
    /// [`LiveConfig::well_formed`]).
    pub fn is_well_formed(&self) -> (r: bool)
        ensures
            r == self.well_formed(),
    {
        if !crate::sorted_map::keys_sorted(&self.collections) {
            return false;
        }
        let mut i: usize = 0;
        while i < self.collections.len()
            invariant
                i <= self.collections@.len(),
                forall|j: int| 0 <= j < i ==> sorted_keys((#[trigger] self.collections@[j]).1.profiles@),
            decreases self.collections.len() - i,
        {
            if !crate::sorted_map::keys_sorted(&self.collections[i].1.profiles) {
                return false;
            }
            i += 1;
        }
        true
    }

    /// The preferences other than the assignments.
    pub open spec fn preferences(&self) -> (bool, bool, Option<Seq<char>>, bool) {
        (self.enabled, self.follow_active_collection, opt_chars(self.pinned_collection), self.pause_on_battery)
    }
}

impl Default for LiveConfig {
    /// Disabled, following the active collection, pausing on battery, nothing pinned or
    /// assigned.
    fn default() -> (r: LiveConfig)
        ensures
            r.well_formed(),
            r.preferences() == (false, true, None::<Seq<char>>, true),
            r.assignments() == Map::<Seq<char>, Map<Seq<char>, Option<Seq<char>>>>::empty(),
    {
        let r = LiveConfig {
            enabled: default_enabled(),
            follow_active_collection: default_follow_active_collection(),
            pinned_collection: None,
            pause_on_battery: default_pause_on_battery(),
            collections: Vec::new(),
        };
        assert(r.assignments() =~= Map::empty());
        r
    }
}

/// Live wallpapers are off until enabled.
pub fn default_enabled() -> (r: bool)
    ensures
        r == false,
{
    false
}

/// The player follows the active collection unless told otherwise.
pub fn default_follow_active_collection() -> (r: bool)
    ensures
        r == true,
{
    true
}

/// The player pauses on battery unless told otherwise.
pub fn default_pause_on_battery() -> (r: bool)
    ensures
        r == true,
{
    true
}

/// Why a live setting was refused.
#[derive(Debug)]
pub enum LiveError {
    NoUsableCharacters { value: String },
    NotNormalizedSlug { value: String, expected: String },
    ProfileName(ProfileNameError),
}

/// Mathematical form of [`LiveError`].
pub enum LiveFault {
    NoUsableCharacters(Seq<char>),
    NotNormalizedSlug(Seq<char>, Seq<char>),
    ProfileName(ProfileNameFault),
}

impl View for LiveError {
    type V = LiveFault;

    open spec fn view(&self) -> LiveFault {
        match self {
            LiveError::NoUsableCharacters { value } => LiveFault::NoUsableCharacters(value@),
            LiveError::NotNormalizedSlug { value, expected } => LiveFault::NotNormalizedSlug(
                value@,
                expected@,
            ),
            LiveError::ProfileName(e) => LiveFault::ProfileName(e@),
        }
    }
}

/// A collection name is accepted when it is already a slug, and is then kept.
pub open spec fn collection_name_spec(value: Seq<char>) -> Result<Seq<char>, LiveFault> {
    let slug = slugify_spec(value);
    if slug.len() == 0 {
        Err(LiveFault::NoUsableCharacters(value))
    } else if slug != value {
        Err(LiveFault::NotNormalizedSlug(value, slug))
    } else {
        Ok(slug)
    }
}

/// Checks that a collection name is a normalized slug (see [`collection_name_spec`]).
pub fn normalized_collection(value: &str) -> (r: Result<String, LiveError>)
    ensures
        match r {
            Ok(s) => collection_name_spec(value@) == Ok::<Seq<char>, LiveFault>(s@),
            Err(e) => collection_name_spec(value@) == Err::<Seq<char>, LiveFault>(e@),
        },
{
    let normalized = slugify(value);
    if normalized.as_str().is_empty() {
        return Err(LiveError::NoUsableCharacters { value: crate::config::string_of_str(value) });
    }
    if !crate::text::str_eq(normalized.as_str(), value) {
        return Err(
            LiveError::NotNormalizedSlug {
                value: crate::config::string_of_str(value),
                expected: normalized,
            },
        );
    }
    Ok(normalized)
}

/// Both names of an assignment, normalized, the collection's first.
pub open spec fn assignment_names(collection: Seq<char>, profile: Seq<char>) -> Result<
    (Seq<char>, Seq<char>),
    LiveFault,
> {
    match collection_name_spec(collection) {
        Err(e) => Err(e),
        Ok(c) => match profile_name_spec(profile) {
            Err(e) => Err(LiveFault::ProfileName(e)),
            Ok(p) => Ok((c, p)),
        },
    }
}

fn normalized_names(collection: &str, profile: &str) -> (r: Result<(String, String), LiveError>)
    ensures
        match r {
            Ok((c, p)) => assignment_names(collection@, profile@) == Ok::<
                (Seq<char>, Seq<char>),
                LiveFault,
            >((c@, p@)),
            Err(e) => assignment_names(collection@, profile@) == Err::<
                (Seq<char>, Seq<char>),
                LiveFault,
            >(e@),
        },
{
    let c = normalized_collection(collection)?;
    let p = match normalize_profile_name(profile) {
        Ok(p) => p,
        Err(e) => {
            return Err(LiveError::ProfileName(e));
        },
    };
    Ok((c, p))
}

/// The profiles of a collection, empty when it has none.
pub open spec fn profiles_of(m: Assignments, c: Seq<char>) -> Map<Seq<char>, Option<Seq<char>>> {
    if m.contains_key(c) {
        m[c]
    } else {
        Map::empty()
    }
}

/// The video assigned to a profile, if any.
pub open spec fn assigned_video(m: Assignments, c: Seq<char>, p: Seq<char>) -> Option<Seq<char>> {
    if profiles_of(m, c).contains_key(p) {
        profiles_of(m, c)[p]
    } else {
        None
    }
}

/// The assignments with `video` assigned to profile `p` of collection `c`.
pub open spec fn with_assignment(m: Assignments, c: Seq<char>, p: Seq<char>, video: Seq<char>) -> Assignments {
    m.insert(c, profiles_of(m, c).insert(p, Some(video)))
}

/// The assignments without profile `p` of collection `c`; a collection left without
/// profiles is dropped.
pub open spec fn without_assignment(m: Assignments, c: Seq<char>, p: Seq<char>) -> Assignments {
    if m.contains_key(c) {
        if m[c].remove(p).dom() =~= Set::empty() {
            m.remove(c)
        } else {
            m.insert(c, m[c].remove(p))
        }
    } else {
        m
    }
}

fn put_profile(profiles: &mut Vec<(String, LiveProfile)>, p: String, video: String) -> (r: Option<String>)
    requires
        sorted_keys(old(profiles)@),
    ensures
        sorted_keys(final(profiles)@),
        key_map(final(profiles)@) == key_map(old(profiles)@).insert(p@, Some(video@)),
        opt_chars(r) == (if key_map(old(profiles)@).contains_key(p@) {
            key_map(old(profiles)@)[p@]
        } else {
            None
        }),
{
    let ghost before = profiles@;
    match find_key(profiles, p.as_str()) {
        Ok(i) => {
            let (name, old_entry) = profiles.remove(i);
            proof {
                lemma_key_map_at(before, i as int);
            }
            let previous = old_entry.video_path;
            let entry = LiveProfile { video_path: Some(video) };
            profiles.insert(i, (name, entry));
            proof {
                assert(profiles@ =~= before.update(i as int, (before[i as int].0, entry)));
                lemma_set_value(before, i as int, entry);
            }
            previous
        },
        Err(i) => {
            let entry = LiveProfile { video_path: Some(video) };
            profiles.insert(i, (p, entry));
            proof {
                lemma_insert_entry(before, i as int, p, entry);
            }
            None
        },
    }
}

fn take_profile(profiles: &mut Vec<(String, LiveProfile)>, p: &str) -> (r: Option<String>)
    requires
        sorted_keys(old(profiles)@),
    ensures
        sorted_keys(final(profiles)@),
        key_map(final(profiles)@) == key_map(old(profiles)@).remove(p@),
        opt_chars(r) == (if key_map(old(profiles)@).contains_key(p@) {
            key_map(old(profiles)@)[p@]
        } else {
            None
        }),
{
    let ghost before = profiles@;
    match find_key(profiles, p) {
        Ok(i) => {
            proof {
                lemma_key_map_at(before, i as int);
                lemma_remove_entry(before, i as int);
            }
            let (_name, entry) = profiles.remove(i);
            entry.video_path
        },
        Err(_) => {
            assert(key_map(before).remove(p@) =~= key_map(before));
            None
        },
    }
}

proof fn lemma_empty_map<T: View>(es: Seq<(String, T)>)
    ensures
        (key_map(es).dom() =~= Set::empty()) == (es.len() == 0),
{
    if es.len() > 0 {
        assert(has_key(es, es[0].0@));
        assert(key_map(es).dom().contains(es[0].0@));
    }
}

/// Assigns `video` to a profile of a collection, both named by normalized names
/// (the collection's must already be a slug), and returns the settings with the video
/// that was assigned before.
pub fn record_assignment(config: LiveConfig, collection: &str, profile: &str, video: &str) -> (r: Result<
    (LiveConfig, Option<String>),
    LiveError,
>)
    requires
        config.well_formed(),
    ensures
        match assignment_names(collection@, profile@) {
            Ok((c, p)) => match r {
                Ok((n, previous)) => n.well_formed() && n.preferences() == config.preferences()
                    && n.assignments() == with_assignment(config.assignments(), c, p, video@)
                    && opt_chars(previous) == assigned_video(config.assignments(), c, p),
                Err(_) => false,
            },
            Err(f) => match r {
                Ok(_) => false,
                Err(e) => e@ == f,
            },
        },
{
    let (c, p) = normalized_names(collection, profile)?;
    let mut cfg = config;
    let ghost before = cfg.collections@;
    let ghost m = cfg.assignments();
    let v = crate::config::string_of_str(video);
    match find_key(&cfg.collections, c.as_str()) {
        Ok(i) => {
            let (name, mut coll) = cfg.collections.remove(i);
            proof {
                assert(before[i as int] == (name, coll));
                lemma_key_map_at(before, i as int);
            }
            let previous = put_profile(&mut coll.profiles, p, v);
            cfg.collections.insert(i, (name, coll));
            proof {
                assert(cfg.collections@ =~= before.update(i as int, (before[i as int].0, coll)));
                lemma_set_value(before, i as int, coll);
                assert forall|j: int| 0 <= j < cfg.collections@.len() implies sorted_keys(
                    (#[trigger] cfg.collections@[j]).1.profiles@,
                ) by {
                    if j != i {
                        assert(cfg.collections@[j] == before[j]);
                    }
                }
                assert(coll@ == profiles_of(m, c@).insert(p@, Some(video@)));
            }
            Ok((cfg, previous))
        },
        Err(i) => {
            let mut coll = LiveCollection { profiles: Vec::new() };
            proof {
                assert(key_map(coll.profiles@) =~= Map::<Seq<char>, Option<Seq<char>>>::empty());
            }
            let _ = put_profile(&mut coll.profiles, p, v);
            proof {
                assert(coll@ == profiles_of(m, c@).insert(p@, Some(video@)));
            }
            cfg.collections.insert(i, (c, coll));
            proof {
                lemma_insert_entry(before, i as int, c, coll);
                assert forall|j: int| 0 <= j < cfg.collections@.len() implies sorted_keys(
                    (#[trigger] cfg.collections@[j]).1.profiles@,
                ) by {
                    before.insert_ensures(i as int, (c, coll));
                    if j < i {
                        assert(cfg.collections@[j] == before[j]);
                    } else if j > i {
                        assert(cfg.collections@[j] == before[j - 1]);
                    }
                }
            }
            Ok((cfg, None))
        },
    }
}

/// Removes the video of a profile of a collection (names as for [`record_assignment`]),
/// dropping a collection left without profiles, and returns the settings with the video
/// that was removed.
pub fn erase_assignment(config: LiveConfig, collection: &str, profile: &str) -> (r: Result<
    (LiveConfig, Option<String>),
    LiveError,
>)
    requires
        config.well_formed(),
    ensures
        match assignment_names(collection@, profile@) {
            Ok((c, p)) => match r {
                Ok((n, removed)) => n.well_formed() && n.preferences() == config.preferences()
                    && n.assignments() == without_assignment(config.assignments(), c, p)
                    && opt_chars(removed) == assigned_video(config.assignments(), c, p),
                Err(_) => false,
            },
            Err(f) => match r {
                Ok(_) => false,
                Err(e) => e@ == f,
            },
        },
{
    let (c, p) = normalized_names(collection, profile)?;
    let mut cfg = config;
    let ghost before = cfg.collections@;
    let ghost m = cfg.assignments();
    match find_key(&cfg.collections, c.as_str()) {
        Ok(i) => {
            let (name, mut coll) = cfg.collections.remove(i);
            proof {
                assert(before[i as int] == (name, coll));
                lemma_key_map_at(before, i as int);
            }
            let removed = take_profile(&mut coll.profiles, p.as_str());
            proof {
                lemma_empty_map(coll.profiles@);
            }
            if coll.profiles.len() == 0 {
                proof {
                    before.remove_ensures(i as int);
                    assert(cfg.collections@ =~= before.remove(i as int));
                    lemma_remove_entry(before, i as int);
                    assert forall|j: int| 0 <= j < cfg.collections@.len() implies sorted_keys(
                        (#[trigger] cfg.collections@[j]).1.profiles@,
                    ) by {
                        if j < i {
                            assert(cfg.collections@[j] == before[j]);
                        } else {
                            assert(cfg.collections@[j] == before[j + 1]);
                        }
                    }
                }
                Ok((cfg, removed))
            } else {
                cfg.collections.insert(i, (name, coll));
                proof {
                    assert(cfg.collections@ =~= before.update(i as int, (before[i as int].0, coll)));
                    lemma_set_value(before, i as int, coll);
                    assert forall|j: int| 0 <= j < cfg.collections@.len() implies sorted_keys(
                        (#[trigger] cfg.collections@[j]).1.profiles@,
                    ) by {
                        if j != i {
                            assert(cfg.collections@[j] == before[j]);
                        }
                    }
                }
                Ok((cfg, removed))
            }
        },
        Err(_) => {
            Ok((cfg, None))
        },
    }
}

/// What [`update_preferences`] gives: each preference that the update names is set,
/// a pinned collection only when its name is a normalized slug.
pub open spec fn preferences_after(
    prefs: (bool, bool, Option<Seq<char>>, bool),
    update: LivePreferencesUpdate,
) -> Result<(bool, bool, Option<Seq<char>>, bool), LiveFault> {
    let enabled = match update.enabled {
        Some(b) => b,
        None => prefs.0,
    };
    let follow = match update.follow_active_collection {
        Some(b) => b,
        None => prefs.1,
    };
    let pause = match update.pause_on_battery {
        Some(b) => b,
        None => prefs.3,
    };
    match update.pinned_collection {
        Some(Some(name)) => match collection_name_spec(name@) {
            Ok(slug) => Ok((enabled, follow, Some(slug), pause)),
            Err(e) => Err(e),
        },
        Some(None) => Ok((enabled, follow, None, pause)),
        None => Ok((enabled, follow, prefs.2, pause)),
    }
}

/// Applies a preferences update (see [`preferences_after`]); the assignments stay.
pub fn update_preferences(config: LiveConfig, update: LivePreferencesUpdate) -> (r: Result<
    LiveConfig,
    LiveError,
>)
    requires
        config.well_formed(),
    ensures
        match preferences_after(config.preferences(), update) {
            Ok(prefs) => match r {
                Ok(n) => n.well_formed() && n.preferences() == prefs && n.assignments()
                    == config.assignments(),
                Err(_) => false,
            },
            Err(f) => match r {
                Ok(_) => false,
                Err(e) => e@ == f,
            },
        },
{
    let mut cfg = config;
    if let Some(enabled) = update.enabled {
        cfg.enabled = enabled;
    }
    if let Some(follow) = update.follow_active_collection {
        cfg.follow_active_collection = follow;
    }
    match update.pinned_collection {
        Some(Some(name)) => {
            let slug = normalized_collection(name.as_str())?;
            cfg.pinned_collection = Some(slug);
        },
        Some(None) => {
            cfg.pinned_collection = None;
        },
        None => {},
    }
    if let Some(pause) = update.pause_on_battery {
        cfg.pause_on_battery = pause;
    }
    Ok(cfg)
}

/// After a video is assigned to a profile, that profile's video is the one assigned.
pub proof fn law_assignment_is_read_back(m: Assignments, c: Seq<char>, p: Seq<char>, video: Seq<char>)
    ensures
        assigned_video(with_assignment(m, c, p, video), c, p) == Some(video),
{
}

/// Clearing an assignment that was just made gives back the assignments as they were,
/// when the profile had no video before and its collection, if listed, had profiles.
pub proof fn law_clear_undoes_assignment(m: Assignments, c: Seq<char>, p: Seq<char>, video: Seq<char>)
    requires
        !profiles_of(m, c).contains_key(p),
        m.contains_key(c) ==> !(m[c].dom() =~= Set::empty()),
    ensures
        without_assignment(with_assignment(m, c, p, video), c, p) == m,
{
    let n = with_assignment(m, c, p, video);
    let inner = profiles_of(m, c).insert(p, Some(video));
    assert(inner.remove(p) =~= profiles_of(m, c));
    if m.contains_key(c) {
        assert(n.insert(c, inner.remove(p)) =~= m);
    } else {
        assert(profiles_of(m, c).dom() =~= Set::empty());
        assert(n.remove(c) =~= m);
    }
}

// ---------------------------------------------------------------------------
// Managed videos
// ---------------------------------------------------------------------------
/// The directory that keeps a collection's imported videos.
pub open spec fn live_dir_spec(paths: WallctlPaths, collection: Seq<char>) -> Seq<char> {
    join_spec(assets_dir_spec(paths, collection), "live"@)
}

/// What to do with a video that is assigned to a profile.
pub enum VideoImport {
    /// Store the path as given.
    Keep(String),
    /// Copy the file to `temporary`, then move it to `destination`, and store that.
    Copy { destination: String, temporary: String },
}

/// The extension an imported video keeps: its own, or `mov`.
pub open spec fn video_extension(source: Seq<char>) -> Seq<char> {
    match extension(source) {
        Some(e) => e,
        None => "mov"@,
    }
}

/// How an assigned video is imported: a file outside the collection's live directory
/// is copied to `<profile>.<extension>` there (through a hidden temporary file); a path
/// that is no file, or is already there, is kept.
pub open spec fn import_spec(
    paths: WallctlPaths,
    collection: Seq<char>,
    profile: Seq<char>,
    source: Seq<char>,
    source_is_file: bool,
) -> (Seq<char>, Option<Seq<char>>) {
    let dir = live_dir_spec(paths, collection);
    if !source_is_file || path_starts_with(source, dir) {
        (source, None)
    } else {
        let ext = video_extension(source);
        (
            join_spec(dir, profile + "."@ + ext),
            Some(join_spec(dir, "."@ + profile + "."@ + ext + ".tmp"@)),
        )
    }
}

/// Decides how an assigned video is imported (see [`import_spec`]).
pub fn import_video_if_available(
    paths: &WallctlPaths,
    collection: &str,
    profile: &str,
    source: &str,
    source_is_file: bool,
) -> (r: VideoImport)
    ensures
        match r {
            VideoImport::Keep(p) => import_spec(*paths, collection@, profile@, source@, source_is_file)
                == (p@, None::<Seq<char>>),
            VideoImport::Copy { destination, temporary } => import_spec(
                *paths,
                collection@,
                profile@,
                source@,
                source_is_file,
            ) == (destination@, Some(temporary@)),
        },
{
    let dir = join(paths.assets_dir(collection).as_str(), "live");
    if !source_is_file || starts_with_path(source, dir.as_str()) {
        return VideoImport::Keep(crate::config::string_of_str(source));
    }
    let ext = match extension_of(&crate::text::chars_of(source)) {
        Some(e) => e,
        None => crate::text::chars_of("mov"),
    };
    let mut name = crate::text::chars_of(profile);
    crate::text::append_str(&mut name, ".");
    crate::text::append_chars(&mut name, &ext);
    let mut hidden = crate::text::chars_of(".");
    crate::text::append_chars(&mut hidden, &name);
    crate::text::append_str(&mut hidden, ".tmp");
    proof {
        assert(name@ == profile@ + "."@ + video_extension(source@));
        assert(hidden@ =~= "."@ + profile@ + "."@ + video_extension(source@) + ".tmp"@);
    }
    let destination = join(dir.as_str(), crate::text::string_of(name.as_slice()).as_str());
    let temporary = join(dir.as_str(), crate::text::string_of(hidden.as_slice()).as_str());
    VideoImport::Copy { destination, temporary }
}

/// Whether a video lies in the collection's live directory, where wallctl manages it.
pub fn is_managed_video(paths: &WallctlPaths, collection: &str, video: &str) -> (r: bool)
    ensures
        r == path_starts_with(video@, live_dir_spec(*paths, collection@)),
{
    let dir = join(paths.assets_dir(collection).as_str(), "live");
    starts_with_path(video, dir.as_str())
}

/// The previous video that an assignment replaced, unless it is the same path.
pub fn replaced_video(previous: Option<String>, replacement: &str) -> (r: Option<String>)
    ensures
        opt_chars(r) == match opt_chars(previous) {
            Some(p) => if path_eq(p, replacement@) {
                None
            } else {
                Some(p)
            },
            None => None,
        },
{
    match previous {
        Some(p) => {
            if compare_paths(p.as_str(), replacement) == 0 {
                None
            } else {
                Some(p)
            }
        },
        None => None,
    }
}

/// The import as a pair: the path it stores, and the temporary file of a copy.
pub open spec fn import_view(import: VideoImport) -> (Seq<char>, Option<Seq<char>>) {
    match import {
        VideoImport::Keep(p) => (p@, None),
        VideoImport::Copy { destination, temporary } => (destination@, Some(temporary@)),
    }
}

/// The video that a removal or a replacement leaves to delete: one in the collection's
/// live directory, unless it is the very path stored in its place.
pub open spec fn stale_video_spec(
    paths: WallctlPaths,
    collection: Seq<char>,
    previous: Option<Seq<char>>,
    replacement: Option<Seq<char>>,
) -> Option<Seq<char>> {
    match previous {
        Some(v) => if path_starts_with(v, live_dir_spec(paths, collection)) && !(match replacement {
            Some(r) => path_eq(v, r),
            None => false,
        }) {
            Some(v)
        } else {
            None
        },
        None => None,
    }
}

/// What assigning a video to a profile comes to.
pub struct Assignment {
    /// The settings to store.
    pub config: LiveConfig,
    /// How the video gets into the collection's live directory.
    pub import: VideoImport,
    /// The managed video that the assignment replaced, to delete once the settings
    /// are stored.
    pub stale_video: Option<String>,
}

fn managed_only(paths: &WallctlPaths, collection: &str, video: Option<String>) -> (r: Option<String>)
    ensures
        opt_chars(r) == match opt_chars(video) {
            Some(v) => if path_starts_with(v, live_dir_spec(*paths, collection@)) {
                Some(v)
            } else {
                None
            },
            None => None,
        },
{
    match video {
        Some(v) => if is_managed_video(paths, collection, v.as_str()) {
            Some(v)
        } else {
            None
        },
        None => None,
    }
}

/// Assigns the video at `source` to a profile of a collection (names as for
/// [`record_assignment`]): an existing file outside the collection's live directory is
/// imported there and stored under its new path (see [`import_spec`]), any other path
/// is stored as given; the managed video it replaces is left to delete.
pub fn set_assignment(
    paths: &WallctlPaths,
    config: LiveConfig,
    collection: &str,
    profile: &str,
    source: &str,
    source_is_file: bool,
) -> (r: Result<Assignment, LiveError>)
    requires
        config.well_formed(),
    ensures
        match assignment_names(collection@, profile@) {
            Ok((c, p)) => match r {
                Ok(a) => {
                    let import = import_spec(*paths, c, p, source@, source_is_file);
                    &&& import_view(a.import) == import
                    &&& a.config.well_formed()
                    &&& a.config.preferences() == config.preferences()
                    &&& a.config.assignments() == with_assignment(config.assignments(), c, p, import.0)
                    &&& opt_chars(a.stale_video) == stale_video_spec(
                        *paths,
                        c,
                        assigned_video(config.assignments(), c, p),
                        Some(import.0),
                    )
                },
                Err(_) => false,
            },
            Err(f) => match r {
                Ok(_) => false,
                Err(e) => e@ == f,
            },
        },
{
    let (c, p) = normalized_names(collection, profile)?;
    let import = import_video_if_available(paths, c.as_str(), p.as_str(), source, source_is_file);
    let stored = match &import {
        VideoImport::Keep(path) => path.clone(),
        VideoImport::Copy { destination, .. } => destination.clone(),
    };
    let (cfg, previous) = record_assignment(config, collection, profile, stored.as_str())?;
    let stale = managed_only(paths, c.as_str(), replaced_video(previous, stored.as_str()));
    Ok(Assignment { config: cfg, import, stale_video: stale })
}

/// Removes the video of a profile of a collection (see [`erase_assignment`]) and
/// returns the settings with the removed video when it is a managed one, to delete.
pub fn clear_assignment(paths: &WallctlPaths, config: LiveConfig, collection: &str, profile: &str) -> (r: Result<
    (LiveConfig, Option<String>),
    LiveError,
>)
    requires
        config.well_formed(),
    ensures
        match assignment_names(collection@, profile@) {
            Ok((c, p)) => match r {
                Ok((n, stale)) => n.well_formed() && n.preferences() == config.preferences()
                    && n.assignments() == without_assignment(config.assignments(), c, p)
                    && opt_chars(stale) == stale_video_spec(
                        *paths,
                        c,
                        assigned_video(config.assignments(), c, p),
                        None,
                    ),
                Err(_) => false,
            },
            Err(f) => match r {
                Ok(_) => false,
                Err(e) => e@ == f,
            },
        },
{
    let (c, _p) = normalized_names(collection, profile)?;
    let (cfg, removed) = erase_assignment(config, collection, profile)?;
    Ok((cfg, managed_only(paths, c.as_str(), removed)))
}

/// An existing video outside the collection's live directory is imported into that
/// directory: the path stored for it lies there, so the video is a managed one, and
/// clearing the assignment leaves the imported copy to delete.
pub proof fn law_imported_video_is_managed(
    paths: WallctlPaths,
    collection: Seq<char>,
    profile: Seq<char>,
    source: Seq<char>,
)
    ensures
        match assignment_names(collection, profile) {
            Ok((c, p)) => !path_starts_with(source, live_dir_spec(paths, c)) ==> {
                let stored = import_spec(paths, c, p, source, true).0;
                &&& path_starts_with(stored, live_dir_spec(paths, c))
                &&& stale_video_spec(paths, c, Some(stored), None) == Some(stored)
            },
            Err(_) => true,
        },
{
    if let Ok((c, p)) = assignment_names(collection, profile) {
        let dir = live_dir_spec(paths, c);
        let base = match crate::text::strip_suffix(crate::text::trim(profile), ".plist"@) {
            Some(b) => b,
            None => crate::text::trim(profile),
        };
        crate::config::law_slug_shape(base);
        assert(p == slugify_spec(base));
        reveal_strlit("live");
        reveal_strlit(".");
        reveal_strlit("mov");
        assert(dir.len() > 0);
        let ext = video_extension(source);
        crate::fs_path::lemma_extension_slash_free(source);
        assert(crate::fs_path::slash_free(ext));
        let name = p + "."@ + ext;
        assert(crate::fs_path::slash_free(name)) by {
            assert forall|i: int| 0 <= i < name.len() implies name[i] != '/' by {
                if i < p.len() {
                    assert(crate::config::slug_char(p[i]));
                } else if i > p.len() {
                    assert(name[i] == ext[i - p.len() - 1]);
                }
            }
        }
        crate::fs_path::lemma_join_starts_with(dir, name);
    }
}

/// The video assigned to a profile of a collection (see [`assigned_video`]).
pub fn video_for(config: &LiveConfig, collection: &str, profile: &str) -> (r: Option<String>)
    requires
        config.well_formed(),
    ensures
        opt_chars(r) == assigned_video(config.assignments(), collection@, profile@),
{
    match find_key(&config.collections, collection) {
        Ok(i) => {
            proof {
                lemma_key_map_at(config.collections@, i as int);
            }
            let profiles = &config.collections[i].1.profiles;
            match find_key(profiles, profile) {
                Ok(j) => {
                    proof {
                        lemma_key_map_at(profiles@, j as int);
                    }
                    match &profiles[j].1.video_path {
                        Some(v) => Some(v.clone()),
                        None => None,
                    }
                },
                Err(_) => None,
            }
        },
        Err(_) => None,
    }
}

} // verus!
