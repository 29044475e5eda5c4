//! Files a profile needs: which must exist before it is applied, how a missing Aerial
//! video is restored, where referenced images are copied, and which cached Aerial
//! video stands in for macOS's default wallpaper.
use vstd::prelude::*;

use crate::asset_refs::strings_view;
use crate::config::string_of_str;
use crate::fs_path::{extension, extension_of, file_name, join, join_spec, last_dot, path_starts_with, starts_with_path};
use crate::interactive::{decimal, decimal_text};
use crate::json::{array_of, get, i64_of, i64_of_value, items_of, json_get, json_trees, str_of, string_of_value, JsonTree, JsonValue};
use crate::paths::{assets_dir_spec, WallctlPaths};
use crate::profile::{opt_chars, ProfileInfo, AERIAL_PROVIDER};
use crate::text::{append_chars, append_str, chars_of, slice_chars, str_eq, string_of};

verus! {

/// What capturing copied: each referenced file with its managed copy, and the backed
/// up Aerial video.
pub struct CaptureAssetReport {
    pub copied_files: Vec<(String, String)>,
    pub backed_up_aerial_asset: Option<String>,
}

/// What checking a profile's files restored.
pub struct AssetValidation {
    pub restored_aerial_asset: Option<String>,
}

/// What the file system says about the files a profile needs.
pub struct AssetFacts {
    /// For each file reference of the profile, whether it is a file.
    pub references_present: Vec<bool>,
    /// Whether the Aerial video is in Apple's cache.
    pub cache_present: bool,
    /// Whether the Aerial video is in the collection's backup.
    pub backup_present: bool,
}

/// Why a profile's files are not in order.
#[derive(Debug)]
pub enum AssetError {
    /// A referenced file is missing.
    MissingFile { path: String },
    /// An Aerial profile does not name its asset.
    MissingAerialAssetId,
    /// The Aerial video is neither in Apple's cache nor in the backup.
    MissingAerialVideo { asset_id: String, backup: String },
    /// A copied asset path has no file name.
    NoFileName { path: String },
    /// The Aerial video to back up is not in Apple's cache.
    MissingCachedVideo { asset_id: String, path: String },
}

/// Mathematical form of [`AssetError`].
pub enum AssetFault {
    MissingFile(Seq<char>),
    MissingAerialAssetId,
    MissingAerialVideo(Seq<char>, Seq<char>),
    NoFileName(Seq<char>),
    MissingCachedVideo(Seq<char>, Seq<char>),
}

impl View for AssetError {
    type V = AssetFault;

    open spec fn view(&self) -> AssetFault {
        match self {
            AssetError::MissingFile { path } => AssetFault::MissingFile(path@),
            AssetError::MissingAerialAssetId => AssetFault::MissingAerialAssetId,
            AssetError::MissingAerialVideo { asset_id, backup } => AssetFault::MissingAerialVideo(
                asset_id@,
                backup@,
            ),
            AssetError::NoFileName { path } => AssetFault::NoFileName(path@),
            AssetError::MissingCachedVideo { asset_id, path } => AssetFault::MissingCachedVideo(
                asset_id@,
                path@,
            ),
        }
    }
}

/// The file of an Aerial video in a directory: `<asset id>.mov`.
pub open spec fn video_file(dir: Seq<char>, asset_id: Seq<char>) -> Seq<char> {
    join_spec(dir, asset_id + ".mov"@)
}

/// The file of an Aerial video in a directory (see [`video_file`]).
pub fn aerial_video_path(dir: &str, asset_id: &str) -> (r: String)
    ensures
        r@ == video_file(dir@, asset_id@),
{
    let mut name = chars_of(asset_id);
    append_str(&mut name, ".mov");
    join(dir, string_of(name.as_slice()).as_str())
}

/// The backup of an Aerial video in a collection.
pub open spec fn backup_file(paths: WallctlPaths, collection: Seq<char>, asset_id: Seq<char>) -> Seq<char> {
    video_file(join_spec(assets_dir_spec(paths, collection), "aerials"@), asset_id)
}

/// Index of the first `false`, or -1.
pub open spec fn first_missing(present: Seq<bool>) -> int
    decreases present.len(),
{
    if present.len() == 0 {
        -1
    } else if !present[0] {
        0
    } else if first_missing(present.drop_first()) < 0 {
        -1
    } else {
        1 + first_missing(present.drop_first())
    }
}

/// The first problem with a profile's files: a missing referenced file (the first in
/// order), then, for an Aerial profile, a missing asset name or a video found neither in
/// Apple's cache nor in the backup.
pub open spec fn assets_check(paths: WallctlPaths, collection: Seq<char>, info: ProfileInfo, facts: AssetFacts) -> Option<AssetFault> {
    let m = first_missing(facts.references_present@);
    if m >= 0 {
        Some(AssetFault::MissingFile(info.file_references@[m]@))
    } else if info.provider@ == AERIAL_PROVIDER@ {
        match info.aerial_asset_id {
            None => Some(AssetFault::MissingAerialAssetId),
            Some(id) => if !facts.cache_present && !facts.backup_present {
                Some(AssetFault::MissingAerialVideo(id@, backup_file(paths, collection, id@)))
            } else {
                None
            },
        }
    } else {
        None
    }
}

proof fn lemma_first_missing(present: Seq<bool>, i: int)
    requires
        0 <= i <= present.len(),
        forall|j: int| 0 <= j < i ==> present[j],
    ensures
        i < present.len() && !present[i] ==> first_missing(present) == i,
        i == present.len() ==> first_missing(present) == -1,
    decreases i,
{
    if i > 0 && present.len() > 0 {
        assert forall|j: int| 0 <= j < i - 1 implies present.drop_first()[j] by {
            assert(present.drop_first()[j] == present[j + 1]);
        }
        lemma_first_missing(present.drop_first(), i - 1);
        if i < present.len() && !present[i] {
            assert(present.drop_first()[i - 1] == present[i]);
        }
    }
}

/// Checks that the files a profile needs exist (see [`assets_check`]).
pub fn validate_required_assets(
    paths: &WallctlPaths,
    collection: &str,
    info: &ProfileInfo,
    facts: &AssetFacts,
) -> (r: Result<(), AssetError>)
    requires
        facts.references_present@.len() == info.file_references@.len(),
    ensures
        match r {
            Ok(()) => assets_check(*paths, collection@, *info, *facts) is None,
            Err(e) => assets_check(*paths, collection@, *info, *facts) == Some(e@),
        },
{
    let mut i: usize = 0;
    while i < info.file_references.len()
        invariant
            i <= info.file_references@.len(),
            facts.references_present@.len() == info.file_references@.len(),
            forall|j: int| 0 <= j < i ==> facts.references_present@[j],
        decreases info.file_references.len() - i,
    {
        if !facts.references_present[i] {
            proof {
                lemma_first_missing(facts.references_present@, i as int);
            }
            return Err(AssetError::MissingFile { path: info.file_references[i].clone() });
        }
        i += 1;
    }
    proof {
        lemma_first_missing(facts.references_present@, i as int);
    }
    if str_eq(info.provider.as_str(), AERIAL_PROVIDER) {
        match &info.aerial_asset_id {
            None => {
                return Err(AssetError::MissingAerialAssetId);
            },
            Some(id) => {
                if !facts.cache_present && !facts.backup_present {
                    let dir = paths.aerial_assets_dir(collection);
                    let backup = aerial_video_path(dir.as_str(), id.as_str());
                    return Err(AssetError::MissingAerialVideo { asset_id: id.clone(), backup });
                }
            },
        }
    }
    Ok(())
}

/// What restoring a profile's files does.
pub enum RestoreAction {
    /// Nothing is missing.
    Nothing,
    /// Copy the backed up Aerial video into Apple's cache.
    CopyBackup { backup: String, cache: String },
}

/// After the check passes, an Aerial video missing from Apple's cache is copied there
/// from the backup.
pub open spec fn restore_spec(paths: WallctlPaths, collection: Seq<char>, info: ProfileInfo, facts: AssetFacts) -> Option<
    (Seq<char>, Seq<char>),
> {
    if info.provider@ == AERIAL_PROVIDER@ && !facts.cache_present {
        match info.aerial_asset_id {
            Some(id) => Some((backup_file(paths, collection, id@), video_file(paths.aerial_cache@, id@))),
            None => None,
        }
    } else {
        None
    }
}

/// Checks a profile's files and says what to restore (see [`assets_check`] and
/// [`restore_spec`]).
pub fn restore_required_assets(
    paths: &WallctlPaths,
    collection: &str,
    info: &ProfileInfo,
    facts: &AssetFacts,
) -> (r: Result<RestoreAction, AssetError>)
    requires
        facts.references_present@.len() == info.file_references@.len(),
    ensures
        match r {
            Ok(RestoreAction::Nothing) => assets_check(*paths, collection@, *info, *facts) is None
                && restore_spec(*paths, collection@, *info, *facts) is None,
            Ok(RestoreAction::CopyBackup { backup, cache }) => assets_check(*paths, collection@, *info, *facts) is None
                && restore_spec(*paths, collection@, *info, *facts) == Some((backup@, cache@)),
            Err(e) => assets_check(*paths, collection@, *info, *facts) == Some(e@),
        },
{
    validate_required_assets(paths, collection, info, facts)?;
    if !str_eq(info.provider.as_str(), AERIAL_PROVIDER) || facts.cache_present {
        return Ok(RestoreAction::Nothing);
    }
    match &info.aerial_asset_id {
        Some(id) => {
            let cache = aerial_video_path(paths.aerial_cache.as_str(), id.as_str());
            let dir = paths.aerial_assets_dir(collection);
            let backup = aerial_video_path(dir.as_str(), id.as_str());
            Ok(RestoreAction::CopyBackup { backup, cache })
        },
        None => Ok(RestoreAction::Nothing),
    }
}

/// Backing up the Aerial video of a captured profile: the video in Apple's cache is
/// copied to the collection's backup, so it must be in the cache. Gives the source and
/// the destination of the copy.
pub fn aerial_backup(paths: &WallctlPaths, collection: &str, asset_id: &str, cached: bool) -> (r: Result<
    (String, String),
    AssetError,
>)
    ensures
        match r {
            Ok((source, destination)) => cached && source@ == video_file(paths.aerial_cache@, asset_id@)
                && destination@ == backup_file(*paths, collection@, asset_id@),
            Err(e) => !cached && e@ == AssetFault::MissingCachedVideo(
                asset_id@,
                video_file(paths.aerial_cache@, asset_id@),
            ),
        },
{
    let source = aerial_video_path(paths.aerial_cache.as_str(), asset_id);
    if !cached {
        return Err(AssetError::MissingCachedVideo { asset_id: string_of_str(asset_id), path: source });
    }
    let dir = paths.aerial_assets_dir(collection);
    let destination = aerial_video_path(dir.as_str(), asset_id);
    Ok((source, destination))
}

// ---------------------------------------------------------------------------
// Copying referenced images
// ---------------------------------------------------------------------------
/// What to do with a referenced image when a profile is captured.
pub enum CopyAction {
    /// The file is already in the collection's assets.
    Keep(String),
    /// Copy it into the assets directory under a free name based on `file_name`.
    CopyInto { assets_dir: String, file_name: String },
}

/// A referenced image must exist; one already in the assets directory is kept, any
/// other is copied there under its file name.
pub open spec fn copy_spec(paths: WallctlPaths, collection: Seq<char>, source: Seq<char>, source_is_file: bool) -> Result<
    (Seq<char>, Option<Seq<char>>),
    AssetFault,
> {
    let dir = assets_dir_spec(paths, collection);
    if !source_is_file {
        Err(AssetFault::MissingFile(source))
    } else if path_starts_with(source, dir) {
        Ok((source, None))
    } else {
        match file_name(source) {
            Some(n) => Ok((dir, Some(n))),
            None => Err(AssetFault::NoFileName(source)),
        }
    }
}

/// Decides how a referenced image is kept (see [`copy_spec`]).
pub fn copy_wallpaper_asset(paths: &WallctlPaths, collection: &str, source: &str, source_is_file: bool) -> (r: Result<
    CopyAction,
    AssetError,
>)
    ensures
        match r {
            Ok(CopyAction::Keep(p)) => copy_spec(*paths, collection@, source@, source_is_file) == Ok::<
                (Seq<char>, Option<Seq<char>>),
                AssetFault,
            >((p@, None)),
            Ok(CopyAction::CopyInto { assets_dir, file_name }) => copy_spec(*paths, collection@, source@, source_is_file)
                == Ok::<(Seq<char>, Option<Seq<char>>), AssetFault>((assets_dir@, Some(file_name@))),
            Err(e) => copy_spec(*paths, collection@, source@, source_is_file) == Err::<
                (Seq<char>, Option<Seq<char>>),
                AssetFault,
            >(e@),
        },
{
    if !source_is_file {
        return Err(AssetError::MissingFile { path: string_of_str(source) });
    }
    let dir = paths.assets_dir(collection);
    if starts_with_path(source, dir.as_str()) {
        return Ok(CopyAction::Keep(string_of_str(source)));
    }
    match crate::fs_path::file_name_of(&chars_of(source)) {
        Some(n) => Ok(CopyAction::CopyInto { assets_dir: dir, file_name: string_of(n.as_slice()) }),
        None => Err(AssetError::NoFileName { path: string_of_str(source) }),
    }
}

/// The stem of a file name: the name without its extension.
pub open spec fn file_stem(name: Seq<char>) -> Seq<char> {
    if last_dot(name) <= 0 {
        name
    } else {
        name.subrange(0, last_dot(name))
    }
}

/// The `counter`-th name tried for a copy: the file name itself first, then
/// `<stem>-<counter>.<extension>` (or `<stem>-<counter>` without an extension).
pub open spec fn numbered_name(name: Seq<char>, counter: nat) -> Seq<char> {
    if counter == 0 {
        name
    } else {
        let numbered = file_stem(name) + "-"@ + decimal(counter);
        if last_dot(name) <= 0 {
            numbered
        } else {
            numbered + "."@ + name.subrange(last_dot(name) + 1, name.len() as int)
        }
    }
}

/// The name to try for a copy at a counter (see [`numbered_name`]); `name` is a file
/// name (no slash).
pub fn candidate_name(name: &str, counter: usize) -> (r: String)
    ensures
        r@ == numbered_name(name@, counter as nat),
{
    if counter == 0 {
        return string_of_str(name);
    }
    let cs = chars_of(name);
    let mut i: usize = cs.len();
    assert(cs@.subrange(0, cs@.len() as int) =~= cs@);
    while i > 0 && cs[i - 1] != '.'
        invariant
            i <= cs@.len(),
            last_dot(cs@) == last_dot(cs@.subrange(0, i as int)),
        decreases i,
    {
        assert(cs@.subrange(0, i as int).drop_last() =~= cs@.subrange(0, i - 1));
        i -= 1;
    }
    proof {
        if i == cs@.len() {
        }
        if i > 0 {
            assert(cs@.subrange(0, i as int).last() == cs@[i - 1]);
            assert(last_dot(cs@.subrange(0, i as int)) == i - 1);
        } else {
            assert(last_dot(cs@.subrange(0, 0)) == -1);
        }
    }
    let mut out: Vec<char> = if i <= 1 {
        slice_chars(&cs, 0, cs.len())
    } else {
        slice_chars(&cs, 0, i - 1)
    };
    append_str(&mut out, "-");
    append_chars(&mut out, &decimal_text(counter));
    if i > 1 {
        append_str(&mut out, ".");
        append_chars(&mut out, &slice_chars(&cs, i, cs.len()));
    }
    proof {
        assert(cs@.subrange(0, cs@.len() as int) =~= cs@);
    }
    string_of(out.as_slice())
}

// ---------------------------------------------------------------------------
// The Aerial manifest
// ---------------------------------------------------------------------------
/// An entry of Apple's Aerial manifest: its asset and its preferred order, where the
/// manifest gives them as a string and a 64-bit integer.
#[derive(Debug, PartialEq, Eq)]
pub struct ManifestEntry {
    pub asset_id: Option<String>,
    pub preferred_order: Option<i64>,
}

/// A category of the manifest: its representative asset and its subcategories'.
#[derive(Debug, PartialEq, Eq)]
pub struct ManifestCategory {
    pub representative: ManifestEntry,
    pub subcategories: Vec<ManifestEntry>,
}

/// The parts of Apple's Aerial manifest that choose a default asset.
#[derive(Debug, PartialEq, Eq)]
pub struct AerialManifest {
    pub categories: Option<Vec<ManifestCategory>>,
    pub assets: Option<Vec<ManifestEntry>>,
}

/// `e` is the manifest entry that the JSON value `t` describes: the asset named by its
/// `id_key` string and its `preferredOrder` where that is a 64-bit integer.
pub open spec fn entry_read(e: ManifestEntry, t: JsonTree, id_key: Seq<char>) -> bool {
    &&& opt_chars(e.asset_id) == str_of(json_get(t, id_key))
    &&& e.preferred_order == i64_of(json_get(t, "preferredOrder"@))
}

/// Each entry is read from the JSON value at its place.
pub open spec fn entries_read(v: Seq<ManifestEntry>, ts: Seq<JsonTree>, id_key: Seq<char>) -> bool {
    &&& v.len() == ts.len()
    &&& forall|i: int| 0 <= i < v.len() ==> entry_read(#[trigger] v[i], ts[i], id_key)
}

/// The items of an optional array, none without one.
pub open spec fn opt_items(o: Option<Seq<JsonTree>>) -> Seq<JsonTree> {
    match o {
        Some(s) => s,
        None => Seq::empty(),
    }
}

/// A category read from its JSON value: its representative asset and those of its
/// `subcategories`.
pub open spec fn category_read(c: ManifestCategory, t: JsonTree) -> bool {
    &&& entry_read(c.representative, t, "representativeAssetID"@)
    &&& entries_read(
        c.subcategories@,
        opt_items(array_of(json_get(t, "subcategories"@))),
        "representativeAssetID"@,
    )
}

/// The manifest read from Apple's JSON document: its `categories` and its `assets`,
/// each present when the document holds an array there.
pub open spec fn manifest_read(m: AerialManifest, t: JsonTree) -> bool {
    &&& match (m.categories, array_of(json_get(t, "categories"@))) {
        (Some(cs), Some(ts)) => cs@.len() == ts.len() && forall|i: int|
            0 <= i < ts.len() ==> category_read(#[trigger] cs@[i], ts[i]),
        (None, None) => true,
        _ => false,
    }
    &&& match (m.assets, array_of(json_get(t, "assets"@))) {
        (Some(es), Some(ts)) => entries_read(es@, ts, "id"@),
        (None, None) => true,
        _ => false,
    }
}

fn entry_from(v: &JsonValue, id_key: &str) -> (r: ManifestEntry)
    ensures
        entry_read(r, v.tree(), id_key@),
{
    ManifestEntry {
        asset_id: string_of_value(get(v, id_key)),
        preferred_order: i64_of_value(get(v, "preferredOrder")),
    }
}

fn entries_from(items: &Vec<JsonValue>, id_key: &str) -> (r: Vec<ManifestEntry>)
    ensures
        entries_read(r@, json_trees(items@), id_key@),
{
    let mut out: Vec<ManifestEntry> = Vec::new();
    let mut i: usize = 0;
    while i < items.len()
        invariant
            i <= items@.len(),
            out@.len() == i,
            forall|j: int| 0 <= j < i ==> entry_read(#[trigger] out@[j], items@[j].tree(), id_key@),
        decreases items.len() - i,
    {
        let e = entry_from(&items[i], id_key);
        out.push(e);
        i += 1;
    }
    out
}

fn category_from(v: &JsonValue) -> (r: ManifestCategory)
    ensures
        category_read(r, v.tree()),
{
    let subcategories = match items_of(get(v, "subcategories")) {
        Some(items) => entries_from(items, "representativeAssetID"),
        None => Vec::new(),
    };
    ManifestCategory { representative: entry_from(v, "representativeAssetID"), subcategories }
}

/// The manifest that Apple's JSON document describes (see [`manifest_read`]).
pub fn aerial_manifest(json: &JsonValue) -> (r: AerialManifest)
    ensures
        manifest_read(r, json.tree()),
{
    let categories = match items_of(get(json, "categories")) {
        Some(items) => {
            let mut out: Vec<ManifestCategory> = Vec::new();
            let mut i: usize = 0;
            while i < items.len()
                invariant
                    i <= items@.len(),
                    out@.len() == i,
                    forall|j: int| 0 <= j < i ==> category_read(#[trigger] out@[j], items@[j].tree()),
                decreases items.len() - i,
            {
                let c = category_from(&items[i]);
                out.push(c);
                i += 1;
            }
            Some(out)
        },
        None => None,
    };
    let assets = match items_of(get(json, "assets")) {
        Some(items) => Some(entries_from(items, "id")),
        None => None,
    };
    AerialManifest { categories, assets }
}

/// The order an entry sorts by; entries without one come last.
pub open spec fn order_of(e: ManifestEntry) -> i64 {
    match e.preferred_order {
        Some(o) => o,
        None => i64::MAX,
    }
}

/// `sorted` with `x` placed after every candidate whose order is not greater.
pub open spec fn insert_by_order(sorted: Seq<(i64, Seq<char>)>, x: (i64, Seq<char>)) -> Seq<(i64, Seq<char>)>
    decreases sorted.len(),
{
    if sorted.len() == 0 {
        seq![x]
    } else if sorted.last().0 <= x.0 {
        sorted.push(x)
    } else {
        insert_by_order(sorted.drop_last(), x).push(sorted.last())
    }
}

/// Candidates ordered by preferred order, as a stable sort orders them.
pub open spec fn sort_by_order(s: Seq<(i64, Seq<char>)>) -> Seq<(i64, Seq<char>)>
    decreases s.len(),
{
    if s.len() == 0 {
        Seq::empty()
    } else {
        insert_by_order(sort_by_order(s.drop_last()), s.last())
    }
}

/// The entries that name an asset, as candidates.
pub open spec fn entry_candidates(es: Seq<ManifestEntry>) -> Seq<(i64, Seq<char>)>
    decreases es.len(),
{
    if es.len() == 0 {
        Seq::empty()
    } else {
        let rest = entry_candidates(es.drop_last());
        match es.last().asset_id {
            Some(id) => rest.push((order_of(es.last()), id@)),
            None => rest,
        }
    }
}

/// The representative candidates of the categories: each category's own, then its
/// subcategories', category by category.
pub open spec fn category_candidates(cs: Seq<ManifestCategory>) -> Seq<(i64, Seq<char>)>
    decreases cs.len(),
{
    if cs.len() == 0 {
        Seq::empty()
    } else {
        category_candidates(cs.drop_last()) + entry_candidates(seq![cs.last().representative])
            + entry_candidates(cs.last().subcategories@)
    }
}

pub open spec fn ids_of(s: Seq<(i64, Seq<char>)>) -> Seq<Seq<char>> {
    s.map_values(|c: (i64, Seq<char>)| c.1)
}

/// The assets to try for macOS's default wallpaper: the representative assets of the
/// categories, then all assets, each list by preferred order.
pub open spec fn aerial_candidates_spec(m: AerialManifest) -> Seq<Seq<char>> {
    let reps = match m.categories {
        Some(cs) => category_candidates(cs@),
        None => Seq::empty(),
    };
    let all = match m.assets {
        Some(es) => entry_candidates(es@),
        None => Seq::empty(),
    };
    ids_of(sort_by_order(reps)) + ids_of(sort_by_order(all))
}

proof fn lemma_insert_by_order(s: Seq<(i64, Seq<char>)>, x: (i64, Seq<char>), pos: int)
    requires
        0 <= pos <= s.len(),
        pos > 0 ==> s[pos - 1].0 <= x.0,
        forall|j: int| pos <= j < s.len() ==> s[j].0 > x.0,
    ensures
        insert_by_order(s, x) == s.insert(pos, x),
    decreases s.len(),
{
    s.insert_ensures(pos, x);
    if s.len() == 0 {
        assert(s.insert(pos, x) =~= seq![x]);
    } else if pos == s.len() {
        assert(s.insert(pos, x) =~= s.push(x));
    } else {
        let d = s.drop_last();
        assert forall|j: int| pos <= j < d.len() implies d[j].0 > x.0 by {
            assert(d[j] == s[j]);
        }
        if pos > 0 {
            assert(d[pos - 1] == s[pos - 1]);
        }
        lemma_insert_by_order(d, x, pos);
        d.insert_ensures(pos, x);
        assert(s.insert(pos, x) =~= d.insert(pos, x).push(s.last()));
    }
}

pub open spec fn candidates_view(v: Seq<(i64, String)>) -> Seq<(i64, Seq<char>)> {
    v.map_values(|c: (i64, String)| (c.0, c.1@))
}

fn push_entries(out: &mut Vec<(i64, String)>, es: &Vec<ManifestEntry>)
    ensures
        candidates_view(final(out)@) == candidates_view(old(out)@) + entry_candidates(es@),
{
    let ghost start = candidates_view(out@);
    let mut i: usize = 0;
    while i < es.len()
        invariant
            i <= es@.len(),
            candidates_view(out@) == start + entry_candidates(es@.subrange(0, i as int)),
        decreases es.len() - i,
    {
        assert(es@.subrange(0, i + 1).drop_last() =~= es@.subrange(0, i as int));
        let ghost before = candidates_view(out@);
        match &es[i].asset_id {
            Some(id) => {
                let order = match es[i].preferred_order {
                    Some(o) => o,
                    None => i64::MAX,
                };
                out.push((order, id.clone()));
                assert(candidates_view(out@) =~= before.push((order, id@)));
            },
            None => {},
        }
        i += 1;
    }
    assert(es@.subrange(0, es@.len() as int) =~= es@);
}

fn sorted_ids(cands: &Vec<(i64, String)>) -> (r: Vec<String>)
    ensures
        strings_view(r@) == ids_of(sort_by_order(candidates_view(cands@))),
{
    let ghost input = candidates_view(cands@);
    let mut out: Vec<(i64, String)> = Vec::new();
    let mut i: usize = 0;
    while i < cands.len()
        invariant
            i <= cands@.len(),
            input == candidates_view(cands@),
            candidates_view(out@) == sort_by_order(input.subrange(0, i as int)),
        decreases cands.len() - i,
    {
        let x = (cands[i].0, cands[i].1.clone());
        let ghost ov = candidates_view(out@);
        let mut pos: usize = out.len();
        while pos > 0 && out[pos - 1].0 > x.0
            invariant
                pos <= out@.len(),
                ov == candidates_view(out@),
                forall|j: int| pos <= j < out@.len() ==> ov[j].0 > x.0,
            decreases pos,
        {
            assert(ov[pos - 1].0 == out@[pos - 1].0);
            pos -= 1;
        }
        proof {
            if pos > 0 {
                assert(ov[pos - 1].0 == out@[pos - 1].0);
            }
            lemma_insert_by_order(ov, (x.0, x.1@), pos as int);
            assert(input.subrange(0, i + 1).drop_last() =~= input.subrange(0, i as int));
            assert(input.subrange(0, i + 1).last() == (x.0, x.1@));
        }
        out.insert(pos, x);
        assert(candidates_view(out@) =~= ov.insert(pos as int, (x.0, x.1@)));
        i += 1;
    }
    assert(input.subrange(0, input.len() as int) =~= input);
    let mut ids: Vec<String> = Vec::new();
    let mut k: usize = 0;
    while k < out.len()
        invariant
            k <= out@.len(),
            strings_view(ids@) == ids_of(candidates_view(out@)).subrange(0, k as int),
        decreases out.len() - k,
    {
        let ghost before = strings_view(ids@);
        let id = out[k].1.clone();
        ids.push(id);
        assert(strings_view(ids@) =~= before.push(out@[k as int].1@));
        assert(ids_of(candidates_view(out@))[k as int] == out@[k as int].1@);
        assert(strings_view(ids@) =~= ids_of(candidates_view(out@)).subrange(0, k + 1));
        k += 1;
    }
    assert(ids_of(candidates_view(out@)).subrange(0, out@.len() as int) =~= ids_of(candidates_view(out@)));
    ids
}

/// The assets to try for macOS's default wallpaper (see [`aerial_candidates_spec`]).
pub fn aerial_candidates(manifest: &AerialManifest) -> (r: Vec<String>)
    ensures
        strings_view(r@) == aerial_candidates_spec(*manifest),
{
    let mut reps: Vec<(i64, String)> = Vec::new();
    match &manifest.categories {
        Some(cs) => {
            let mut i: usize = 0;
            assert(cs@.subrange(0, 0) =~= Seq::<ManifestCategory>::empty());
            while i < cs.len()
                invariant
                    i <= cs@.len(),
                    candidates_view(reps@) == category_candidates(cs@.subrange(0, i as int)),
                decreases cs.len() - i,
            {
                assert(cs@.subrange(0, i + 1).drop_last() =~= cs@.subrange(0, i as int));
                let mut one: Vec<ManifestEntry> = Vec::new();
                let rep = ManifestEntry {
                    asset_id: match &cs[i].representative.asset_id {
                        Some(s) => Some(s.clone()),
                        None => None,
                    },
                    preferred_order: cs[i].representative.preferred_order,
                };
                one.push(rep);
                assert(one@ =~= seq![cs@[i as int].representative]);
                push_entries(&mut reps, &one);
                push_entries(&mut reps, &cs[i].subcategories);
                i += 1;
            }
            assert(cs@.subrange(0, cs@.len() as int) =~= cs@);
        },
        None => {},
    }
    let mut all: Vec<(i64, String)> = Vec::new();
    match &manifest.assets {
        Some(es) => {
            push_entries(&mut all, es);
        },
        None => {},
    }
    assert(candidates_view(all@) =~= match manifest.assets {
        Some(es) => entry_candidates(es@),
        None => Seq::empty(),
    });
    let mut r = sorted_ids(&reps);
    let rest = sorted_ids(&all);
    let ghost first = strings_view(r@);
    let mut k: usize = 0;
    while k < rest.len()
        invariant
            k <= rest@.len(),
            strings_view(r@) == first + strings_view(rest@).subrange(0, k as int),
        decreases rest.len() - k,
    {
        let ghost before = strings_view(r@);
        let id = rest[k].clone();
        r.push(id);
        assert(strings_view(r@) =~= before.push(rest@[k as int]@));
        assert(strings_view(r@) =~= first + strings_view(rest@).subrange(0, k + 1));
        k += 1;
    }
    assert(strings_view(rest@).subrange(0, rest@.len() as int) =~= strings_view(rest@));
    r
}

/// The first candidate whose video is cached, if any; `cached[i]` tells whether the
/// video of `candidates[i]` is in Apple's cache.
pub fn first_cached(candidates: &[String], cached: &[bool]) -> (r: Option<String>)
    requires
        cached@.len() == candidates@.len(),
    ensures
        match r {
            Some(id) => exists|i: int| 0 <= i < candidates@.len() && cached@[i] && candidates@[i]@ == id@
                && forall|j: int| 0 <= j < i ==> !cached@[j],
            None => forall|j: int| 0 <= j < cached@.len() ==> !cached@[j],
        },
{
    let mut i: usize = 0;
    while i < candidates.len()
        invariant
            i <= candidates@.len(),
            cached@.len() == candidates@.len(),
            forall|j: int| 0 <= j < i ==> !cached@[j],
        decreases candidates.len() - i,
    {
        if cached[i] {
            return Some(candidates[i].clone());
        }
        i += 1;
    }
    None
}

} // verus!
