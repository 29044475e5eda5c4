//! What applying, reading and scheduling a profile must do, stated over the inputs:
//! applying installs the profile's `Desktop` and `Linked` sections, the user's choice
//! of all spaces names the provider before the system default, image files are
//! recognised by their extensions, and the scheduler starts at every slot's hour.
use vstd::prelude::*;

use crate::asset_refs::asset_reference;
use crate::config::{ApplyMode, ScheduleSlot};
use crate::fs_path::extension;
use crate::paths::WallctlPaths;
use crate::launch_agent::launch_agent_tree;
use crate::plist_tree::{
    dict_get, dict_insert, key_index, lemma_key_index_bounds, lemma_key_index_first, unique_keys,
    PlistTree,
};
use crate::profile::{copy_entries, copy_sections, extract_sections, get_path_spec, is_section_key, merge_spec, wallpaper_provider_spec};
use crate::text::{ascii_lowercase, is_blank, trim};

verus! {

// ---------------------------------------------------------------------------
// Wallpaper sections
// ---------------------------------------------------------------------------
/// The wallpaper sections of a profile are the entries keyed `Desktop` (where macOS keeps
/// an ordinary picture) and `Linked`, and no others.
pub proof fn law_wallpaper_section_keys(k: Seq<char>)
    ensures
        is_section_key(k) <==> (k == "Desktop"@ || k == "Linked"@),
{
}

/// The entries of the dictionary reached from `t` by following `path`, one key at a time
/// (the first entry with each key); `None` where the path leaves the dictionaries.
pub open spec fn dict_at(t: PlistTree, path: Seq<Seq<char>>) -> Option<Seq<(Seq<char>, PlistTree)>>
    decreases path.len(),
{
    match t {
        PlistTree::Dictionary(es) => if path.len() == 0 {
            Some(es)
        } else {
            match dict_get(es, path[0]) {
                Some(c) => dict_at(c, path.drop_first()),
                None => None,
            }
        },
        _ => None,
    }
}

/// Every dictionary met along `path` from `t` has unique keys.
pub open spec fn unique_along(t: PlistTree, path: Seq<Seq<char>>) -> bool
    decreases path.len(),
{
    match t {
        PlistTree::Dictionary(es) => unique_keys(es) && (path.len() > 0 ==> match dict_get(es, path[0]) {
            Some(c) => unique_along(c, path.drop_first()),
            None => true,
        }),
        _ => true,
    }
}

proof fn lemma_insert_get(es: Seq<(Seq<char>, PlistTree)>, k: Seq<char>, v: PlistTree)
    ensures
        dict_get(dict_insert(es, k, v), k) == Some(v),
{
    lemma_key_index_bounds(es, k);
    let i = key_index(es, k);
    let r = dict_insert(es, k, v);
    if i >= 0 {
        assert forall|j: int| 0 <= j < i implies (#[trigger] r[j]).0 != k by {
            assert(r[j] == es[j]);
        }
        lemma_key_index_first(r, k, i);
    } else {
        assert forall|j: int| 0 <= j < es.len() implies (#[trigger] r[j]).0 != k by {
            assert(r[j] == es[j]);
        }
        lemma_key_index_first(r, k, es.len() as int);
    }
}

proof fn lemma_insert_other(es: Seq<(Seq<char>, PlistTree)>, k: Seq<char>, v: PlistTree, other: Seq<char>)
    requires
        other != k,
    ensures
        dict_get(dict_insert(es, k, v), other) == dict_get(es, other),
{
    crate::plist_tree::lemma_dict_insert_other(es, k, v, other);
}

proof fn lemma_copy_entries_absent(ses: Seq<(Seq<char>, PlistTree)>, tes: Seq<(Seq<char>, PlistTree)>, k: Seq<char>)
    requires
        forall|j: int| 0 <= j < ses.len() ==> (#[trigger] ses[j]).0 != k,
    ensures
        dict_get(copy_entries(ses, tes), k) == dict_get(tes, k),
    decreases ses.len(),
{
    if ses.len() > 0 {
        let pre = ses.subrange(0, ses.len() - 1);
        assert forall|j: int| 0 <= j < pre.len() implies (#[trigger] pre[j]).0 != k by {
            assert(pre[j] == ses[j]);
        }
        lemma_copy_entries_absent(pre, tes, k);
        let acc = copy_entries(pre, tes);
        let e = ses[ses.len() - 1];
        assert(e.0 != k);
        if is_section_key(e.0) {
            lemma_insert_other(acc, e.0, e.1, k);
        } else {
            match dict_get(acc, e.0) {
                Some(tv) => lemma_insert_other(acc, e.0, copy_sections(e.1, tv), k),
                None => {
                    if crate::profile::contains_section(e.1) {
                        lemma_insert_other(acc, e.0, extract_sections(e.1), k);
                    }
                },
            }
        }
    }
}

/// What copying the sections of a dictionary with unique keys does to one of its keys:
/// a section is taken whole; an entry the target also has gets the sections copied in.
proof fn lemma_copy_entries_get(ses: Seq<(Seq<char>, PlistTree)>, tes: Seq<(Seq<char>, PlistTree)>, k: Seq<char>)
    requires
        unique_keys(ses),
        key_index(ses, k) >= 0,
    ensures
        is_section_key(k) ==> dict_get(copy_entries(ses, tes), k) == dict_get(ses, k),
        !is_section_key(k) ==> (dict_get(tes, k) matches Some(tv) ==> dict_get(copy_entries(ses, tes), k) == Some(
            copy_sections(ses[key_index(ses, k)].1, tv),
        )),
    decreases ses.len(),
{
    lemma_key_index_bounds(ses, k);
    let n = ses.len();
    let i = key_index(ses, k);
    let pre = ses.subrange(0, n - 1);
    let e = ses[n - 1];
    let acc = copy_entries(pre, tes);
    if i < n - 1 {
        assert(unique_keys(pre)) by {
            assert forall|a: int, b: int| 0 <= a < b < pre.len() implies (#[trigger] pre[a]).0 != (#[trigger] pre[b]).0 by {
                assert(pre[a] == ses[a] && pre[b] == ses[b]);
            }
        }
        assert forall|j: int| 0 <= j < i implies (#[trigger] pre[j]).0 != k by {
            assert(pre[j] == ses[j]);
        }
        assert(pre[i] == ses[i]);
        lemma_key_index_first(pre, k, i);
        lemma_copy_entries_get(pre, tes, k);
        assert(ses[i].0 != e.0);
        if is_section_key(e.0) {
            lemma_insert_other(acc, e.0, e.1, k);
        } else {
            match dict_get(acc, e.0) {
                Some(tv) => lemma_insert_other(acc, e.0, copy_sections(e.1, tv), k),
                None => {
                    if crate::profile::contains_section(e.1) {
                        lemma_insert_other(acc, e.0, extract_sections(e.1), k);
                    }
                },
            }
        }
    } else {
        assert forall|j: int| 0 <= j < pre.len() implies (#[trigger] pre[j]).0 != k by {
            assert(pre[j] == ses[j]);
        }
        lemma_copy_entries_absent(pre, tes, k);
        if is_section_key(k) {
            lemma_insert_get(acc, k, e.1);
        } else if let Some(tv) = dict_get(tes, k) {
            lemma_insert_get(acc, k, copy_sections(e.1, tv));
        }
    }
}

proof fn lemma_copy_path(s: PlistTree, t: PlistTree, path: Seq<Seq<char>>, k: Seq<char>)
    requires
        is_section_key(k),
        unique_along(s, path),
        dict_at(s, path) matches Some(ses) && dict_get(ses, k) is Some,
        dict_at(t, path) is Some,
    ensures
        dict_at(copy_sections(s, t), path) matches Some(mes) && dict_get(mes, k) == dict_get(dict_at(s, path)->Some_0, k),
    decreases path.len(),
{
    if let PlistTree::Dictionary(ses) = s {
        if let PlistTree::Dictionary(tes) = t {
            if path.len() == 0 {
                lemma_key_index_bounds(ses, k);
                lemma_copy_entries_get(ses, tes, k);
            } else {
                let p0 = path[0];
                lemma_key_index_bounds(ses, p0);
                let c = dict_get(ses, p0)->Some_0;
                let tc = dict_get(tes, p0)->Some_0;
                lemma_copy_entries_get(ses, tes, p0);
                if !is_section_key(p0) {
                    lemma_copy_path(c, tc, path.drop_first(), k);
                }
            }
        }
    }
}

/// Applying a profile in `WallpaperOnly` or `Smart` mode over the live value installs the
/// profile's wallpaper: wherever the same keys lead to a dictionary in both (the
/// profile's with unique keys along the way), each `Desktop` or `Linked` entry of the
/// profile's dictionary is in the written value's dictionary there, with the profile's
/// value.
pub proof fn law_apply_installs_wallpaper_sections(
    profile: PlistTree,
    live: PlistTree,
    path: Seq<Seq<char>>,
    k: Seq<char>,
    mode: ApplyMode,
)
    requires
        mode != ApplyMode::FullProfile,
        k == "Desktop"@ || k == "Linked"@,
        unique_along(profile, path),
        dict_at(profile, path) matches Some(pes) && dict_get(pes, k) is Some,
        dict_at(live, path) is Some,
    ensures
        dict_at(merge_spec(profile, Some(live), mode), path) matches Some(mes) && dict_get(mes, k) == dict_get(
            dict_at(profile, path)->Some_0,
            k,
        ),
{
    lemma_copy_path(profile, live, path, k);
}

// ---------------------------------------------------------------------------
// Which provider a profile names
// ---------------------------------------------------------------------------
/// Where the first wallpaper choice of a section names its provider.
pub open spec fn provider_at(top: Seq<char>, section: Seq<char>) -> Seq<Seq<char>> {
    seq![top, section, "Content"@, "Choices"@, "0"@, "Provider"@]
}

/// A non-blank string is found there.
pub open spec fn names_provider(t: PlistTree, path: Seq<Seq<char>>, s: Seq<char>) -> bool {
    get_path_spec(t, path) == Some(PlistTree::String(s)) && !is_blank(s)
}

/// The provider that the user chose for all spaces, in their linked section, is the
/// profile's provider, whatever the system default names.
pub proof fn law_linked_choice_names_the_provider(t: PlistTree, s: Seq<char>)
    requires
        names_provider(t, provider_at("AllSpacesAndDisplays"@, "Linked"@), s),
    ensures
        wallpaper_provider_spec(t) == Some(s),
{
    assert(crate::profile::choice_path("AllSpacesAndDisplays"@, "Linked"@, "Provider"@) =~= provider_at(
        "AllSpacesAndDisplays"@,
        "Linked"@,
    ));
}

/// Without a linked choice for all spaces, the provider of the all-spaces desktop
/// section is the profile's provider, whatever the system default names.
pub proof fn law_desktop_choice_names_the_provider(t: PlistTree, s: Seq<char>)
    requires
        !exists|x: Seq<char>| names_provider(t, provider_at("AllSpacesAndDisplays"@, "Linked"@), x),
        names_provider(t, provider_at("AllSpacesAndDisplays"@, "Desktop"@), s),
    ensures
        wallpaper_provider_spec(t) == Some(s),
{
    assert(crate::profile::choice_path("AllSpacesAndDisplays"@, "Linked"@, "Provider"@) =~= provider_at(
        "AllSpacesAndDisplays"@,
        "Linked"@,
    ));
    assert(crate::profile::choice_path("AllSpacesAndDisplays"@, "Desktop"@, "Provider"@) =~= provider_at(
        "AllSpacesAndDisplays"@,
        "Desktop"@,
    ));
    if let Some(PlistTree::String(x)) = get_path_spec(t, provider_at("AllSpacesAndDisplays"@, "Linked"@)) {
        assert(!names_provider(t, provider_at("AllSpacesAndDisplays"@, "Linked"@), x));
    }
}

// ---------------------------------------------------------------------------
// Which files a profile references
// ---------------------------------------------------------------------------
/// The image extensions of a wallpaper, in ASCII lower case.
pub open spec fn listed_image_extension(l: Seq<char>) -> bool {
    l == "jpg"@ || l == "jpeg"@ || l == "png"@ || l == "heic"@ || l == "heif"@ || l == "tif"@ || l
        == "tiff"@ || l == "gif"@ || l == "webp"@
}

/// An absolute path, without surrounding blanks, whose extension in ASCII lower case is
/// jpg, jpeg, png, heic, heif, tif, tiff, gif or webp references that very file.
pub proof fn law_image_paths_are_references(p: Seq<char>, e: Seq<char>)
    requires
        trim(p) == p,
        p.len() > 0,
        p[0] == '/',
        extension(p) == Some(e),
        listed_image_extension(ascii_lowercase(e)),
    ensures
        asset_reference(p) == Some((p, false)),
{
    reveal_strlit("file://");
    assert(!crate::text::starts_with(p, "file://"@)) by {
        if crate::text::starts_with(p, "file://"@) {
            assert(p.subrange(0, 7)[0] == p[0]);
        }
    }
}

/// A `file://` URL references the file its path names when that path's extension, in
/// ASCII lower case, is jpg, jpeg, png, heic, heif, tif, tiff, gif or webp.
pub proof fn law_image_urls_are_references(raw: Seq<char>, e: Seq<char>)
    requires
        crate::text::starts_with(trim(raw), "file://"@),
        extension(crate::profile::file_url_path(trim(raw).skip(7))) == Some(e),
        listed_image_extension(ascii_lowercase(e)),
    ensures
        asset_reference(raw) == Some((crate::profile::file_url_path(trim(raw).skip(7)), true)),
{
}

/// Only those extensions make a reference: what a string references has one of them.
pub proof fn law_references_are_images(raw: Seq<char>)
    ensures
        asset_reference(raw) matches Some((p, _)) ==> (extension(p) matches Some(e) && listed_image_extension(
            ascii_lowercase(e),
        )),
{
}

// ---------------------------------------------------------------------------
// When the scheduler runs
// ---------------------------------------------------------------------------
/// The value under `key` of a dictionary (`None` for any other value).
pub open spec fn field(t: PlistTree, key: Seq<char>) -> Option<PlistTree> {
    match t {
        PlistTree::Dictionary(es) => dict_get(es, key),
        _ => None,
    }
}

/// The scheduler's LaunchAgent starts it at the top of each slot's hour, in slot order,
/// and at no other time: its `StartCalendarInterval` holds, for slot `i`, a calendar
/// entry with `Hour` the slot's hour and `Minute` 0.
pub proof fn law_scheduler_starts_at_slot_hours(paths: WallctlPaths, binary: Seq<char>, slots: Seq<ScheduleSlot>)
    ensures
        field(launch_agent_tree(paths, binary, slots), "StartCalendarInterval"@) matches Some(
            PlistTree::Array(items),
        ) && items.len() == slots.len() && forall|i: int|
            0 <= i < slots.len() ==> field(#[trigger] items[i], "Hour"@) == Some(PlistTree::Integer(slots[i].hour as int))
                && field(items[i], "Minute"@) == Some(PlistTree::Integer(0)),
{
    reveal_strlit("Label");
    reveal_strlit("ProgramArguments");
    reveal_strlit("RunAtLoad");
    reveal_strlit("StartCalendarInterval");
    reveal_strlit("Hour");
    reveal_strlit("Minute");
    if let PlistTree::Dictionary(es) = launch_agent_tree(paths, binary, slots) {
        let key = "StartCalendarInterval"@;
        assert(es[0].0.len() != key.len());
        assert(es[1].0.len() != key.len());
        assert(es[2].0.len() != key.len());
        lemma_key_index_first(es, key, 3);
        if let Some(PlistTree::Array(items)) = dict_get(es, key) {
            assert forall|i: int| 0 <= i < slots.len() implies field(#[trigger] items[i], "Hour"@) == Some(
                PlistTree::Integer(slots[i].hour as int),
            ) && field(items[i], "Minute"@) == Some(PlistTree::Integer(0)) by {
                if let PlistTree::Dictionary(ies) = items[i] {
                    lemma_key_index_first(ies, "Hour"@, 0);
                    assert(ies[0].0.len() != "Minute"@.len());
                    lemma_key_index_first(ies, "Minute"@, 1);
                }
            }
        }
    }
}

/// The scheduler's LaunchAgent is labelled `local.wallctl.scheduler`, runs the given
/// program with the single argument `dispatch`, and runs once when loaded.
pub proof fn law_scheduler_runs_dispatch(paths: WallctlPaths, binary: Seq<char>, slots: Seq<ScheduleSlot>)
    ensures
        field(launch_agent_tree(paths, binary, slots), "Label"@) == Some(PlistTree::String("local.wallctl.scheduler"@)),
        field(launch_agent_tree(paths, binary, slots), "ProgramArguments"@) == Some(
            PlistTree::Array(seq![PlistTree::String(binary), PlistTree::String("dispatch"@)]),
        ),
        field(launch_agent_tree(paths, binary, slots), "RunAtLoad"@) == Some(PlistTree::Boolean(true)),
{
    reveal_strlit("Label");
    reveal_strlit("ProgramArguments");
    reveal_strlit("RunAtLoad");
    if let PlistTree::Dictionary(es) = launch_agent_tree(paths, binary, slots) {
        lemma_key_index_first(es, "Label"@, 0);
        assert(es[0].0.len() != "ProgramArguments"@.len());
        lemma_key_index_first(es, "ProgramArguments"@, 1);
        assert(es[0].0.len() != "RunAtLoad"@.len());
        assert(es[1].0.len() != "RunAtLoad"@.len());
        lemma_key_index_first(es, "RunAtLoad"@, 2);
    }
}

/// Without a choice for all spaces, the system default's linked choice names the
/// provider.
pub proof fn law_system_default_names_the_provider_last(t: PlistTree, s: Seq<char>)
    requires
        !exists|x: Seq<char>| names_provider(t, provider_at("AllSpacesAndDisplays"@, "Linked"@), x),
        !exists|x: Seq<char>| names_provider(t, provider_at("AllSpacesAndDisplays"@, "Desktop"@), x),
        names_provider(t, provider_at("SystemDefault"@, "Linked"@), s),
    ensures
        wallpaper_provider_spec(t) == Some(s),
{
    assert(crate::profile::choice_path("AllSpacesAndDisplays"@, "Linked"@, "Provider"@) =~= provider_at(
        "AllSpacesAndDisplays"@,
        "Linked"@,
    ));
    assert(crate::profile::choice_path("AllSpacesAndDisplays"@, "Desktop"@, "Provider"@) =~= provider_at(
        "AllSpacesAndDisplays"@,
        "Desktop"@,
    ));
    assert(crate::profile::choice_path("SystemDefault"@, "Linked"@, "Provider"@) =~= provider_at(
        "SystemDefault"@,
        "Linked"@,
    ));
    if let Some(PlistTree::String(x)) = get_path_spec(t, provider_at("AllSpacesAndDisplays"@, "Linked"@)) {
        assert(!names_provider(t, provider_at("AllSpacesAndDisplays"@, "Linked"@), x));
    }
    if let Some(PlistTree::String(x)) = get_path_spec(t, provider_at("AllSpacesAndDisplays"@, "Desktop"@)) {
        assert(!names_provider(t, provider_at("AllSpacesAndDisplays"@, "Desktop"@), x));
    }
}

} // verus!
