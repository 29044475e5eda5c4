//! Laws of profile handling: applying a profile over the live value keeps the live
//! settings outside the wallpaper, and fingerprints ignore settings outside the
//! wallpaper and the volatile timestamps.
use vstd::prelude::*;

use crate::config::ApplyMode;
use crate::plist_tree::{
    dict_get, dict_insert, dict_remove, key_index, lemma_key_index_bounds, lemma_key_index_first,
    unique_keys, PlistTree,
};
use crate::profile::{
    contains_section, copy_entries, copy_items, copy_sections, extract_entries, extract_items, extract_sections,
    fingerprint_spec, is_section_key, merge_spec, section_in_entries, section_in_items,
    strip_entries, strip_items, strip_volatile,
};

verus! {

proof fn lemma_insert_same(es: Seq<(Seq<char>, PlistTree)>, key: Seq<char>, v: PlistTree)
    requires
        dict_get(es, key) == Some(v),
    ensures
        dict_insert(es, key, v) == es,
{
    lemma_key_index_bounds(es, key);
    assert(dict_insert(es, key, v) =~= es);
}

proof fn lemma_insert_other_get(es: Seq<(Seq<char>, PlistTree)>, key: Seq<char>, v: PlistTree, other: Seq<char>)
    requires
        other != key,
    ensures
        dict_get(dict_insert(es, key, v), other) == dict_get(es, other),
{
    crate::plist_tree::lemma_dict_insert_other(es, key, v, other);
}

proof fn lemma_copy_without_sections(s: PlistTree, t: PlistTree)
    requires
        !contains_section(s),
    ensures
        copy_sections(s, t) == t,
    decreases s,
{
    match s {
        PlistTree::Dictionary(ses) => {
            if let PlistTree::Dictionary(tes) = t {
                lemma_copy_entries_without(ses, tes);
            }
        },
        PlistTree::Array(sis) => {
            if let PlistTree::Array(tis) = t {
                lemma_copy_items_without(sis, tis);
            }
        },
        _ => {},
    }
}

proof fn lemma_copy_entries_without(ses: Seq<(Seq<char>, PlistTree)>, tes: Seq<(Seq<char>, PlistTree)>)
    requires
        !section_in_entries(ses),
    ensures
        copy_entries(ses, tes) == tes,
    decreases ses,
{
    if ses.len() > 0 {
        let pre = ses.subrange(0, ses.len() - 1);
        let e = ses[ses.len() - 1];
        assert(decreases_to!(ses => ses[ses.len() - 1]));
        assert(decreases_to!(ses[ses.len() - 1] => ses[ses.len() - 1].1));
        assert(decreases_to!(ses => pre));
        lemma_copy_entries_without(pre, tes);
        if let Some(tv) = dict_get(tes, e.0) {
            lemma_copy_without_sections(e.1, tv);
            lemma_insert_same(tes, e.0, tv);
        }
    }
}

proof fn lemma_copy_items_without(sis: Seq<PlistTree>, tis: Seq<PlistTree>)
    requires
        !section_in_items(sis),
    ensures
        copy_items(sis, tis) == tis,
    decreases sis,
{
    if sis.len() > 0 {
        let pre = sis.subrange(0, sis.len() - 1);
        let idx = sis.len() - 1;
        assert(decreases_to!(sis => sis[idx]));
        assert(decreases_to!(sis => pre));
        lemma_copy_items_without(pre, tis);
        if idx < tis.len() {
            lemma_copy_without_sections(sis[idx], tis[idx]);
            assert(tis.update(idx, tis[idx]) =~= tis);
        }
    }
}

proof fn lemma_copy_entries_keeps(
    ses: Seq<(Seq<char>, PlistTree)>,
    tes: Seq<(Seq<char>, PlistTree)>,
    k: Seq<char>,
)
    requires
        !is_section_key(k),
        forall|i: int| 0 <= i < ses.len() && (#[trigger] ses[i]).0 == k ==> !contains_section(ses[i].1),
    ensures
        dict_get(copy_entries(ses, tes), k) == dict_get(tes, k),
    decreases ses.len(),
{
    if ses.len() > 0 {
        let pre = ses.subrange(0, ses.len() - 1);
        let e = ses[ses.len() - 1];
        assert forall|i: int| 0 <= i < pre.len() && (#[trigger] pre[i]).0 == k implies !contains_section(
            pre[i].1,
        ) by {
            assert(pre[i] == ses[i]);
        }
        lemma_copy_entries_keeps(pre, tes, k);
        let acc = copy_entries(pre, tes);
        if is_section_key(e.0) {
            lemma_insert_other_get(acc, e.0, e.1, k);
        } else {
            match dict_get(acc, e.0) {
                Some(tv) => {
                    if e.0 == k {
                        lemma_copy_without_sections(e.1, tv);
                        lemma_insert_same(acc, e.0, tv);
                    } else {
                        lemma_insert_other_get(acc, e.0, copy_sections(e.1, tv), k);
                    }
                },
                None => {
                    if contains_section(e.1) {
                        lemma_insert_other_get(acc, e.0, extract_sections(e.1), k);
                    }
                },
            }
        }
    }
}

/// Applying a profile in a mode other than `FullProfile` keeps every live setting whose
/// key is not a wallpaper section and under which the profile holds no wallpaper
/// section (such as the screen saver's `Idle`).
pub proof fn law_merge_keeps_live_settings(
    profile: Seq<(Seq<char>, PlistTree)>,
    live: Seq<(Seq<char>, PlistTree)>,
    k: Seq<char>,
    mode: ApplyMode,
)
    requires
        mode != ApplyMode::FullProfile,
        !is_section_key(k),
        forall|i: int|
            0 <= i < profile.len() && (#[trigger] profile[i]).0 == k ==> !contains_section(profile[i].1),
    ensures
        (merge_spec(PlistTree::Dictionary(profile), Some(PlistTree::Dictionary(live)), mode) matches PlistTree::Dictionary(m)
            && dict_get(m, k) == dict_get(live, k)),
{
    lemma_copy_entries_keeps(profile, live, k);
}

// ---------------------------------------------------------------------------
// Settings outside the wallpaper do not change what wallpaper-only modes control
// ---------------------------------------------------------------------------
/// An entry that section extraction passes over.
pub open spec fn skipped(e: (Seq<char>, PlistTree)) -> bool {
    !is_section_key(e.0) && !contains_section(e.1)
}

proof fn lemma_extract_update(es: Seq<(Seq<char>, PlistTree)>, i: int, e: (Seq<char>, PlistTree))
    requires
        0 <= i < es.len(),
        skipped(es[i]),
        skipped(e),
    ensures
        extract_entries(es.update(i, e)) == extract_entries(es),
    decreases es.len(),
{
    let n = es.len();
    let u = es.update(i, e);
    if i == n - 1 {
        assert(u.subrange(0, n - 1) =~= es.subrange(0, n - 1));
    } else {
        assert(u.subrange(0, n - 1) =~= es.subrange(0, n - 1).update(i, e));
        lemma_extract_update(es.subrange(0, n - 1), i, e);
    }
}

proof fn lemma_extract_push(es: Seq<(Seq<char>, PlistTree)>, e: (Seq<char>, PlistTree))
    requires
        skipped(e),
    ensures
        extract_entries(es.push(e)) == extract_entries(es),
{
    assert(es.push(e).subrange(0, es.len() as int) =~= es);
}

/// Storing a setting that is not a wallpaper section, and holds none, over a setting
/// that holds none leaves the wallpaper sections, and so the wallpaper-only
/// fingerprint, unchanged.
pub proof fn law_sections_ignore_other_settings(
    es: Seq<(Seq<char>, PlistTree)>,
    k: Seq<char>,
    v: PlistTree,
)
    requires
        !is_section_key(k),
        !contains_section(v),
        forall|i: int| 0 <= i < es.len() && (#[trigger] es[i]).0 == k ==> !contains_section(es[i].1),
    ensures
        extract_sections(PlistTree::Dictionary(dict_insert(es, k, v))) == extract_sections(
            PlistTree::Dictionary(es),
        ),
        fingerprint_spec(PlistTree::Dictionary(dict_insert(es, k, v)), ApplyMode::WallpaperOnly)
            == fingerprint_spec(PlistTree::Dictionary(es), ApplyMode::WallpaperOnly),
        fingerprint_spec(PlistTree::Dictionary(dict_insert(es, k, v)), ApplyMode::Smart)
            == fingerprint_spec(PlistTree::Dictionary(es), ApplyMode::Smart),
{
    lemma_key_index_bounds(es, k);
    let i = key_index(es, k);
    if i >= 0 {
        lemma_extract_update(es, i, (k, v));
    } else {
        lemma_extract_push(es, (k, v));
    }
}

// ---------------------------------------------------------------------------
// Volatile timestamps do not change fingerprints
// ---------------------------------------------------------------------------
/// Two entry lists with the same keys that differ at most in the value at `p`.
pub open spec fn differ_only_at(a: Seq<(Seq<char>, PlistTree)>, b: Seq<(Seq<char>, PlistTree)>, p: int) -> bool {
    &&& a.len() == b.len()
    &&& 0 <= p < a.len()
    &&& a[p].0 == b[p].0
    &&& forall|j: int| 0 <= j < a.len() && j != p ==> #[trigger] a[j] == b[j]
}

proof fn lemma_key_index_same_keys(a: Seq<(Seq<char>, PlistTree)>, b: Seq<(Seq<char>, PlistTree)>, p: int, key: Seq<char>)
    requires
        differ_only_at(a, b, p),
    ensures
        key_index(a, key) == key_index(b, key),
{
    lemma_key_index_bounds(a, key);
    lemma_key_index_bounds(b, key);
    let ka = key_index(a, key);
    let kb = key_index(b, key);
    if ka >= 0 {
        assert forall|j: int| 0 <= j < ka implies (#[trigger] b[j]).0 != key by {
            if j != p {
                assert(a[j] == b[j]);
            }
            assert(a[j].0 != key);
        }
        if ka != p {
            assert(a[ka] == b[ka]);
        }
        lemma_key_index_first(b, key, ka);
    } else if kb >= 0 {
        if kb != p {
            assert(a[kb] == b[kb]);
        }
        assert(a[kb].0 != key);
    }
}

proof fn lemma_strip_entries_update(es: Seq<(Seq<char>, PlistTree)>, i: int, e: (Seq<char>, PlistTree))
    requires
        0 <= i < es.len(),
    ensures
        strip_entries(es.update(i, e)) == strip_entries(es).update(i, (e.0, strip_volatile(e.1))),
        strip_entries(es).len() == es.len(),
        forall|j: int| 0 <= j < es.len() ==> (#[trigger] strip_entries(es)[j]).0 == es[j].0,
    decreases es.len(),
{
    let n = es.len();
    let u = es.update(i, e);
    let pre = es.subrange(0, n - 1);
    lemma_strip_entries_shape(pre);
    if i == n - 1 {
        assert(u.subrange(0, n - 1) =~= pre);
    } else {
        assert(u.subrange(0, n - 1) =~= pre.update(i, e));
        lemma_strip_entries_update(pre, i, e);
    }
    assert(strip_entries(u) =~= strip_entries(es).update(i, (e.0, strip_volatile(e.1))));
    lemma_strip_entries_shape(es);
}

proof fn lemma_strip_entries_shape(es: Seq<(Seq<char>, PlistTree)>)
    ensures
        strip_entries(es).len() == es.len(),
        forall|j: int| 0 <= j < es.len() ==> (#[trigger] strip_entries(es)[j]).0 == es[j].0,
    decreases es.len(),
{
    if es.len() > 0 {
        let pre = es.subrange(0, es.len() - 1);
        lemma_strip_entries_shape(pre);
        assert forall|j: int| 0 <= j < es.len() implies (#[trigger] strip_entries(es)[j]).0 == es[j].0 by {
            if j < es.len() - 1 {
                assert(pre[j] == es[j]);
            }
        }
    }
}

proof fn lemma_remove_differing(a: Seq<(Seq<char>, PlistTree)>, b: Seq<(Seq<char>, PlistTree)>, p: int, key: Seq<char>) -> (q: int)
    requires
        differ_only_at(a, b, p),
    ensures
        key_index(a, key) == p ==> dict_remove(a, key) == dict_remove(b, key),
        key_index(a, key) != p ==> differ_only_at(dict_remove(a, key), dict_remove(b, key), q)
            && dict_remove(a, key)[q].0 == a[p].0,
{
    lemma_key_index_same_keys(a, b, p, key);
    lemma_key_index_bounds(a, key);
    let i = key_index(a, key);
    let n = a.len();
    let ra = dict_remove(a, key);
    let rb = dict_remove(b, key);
    if i < 0 {
        assert(differ_only_at(ra, rb, p));
        p
    } else if i == p {
        if i == n - 1 {
            assert(ra =~= rb);
        } else {
            assert(a.last() == b.last());
            assert(ra =~= rb);
        }
        p
    } else if i == n - 1 {
        assert(differ_only_at(ra, rb, p));
        p
    } else if p == n - 1 {
        assert(differ_only_at(ra, rb, i));
        i
    } else {
        assert(a.last() == b.last());
        assert(differ_only_at(ra, rb, p));
        p
    }
}

/// Only the first entry holds `key` in a list with unique keys.
proof fn lemma_unique_index(es: Seq<(Seq<char>, PlistTree)>, q: int)
    requires
        unique_keys(es),
        0 <= q < es.len(),
    ensures
        key_index(es, es[q].0) == q,
{
    assert forall|j: int| 0 <= j < q implies (#[trigger] es[j]).0 != es[q].0 by {
        assert(es[j].0 != es[q].0);
    }
    lemma_key_index_first(es, es[q].0, q);
}

proof fn lemma_remove_keeps_unique(es: Seq<(Seq<char>, PlistTree)>, key: Seq<char>)
    requires
        unique_keys(es),
    ensures
        unique_keys(dict_remove(es, key)),
{
    lemma_key_index_bounds(es, key);
    let i = key_index(es, key);
    let r = dict_remove(es, key);
    if i >= 0 && i < es.len() - 1 {
        assert forall|a: int, b: int| 0 <= a < b < r.len() implies (#[trigger] r[a]).0 != (#[trigger] r[b]).0 by {
            if a == i {
                assert(r[a] == es[es.len() - 1]);
                assert(r[b] == es[b]);
                assert(es[b].0 != es[es.len() - 1].0);
            } else if b == i {
                assert(r[b] == es[es.len() - 1]);
                assert(r[a] == es[a]);
                assert(es[a].0 != es[es.len() - 1].0);
            } else {
                assert(r[a] == es[a] && r[b] == es[b]);
                assert(es[a].0 != es[b].0);
            }
        }
    } else if i == es.len() - 1 {
        assert forall|a: int, b: int| 0 <= a < b < r.len() implies (#[trigger] r[a]).0 != (#[trigger] r[b]).0 by {
            assert(r[a] == es[a] && r[b] == es[b]);
            assert(es[a].0 != es[b].0);
        }
    }
}

/// Both timestamps removed, as stripping removes them from a dictionary.
spec fn ts_removed(s: Seq<(Seq<char>, PlistTree)>) -> Seq<(Seq<char>, PlistTree)> {
    dict_remove(dict_remove(s, "LastSet"@), "LastUse"@)
}

/// Two entry lists with unique keys that differ only in the value of a `LastSet` or
/// `LastUse` entry are equal once both timestamps are removed.
proof fn lemma_ts_removals(s1: Seq<(Seq<char>, PlistTree)>, s2: Seq<(Seq<char>, PlistTree)>, p: int)
    requires
        differ_only_at(s1, s2, p),
        unique_keys(s1),
        s1[p].0 == "LastSet"@ || s1[p].0 == "LastUse"@,
    ensures
        ts_removed(s1) == ts_removed(s2),
{
    let k = s1[p].0;
    lemma_unique_index(s1, p);
    let last_set = "LastSet"@;
    let last_use = "LastUse"@;
    if k == last_set {
        lemma_remove_differing(s1, s2, p, last_set);
        assert(dict_remove(s1, last_set) == dict_remove(s2, last_set));
    } else {
        assert(k == last_use);
        assert(last_set != last_use) by {
            reveal_strlit("LastSet");
            reveal_strlit("LastUse");
            assert(last_set[4] != last_use[4]);
        }
        lemma_key_index_bounds(s1, last_set);
        let q = lemma_remove_differing(s1, s2, p, last_set);
        let r1 = dict_remove(s1, last_set);
        let r2 = dict_remove(s2, last_set);
        assert(r1[q].0 == last_use);
        lemma_remove_keeps_unique(s1, last_set);
        lemma_unique_index(r1, q);
        lemma_remove_differing(r1, r2, q, last_use);
    }
}

/// Setting a `LastSet` or `LastUse` timestamp of a dictionary with unique keys to
/// different values gives the same value once the volatile fields are stripped, and so
/// the same full-profile fingerprint.
pub proof fn law_timestamps_do_not_count(
    es: Seq<(Seq<char>, PlistTree)>,
    k: Seq<char>,
    v1: PlistTree,
    v2: PlistTree,
)
    requires
        unique_keys(es),
        k == "LastSet"@ || k == "LastUse"@,
    ensures
        strip_volatile(PlistTree::Dictionary(dict_insert(es, k, v1))) == strip_volatile(
            PlistTree::Dictionary(dict_insert(es, k, v2)),
        ),
        fingerprint_spec(PlistTree::Dictionary(dict_insert(es, k, v1)), ApplyMode::FullProfile)
            == fingerprint_spec(PlistTree::Dictionary(dict_insert(es, k, v2)), ApplyMode::FullProfile),
{
    crate::plist_tree::lemma_dict_insert_unique(es, k, v1);
    lemma_key_index_bounds(es, k);
    let i = key_index(es, k);
    let e1 = dict_insert(es, k, v1);
    let e2 = dict_insert(es, k, v2);
    let p = if i >= 0 {
        i
    } else {
        es.len() as int
    };
    // The two entry lists differ only in the value at `p`, which holds `k`.
    assert(differ_only_at(e1, e2, p));
    assert(e1[p].0 == k);
    lemma_strip_entries_shape(e1);
    lemma_strip_entries_shape(e2);
    let s1 = strip_entries(e1);
    let s2 = strip_entries(e2);
    if i >= 0 {
        lemma_strip_entries_update(es, i, (k, v1));
        lemma_strip_entries_update(es, i, (k, v2));
    } else {
        assert(e1.subrange(0, es.len() as int) =~= es);
        assert(e2.subrange(0, es.len() as int) =~= es);
    }
    assert(differ_only_at(s1, s2, p));
    // `s1` has the unique keys of `e1`, so `k` is found at `p` alone.
    assert(unique_keys(s1)) by {
        assert forall|a: int, b: int| 0 <= a < b < s1.len() implies (#[trigger] s1[a]).0 != (#[trigger] s1[b]).0 by {
            assert(e1[a].0 != e1[b].0);
        }
    }
    lemma_ts_removals(s1, s2, p);
}

/// Applying a profile in `FullProfile` mode writes the profile itself, whatever the live
/// value was, so afterwards the live value has the profile's fingerprint and applying
/// it again changes nothing.
pub proof fn law_full_profile_apply_matches(profile: PlistTree, live: Option<PlistTree>)
    ensures
        merge_spec(profile, live, ApplyMode::FullProfile) == profile,
        fingerprint_spec(merge_spec(profile, live, ApplyMode::FullProfile), ApplyMode::FullProfile)
            == fingerprint_spec(profile, ApplyMode::FullProfile),
{
}

/// The tree with the `k` entry of the dictionary at `path` (a path of dictionary keys,
/// each taken at its first entry) set to `v`; unchanged where the path leads nowhere.
pub open spec fn set_at_path(t: PlistTree, path: Seq<Seq<char>>, k: Seq<char>, v: PlistTree) -> PlistTree
    decreases path.len(),
{
    match t {
        PlistTree::Dictionary(es) => if path.len() == 0 {
            PlistTree::Dictionary(dict_insert(es, k, v))
        } else {
            let i = key_index(es, path[0]);
            if 0 <= i < es.len() {
                PlistTree::Dictionary(es.update(i, (es[i].0, set_at_path(es[i].1, path.drop_first(), k, v))))
            } else {
                t
            }
        },
        _ => t,
    }
}

/// The dictionary at `path` (where the path leads to one) has unique keys.
pub open spec fn unique_at_path(t: PlistTree, path: Seq<Seq<char>>) -> bool
    decreases path.len(),
{
    match t {
        PlistTree::Dictionary(es) => if path.len() == 0 {
            unique_keys(es)
        } else {
            let i = key_index(es, path[0]);
            0 <= i < es.len() ==> unique_at_path(es[i].1, path.drop_first())
        },
        _ => true,
    }
}

/// Setting a `LastSet` or `LastUse` timestamp of a dictionary anywhere in a profile (one
/// with unique keys) to different values gives the same value once the volatile fields
/// are stripped, and so the same full-profile fingerprint.
pub proof fn law_nested_timestamps_do_not_count(
    t: PlistTree,
    path: Seq<Seq<char>>,
    k: Seq<char>,
    v1: PlistTree,
    v2: PlistTree,
)
    requires
        unique_at_path(t, path),
        k == "LastSet"@ || k == "LastUse"@,
    ensures
        strip_volatile(set_at_path(t, path, k, v1)) == strip_volatile(set_at_path(t, path, k, v2)),
        fingerprint_spec(set_at_path(t, path, k, v1), ApplyMode::FullProfile) == fingerprint_spec(
            set_at_path(t, path, k, v2),
            ApplyMode::FullProfile,
        ),
    decreases path.len(),
{
    match t {
        PlistTree::Dictionary(es) => {
            if path.len() == 0 {
                law_timestamps_do_not_count(es, k, v1, v2);
            } else {
                let i = key_index(es, path[0]);
                if 0 <= i < es.len() {
                    law_nested_timestamps_do_not_count(es[i].1, path.drop_first(), k, v1, v2);
                    let c1 = set_at_path(es[i].1, path.drop_first(), k, v1);
                    let c2 = set_at_path(es[i].1, path.drop_first(), k, v2);
                    lemma_strip_entries_update(es, i, (es[i].0, c1));
                    lemma_strip_entries_update(es, i, (es[i].0, c2));
                    assert(strip_entries(es.update(i, (es[i].0, c1))) == strip_entries(es.update(i, (es[i].0, c2))));
                }
            }
        },
        _ => {},
    }
}

/// Two values that a key brings alike into the extracted wallpaper sections, once the
/// timestamps are stripped.
spec fn same_extraction(key: Seq<char>, a: PlistTree, b: PlistTree) -> bool {
    &&& is_section_key(key) ==> strip_volatile(a) == strip_volatile(b)
    &&& contains_section(a) == contains_section(b)
    &&& contains_section(a) ==> strip_volatile(extract_sections(a)) == strip_volatile(extract_sections(b))
}

proof fn lemma_key_index_keys(a: Seq<(Seq<char>, PlistTree)>, b: Seq<(Seq<char>, PlistTree)>, key: Seq<char>)
    requires
        a.len() == b.len(),
        forall|j: int| 0 <= j < a.len() ==> (#[trigger] a[j]).0 == b[j].0,
    ensures
        key_index(a, key) == key_index(b, key),
    decreases a.len(),
{
    if a.len() > 0 {
        lemma_key_index_keys(a.drop_last(), b.drop_last(), key);
    }
}

proof fn lemma_strip_entries_push(es: Seq<(Seq<char>, PlistTree)>, e: (Seq<char>, PlistTree))
    ensures
        strip_entries(es.push(e)) == strip_entries(es).push((e.0, strip_volatile(e.1))),
{
    assert(es.push(e).subrange(0, es.len() as int) =~= es);
}

proof fn lemma_strip_insert(
    a: Seq<(Seq<char>, PlistTree)>,
    b: Seq<(Seq<char>, PlistTree)>,
    key: Seq<char>,
    va: PlistTree,
    vb: PlistTree,
)
    requires
        strip_entries(a) == strip_entries(b),
        strip_volatile(va) == strip_volatile(vb),
    ensures
        strip_entries(dict_insert(a, key, va)) == strip_entries(dict_insert(b, key, vb)),
{
    lemma_strip_entries_shape(a);
    lemma_strip_entries_shape(b);
    assert forall|j: int| 0 <= j < a.len() implies (#[trigger] a[j]).0 == b[j].0 by {
        assert(strip_entries(a)[j].0 == strip_entries(b)[j].0);
    }
    lemma_key_index_keys(a, b, key);
    lemma_key_index_bounds(a, key);
    let i = key_index(a, key);
    if i >= 0 {
        lemma_strip_entries_update(a, i, (key, va));
        lemma_strip_entries_update(b, i, (key, vb));
    } else {
        lemma_strip_entries_push(a, (key, va));
        lemma_strip_entries_push(b, (key, vb));
    }
}

proof fn lemma_extract_entries_differing(es1: Seq<(Seq<char>, PlistTree)>, es2: Seq<(Seq<char>, PlistTree)>, p: int)
    requires
        differ_only_at(es1, es2, p),
        same_extraction(es1[p].0, es1[p].1, es2[p].1),
    ensures
        strip_entries(extract_entries(es1)) == strip_entries(extract_entries(es2)),
        section_in_entries(es1) == section_in_entries(es2),
    decreases es1.len(),
{
    let n = es1.len();
    let pre1 = es1.subrange(0, n - 1);
    let pre2 = es2.subrange(0, n - 1);
    if p == n - 1 {
        assert(pre1 =~= pre2);
    } else {
        assert(differ_only_at(pre1, pre2, p)) by {
            assert forall|j: int| 0 <= j < pre1.len() && j != p implies #[trigger] pre1[j] == pre2[j] by {
                assert(es1[j] == es2[j]);
            }
        }
        assert(pre1[p] == es1[p] && pre2[p] == es2[p]);
        lemma_extract_entries_differing(pre1, pre2, p);
    }
    let acc1 = extract_entries(pre1);
    let acc2 = extract_entries(pre2);
    let e1 = es1[n - 1];
    let e2 = es2[n - 1];
    assert(e1.0 == e2.0);
    if is_section_key(e1.0) {
        if p != n - 1 {
            assert(e1 == e2);
        }
        lemma_strip_insert(acc1, acc2, e1.0, e1.1, e2.1);
    } else if contains_section(e1.1) {
        if p != n - 1 {
            assert(e1 == e2);
        }
        lemma_strip_insert(acc1, acc2, e1.0, extract_sections(e1.1), extract_sections(e2.1));
    } else if p != n - 1 {
        assert(e1 == e2);
    }
}

/// The timestamp keys are no wallpaper-section keys.
proof fn lemma_timestamp_not_section(k: Seq<char>)
    requires
        k == "LastSet"@ || k == "LastUse"@,
    ensures
        !is_section_key(k),
{
    reveal_strlit("LastSet");
    reveal_strlit("LastUse");
    reveal_strlit("Desktop");
    reveal_strlit("Linked");
    assert(k[0] != "Desktop"@[0]);
    assert(k.len() != "Linked"@.len());
}

proof fn lemma_set_at_path_extraction(t: PlistTree, path: Seq<Seq<char>>, k: Seq<char>, v1: PlistTree, v2: PlistTree)
    requires
        unique_at_path(t, path),
        k == "LastSet"@ || k == "LastUse"@,
        !contains_section(v1),
        !contains_section(v2),
    ensures
        strip_volatile(set_at_path(t, path, k, v1)) == strip_volatile(set_at_path(t, path, k, v2)),
        contains_section(set_at_path(t, path, k, v1)) == contains_section(set_at_path(t, path, k, v2)),
        strip_volatile(extract_sections(set_at_path(t, path, k, v1))) == strip_volatile(
            extract_sections(set_at_path(t, path, k, v2)),
        ),
    decreases path.len(),
{
    law_nested_timestamps_do_not_count(t, path, k, v1, v2);
    match t {
        PlistTree::Dictionary(es) => {
            if path.len() == 0 {
                crate::plist_tree::lemma_dict_insert_unique(es, k, v1);
                lemma_key_index_bounds(es, k);
                let i = key_index(es, k);
                let e1 = dict_insert(es, k, v1);
                let e2 = dict_insert(es, k, v2);
                let p = if i >= 0 {
                    i
                } else {
                    es.len() as int
                };
                assert(differ_only_at(e1, e2, p));
                assert(e1[p] == (k, v1) && e2[p] == (k, v2));
                lemma_timestamp_not_section(k);
                lemma_extract_entries_differing(e1, e2, p);
            } else {
                let i = key_index(es, path[0]);
                if 0 <= i < es.len() {
                    lemma_set_at_path_extraction(es[i].1, path.drop_first(), k, v1, v2);
                    let c1 = set_at_path(es[i].1, path.drop_first(), k, v1);
                    let c2 = set_at_path(es[i].1, path.drop_first(), k, v2);
                    let u1 = es.update(i, (es[i].0, c1));
                    let u2 = es.update(i, (es[i].0, c2));
                    assert(differ_only_at(u1, u2, i));
                    assert(u1[i] == (es[i].0, c1) && u2[i] == (es[i].0, c2));
                    lemma_extract_entries_differing(u1, u2, i);
                }
            }
        },
        _ => {},
    }
}

/// Setting a `LastSet` or `LastUse` timestamp of a dictionary anywhere in a profile (one
/// with unique keys) to different values that hold no wallpaper section gives the same
/// fingerprint in every apply mode.
pub proof fn law_timestamps_do_not_count_in_any_mode(
    t: PlistTree,
    path: Seq<Seq<char>>,
    k: Seq<char>,
    v1: PlistTree,
    v2: PlistTree,
    mode: ApplyMode,
)
    requires
        unique_at_path(t, path),
        k == "LastSet"@ || k == "LastUse"@,
        !contains_section(v1),
        !contains_section(v2),
    ensures
        fingerprint_spec(set_at_path(t, path, k, v1), mode) == fingerprint_spec(set_at_path(t, path, k, v2), mode),
{
    lemma_set_at_path_extraction(t, path, k, v1, v2);
}

// ---------------------------------------------------------------------------
// Profiles that differ only in their timestamps
// ---------------------------------------------------------------------------
/// The keys of the volatile wallpaper timestamps.
pub open spec fn is_timestamp_key(k: Seq<char>) -> bool {
    k == "LastSet"@ || k == "LastUse"@
}

/// Every dictionary in `t` (and `t` itself, when it is one) has unique keys.
pub open spec fn all_unique(t: PlistTree) -> bool
    decreases t,
{
    match t {
        PlistTree::Dictionary(es) => unique_keys(es) && all_unique_entries(es),
        PlistTree::Array(items) => all_unique_items(items),
        _ => true,
    }
}

pub open spec fn all_unique_entries(es: Seq<(Seq<char>, PlistTree)>) -> bool
    decreases es,
{
    if es.len() == 0 {
        true
    } else {
        proof {
            assert(decreases_to!(es => es[es.len() - 1]));
            assert(decreases_to!(es[es.len() - 1] => es[es.len() - 1].1));
            assert(decreases_to!(es => es.subrange(0, es.len() - 1)));
        }
        all_unique_entries(es.subrange(0, es.len() - 1)) && all_unique(es[es.len() - 1].1)
    }
}

pub open spec fn all_unique_items(items: Seq<PlistTree>) -> bool
    decreases items,
{
    if items.len() == 0 {
        true
    } else {
        proof {
            assert(decreases_to!(items => items[items.len() - 1]));
            assert(decreases_to!(items => items.subrange(0, items.len() - 1)));
        }
        all_unique_items(items.subrange(0, items.len() - 1)) && all_unique(items[items.len() - 1])
    }
}

/// `b` is `a` with the values of any of its `LastSet` and `LastUse` entries replaced,
/// where neither the old nor the new value holds a wallpaper section; everything else,
/// keys and order included, is the same.
pub open spec fn timestamp_variant(a: PlistTree, b: PlistTree) -> bool
    decreases a,
{
    match a {
        PlistTree::Dictionary(xs) => match b {
            PlistTree::Dictionary(ys) => timestamp_variant_entries(xs, ys),
            _ => false,
        },
        PlistTree::Array(xs) => match b {
            PlistTree::Array(ys) => timestamp_variant_items(xs, ys),
            _ => false,
        },
        _ => a == b,
    }
}

pub open spec fn timestamp_variant_entries(xs: Seq<(Seq<char>, PlistTree)>, ys: Seq<(Seq<char>, PlistTree)>) -> bool
    decreases xs,
{
    if xs.len() == 0 {
        ys.len() == 0
    } else {
        proof {
            assert(decreases_to!(xs => xs[xs.len() - 1]));
            assert(decreases_to!(xs[xs.len() - 1] => xs[xs.len() - 1].1));
            assert(decreases_to!(xs => xs.subrange(0, xs.len() - 1)));
        }
        let n = xs.len();
        &&& ys.len() == n
        &&& timestamp_variant_entries(xs.subrange(0, n - 1), ys.subrange(0, n - 1))
        &&& xs[n - 1].0 == ys[n - 1].0
        &&& (timestamp_variant(xs[n - 1].1, ys[n - 1].1) || (is_timestamp_key(xs[n - 1].0) && !contains_section(
            xs[n - 1].1,
        ) && !contains_section(ys[n - 1].1)))
    }
}

pub open spec fn timestamp_variant_items(xs: Seq<PlistTree>, ys: Seq<PlistTree>) -> bool
    decreases xs,
{
    if xs.len() == 0 {
        ys.len() == 0
    } else {
        proof {
            assert(decreases_to!(xs => xs[xs.len() - 1]));
            assert(decreases_to!(xs => xs.subrange(0, xs.len() - 1)));
        }
        let n = xs.len();
        &&& ys.len() == n
        &&& timestamp_variant_items(xs.subrange(0, n - 1), ys.subrange(0, n - 1))
        &&& timestamp_variant(xs[n - 1], ys[n - 1])
    }
}

/// Same keys, and the same entries but where the key is a timestamp's.
spec fn agree_but_timestamps(a: Seq<(Seq<char>, PlistTree)>, b: Seq<(Seq<char>, PlistTree)>) -> bool {
    &&& a.len() == b.len()
    &&& forall|j: int| 0 <= j < a.len() ==> (#[trigger] a[j]).0 == b[j].0 && (a[j] == b[j] || is_timestamp_key(a[j].0))
}

proof fn lemma_strip_items_push(items: Seq<PlistTree>, x: PlistTree)
    ensures
        strip_items(items.push(x)) == strip_items(items).push(strip_volatile(x)),
{
    assert(items.push(x).subrange(0, items.len() as int) =~= items);
}

/// Entry lists that agree but for their timestamps, with unique keys, are equal once
/// both timestamps are removed.
proof fn lemma_removals_agree(s1: Seq<(Seq<char>, PlistTree)>, s2: Seq<(Seq<char>, PlistTree)>)
    requires
        agree_but_timestamps(s1, s2),
        unique_keys(s1),
    ensures
        ts_removed(s1) == ts_removed(s2),
{
    let last_set = "LastSet"@;
    let last_use = "LastUse"@;
    lemma_key_index_bounds(s1, last_set);
    lemma_key_index_bounds(s1, last_use);
    let i = key_index(s1, last_set);
    let j = key_index(s1, last_use);
    let c = if i >= 0 {
        s1.update(i, s2[i])
    } else {
        s1
    };
    // Only the entries at `i` and `j` can differ: every other key is no timestamp's.
    assert forall|m: int| 0 <= m < s1.len() && m != i && m != j implies #[trigger] s1[m] == s2[m] by {
        if is_timestamp_key(s1[m].0) {
            lemma_unique_index(s1, m);
        }
    }
    assert(unique_keys(c)) by {
        assert forall|a: int, b: int| 0 <= a < b < c.len() implies (#[trigger] c[a]).0 != (#[trigger] c[b]).0 by {
            assert(c[a].0 == s1[a].0 && c[b].0 == s1[b].0);
        }
    }
    if i >= 0 {
        assert(differ_only_at(s1, c, i));
        lemma_ts_removals(s1, c, i);
    } else {
        assert(c == s1);
    }
    if j >= 0 {
        assert(differ_only_at(c, s2, j));
        assert(c[j].0 == last_use);
        lemma_ts_removals(c, s2, j);
    } else {
        assert(c =~= s2);
    }
}

proof fn lemma_variant_tree(a: PlistTree, b: PlistTree)
    requires
        timestamp_variant(a, b),
        all_unique(a),
    ensures
        strip_volatile(a) == strip_volatile(b),
        contains_section(a) == contains_section(b),
        strip_volatile(extract_sections(a)) == strip_volatile(extract_sections(b)),
    decreases a,
{
    match a {
        PlistTree::Dictionary(xs) => {
            if let PlistTree::Dictionary(ys) = b {
                lemma_variant_entries(xs, ys);
                lemma_strip_entries_shape(xs);
                let sx = strip_entries(xs);
                assert(unique_keys(sx)) by {
                    assert forall|p: int, q: int| 0 <= p < q < sx.len() implies (#[trigger] sx[p]).0 != (#[trigger] sx[q]).0 by {
                        assert(xs[p].0 != xs[q].0);
                    }
                }
                lemma_removals_agree(sx, strip_entries(ys));
            }
        },
        PlistTree::Array(xs) => {
            if let PlistTree::Array(ys) = b {
                lemma_variant_items(xs, ys);
            }
        },
        _ => {},
    }
}

proof fn lemma_variant_entries(xs: Seq<(Seq<char>, PlistTree)>, ys: Seq<(Seq<char>, PlistTree)>)
    requires
        timestamp_variant_entries(xs, ys),
        all_unique_entries(xs),
    ensures
        agree_but_timestamps(strip_entries(xs), strip_entries(ys)),
        strip_entries(extract_entries(xs)) == strip_entries(extract_entries(ys)),
        section_in_entries(xs) == section_in_entries(ys),
    decreases xs,
{
    if xs.len() > 0 {
        let n = xs.len();
        let px = xs.subrange(0, n - 1);
        let py = ys.subrange(0, n - 1);
        assert(decreases_to!(xs => xs[n - 1]));
        assert(decreases_to!(xs[n - 1] => xs[n - 1].1));
        assert(decreases_to!(xs => px));
        lemma_variant_entries(px, py);
        let ex = xs[n - 1];
        let ey = ys[n - 1];
        let acc1 = extract_entries(px);
        let acc2 = extract_entries(py);
        let sx = strip_entries(xs);
        let sy = strip_entries(ys);
        lemma_strip_entries_shape(px);
        lemma_strip_entries_shape(py);
        lemma_strip_entries_shape(xs);
        lemma_strip_entries_shape(ys);
        if timestamp_variant(ex.1, ey.1) {
            lemma_variant_tree(ex.1, ey.1);
            if is_section_key(ex.0) {
                lemma_strip_insert(acc1, acc2, ex.0, ex.1, ey.1);
            } else if contains_section(ex.1) {
                lemma_strip_insert(acc1, acc2, ex.0, extract_sections(ex.1), extract_sections(ey.1));
            }
        } else {
            lemma_timestamp_not_section(ex.0);
        }
        assert forall|j: int| 0 <= j < sx.len() implies (#[trigger] sx[j]).0 == sy[j].0 && (sx[j] == sy[j]
            || is_timestamp_key(sx[j].0)) by {
            if j < n - 1 {
                assert(sx[j] == strip_entries(px)[j]);
                assert(sy[j] == strip_entries(py)[j]);
            }
        }
    }
}

proof fn lemma_variant_items(xs: Seq<PlistTree>, ys: Seq<PlistTree>)
    requires
        timestamp_variant_items(xs, ys),
        all_unique_items(xs),
    ensures
        strip_items(xs) == strip_items(ys),
        strip_items(extract_items(xs)) == strip_items(extract_items(ys)),
        section_in_items(xs) == section_in_items(ys),
    decreases xs,
{
    if xs.len() > 0 {
        let n = xs.len();
        let px = xs.subrange(0, n - 1);
        let py = ys.subrange(0, n - 1);
        assert(decreases_to!(xs => xs[n - 1]));
        assert(decreases_to!(xs => px));
        lemma_variant_items(px, py);
        lemma_variant_tree(xs[n - 1], ys[n - 1]);
        lemma_strip_items_push(extract_items(px), extract_sections(xs[n - 1]));
        lemma_strip_items_push(extract_items(py), extract_sections(ys[n - 1]));
    }
}

/// Profiles that differ only in the values of any number of their `LastSet` and
/// `LastUse` entries (where no old or new value holds a wallpaper section, and every
/// dictionary has unique keys) have the same fingerprint in every apply mode.
pub proof fn law_timestamp_values_do_not_count(a: PlistTree, b: PlistTree, mode: ApplyMode)
    requires
        all_unique(a),
        timestamp_variant(a, b),
    ensures
        fingerprint_spec(a, mode) == fingerprint_spec(b, mode),
{
    lemma_variant_tree(a, b);
}

} // verus!
