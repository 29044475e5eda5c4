//! Local wallpaper files that a profile names: which strings are references, where they
//! are found (in the order of a depth-first walk), how they are rewritten to managed
//! copies, and the sorted set of distinct referenced paths.
use vstd::prelude::*;

use crate::fs_path::{
    compare_paths, extension, extension_of, lemma_path_order, lemma_path_order_trans, path_eq,
    path_order,
};
use crate::plist_tree::{
    entry_trees, lemma_array_child_decreases, lemma_array_tree, lemma_dict_child_decreases,
    lemma_dict_tree, trees, PlistDict, PlistTree, PlistValue,
};
use crate::profile::{file_url_path, percent_decode_file_url};
use crate::text::{
    ascii_lowercase, ascii_lowercase_chars, chars_of, starts_with, str_eq, string_of,
    strip_prefix_chars, trim, trim_chars,
};

verus! {

/// File extensions, in ASCII lower case, of the images a wallpaper may reference.
pub open spec fn is_wallpaper_ext(e: Seq<char>) -> bool {
    let l = ascii_lowercase(e);
    l == "jpg"@ || l == "jpeg"@ || l == "png"@ || l == "heic"@ || l == "heif"@ || l == "tif"@
        || l == "tiff"@ || l == "gif"@ || l == "webp"@
}

/// The path has an image extension of a wallpaper.
pub open spec fn is_wallpaper_path(p: Seq<char>) -> bool {
    match extension(p) {
        Some(e) => is_wallpaper_ext(e),
        None => false,
    }
}

/// The local file a string names, and whether it was written as a `file://` URL: the
/// trimmed text either starts with `file://` (its percent escapes decoded) or is an
/// absolute path, and the path has an image extension.
pub open spec fn asset_reference(raw: Seq<char>) -> Option<(Seq<char>, bool)> {
    let t = trim(raw);
    let candidate: Option<(Seq<char>, bool)> = if starts_with(t, "file://"@) {
        Some((file_url_path(t.skip(7)), true))
    } else if t.len() > 0 && t[0] == '/' {
        Some((t, false))
    } else {
        None
    };
    match candidate {
        Some(c) => if is_wallpaper_path(c.0) {
            Some(c)
        } else {
            None
        },
        None => None,
    }
}

/// A reference to a local wallpaper file.
pub struct AssetReference {
    pub path: String,
    pub was_file_url: bool,
}

/// Whether the path names a wallpaper image (see [`is_wallpaper_path`]).
pub fn is_wallpaper_asset_path(p: &str) -> (r: bool)
    ensures
        r == is_wallpaper_path(p@),
{
    let e = match extension_of(&chars_of(p)) {
        Some(e) => e,
        None => {
            return false;
        },
    };
    let lower = string_of(ascii_lowercase_chars(&e).as_slice());
    let l = lower.as_str();
    str_eq(l, "jpg") || str_eq(l, "jpeg") || str_eq(l, "png") || str_eq(l, "heic") || str_eq(
        l,
        "heif",
    ) || str_eq(l, "tif") || str_eq(l, "tiff") || str_eq(l, "gif") || str_eq(l, "webp")
}

/// The local wallpaper file that `raw` names, if any (see [`asset_reference`]).
pub fn local_asset_reference(raw: &str) -> (r: Option<AssetReference>)
    ensures
        match r {
            Some(a) => asset_reference(raw@) == Some((a.path@, a.was_file_url)),
            None => asset_reference(raw@) is None,
        },
{
    let t = trim_chars(&chars_of(raw));
    let url_prefix = chars_of("file://");
    let (path, was_file_url) = match strip_prefix_chars(&t, &url_prefix) {
        Some(rest) => {
            let rest_text = string_of(rest.as_slice());
            proof {
                reveal_strlit("file://");
                assert(rest@ =~= t@.skip(7));
            }
            (percent_decode_file_url(rest_text.as_str()), true)
        },
        None => {
            if t.len() > 0 && t[0] == '/' {
                (string_of(t.as_slice()), false)
            } else {
                return None;
            }
        },
    };
    if is_wallpaper_asset_path(path.as_str()) {
        Some(AssetReference { path, was_file_url })
    } else {
        None
    }
}

// ---------------------------------------------------------------------------
// Where references are found
// ---------------------------------------------------------------------------
/// The references of `t` in the order of a depth-first walk (arrays by position,
/// dictionaries by entry order), with their URL flags.
pub open spec fn refs_of(t: PlistTree) -> Seq<(Seq<char>, bool)>
    decreases t,
{
    match t {
        PlistTree::String(s) => match asset_reference(s) {
            Some(a) => seq![a],
            None => Seq::empty(),
        },
        PlistTree::Array(items) => refs_of_items(items),
        PlistTree::Dictionary(es) => refs_of_entries(es),
        _ => Seq::empty(),
    }
}

pub open spec fn refs_of_entries(es: Seq<(Seq<char>, PlistTree)>) -> Seq<(Seq<char>, bool)>
    decreases es,
{
    if es.len() == 0 {
        Seq::empty()
    } else {
        proof {
            assert(decreases_to!(es => es[es.len() - 1]));
            assert(decreases_to!(es[es.len() - 1] => es[es.len() - 1].1));
            assert(decreases_to!(es => es.subrange(0, es.len() - 1)));
        }
        refs_of_entries(es.subrange(0, es.len() - 1)) + refs_of(es[es.len() - 1].1)
    }
}

pub open spec fn refs_of_items(items: Seq<PlistTree>) -> Seq<(Seq<char>, bool)>
    decreases items,
{
    if items.len() == 0 {
        Seq::empty()
    } else {
        proof {
            assert(decreases_to!(items => items[items.len() - 1]));
            assert(decreases_to!(items => items.subrange(0, items.len() - 1)));
        }
        refs_of_items(items.subrange(0, items.len() - 1)) + refs_of(items[items.len() - 1])
    }
}

/// The referenced paths of `t`, in walk order, repeats included.
pub open spec fn ref_paths(t: PlistTree) -> Seq<Seq<char>> {
    refs_of(t).map_values(|a: (Seq<char>, bool)| a.0)
}

pub open spec fn strings_view(v: Seq<String>) -> Seq<Seq<char>> {
    v.map_values(|s: String| s@)
}

proof fn lemma_prefix_step<A>(s: Seq<A>, i: int)
    requires
        0 <= i < s.len(),
    ensures
        s.subrange(0, i + 1).subrange(0, i) == s.subrange(0, i),
        s.subrange(0, i + 1)[i] == s[i],
        s.subrange(0, i + 1).len() == i + 1,
{
    assert(s.subrange(0, i + 1).subrange(0, i) =~= s.subrange(0, i));
}

fn collect_into(value: &PlistValue, out: &mut Vec<String>)
    ensures
        strings_view(final(out)@) == strings_view(old(out)@) + ref_paths(value.tree()),
    decreases value,
{
    let ghost start = strings_view(out@);
    match value {
        PlistValue::String(s) => {
            match local_asset_reference(s.as_str()) {
                Some(a) => {
                    out.push(a.path);
                    assert(strings_view(out@) =~= start + ref_paths(value.tree()));
                },
                None => {
                    assert(strings_view(out@) =~= start + ref_paths(value.tree()));
                },
            }
        },
        PlistValue::Array(items) => {
            proof {
                lemma_array_tree(items);
            }
            let ghost ts = trees(items@);
            let mut i: usize = 0;
            while i < items.len()
                invariant
                    *value == PlistValue::Array(*items),
                    ts == trees(items@),
                    value.tree() == PlistTree::Array(ts),
                    i <= items@.len(),
                    strings_view(out@) == start + refs_of_items(ts.subrange(0, i as int)).map_values(
                        |a: (Seq<char>, bool)| a.0,
                    ),
                decreases items.len() - i,
            {
                proof {
                    lemma_array_child_decreases(*value, *items, i as int);
                    lemma_prefix_step(ts, i as int);
                }
                let ghost before = strings_view(out@);
                collect_into(&items[i], out);
                proof {
                    let pre = refs_of_items(ts.subrange(0, i as int));
                    let now = refs_of_items(ts.subrange(0, i + 1));
                    assert(now == pre + refs_of(ts[i as int]));
                    assert(now.map_values(|a: (Seq<char>, bool)| a.0) =~= pre.map_values(
                        |a: (Seq<char>, bool)| a.0,
                    ) + ref_paths(ts[i as int]));
                    assert(strings_view(out@) =~= start + now.map_values(
                        |a: (Seq<char>, bool)| a.0,
                    ));
                }
                i += 1;
            }
            assert(ts.subrange(0, ts.len() as int) =~= ts);
        },
        PlistValue::Dictionary(d) => {
            proof {
                lemma_dict_tree(d);
            }
            let ghost es = d.model();
            let mut i: usize = 0;
            while i < d.entries.len()
                invariant
                    *value == PlistValue::Dictionary(*d),
                    es == d.model(),
                    value.tree() == PlistTree::Dictionary(es),
                    i <= d.entries@.len(),
                    strings_view(out@) == start + refs_of_entries(es.subrange(0, i as int)).map_values(
                        |a: (Seq<char>, bool)| a.0,
                    ),
                decreases d.entries.len() - i,
            {
                proof {
                    lemma_dict_child_decreases(*value, *d, i as int);
                    lemma_prefix_step(es, i as int);
                }
                collect_into(&d.entries[i].1, out);
                proof {
                    let pre = refs_of_entries(es.subrange(0, i as int));
                    let now = refs_of_entries(es.subrange(0, i + 1));
                    assert(now == pre + refs_of(es[i as int].1));
                    assert(now.map_values(|a: (Seq<char>, bool)| a.0) =~= pre.map_values(
                        |a: (Seq<char>, bool)| a.0,
                    ) + ref_paths(es[i as int].1));
                    assert(strings_view(out@) =~= start + now.map_values(
                        |a: (Seq<char>, bool)| a.0,
                    ));
                }
                i += 1;
            }
            assert(es.subrange(0, es.len() as int) =~= es);
        },
        _ => {
            assert(strings_view(out@) =~= start + ref_paths(value.tree()));
        },
    }
}

/// The local wallpaper files that the value references, in walk order, repeats
/// included.
pub fn collect_file_references(value: &PlistValue) -> (r: Vec<String>)
    ensures
        strings_view(r@) == ref_paths(value.tree()),
{
    let mut out: Vec<String> = Vec::new();
    collect_into(value, &mut out);
    assert(strings_view(out@) =~= ref_paths(value.tree()));
    out
}

// ---------------------------------------------------------------------------
// Rewriting references to managed copies
// ---------------------------------------------------------------------------
/// The text that replaces a reference once its file has the managed path `m`: a
/// `file://` URL stays a URL.
pub open spec fn replacement(a: (Seq<char>, bool), m: Seq<char>) -> Seq<char> {
    if a.1 {
        "file://"@ + m
    } else {
        m
    }
}

/// `t` with its references replaced, in walk order, by the managed paths `m`.
pub open spec fn rewrite_tree(t: PlistTree, m: Seq<Seq<char>>) -> PlistTree
    decreases t,
{
    match t {
        PlistTree::String(s) => match asset_reference(s) {
            Some(a) => PlistTree::String(replacement(a, m[0])),
            None => t,
        },
        PlistTree::Array(items) => PlistTree::Array(rewrite_items(items, m)),
        PlistTree::Dictionary(es) => PlistTree::Dictionary(rewrite_entries(es, m)),
        _ => t,
    }
}

pub open spec fn rewrite_entries(es: Seq<(Seq<char>, PlistTree)>, m: Seq<Seq<char>>) -> Seq<
    (Seq<char>, PlistTree),
>
    decreases es,
{
    if es.len() == 0 {
        Seq::empty()
    } else {
        proof {
            assert(decreases_to!(es => es[es.len() - 1]));
            assert(decreases_to!(es[es.len() - 1] => es[es.len() - 1].1));
            assert(decreases_to!(es => es.subrange(0, es.len() - 1)));
        }
        let pre = es.subrange(0, es.len() - 1);
        let n = refs_of_entries(pre).len() as int;
        rewrite_entries(pre, m.subrange(0, n)).push(
            (es[es.len() - 1].0, rewrite_tree(es[es.len() - 1].1, m.subrange(n, m.len() as int))),
        )
    }
}

pub open spec fn rewrite_items(items: Seq<PlistTree>, m: Seq<Seq<char>>) -> Seq<PlistTree>
    decreases items,
{
    if items.len() == 0 {
        Seq::empty()
    } else {
        proof {
            assert(decreases_to!(items => items[items.len() - 1]));
            assert(decreases_to!(items => items.subrange(0, items.len() - 1)));
        }
        let pre = items.subrange(0, items.len() - 1);
        let n = refs_of_items(pre).len() as int;
        rewrite_items(pre, m.subrange(0, n)).push(
            rewrite_tree(items[items.len() - 1], m.subrange(n, m.len() as int)),
        )
    }
}

/// Pairs of the `i`-th elements of `a` and `b`.
pub open spec fn zip_paths(a: Seq<Seq<char>>, b: Seq<Seq<char>>) -> Seq<(Seq<char>, Seq<char>)> {
    Seq::new(a.len(), |i: int| (a[i], b[i]))
}

pub open spec fn pairs_view(v: Seq<(String, String)>) -> Seq<(Seq<char>, Seq<char>)> {
    v.map_values(|p: (String, String)| (p.0@, p.1@))
}

proof fn lemma_refs_entries_prefix(es: Seq<(Seq<char>, PlistTree)>, k: int)
    requires
        0 <= k <= es.len(),
    ensures
        refs_of_entries(es.subrange(0, k)).len() <= refs_of_entries(es).len(),
    decreases es.len() - k,
{
    if k < es.len() {
        lemma_prefix_step(es, k);
        lemma_refs_entries_prefix(es, k + 1);
    } else {
        assert(es.subrange(0, k) =~= es);
    }
}

proof fn lemma_refs_items_prefix(items: Seq<PlistTree>, k: int)
    requires
        0 <= k <= items.len(),
    ensures
        refs_of_items(items.subrange(0, k)).len() <= refs_of_items(items).len(),
    decreases items.len() - k,
{
    if k < items.len() {
        lemma_prefix_step(items, k);
        lemma_refs_items_prefix(items, k + 1);
    } else {
        assert(items.subrange(0, k) =~= items);
    }
}

fn replacement_text(a: &AssetReference, m: &String) -> (r: String)
    ensures
        r@ == replacement((a.path@, a.was_file_url), m@),
{
    if a.was_file_url {
        let mut cs = chars_of("file://");
        crate::text::append_str(&mut cs, m.as_str());
        string_of(cs.as_slice())
    } else {
        m.clone()
    }
}

fn rewrite_inner(value: &PlistValue, managed: &[String], pairs: &mut Vec<(String, String)>) -> (r:
    PlistValue)
    requires
        old(pairs)@.len() + refs_of(value.tree()).len() <= managed@.len(),
    ensures
        ({
            let k0 = old(pairs)@.len() as int;
            let n = refs_of(value.tree()).len() as int;
            let m = strings_view(managed@).subrange(k0, k0 + n);
            &&& r.tree() == rewrite_tree(value.tree(), m)
            &&& final(pairs)@.len() == k0 + n
            &&& pairs_view(final(pairs)@) == pairs_view(old(pairs)@) + zip_paths(
                ref_paths(value.tree()),
                m,
            )
        }),
    decreases value,
{
    let ghost k0 = pairs@.len() as int;
    let ghost p0 = pairs_view(pairs@);
    let ghost mv = strings_view(managed@);
    match value {
        PlistValue::String(s) => {
            match local_asset_reference(s.as_str()) {
                Some(a) => {
                    let k = pairs.len();
                    let text = replacement_text(&a, &managed[k]);
                    pairs.push((a.path, managed[k].clone()));
                    proof {
                        let m = mv.subrange(k0, k0 + 1);
                        assert(m[0] == managed@[k as int]@);
                        assert(pairs_view(pairs@) =~= p0 + zip_paths(ref_paths(value.tree()), m));
                    }
                    PlistValue::String(text)
                },
                None => {
                    proof {
                        let m = mv.subrange(k0, k0);
                        assert(pairs_view(pairs@) =~= p0 + zip_paths(ref_paths(value.tree()), m));
                    }
                    crate::plist_tree::clone_value(value)
                },
            }
        },
        PlistValue::Array(items) => {
            proof {
                lemma_array_tree(items);
            }
            let ghost ts = trees(items@);
            let mut out: Vec<PlistValue> = Vec::new();
            let mut i: usize = 0;
            while i < items.len()
                invariant
                    *value == PlistValue::Array(*items),
                    ts == trees(items@),
                    value.tree() == PlistTree::Array(ts),
                    i <= items@.len(),
                    mv == strings_view(managed@),
                    k0 + refs_of(value.tree()).len() <= managed@.len(),
                    pairs@.len() == k0 + refs_of_items(ts.subrange(0, i as int)).len(),
                    trees(out@) == rewrite_items(
                        ts.subrange(0, i as int),
                        mv.subrange(k0, pairs@.len() as int),
                    ),
                    pairs_view(pairs@) == p0 + zip_paths(
                        refs_of_items(ts.subrange(0, i as int)).map_values(
                            |a: (Seq<char>, bool)| a.0,
                        ),
                        mv.subrange(k0, pairs@.len() as int),
                    ),
                decreases items.len() - i,
            {
                proof {
                    lemma_array_child_decreases(*value, *items, i as int);
                    lemma_prefix_step(ts, i as int);
                    lemma_refs_items_prefix(ts, i + 1);
                    assert(ts.subrange(0, ts.len() as int) =~= ts);
                }
                let ghost k1 = pairs@.len() as int;
                let ghost before_out = out@;
                let ghost before_pairs = pairs_view(pairs@);
                let child = rewrite_inner(&items[i], managed, pairs);
                out.push(child);
                proof {
                    let pre = ts.subrange(0, i as int);
                    let now = ts.subrange(0, i + 1);
                    let nc = refs_of(ts[i as int]).len() as int;
                    let x = mv.subrange(k0, k1 + nc);
                    assert(now.subrange(0, now.len() - 1) =~= pre);
                    assert(x.subrange(0, k1 - k0) =~= mv.subrange(k0, k1));
                    assert(x.subrange(k1 - k0, x.len() as int) =~= mv.subrange(k1, k1 + nc));
                    assert(trees(out@) =~= trees(before_out).push(child.tree()));
                    let rp_pre = refs_of_items(pre).map_values(|a: (Seq<char>, bool)| a.0);
                    let rp_now = refs_of_items(now).map_values(|a: (Seq<char>, bool)| a.0);
                    assert(rp_now =~= rp_pre + ref_paths(ts[i as int]));
                    assert(pairs_view(pairs@) =~= p0 + zip_paths(rp_now, x));
                }
                i += 1;
            }
            proof {
                assert(ts.subrange(0, ts.len() as int) =~= ts);
                lemma_array_tree(&out);
            }
            PlistValue::Array(out)
        },
        PlistValue::Dictionary(d) => {
            proof {
                lemma_dict_tree(d);
            }
            let ghost es = d.model();
            let mut out: Vec<(String, PlistValue)> = Vec::new();
            let mut i: usize = 0;
            while i < d.entries.len()
                invariant
                    *value == PlistValue::Dictionary(*d),
                    es == d.model(),
                    value.tree() == PlistTree::Dictionary(es),
                    i <= d.entries@.len(),
                    mv == strings_view(managed@),
                    k0 + refs_of(value.tree()).len() <= managed@.len(),
                    pairs@.len() == k0 + refs_of_entries(es.subrange(0, i as int)).len(),
                    entry_trees(out@) == rewrite_entries(
                        es.subrange(0, i as int),
                        mv.subrange(k0, pairs@.len() as int),
                    ),
                    pairs_view(pairs@) == p0 + zip_paths(
                        refs_of_entries(es.subrange(0, i as int)).map_values(
                            |a: (Seq<char>, bool)| a.0,
                        ),
                        mv.subrange(k0, pairs@.len() as int),
                    ),
                decreases d.entries.len() - i,
            {
                proof {
                    lemma_dict_child_decreases(*value, *d, i as int);
                    lemma_prefix_step(es, i as int);
                    lemma_refs_entries_prefix(es, i + 1);
                    assert(es.subrange(0, es.len() as int) =~= es);
                }
                let ghost k1 = pairs@.len() as int;
                let ghost before_out = out@;
                let child = rewrite_inner(&d.entries[i].1, managed, pairs);
                out.push((d.entries[i].0.clone(), child));
                proof {
                    let pre = es.subrange(0, i as int);
                    let now = es.subrange(0, i + 1);
                    let nc = refs_of(es[i as int].1).len() as int;
                    let x = mv.subrange(k0, k1 + nc);
                    assert(now.subrange(0, now.len() - 1) =~= pre);
                    assert(x.subrange(0, k1 - k0) =~= mv.subrange(k0, k1));
                    assert(x.subrange(k1 - k0, x.len() as int) =~= mv.subrange(k1, k1 + nc));
                    assert(entry_trees(out@) =~= entry_trees(before_out).push(
                        (d.entries@[i as int].0@, child.tree()),
                    ));
                    let rp_pre = refs_of_entries(pre).map_values(|a: (Seq<char>, bool)| a.0);
                    let rp_now = refs_of_entries(now).map_values(|a: (Seq<char>, bool)| a.0);
                    assert(rp_now =~= rp_pre + ref_paths(es[i as int].1));
                    assert(pairs_view(pairs@) =~= p0 + zip_paths(rp_now, x));
                }
                i += 1;
            }
            let nd = PlistDict { entries: out };
            proof {
                assert(es.subrange(0, es.len() as int) =~= es);
                lemma_dict_tree(&nd);
            }
            PlistValue::Dictionary(nd)
        },
        _ => {
            proof {
                let m = mv.subrange(k0, k0);
                assert(pairs_view(pairs@) =~= p0 + zip_paths(ref_paths(value.tree()), m));
            }
            crate::plist_tree::clone_value(value)
        },
    }
}

/// Replaces the references of the value, in walk order, by the managed paths that
/// `managed` gives for them (one for each reference, repeats included), and returns
/// the pairs of referenced and managed path.
pub fn rewrite_file_references(value: &mut PlistValue, managed: &[String]) -> (r: Vec<
    (String, String),
>)
    requires
        managed@.len() == refs_of(old(value).tree()).len(),
    ensures
        final(value).tree() == rewrite_tree(old(value).tree(), strings_view(managed@)),
        pairs_view(r@) == zip_paths(ref_paths(old(value).tree()), strings_view(managed@)),
{
    let mut pairs: Vec<(String, String)> = Vec::new();
    let new_value = rewrite_inner(value, managed, &mut pairs);
    proof {
        assert(strings_view(managed@).subrange(0, managed@.len() as int) =~= strings_view(managed@));
        assert(pairs_view(pairs@) =~= Seq::empty() + zip_paths(
            ref_paths(old(value).tree()),
            strings_view(managed@),
        ));
    }
    *value = new_value;
    pairs
}

// ---------------------------------------------------------------------------
// Sorted distinct paths
// ---------------------------------------------------------------------------
/// `s[j]` is the first path of `s` in its class of equal paths.
pub open spec fn first_of_class(s: Seq<Seq<char>>, j: int) -> bool {
    0 <= j < s.len() && forall|i: int| 0 <= i < j ==> !path_eq(#[trigger] s[i], s[j])
}

/// Strictly increasing in path order.
pub open spec fn strictly_sorted(out: Seq<Seq<char>>) -> bool {
    forall|a: int, b: int| 0 <= a < b < out.len() ==> path_order(#[trigger] out[a], #[trigger] out[b]) < 0
}

/// `p` is the first path of its class in `input`.
pub open spec fn is_first_in(input: Seq<Seq<char>>, p: Seq<char>) -> bool {
    exists|j: int| first_of_class(input, j) && input[j] == p
}

/// Some path of `out` equals `p`.
pub open spec fn has_equal(out: Seq<Seq<char>>, p: Seq<char>) -> bool {
    exists|k: int| 0 <= k < out.len() && path_eq(out[k], p)
}

/// `out` is the paths of `input` sorted by path order with repeats removed, as a stable
/// sort followed by `dedup` leaves them: one path for each class of equal paths, the
/// first of its class in `input`.
pub open spec fn sorted_distinct(input: Seq<Seq<char>>, out: Seq<Seq<char>>) -> bool {
    &&& strictly_sorted(out)
    &&& forall|k: int| 0 <= k < out.len() ==> is_first_in(input, #[trigger] out[k])
    &&& forall|j: int| 0 <= j < input.len() ==> has_equal(out, #[trigger] input[j])
}

/// The referenced paths, sorted by path order with repeats removed (see
/// [`sorted_distinct`]).
pub fn sorted_distinct_paths(input: &Vec<String>) -> (r: Vec<String>)
    ensures
        sorted_distinct(strings_view(input@), strings_view(r@)),
{
    let ghost iv = strings_view(input@);
    let mut out: Vec<String> = Vec::new();
    let ghost mut src: Seq<int> = Seq::empty();
    let mut i: usize = 0;
    while i < input.len()
        invariant
            i <= input@.len(),
            iv == strings_view(input@),
            src.len() == out@.len(),
            strictly_sorted(strings_view(out@)),
            forall|k: int|
                0 <= k < out@.len() ==> 0 <= #[trigger] src[k] < i && first_of_class(iv, src[k])
                    && out@[k]@ == iv[src[k]],
            forall|j: int| 0 <= j < i ==> has_equal(strings_view(out@), #[trigger] iv[j]),
        decreases input.len() - i,
    {
        let x = &input[i];
        let ghost ov = strings_view(out@);
        let mut k: usize = 0;
        let mut found = false;
        while k < out.len()
            invariant_except_break
                !found,
            invariant
                k <= out@.len(),
                ov == strings_view(out@),
                x@ == iv[i as int],
                strictly_sorted(ov),
                forall|q: int| 0 <= q < k ==> path_order(#[trigger] ov[q], x@) < 0,
            ensures
                k <= out@.len(),
                found ==> k < out@.len() && path_eq(ov[k as int], x@),
                !found ==> forall|q: int| 0 <= q < k ==> path_order(#[trigger] ov[q], x@) < 0,
                !found ==> k < out@.len() ==> path_order(ov[k as int], x@) > 0,
            decreases out.len() - k,
        {
            let c = compare_paths(out[k].as_str(), x.as_str());
            if c == 0 {
                found = true;
                break;
            }
            if c > 0 {
                break;
            }
            k += 1;
        }
        proof {
            // No path of `out` equals `x` when none was found.
            if !found {
                assert forall|q: int| 0 <= q < ov.len() implies !path_eq(#[trigger] ov[q], x@) by {
                    lemma_path_order(ov[q], x@);
                    if q > k {
                        lemma_path_order(ov[k as int], x@);
                        lemma_path_order_trans(x@, ov[k as int], ov[q]);
                        lemma_path_order(x@, ov[q]);
                    }
                }
            }
        }
        if !found {
            let ghost old_out = out@;
            let ghost old_src = src;
            out.insert(k, x.clone());
            proof {
                src = old_src.insert(k as int, i as int);
                let nv = strings_view(out@);
                assert(nv =~= ov.insert(k as int, x@));
                // x is the first of its class among the first i + 1 inputs.
                assert forall|j: int| 0 <= j < i implies !path_eq(#[trigger] iv[j], iv[i as int]) by {
                    assert(has_equal(ov, iv[j]));
                    let w = choose|w: int| 0 <= w < ov.len() && path_eq(ov[w], iv[j]);
                    if path_eq(iv[j], iv[i as int]) {
                        assert(path_eq(ov[w], x@));
                    }
                }
                assert(first_of_class(iv, i as int));
                // Still strictly sorted.
                assert forall|a: int, b: int| 0 <= a < b < nv.len() implies path_order(
                    #[trigger] nv[a],
                    #[trigger] nv[b],
                ) < 0 by {
                    if b < k {
                        assert(nv[a] == ov[a] && nv[b] == ov[b]);
                    } else if b == k {
                        assert(nv[a] == ov[a]);
                    } else if a == k {
                        assert(nv[b] == ov[b - 1]);
                        lemma_path_order(ov[k as int], x@);
                        if b - 1 > k {
                            lemma_path_order_trans(x@, ov[k as int], ov[b - 1]);
                        }
                    } else if a < k {
                        assert(nv[a] == ov[a] && nv[b] == ov[b - 1]);
                    } else {
                        assert(nv[a] == ov[a - 1] && nv[b] == ov[b - 1]);
                    }
                }
                assert forall|q: int| 0 <= q < out@.len() implies 0 <= #[trigger] src[q] < i + 1
                    && first_of_class(iv, src[q]) && out@[q]@ == iv[src[q]] by {
                    if q < k {
                        assert(src[q] == old_src[q] && out@[q] == old_out[q]);
                    } else if q > k {
                        assert(src[q] == old_src[q - 1] && out@[q] == old_out[q - 1]);
                    }
                }
                assert forall|j: int| 0 <= j < i + 1 implies has_equal(nv, #[trigger] iv[j]) by {
                    if j == i {
                        assert(nv[k as int] == x@);
                        assert(path_eq(nv[k as int], iv[j]));
                    } else {
                        assert(has_equal(ov, iv[j]));
                        let w = choose|w: int| 0 <= w < ov.len() && path_eq(ov[w], iv[j]);
                        if w < k {
                            assert(nv[w] == ov[w]);
                        } else {
                            assert(nv[w + 1] == ov[w]);
                        }
                    }
                }
            }
        } else {
            proof {
                assert forall|j: int| 0 <= j < i + 1 implies has_equal(ov, #[trigger] iv[j]) by {
                    if j == i {
                        assert(path_eq(ov[k as int], iv[j]));
                    }
                }
            }
        }
        i += 1;
    }
    proof {
        let ov = strings_view(out@);
        assert forall|k: int| 0 <= k < ov.len() implies is_first_in(iv, #[trigger] ov[k]) by {
            assert(ov[k] == out@[k]@);
            assert(first_of_class(iv, src[k]) && iv[src[k]] == ov[k]);
        }
    }
    out
}

} // verus!
