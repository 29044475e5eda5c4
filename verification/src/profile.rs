//! Reading and reshaping wallpaper profiles: the wallpaper provider, the Aerial asset,
//! the wallpaper sections, fingerprints and the file references of a profile.
use vstd::prelude::*;

use crate::plist_tree::{
    decode_plist, dict_get, lemma_array_child_decreases, lemma_array_tree,
    lemma_dict_child_decreases, lemma_dict_tree, option_tree, plist_decoding, trees, PlistDict,
    PlistTree, PlistValue,
};
use base64::Engine;
use sha2::Digest;
use crate::config::ApplyMode;
use crate::asset_refs::{
    collect_file_references, ref_paths, sorted_distinct, sorted_distinct_paths, strings_view,
};
use crate::text::{is_ascii_digit, is_blank, is_blank_str, chars_of};

verus! {

/// The provider of Apple's Aerial (video) wallpapers.
pub const AERIAL_PROVIDER: &'static str = "com.apple.wallpaper.choice.aerials";

/// The provider macOS writes for its default wallpaper.
pub const DEFAULT_PROVIDER: &'static str = "default";

/// An optional string taken to its characters.
pub open spec fn opt_chars(o: Option<String>) -> Option<Seq<char>> {
    match o {
        Some(s) => Some(s@),
        None => None,
    }
}

// ---------------------------------------------------------------------------
// Paths into a profile
// ---------------------------------------------------------------------------
/// Value of a decimal digit sequence.
pub open spec fn digits_value(ds: Seq<char>) -> int
    decreases ds.len(),
{
    if ds.len() == 0 {
        0
    } else {
        digits_value(ds.drop_last()) * 10 + (ds.last() as int - '0' as int)
    }
}

/// Every character is a decimal digit.
pub open spec fn all_digits(ds: Seq<char>) -> bool {
    forall|i: int| 0 <= i < ds.len() ==> is_ascii_digit(#[trigger] ds[i])
}

/// The text after an optional leading `+`.
pub open spec fn unsigned_digits(s: Seq<char>) -> Seq<char> {
    if s.len() > 0 && s[0] == '+' {
        s.drop_first()
    } else {
        s
    }
}

/// What `str::parse::<usize>` gives: an optional `+` and then decimal digits.
pub open spec fn parse_usize_spec(s: Seq<char>) -> Option<int> {
    let ds = unsigned_digits(s);
    if ds.len() > 0 && all_digits(ds) && digits_value(ds) <= usize::MAX {
        Some(digits_value(ds))
    } else {
        None
    }
}

proof fn lemma_digits_value_nonneg(ds: Seq<char>)
    requires
        forall|i: int| 0 <= i < ds.len() ==> is_ascii_digit(#[trigger] ds[i]),
    ensures
        digits_value(ds) >= 0,
    decreases ds.len(),
{
    if ds.len() > 0 {
        assert forall|i: int| 0 <= i < ds.drop_last().len() implies is_ascii_digit(
            #[trigger] ds.drop_last()[i],
        ) by {
            assert(ds.drop_last()[i] == ds[i]);
        }
        lemma_digits_value_nonneg(ds.drop_last());
        assert(is_ascii_digit(ds[ds.len() - 1]));
    }
}

proof fn lemma_digits_value_monotone(ds: Seq<char>, k: int)
    requires
        0 <= k <= ds.len(),
        forall|i: int| 0 <= i < ds.len() ==> is_ascii_digit(#[trigger] ds[i]),
    ensures
        digits_value(ds.subrange(0, k)) <= digits_value(ds),
    decreases ds.len() - k,
{
    if k == ds.len() {
        assert(ds.subrange(0, k) =~= ds);
    } else {
        let p = ds.subrange(0, k + 1);
        assert forall|i: int| 0 <= i < p.len() implies is_ascii_digit(#[trigger] p[i]) by {
            assert(p[i] == ds[i]);
        }
        assert(p.drop_last() =~= ds.subrange(0, k));
        assert forall|i: int| 0 <= i < k implies is_ascii_digit(#[trigger] ds.subrange(0, k)[i]) by {
            assert(ds.subrange(0, k)[i] == ds[i]);
        }
        lemma_digits_value_nonneg(ds.subrange(0, k));
        assert(is_ascii_digit(p.last()));
        lemma_digits_value_monotone(ds, k + 1);
    }
}

/// Parses an array index the way `str::parse::<usize>` does.
pub fn parse_usize(s: &str) -> (r: Option<usize>)
    ensures
        match r {
            Some(n) => parse_usize_spec(s@) == Some(n as int),
            None => parse_usize_spec(s@) is None,
        },
{
    let cs = chars_of(s);
    let start: usize = if cs.len() > 0 && cs[0] == '+' {
        1
    } else {
        0
    };
    let ghost ds = if cs@.len() > 0 && cs@[0] == '+' {
        cs@.drop_first()
    } else {
        cs@
    };
    assert(ds =~= cs@.subrange(start as int, cs@.len() as int));
    if start >= cs.len() {
        return None;
    }
    let mut value: usize = 0;
    let mut i: usize = start;
    while i < cs.len()
        invariant
            start <= i <= cs@.len(),
            start == (if cs@.len() > 0 && cs@[0] == '+' {
                1int
            } else {
                0int
            }),
            cs@ == s@,
            ds == (if cs@.len() > 0 && cs@[0] == '+' {
                cs@.drop_first()
            } else {
                cs@
            }),
            ds == cs@.subrange(start as int, cs@.len() as int),
            forall|j: int| start <= j < i ==> is_ascii_digit(#[trigger] cs@[j]),
            value as int == digits_value(cs@.subrange(start as int, i as int)),
        decreases cs.len() - i,
    {
        let c = cs[i];
        if !('0' <= c && c <= '9') {
            proof {
                assert(ds[i - start] == cs@[i as int]);
                assert(!is_ascii_digit(ds[i - start]));
                assert(!(forall|j: int| 0 <= j < ds.len() ==> is_ascii_digit(#[trigger] ds[j])));
                assert(parse_usize_spec(cs@) is None);
            }
            return None;
        }
        let d = (c as u32 - '0' as u32) as usize;
        let ghost pre = cs@.subrange(start as int, i as int);
        let ghost next = cs@.subrange(start as int, i + 1);
        assert(next.drop_last() =~= pre);
        assert(digits_value(next) == digits_value(pre) * 10 + d);
        match value.checked_mul(10) {
            Some(m) => match m.checked_add(d) {
                Some(n) => {
                    value = n;
                },
                None => {
                    proof {
                        lemma_overflow_none(cs@, start as int, i as int);
                    }
                    return None;
                },
            },
            None => {
                proof {
                    assert(digits_value(pre) * 10 > usize::MAX);
                    lemma_overflow_none(cs@, start as int, i as int);
                }
                return None;
            },
        }
        i += 1;
    }
    assert(cs@.subrange(start as int, cs@.len() as int) =~= ds);
    Some(value)
}

proof fn lemma_overflow_none(cs: Seq<char>, start: int, i: int)
    requires
        0 <= start <= i < cs.len(),
        start == (if cs.len() > 0 && cs[0] == '+' {
            1int
        } else {
            0int
        }),
        forall|j: int| start <= j <= i ==> is_ascii_digit(#[trigger] cs[j]),
        digits_value(cs.subrange(start, i + 1)) > usize::MAX,
    ensures
        parse_usize_spec(cs) is None,
{
    let ds = if cs.len() > 0 && cs[0] == '+' {
        cs.drop_first()
    } else {
        cs
    };
    assert(ds =~= cs.subrange(start, cs.len() as int));
    assert(ds.subrange(0, i + 1 - start) =~= cs.subrange(start, i + 1));
    if forall|j: int| 0 <= j < ds.len() ==> is_ascii_digit(#[trigger] ds[j]) {
        lemma_digits_value_monotone(ds, i + 1 - start);
        assert(digits_value(ds) > usize::MAX);
        assert(parse_usize_spec(cs) is None);
    } else {
        assert(parse_usize_spec(cs) is None);
    }
}

/// The value found by following `path` from `t`: dictionary keys, and array indices
/// written in decimal.
pub open spec fn get_path_spec(t: PlistTree, path: Seq<Seq<char>>) -> Option<PlistTree>
    decreases path.len(),
{
    if path.len() == 0 {
        Some(t)
    } else {
        match t {
            PlistTree::Dictionary(es) => match dict_get(es, path[0]) {
                Some(c) => get_path_spec(c, path.drop_first()),
                None => None,
            },
            PlistTree::Array(items) => match parse_usize_spec(path[0]) {
                Some(i) => if i < items.len() {
                    get_path_spec(items[i], path.drop_first())
                } else {
                    None
                },
                None => None,
            },
            _ => None,
        }
    }
}

/// The characters of each segment of a path.
pub open spec fn path_chars(path: Seq<&str>) -> Seq<Seq<char>> {
    Seq::new(path.len(), |i: int| path[i]@)
}

/// Follows `path` from `value`.
pub fn get_path<'a>(value: &'a PlistValue, path: &[&str]) -> (r: Option<&'a PlistValue>)
    ensures
        match r {
            Some(x) => get_path_spec(value.tree(), path_chars(path@)) == Some(x.tree()),
            None => get_path_spec(value.tree(), path_chars(path@)) is None,
        },
{
    let ghost full = path_chars(path@);
    assert(full.subrange(0, full.len() as int) =~= full);
    let mut current: &PlistValue = value;
    let mut i: usize = 0;
    while i < path.len()
        invariant
            i <= path@.len(),
            full == path_chars(path@),
            get_path_spec(value.tree(), full) == get_path_spec(
                current.tree(),
                full.subrange(i as int, full.len() as int),
            ),
        decreases path.len() - i,
    {
        let ghost rest = full.subrange(i as int, full.len() as int);
        assert(rest[0] == path@[i as int]@);
        assert(rest.drop_first() =~= full.subrange(i + 1, full.len() as int));
        let segment: &str = path[i];
        match current {
            PlistValue::Dictionary(d) => {
                proof {
                    lemma_dict_tree(d);
                }
                match d.get(segment) {
                    Some(child) => {
                        current = child;
                    },
                    None => {
                        return None;
                    },
                }
            },
            PlistValue::Array(items) => {
                proof {
                    lemma_array_tree(items);
                }
                match parse_usize(segment) {
                    Some(index) => {
                        if index < items.len() {
                            current = &items[index];
                        } else {
                            return None;
                        }
                    },
                    None => {
                        return None;
                    },
                }
            },
            _ => {
                return None;
            },
        }
        i += 1;
    }
    assert(full.subrange(full.len() as int, full.len() as int) =~= Seq::<Seq<char>>::empty());
    Some(current)
}

// ---------------------------------------------------------------------------
// Searching for a string under a key
// ---------------------------------------------------------------------------
/// The first string stored under `key`, searching depth first: in a dictionary its own
/// entry first, then the values in order; in an array the items in order.
pub open spec fn find_key(t: PlistTree, key: Seq<char>) -> Option<Seq<char>>
    decreases t,
{
    match t {
        PlistTree::Dictionary(es) => match dict_get(es, key) {
            Some(PlistTree::String(s)) => Some(s),
            _ => find_key_entries(es, key),
        },
        PlistTree::Array(items) => find_key_items(items, key),
        _ => None,
    }
}

pub open spec fn find_key_entries(es: Seq<(Seq<char>, PlistTree)>, key: Seq<char>) -> Option<
    Seq<char>,
>
    decreases es,
{
    if es.len() == 0 {
        None
    } else {
        proof {
            assert(decreases_to!(es => es[es.len() - 1]));
            assert(decreases_to!(es[es.len() - 1] => es[es.len() - 1].1));
            assert(decreases_to!(es => es.subrange(0, es.len() - 1)));
        }
        match find_key_entries(es.subrange(0, es.len() - 1), key) {
            Some(x) => Some(x),
            None => find_key(es[es.len() - 1].1, key),
        }
    }
}

pub open spec fn find_key_items(items: Seq<PlistTree>, key: Seq<char>) -> Option<Seq<char>>
    decreases items,
{
    if items.len() == 0 {
        None
    } else {
        proof {
            assert(decreases_to!(items => items[items.len() - 1]));
            assert(decreases_to!(items => items.subrange(0, items.len() - 1)));
        }
        match find_key_items(items.subrange(0, items.len() - 1), key) {
            Some(x) => Some(x),
            None => find_key(items[items.len() - 1], key),
        }
    }
}


proof fn lemma_find_entries_prefix(es: Seq<(Seq<char>, PlistTree)>, key: Seq<char>, k: int)
    requires
        0 <= k <= es.len(),
        find_key_entries(es.subrange(0, k), key) is Some,
    ensures
        find_key_entries(es, key) == find_key_entries(es.subrange(0, k), key),
    decreases es.len() - k,
{
    if k == es.len() {
        assert(es.subrange(0, k) =~= es);
    } else {
        let n = es.subrange(0, k + 1);
        assert(n.subrange(0, k) =~= es.subrange(0, k));
        lemma_find_entries_prefix(es, key, k + 1);
    }
}

proof fn lemma_find_items_prefix(items: Seq<PlistTree>, key: Seq<char>, k: int)
    requires
        0 <= k <= items.len(),
        find_key_items(items.subrange(0, k), key) is Some,
    ensures
        find_key_items(items, key) == find_key_items(items.subrange(0, k), key),
    decreases items.len() - k,
{
    if k == items.len() {
        assert(items.subrange(0, k) =~= items);
    } else {
        let n = items.subrange(0, k + 1);
        assert(n.subrange(0, k) =~= items.subrange(0, k));
        lemma_find_items_prefix(items, key, k + 1);
    }
}

/// The first string stored under `key` anywhere in the value (depth first).
pub fn find_string_key(value: &PlistValue, key: &str) -> (r: Option<String>)
    ensures
        opt_chars(r) == find_key(value.tree(), key@),
    decreases value,
{
    match value {
        PlistValue::Dictionary(d) => {
            proof {
                lemma_dict_tree(d);
            }
            match d.get(key) {
                Some(PlistValue::String(found)) => {
                    return Some(found.clone());
                },
                _ => {},
            }
            let ghost es = d.model();
            let mut i: usize = 0;
            while i < d.entries.len()
                invariant
                    *value == PlistValue::Dictionary(*d),
                    es == d.model(),
                    i <= d.entries@.len(),
                    find_key(value.tree(), key@) == find_key_entries(es, key@),
                    find_key_entries(es.subrange(0, i as int), key@) is None,
                decreases d.entries.len() - i,
            {
                proof {
                    lemma_dict_child_decreases(*value, *d, i as int);
                    let n = es.subrange(0, i + 1);
                    assert(n.subrange(0, n.len() - 1) =~= es.subrange(0, i as int));
                }
                match find_string_key(&d.entries[i].1, key) {
                    Some(found) => {
                        proof {
                            let n = es.subrange(0, i + 1);
                            assert(n[i as int] == es[i as int]);
                            assert(es[i as int].1 == d.entries@[i as int].1.tree());
                            assert(find_key_entries(n, key@) == Some(found@));
                            lemma_find_entries_prefix(es, key@, i + 1);
                        }
                        return Some(found);
                    },
                    None => {},
                }
                i += 1;
            }
            assert(es.subrange(0, es.len() as int) =~= es);
            None
        },
        PlistValue::Array(items) => {
            proof {
                lemma_array_tree(items);
            }
            let ghost ts = trees(items@);
            let mut i: usize = 0;
            while i < items.len()
                invariant
                    *value == PlistValue::Array(*items),
                    ts == trees(items@),
                    i <= items@.len(),
                    value.tree() == PlistTree::Array(ts),
                    find_key_items(ts.subrange(0, i as int), key@) is None,
                decreases items.len() - i,
            {
                proof {
                    lemma_array_child_decreases(*value, *items, i as int);
                    let n = ts.subrange(0, i + 1);
                    assert(n.subrange(0, n.len() - 1) =~= ts.subrange(0, i as int));
                }
                match find_string_key(&items[i], key) {
                    Some(found) => {
                        proof {
                            let n = ts.subrange(0, i + 1);
                            assert(n[i as int] == ts[i as int]);
                            assert(find_key_items(n, key@) == Some(found@));
                            lemma_find_items_prefix(ts, key@, i + 1);
                        }
                        return Some(found);
                    },
                    None => {},
                }
                i += 1;
            }
            assert(ts.subrange(0, ts.len() as int) =~= ts);
            None
        },
        _ => None,
    }
}


// ---------------------------------------------------------------------------
// Provider and Aerial asset
// ---------------------------------------------------------------------------
/// The path to a leaf of the first wallpaper choice under `top` and `section`.
pub open spec fn choice_path(top: Seq<char>, section: Seq<char>, leaf: Seq<char>) -> Seq<
    Seq<char>,
> {
    seq![top, section, "Content"@, "Choices"@, "0"@, leaf]
}

/// A string that is not blank.
pub open spec fn usable_string(o: Option<PlistTree>) -> Option<Seq<char>> {
    match o {
        Some(PlistTree::String(s)) => if is_blank(s) {
            None
        } else {
            Some(s)
        },
        _ => None,
    }
}

pub open spec fn or_else(a: Option<Seq<char>>, b: Option<Seq<char>>) -> Option<Seq<char>> {
    match a {
        Some(x) => Some(x),
        None => b,
    }
}

/// The provider named by the first wallpaper choice, looked for in the linked and the
/// desktop sections of all spaces, then of the system default.
pub open spec fn choice_provider(t: PlistTree) -> Option<Seq<char>> {
    or_else(
        usable_string(get_path_spec(t, choice_path("AllSpacesAndDisplays"@, "Linked"@, "Provider"@))),
        or_else(
            usable_string(
                get_path_spec(t, choice_path("AllSpacesAndDisplays"@, "Desktop"@, "Provider"@)),
            ),
            or_else(
                usable_string(get_path_spec(t, choice_path("SystemDefault"@, "Linked"@, "Provider"@))),
                usable_string(get_path_spec(t, choice_path("SystemDefault"@, "Desktop"@, "Provider"@))),
            ),
        ),
    )
}

/// The wallpaper provider of a profile: from the first wallpaper choice, else the first
/// `Provider` string anywhere; blank names do not count.
pub open spec fn wallpaper_provider_spec(t: PlistTree) -> Option<Seq<char>> {
    or_else(
        choice_provider(t),
        match find_key(t, "Provider"@) {
            Some(p) => if is_blank(p) {
                None
            } else {
                Some(p)
            },
            None => None,
        },
    )
}

fn usable_at(value: &PlistValue, top: &str, section: &str, leaf: &str) -> (r: Option<String>)
    ensures
        opt_chars(r) == usable_string(get_path_spec(value.tree(), choice_path(top@, section@, leaf@))),
{
    let mut path: Vec<&str> = Vec::new();
    path.push(top);
    path.push(section);
    path.push("Content");
    path.push("Choices");
    path.push("0");
    path.push(leaf);
    assert(path_chars(path@) =~= choice_path(top@, section@, leaf@));
    match get_path(value, path.as_slice()) {
        Some(PlistValue::String(s)) => {
            if is_blank_str(s.as_str()) {
                None
            } else {
                Some(s.clone())
            }
        },
        _ => None,
    }
}

/// The wallpaper provider of a profile, if it names one.
pub fn wallpaper_provider(value: &PlistValue) -> (r: Option<String>)
    ensures
        opt_chars(r) == wallpaper_provider_spec(value.tree()),
{
    let leaf = "Provider";
    if let Some(p) = usable_at(value, "AllSpacesAndDisplays", "Linked", leaf) {
        return Some(p);
    }
    if let Some(p) = usable_at(value, "AllSpacesAndDisplays", "Desktop", leaf) {
        return Some(p);
    }
    if let Some(p) = usable_at(value, "SystemDefault", "Linked", leaf) {
        return Some(p);
    }
    if let Some(p) = usable_at(value, "SystemDefault", "Desktop", leaf) {
        return Some(p);
    }
    match find_string_key(value, leaf) {
        Some(p) => {
            if is_blank_str(p.as_str()) {
                None
            } else {
                Some(p)
            }
        },
        None => None,
    }
}

/// Whether the profile's wallpaper provider is macOS's default one.
pub fn has_default_wallpaper_provider(value: &PlistValue) -> (r: bool)
    ensures
        r == (wallpaper_provider_spec(value.tree()) == Some(DEFAULT_PROVIDER@)),
{
    match wallpaper_provider(value) {
        Some(p) => crate::text::str_eq(p.as_str(), DEFAULT_PROVIDER),
        None => false,
    }
}

/// Name for what `base64::engine::general_purpose::STANDARD.decode` gives for the bytes
/// (`None` when it reports an error).
pub uninterp spec fn base64_standard_decoding(data: Seq<u8>) -> Option<Seq<u8>>;

/// Calls `STANDARD.decode` of the `base64` crate (standard alphabet, padding required).
#[verifier::external_body]
fn base64_decode(data: &[u8]) -> (r: Option<Vec<u8>>)
    ensures
        match r {
            Some(b) => base64_standard_decoding(data@) == Some(b@),
            None => base64_standard_decoding(data@) is None,
        },
{
    base64::engine::general_purpose::STANDARD.decode(data).ok()
}

/// The `key` string of a property list stored as bytes.
pub open spec fn key_in_bytes(bytes: Seq<u8>, key: Seq<char>) -> Option<Seq<char>> {
    match plist_decoding(bytes) {
        Some(t) => find_key(t, key),
        None => None,
    }
}

/// The `key` string named by a wallpaper choice's `Configuration`: searched directly in
/// a dictionary or array; decoded from data; from a string, decoded as a property list,
/// or else as base64 of a property list.
pub open spec fn configuration_key_spec(t: PlistTree, key: Seq<char>) -> Option<Seq<char>> {
    match t {
        PlistTree::Dictionary(_) => find_key(t, key),
        PlistTree::Array(_) => find_key(t, key),
        PlistTree::Data(b) => key_in_bytes(b, key),
        PlistTree::String(s) => or_else(
            key_in_bytes(vstd::utf8::encode_utf8(s), key),
            match base64_standard_decoding(vstd::utf8::encode_utf8(s)) {
                Some(b) => key_in_bytes(b, key),
                None => None,
            },
        ),
        _ => None,
    }
}

/// The Aerial asset named by a wallpaper choice's `Configuration` (see
/// [`configuration_key_spec`]).
pub open spec fn asset_id_from_configuration_spec(t: PlistTree) -> Option<Seq<char>> {
    configuration_key_spec(t, "assetID"@)
}

fn key_from_plist_bytes(bytes: &[u8], key: &str) -> (r: Option<String>)
    ensures
        opt_chars(r) == key_in_bytes(bytes@, key@),
{
    match decode_plist(bytes) {
        Some(v) => find_string_key(&v, key),
        None => None,
    }
}

fn key_from_configuration(value: &PlistValue, key: &str) -> (r: Option<String>)
    ensures
        opt_chars(r) == configuration_key_spec(value.tree(), key@),
{
    match value {
        PlistValue::Dictionary(_) | PlistValue::Array(_) => find_string_key(value, key),
        PlistValue::Data(bytes) => key_from_plist_bytes(bytes.as_slice(), key),
        PlistValue::String(raw) => {
            let bytes = raw.as_str().as_bytes();
            if let Some(id) = key_from_plist_bytes(bytes, key) {
                return Some(id);
            }
            match base64_decode(bytes) {
                Some(decoded) => key_from_plist_bytes(decoded.as_slice(), key),
                None => None,
            }
        },
        _ => None,
    }
}

/// The `key` string named by the configuration at the path, when there is one.
pub open spec fn config_key_at(t: PlistTree, top: Seq<char>, section: Seq<char>, key: Seq<char>) -> Option<
    Seq<char>,
> {
    match get_path_spec(t, choice_path(top, section, "Configuration"@)) {
        Some(c) => configuration_key_spec(c, key),
        None => None,
    }
}

/// The asset named by the configuration at the path, when there is one.
pub open spec fn config_asset_at(t: PlistTree, top: Seq<char>, section: Seq<char>) -> Option<
    Seq<char>,
> {
    config_key_at(t, top, section, "assetID"@)
}

/// The Aerial asset of a profile: from the configuration of the first wallpaper choice
/// (same sections and order as for the provider), else the first `assetID` string anywhere.
pub open spec fn aerial_asset_id_spec(t: PlistTree) -> Option<Seq<char>> {
    or_else(
        config_asset_at(t, "AllSpacesAndDisplays"@, "Linked"@),
        or_else(
            config_asset_at(t, "AllSpacesAndDisplays"@, "Desktop"@),
            or_else(
                config_asset_at(t, "SystemDefault"@, "Linked"@),
                or_else(config_asset_at(t, "SystemDefault"@, "Desktop"@), find_key(t, "assetID"@)),
            ),
        ),
    )
}

fn config_key(value: &PlistValue, top: &str, section: &str, key: &str) -> (r: Option<String>)
    ensures
        opt_chars(r) == config_key_at(value.tree(), top@, section@, key@),
{
    let mut path: Vec<&str> = Vec::new();
    path.push(top);
    path.push(section);
    path.push("Content");
    path.push("Choices");
    path.push("0");
    path.push("Configuration");
    assert(path_chars(path@) =~= choice_path(top@, section@, "Configuration"@));
    match get_path(value, path.as_slice()) {
        Some(c) => key_from_configuration(c, key),
        None => None,
    }
}

/// The Aerial asset identifier of a profile, if it names one.
pub fn extract_aerial_asset_id(value: &PlistValue) -> (r: Option<String>)
    ensures
        opt_chars(r) == aerial_asset_id_spec(value.tree()),
{
    if let Some(id) = config_key(value, "AllSpacesAndDisplays", "Linked", "assetID") {
        return Some(id);
    }
    if let Some(id) = config_key(value, "AllSpacesAndDisplays", "Desktop", "assetID") {
        return Some(id);
    }
    if let Some(id) = config_key(value, "SystemDefault", "Linked", "assetID") {
        return Some(id);
    }
    if let Some(id) = config_key(value, "SystemDefault", "Desktop", "assetID") {
        return Some(id);
    }
    find_string_key(value, "assetID")
}

/// The `relative` URL of the first wallpaper choice's configuration (same sections and
/// order as for the provider), which points at a wallpaper descriptor.
pub open spec fn descriptor_url_spec(t: PlistTree) -> Option<Seq<char>> {
    or_else(
        config_key_at(t, "AllSpacesAndDisplays"@, "Linked"@, "relative"@),
        or_else(
            config_key_at(t, "AllSpacesAndDisplays"@, "Desktop"@, "relative"@),
            or_else(
                config_key_at(t, "SystemDefault"@, "Linked"@, "relative"@),
                config_key_at(t, "SystemDefault"@, "Desktop"@, "relative"@),
            ),
        ),
    )
}

/// The file of the wallpaper descriptor that the profile's configuration points at: the
/// path of a `file://` URL, percent-decoded, or the URL text itself.
pub open spec fn descriptor_path_spec(t: PlistTree) -> Option<Seq<char>> {
    match descriptor_url_spec(t) {
        Some(u) => Some(
            if crate::text::starts_with(u, "file://"@) {
                file_url_path(u.skip(7))
            } else {
                u
            },
        ),
        None => None,
    }
}

/// The wallpaper descriptor a profile's configuration points at, if any (see
/// [`descriptor_path_spec`]).
pub fn descriptor_path(value: &PlistValue) -> (r: Option<String>)
    ensures
        opt_chars(r) == descriptor_path_spec(value.tree()),
{
    let url = if let Some(u) = config_key(value, "AllSpacesAndDisplays", "Linked", "relative") {
        u
    } else if let Some(u) = config_key(value, "AllSpacesAndDisplays", "Desktop", "relative") {
        u
    } else if let Some(u) = config_key(value, "SystemDefault", "Linked", "relative") {
        u
    } else if let Some(u) = config_key(value, "SystemDefault", "Desktop", "relative") {
        u
    } else {
        return None;
    };
    let cs = crate::text::chars_of(url.as_str());
    match crate::text::strip_prefix_chars(&cs, &crate::text::chars_of("file://")) {
        Some(rest) => {
            proof {
                reveal_strlit("file://");
                assert(rest@ =~= url@.skip(7));
            }
            Some(percent_decode_file_url(crate::text::string_of(rest.as_slice()).as_str()))
        },
        None => Some(url),
    }
}


// ---------------------------------------------------------------------------
// Wallpaper sections
// ---------------------------------------------------------------------------
/// Keys whose values hold the wallpaper itself.
pub open spec fn is_section_key(k: Seq<char>) -> bool {
    k == "Desktop"@ || k == "Linked"@
}

/// Some dictionary inside `t` (or `t` itself) has a wallpaper-section key.
pub open spec fn contains_section(t: PlistTree) -> bool
    decreases t,
{
    match t {
        PlistTree::Dictionary(es) => section_in_entries(es),
        PlistTree::Array(items) => section_in_items(items),
        _ => false,
    }
}

pub open spec fn section_in_entries(es: Seq<(Seq<char>, PlistTree)>) -> bool
    decreases es,
{
    if es.len() == 0 {
        false
    } else {
        proof {
            assert(decreases_to!(es => es[es.len() - 1]));
            assert(decreases_to!(es[es.len() - 1] => es[es.len() - 1].1));
            assert(decreases_to!(es => es.subrange(0, es.len() - 1)));
        }
        section_in_entries(es.subrange(0, es.len() - 1)) || is_section_key(es[es.len() - 1].0)
            || contains_section(es[es.len() - 1].1)
    }
}

pub open spec fn section_in_items(items: Seq<PlistTree>) -> bool
    decreases items,
{
    if items.len() == 0 {
        false
    } else {
        proof {
            assert(decreases_to!(items => items[items.len() - 1]));
            assert(decreases_to!(items => items.subrange(0, items.len() - 1)));
        }
        section_in_items(items.subrange(0, items.len() - 1)) || contains_section(
            items[items.len() - 1],
        )
    }
}

/// The wallpaper sections of `t`, with the dictionaries and arrays that lead to them;
/// a value with no dictionary or array shape gives an empty dictionary.
pub open spec fn extract_sections(t: PlistTree) -> PlistTree
    decreases t,
{
    match t {
        PlistTree::Dictionary(es) => PlistTree::Dictionary(extract_entries(es)),
        PlistTree::Array(items) => PlistTree::Array(extract_items(items)),
        _ => PlistTree::Dictionary(Seq::empty()),
    }
}

pub open spec fn extract_entries(es: Seq<(Seq<char>, PlistTree)>) -> Seq<(Seq<char>, PlistTree)>
    decreases es,
{
    if es.len() == 0 {
        Seq::empty()
    } else {
        proof {
            assert(decreases_to!(es => es[es.len() - 1]));
            assert(decreases_to!(es[es.len() - 1] => es[es.len() - 1].1));
            assert(decreases_to!(es => es.subrange(0, es.len() - 1)));
        }
        let acc = extract_entries(es.subrange(0, es.len() - 1));
        let e = es[es.len() - 1];
        if is_section_key(e.0) {
            crate::plist_tree::dict_insert(acc, e.0, e.1)
        } else if contains_section(e.1) {
            crate::plist_tree::dict_insert(acc, e.0, extract_sections(e.1))
        } else {
            acc
        }
    }
}

pub open spec fn extract_items(items: Seq<PlistTree>) -> Seq<PlistTree>
    decreases items,
{
    if items.len() == 0 {
        Seq::empty()
    } else {
        proof {
            assert(decreases_to!(items => items[items.len() - 1]));
            assert(decreases_to!(items => items.subrange(0, items.len() - 1)));
        }
        let acc = extract_items(items.subrange(0, items.len() - 1));
        let last = items[items.len() - 1];
        if contains_section(last) {
            acc.push(extract_sections(last))
        } else {
            acc
        }
    }
}

fn section_key(k: &str) -> (r: bool)
    ensures
        r == is_section_key(k@),
{
    crate::text::str_eq(k, "Desktop") || crate::text::str_eq(k, "Linked")
}

proof fn lemma_prefix_step<A>(s: Seq<A>, i: int)
    requires
        0 <= i < s.len(),
    ensures
        s.subrange(0, i + 1).subrange(0, i) == s.subrange(0, i),
        s.subrange(0, i + 1)[i] == s[i],
        s.subrange(0, i + 1).len() == i + 1,
{
    assert(s.subrange(0, i + 1).subrange(0, i) =~= s.subrange(0, i));
}

/// Whether the value holds a wallpaper section anywhere.
pub fn contains_wallpaper_section(value: &PlistValue) -> (r: bool)
    ensures
        r == contains_section(value.tree()),
    decreases value,
{
    match value {
        PlistValue::Dictionary(d) => {
            proof {
                lemma_dict_tree(d);
            }
            let ghost es = d.model();
            let mut i: usize = 0;
            while i < d.entries.len()
                invariant
                    *value == PlistValue::Dictionary(*d),
                    es == d.model(),
                    value.tree() == PlistTree::Dictionary(es),
                    i <= d.entries@.len(),
                    !section_in_entries(es.subrange(0, i as int)),
                decreases d.entries.len() - i,
            {
                proof {
                    lemma_dict_child_decreases(*value, *d, i as int);
                    lemma_prefix_step(es, i as int);
                }
                if section_key(d.entries[i].0.as_str()) || contains_wallpaper_section(&d.entries[i].1) {
                    proof {
                        lemma_section_entries_prefix(es, i + 1);
                    }
                    return true;
                }
                i += 1;
            }
            assert(es.subrange(0, es.len() as int) =~= es);
            false
        },
        PlistValue::Array(items) => {
            proof {
                lemma_array_tree(items);
            }
            let ghost ts = trees(items@);
            let mut i: usize = 0;
            while i < items.len()
                invariant
                    *value == PlistValue::Array(*items),
                    ts == trees(items@),
                    value.tree() == PlistTree::Array(ts),
                    i <= items@.len(),
                    !section_in_items(ts.subrange(0, i as int)),
                decreases items.len() - i,
            {
                proof {
                    lemma_array_child_decreases(*value, *items, i as int);
                    lemma_prefix_step(ts, i as int);
                }
                if contains_wallpaper_section(&items[i]) {
                    proof {
                        lemma_section_items_prefix(ts, i + 1);
                    }
                    return true;
                }
                i += 1;
            }
            assert(ts.subrange(0, ts.len() as int) =~= ts);
            false
        },
        _ => false,
    }
}

proof fn lemma_section_entries_prefix(es: Seq<(Seq<char>, PlistTree)>, k: int)
    requires
        0 <= k <= es.len(),
        section_in_entries(es.subrange(0, k)),
    ensures
        section_in_entries(es),
    decreases es.len() - k,
{
    if k == es.len() {
        assert(es.subrange(0, k) =~= es);
    } else {
        lemma_prefix_step(es, k);
        lemma_section_entries_prefix(es, k + 1);
    }
}

proof fn lemma_section_items_prefix(items: Seq<PlistTree>, k: int)
    requires
        0 <= k <= items.len(),
        section_in_items(items.subrange(0, k)),
    ensures
        section_in_items(items),
    decreases items.len() - k,
{
    if k == items.len() {
        assert(items.subrange(0, k) =~= items);
    } else {
        lemma_prefix_step(items, k);
        lemma_section_items_prefix(items, k + 1);
    }
}

/// The wallpaper sections of a value (see [`extract_sections`]).
pub fn extract_wallpaper_sections(value: &PlistValue) -> (r: PlistValue)
    ensures
        r.tree() == extract_sections(value.tree()),
    decreases value,
{
    match value {
        PlistValue::Dictionary(d) => {
            proof {
                lemma_dict_tree(d);
            }
            let ghost es = d.model();
            let mut target = PlistDict::new();
            let mut i: usize = 0;
            while i < d.entries.len()
                invariant
                    *value == PlistValue::Dictionary(*d),
                    es == d.model(),
                    value.tree() == PlistTree::Dictionary(es),
                    i <= d.entries@.len(),
                    target.model() == extract_entries(es.subrange(0, i as int)),
                decreases d.entries.len() - i,
            {
                proof {
                    lemma_dict_child_decreases(*value, *d, i as int);
                    lemma_prefix_step(es, i as int);
                }
                let key = &d.entries[i].0;
                let child = &d.entries[i].1;
                if section_key(key.as_str()) {
                    target.insert(key.clone(), crate::plist_tree::clone_value(child));
                } else if contains_wallpaper_section(child) {
                    target.insert(key.clone(), extract_wallpaper_sections(child));
                }
                i += 1;
            }
            assert(es.subrange(0, es.len() as int) =~= es);
            let r = PlistValue::Dictionary(target);
            proof {
                lemma_dict_tree(&target);
            }
            r
        },
        PlistValue::Array(items) => {
            proof {
                lemma_array_tree(items);
            }
            let ghost ts = trees(items@);
            let mut out: Vec<PlistValue> = Vec::new();
            let mut i: usize = 0;
            while i < items.len()
                invariant
                    *value == PlistValue::Array(*items),
                    ts == trees(items@),
                    value.tree() == PlistTree::Array(ts),
                    i <= items@.len(),
                    trees(out@) == extract_items(ts.subrange(0, i as int)),
                decreases items.len() - i,
            {
                proof {
                    lemma_array_child_decreases(*value, *items, i as int);
                    lemma_prefix_step(ts, i as int);
                }
                if contains_wallpaper_section(&items[i]) {
                    let e = extract_wallpaper_sections(&items[i]);
                    let ghost before = out@;
                    out.push(e);
                    proof {
                        assert(trees(out@) =~= trees(before).push(e.tree()));
                    }
                }
                i += 1;
            }
            assert(ts.subrange(0, ts.len() as int) =~= ts);
            proof {
                lemma_array_tree(&out);
            }
            PlistValue::Array(out)
        },
        _ => {
            let d = PlistDict::new();
            proof {
                lemma_dict_tree(&d);
            }
            PlistValue::Dictionary(d)
        },
    }
}


// ---------------------------------------------------------------------------
// Volatile fields
// ---------------------------------------------------------------------------
/// `t` without the `LastSet` and `LastUse` timestamps, at every depth.
pub open spec fn strip_volatile(t: PlistTree) -> PlistTree
    decreases t,
{
    match t {
        PlistTree::Dictionary(es) => PlistTree::Dictionary(
            crate::plist_tree::dict_remove(
                crate::plist_tree::dict_remove(strip_entries(es), "LastSet"@),
                "LastUse"@,
            ),
        ),
        PlistTree::Array(items) => PlistTree::Array(strip_items(items)),
        _ => t,
    }
}

pub open spec fn strip_entries(es: Seq<(Seq<char>, PlistTree)>) -> Seq<(Seq<char>, PlistTree)>
    decreases es,
{
    if es.len() == 0 {
        Seq::empty()
    } else {
        proof {
            assert(decreases_to!(es => es[es.len() - 1]));
            assert(decreases_to!(es[es.len() - 1] => es[es.len() - 1].1));
            assert(decreases_to!(es => es.subrange(0, es.len() - 1)));
        }
        strip_entries(es.subrange(0, es.len() - 1)).push(
            (es[es.len() - 1].0, strip_volatile(es[es.len() - 1].1)),
        )
    }
}

pub open spec fn strip_items(items: Seq<PlistTree>) -> Seq<PlistTree>
    decreases items,
{
    if items.len() == 0 {
        Seq::empty()
    } else {
        proof {
            assert(decreases_to!(items => items[items.len() - 1]));
            assert(decreases_to!(items => items.subrange(0, items.len() - 1)));
        }
        strip_items(items.subrange(0, items.len() - 1)).push(strip_volatile(items[items.len() - 1]))
    }
}

/// A copy of the value without the `LastSet` and `LastUse` timestamps.
pub fn strip_volatile_wallpaper_fields(value: &PlistValue) -> (r: PlistValue)
    ensures
        r.tree() == strip_volatile(value.tree()),
    decreases value,
{
    match value {
        PlistValue::Dictionary(d) => {
            proof {
                lemma_dict_tree(d);
            }
            let ghost es = d.model();
            let mut out: Vec<(String, PlistValue)> = Vec::new();
            let mut i: usize = 0;
            while i < d.entries.len()
                invariant
                    *value == PlistValue::Dictionary(*d),
                    es == d.model(),
                    value.tree() == PlistTree::Dictionary(es),
                    i <= d.entries@.len(),
                    crate::plist_tree::entry_trees(out@) == strip_entries(es.subrange(0, i as int)),
                decreases d.entries.len() - i,
            {
                proof {
                    lemma_dict_child_decreases(*value, *d, i as int);
                    lemma_prefix_step(es, i as int);
                }
                let stripped = strip_volatile_wallpaper_fields(&d.entries[i].1);
                let ghost before = out@;
                out.push((d.entries[i].0.clone(), stripped));
                proof {
                    assert(crate::plist_tree::entry_trees(out@) =~= crate::plist_tree::entry_trees(
                        before,
                    ).push((d.entries@[i as int].0@, stripped.tree())));
                }
                i += 1;
            }
            assert(es.subrange(0, es.len() as int) =~= es);
            let mut nd = PlistDict { entries: out };
            nd.remove("LastSet");
            nd.remove("LastUse");
            proof {
                lemma_dict_tree(&nd);
            }
            PlistValue::Dictionary(nd)
        },
        PlistValue::Array(items) => {
            proof {
                lemma_array_tree(items);
            }
            let ghost ts = trees(items@);
            let mut out: Vec<PlistValue> = Vec::new();
            let mut i: usize = 0;
            while i < items.len()
                invariant
                    *value == PlistValue::Array(*items),
                    ts == trees(items@),
                    value.tree() == PlistTree::Array(ts),
                    i <= items@.len(),
                    trees(out@) == strip_items(ts.subrange(0, i as int)),
                decreases items.len() - i,
            {
                proof {
                    lemma_array_child_decreases(*value, *items, i as int);
                    lemma_prefix_step(ts, i as int);
                }
                let stripped = strip_volatile_wallpaper_fields(&items[i]);
                let ghost before = out@;
                out.push(stripped);
                proof {
                    assert(trees(out@) =~= trees(before).push(stripped.tree()));
                }
                i += 1;
            }
            assert(ts.subrange(0, ts.len() as int) =~= ts);
            proof {
                lemma_array_tree(&out);
            }
            PlistValue::Array(out)
        },
        _ => crate::plist_tree::clone_value(value),
    }
}

// ---------------------------------------------------------------------------
// Copying wallpaper sections into a live value
// ---------------------------------------------------------------------------
/// `target` with the wallpaper sections of `source` copied in: section keys of
/// `source` replace the target's values; other keys are followed where the target has
/// them, and otherwise added with only their wallpaper sections. Arrays are matched by
/// position. Where the shapes differ, `target` is kept.
pub open spec fn copy_sections(source: PlistTree, target: PlistTree) -> PlistTree
    decreases source,
{
    match source {
        PlistTree::Dictionary(ses) => match target {
            PlistTree::Dictionary(tes) => PlistTree::Dictionary(copy_entries(ses, tes)),
            _ => target,
        },
        PlistTree::Array(sis) => match target {
            PlistTree::Array(tis) => PlistTree::Array(copy_items(sis, tis)),
            _ => target,
        },
        _ => target,
    }
}

pub open spec fn copy_entries(
    ses: Seq<(Seq<char>, PlistTree)>,
    tes: Seq<(Seq<char>, PlistTree)>,
) -> Seq<(Seq<char>, PlistTree)>
    decreases ses,
{
    if ses.len() == 0 {
        tes
    } else {
        proof {
            assert(decreases_to!(ses => ses[ses.len() - 1]));
            assert(decreases_to!(ses[ses.len() - 1] => ses[ses.len() - 1].1));
            assert(decreases_to!(ses => ses.subrange(0, ses.len() - 1)));
        }
        let acc = copy_entries(ses.subrange(0, ses.len() - 1), tes);
        let e = ses[ses.len() - 1];
        if is_section_key(e.0) {
            crate::plist_tree::dict_insert(acc, e.0, e.1)
        } else {
            match dict_get(acc, e.0) {
                Some(tv) => crate::plist_tree::dict_insert(acc, e.0, copy_sections(e.1, tv)),
                None => if contains_section(e.1) {
                    crate::plist_tree::dict_insert(acc, e.0, extract_sections(e.1))
                } else {
                    acc
                },
            }
        }
    }
}

pub open spec fn copy_items(sis: Seq<PlistTree>, tis: Seq<PlistTree>) -> Seq<PlistTree>
    decreases sis,
{
    if sis.len() == 0 {
        tis
    } else {
        proof {
            assert(decreases_to!(sis => sis[sis.len() - 1]));
            assert(decreases_to!(sis => sis.subrange(0, sis.len() - 1)));
        }
        let acc = copy_items(sis.subrange(0, sis.len() - 1), tis);
        let idx = sis.len() - 1;
        let sv = sis[idx];
        if idx < acc.len() {
            acc.update(idx, copy_sections(sv, acc[idx]))
        } else if contains_section(sv) {
            acc.push(extract_sections(sv))
        } else {
            acc
        }
    }
}


/// `target` with the wallpaper sections of `source` copied in (see [`copy_sections`]).
pub fn copy_wallpaper_sections(source: &PlistValue, target: PlistValue) -> (r: PlistValue)
    ensures
        r.tree() == copy_sections(source.tree(), target.tree()),
    decreases source,
{
    match source {
        PlistValue::Dictionary(sd) => {
            let mut td = match target {
                PlistValue::Dictionary(td) => td,
                other => {
                    proof {
                        lemma_dict_tree(sd);
                    }
                    return other;
                },
            };
            proof {
                lemma_dict_tree(sd);
                lemma_dict_tree(&td);
            }
            let ghost ses = sd.model();
            let ghost tes = td.model();
            let mut i: usize = 0;
            while i < sd.entries.len()
                invariant
                    *source == PlistValue::Dictionary(*sd),
                    ses == sd.model(),
                    source.tree() == PlistTree::Dictionary(ses),
                    i <= sd.entries@.len(),
                    td.model() == copy_entries(ses.subrange(0, i as int), tes),
                decreases sd.entries.len() - i,
            {
                proof {
                    lemma_dict_child_decreases(*source, *sd, i as int);
                    lemma_prefix_step(ses, i as int);
                }
                let key = &sd.entries[i].0;
                let sv = &sd.entries[i].1;
                if section_key(key.as_str()) {
                    td.insert(key.clone(), crate::plist_tree::clone_value(sv));
                } else {
                    match td.position(key.as_str()) {
                        Some(p) => {
                            let tv = crate::plist_tree::clone_value(&td.entries[p].1);
                            proof {
                                assert(td.model()[p as int].1 == td.entries@[p as int].1.tree());
                            }
                            let nv = copy_wallpaper_sections(sv, tv);
                            td.insert(key.clone(), nv);
                        },
                        None => {
                            if contains_wallpaper_section(sv) {
                                td.insert(key.clone(), extract_wallpaper_sections(sv));
                            }
                        },
                    }
                }
                i += 1;
            }
            assert(ses.subrange(0, ses.len() as int) =~= ses);
            proof {
                lemma_dict_tree(&td);
            }
            PlistValue::Dictionary(td)
        },
        PlistValue::Array(sitems) => {
            let mut tv = match target {
                PlistValue::Array(tv) => tv,
                other => {
                    return other;
                },
            };
            proof {
                lemma_array_tree(sitems);
                lemma_array_tree(&tv);
            }
            let ghost sis = trees(sitems@);
            let ghost tis = trees(tv@);
            let mut i: usize = 0;
            while i < sitems.len()
                invariant
                    *source == PlistValue::Array(*sitems),
                    sis == trees(sitems@),
                    source.tree() == PlistTree::Array(sis),
                    i <= sitems@.len(),
                    trees(tv@) == copy_items(sis.subrange(0, i as int), tis),
                decreases sitems.len() - i,
            {
                proof {
                    lemma_array_child_decreases(*source, *sitems, i as int);
                    lemma_prefix_step(sis, i as int);
                }
                let ghost before = tv@;
                if i < tv.len() {
                    let mut tmp = PlistValue::Boolean(false);
                    tv.set_and_swap(i, &mut tmp);
                    let nv = copy_wallpaper_sections(&sitems[i], tmp);
                    tv.set(i, nv);
                    proof {
                        assert(trees(tv@) =~= trees(before).update(i as int, nv.tree()));
                    }
                } else if contains_wallpaper_section(&sitems[i]) {
                    let e = extract_wallpaper_sections(&sitems[i]);
                    tv.push(e);
                    proof {
                        assert(trees(tv@) =~= trees(before).push(e.tree()));
                    }
                }
                i += 1;
            }
            assert(sis.subrange(0, sis.len() as int) =~= sis);
            proof {
                lemma_array_tree(&tv);
            }
            PlistValue::Array(tv)
        },
        _ => target,
    }
}

/// The part of a profile that an apply mode controls: all of it for `FullProfile`,
/// its wallpaper sections otherwise.
pub open spec fn controlled_spec(t: PlistTree, mode: ApplyMode) -> PlistTree {
    match mode {
        ApplyMode::FullProfile => t,
        _ => extract_sections(t),
    }
}

/// The value to write when a profile is applied over the live value: the profile itself
/// for `FullProfile`; otherwise the live value (or, without one, the profile) with the
/// profile's wallpaper sections copied in.
pub open spec fn merge_spec(profile: PlistTree, live: Option<PlistTree>, mode: ApplyMode) -> PlistTree {
    match mode {
        ApplyMode::FullProfile => profile,
        _ => copy_sections(
            profile,
            match live {
                Some(l) => l,
                None => profile,
            },
        ),
    }
}

/// The part of the profile that the mode controls (see [`controlled_spec`]).
pub fn controlled_value(value: &PlistValue, mode: ApplyMode) -> (r: PlistValue)
    ensures
        r.tree() == controlled_spec(value.tree(), mode),
{
    match mode {
        ApplyMode::FullProfile => crate::plist_tree::clone_value(value),
        ApplyMode::WallpaperOnly | ApplyMode::Smart => extract_wallpaper_sections(value),
    }
}

/// The value to write when applying `profile` over `live` (see [`merge_spec`]).
pub fn merge_for_apply(profile: &PlistValue, live: Option<&PlistValue>, mode: ApplyMode) -> (r:
    PlistValue)
    ensures
        r.tree() == merge_spec(
            profile.tree(),
            match live {
                Some(l) => Some(l.tree()),
                None => None,
            },
            mode,
        ),
{
    match mode {
        ApplyMode::FullProfile => crate::plist_tree::clone_value(profile),
        ApplyMode::WallpaperOnly | ApplyMode::Smart => {
            let target = match live {
                Some(l) => crate::plist_tree::clone_value(l),
                None => crate::plist_tree::clone_value(profile),
            };
            copy_wallpaper_sections(profile, target)
        },
    }
}

// ---------------------------------------------------------------------------
// Fingerprints
// ---------------------------------------------------------------------------
/// Name for the SHA-256 digest that the `sha2` crate computes.
pub uninterp spec fn sha256(data: Seq<u8>) -> Seq<u8>;

/// Calls `sha2::Sha256::digest`: the SHA-256 digest of the data, 32 bytes long.
#[verifier::external_body]
fn sha256_digest(data: &[u8]) -> (r: Vec<u8>)
    ensures
        r@ == sha256(data@),
        r@.len() == 32,
{
    sha2::Sha256::digest(data).to_vec()
}

/// Lowercase hexadecimal digit for a value below 16.
pub open spec fn hex_digit(n: int) -> char {
    if n < 10 {
        (('0' as int) + n) as char
    } else {
        (('a' as int) + n - 10) as char
    }
}

/// Lowercase hexadecimal text of the bytes, two digits per byte.
pub open spec fn hex_lower(data: Seq<u8>) -> Seq<char>
    decreases data.len(),
{
    if data.len() == 0 {
        Seq::empty()
    } else {
        hex_lower(data.drop_last()) + seq![
            hex_digit(data.last() as int / 16),
            hex_digit(data.last() as int % 16),
        ]
    }
}

fn hex_char(n: u8) -> (r: char)
    requires
        n < 16,
    ensures
        r == hex_digit(n as int),
{
    if n < 10 {
        (48u8 + n) as char
    } else {
        (87u8 + n) as char
    }
}

/// Each byte as two lowercase hexadecimal digits (see [`hex_lower`]), as `hex::encode`
/// writes them.
fn hex_encode(data: &[u8]) -> (r: String)
    ensures
        r@ == hex_lower(data@),
{
    let mut out: Vec<char> = Vec::new();
    let mut i: usize = 0;
    while i < data.len()
        invariant
            i <= data@.len(),
            out@ == hex_lower(data@.subrange(0, i as int)),
        decreases data.len() - i,
    {
        let b = data[i];
        out.push(hex_char(b / 16));
        out.push(hex_char(b % 16));
        proof {
            let pre = data@.subrange(0, i + 1);
            assert(pre.drop_last() =~= data@.subrange(0, i as int));
            assert(pre.last() == b);
        }
        i += 1;
    }
    assert(data@.subrange(0, data@.len() as int) =~= data@);
    crate::text::string_of(out.as_slice())
}

/// What is fingerprinted: the controlled part without volatile timestamps.
pub open spec fn fingerprint_input(t: PlistTree, mode: ApplyMode) -> PlistTree {
    strip_volatile(controlled_spec(t, mode))
}

/// The fingerprint: hexadecimal SHA-256 of the binary property-list encoding of the
/// fingerprint input; `None` when the encoding fails.
pub open spec fn fingerprint_spec(t: PlistTree, mode: ApplyMode) -> Option<Seq<char>> {
    match crate::plist_tree::plist_binary_encoding(fingerprint_input(t, mode)) {
        Some(bytes) => Some(hex_lower(sha256(bytes))),
        None => None,
    }
}

/// The profile could not be encoded for fingerprinting.
#[derive(Clone, Copy, Debug, PartialEq, Eq)]
pub struct FingerprintError;

/// The fingerprint of what the mode controls in a profile (see [`fingerprint_spec`]).
pub fn fingerprint(value: &PlistValue, mode: ApplyMode) -> (r: Result<String, FingerprintError>)
    ensures
        match r {
            Ok(f) => fingerprint_spec(value.tree(), mode) == Some(f@),
            Err(_) => fingerprint_spec(value.tree(), mode) is None,
        },
{
    let controlled = controlled_value(value, mode);
    let stripped = strip_volatile_wallpaper_fields(&controlled);
    match crate::plist_tree::encode_binary(&stripped) {
        Some(bytes) => {
            let digest = sha256_digest(bytes.as_slice());
            Ok(hex_encode(digest.as_slice()))
        },
        None => Err(FingerprintError),
    }
}


// ---------------------------------------------------------------------------
// Local asset references
// ---------------------------------------------------------------------------
/// Value of a hexadecimal digit byte.
pub open spec fn hex_value_spec(b: u8) -> Option<u8> {
    if 0x30 <= b && b <= 0x39 {
        Some((b - 0x30) as u8)
    } else if 0x61 <= b && b <= 0x66 {
        Some((b - 0x61 + 10) as u8)
    } else if 0x41 <= b && b <= 0x46 {
        Some((b - 0x41 + 10) as u8)
    } else {
        None
    }
}

pub fn hex_value(b: u8) -> (r: Option<u8>)
    ensures
        r == hex_value_spec(b),
{
    if 0x30 <= b && b <= 0x39 {
        Some(b - 0x30)
    } else if 0x61 <= b && b <= 0x66 {
        Some(b - 0x61 + 10)
    } else if 0x41 <= b && b <= 0x46 {
        Some(b - 0x41 + 10)
    } else {
        None
    }
}

/// `%XX` escapes replaced by the byte they name; other bytes kept.
pub open spec fn percent_decode(b: Seq<u8>) -> Seq<u8>
    decreases b.len(),
{
    if b.len() == 0 {
        Seq::empty()
    } else if b[0] == 0x25 && 2 < b.len() && hex_value_spec(b[1]) is Some && hex_value_spec(b[2]) is Some {
        seq![(hex_value_spec(b[1])->0 * 16 + hex_value_spec(b[2])->0) as u8] + percent_decode(b.skip(3))
    } else {
        seq![b[0]] + percent_decode(b.skip(1))
    }
}

/// Name for what `String::from_utf8_lossy` gives for the bytes: invalid sequences become
/// U+FFFD.
pub uninterp spec fn utf8_lossy(bytes: Seq<u8>) -> Seq<char>;

/// Calls `String::from_utf8_lossy`; valid UTF-8 is decoded as it is.
#[verifier::external_body]
fn from_utf8_lossy(bytes: &[u8]) -> (r: String)
    ensures
        r@ == utf8_lossy(bytes@),
        vstd::utf8::valid_utf8(bytes@) ==> r@ == vstd::utf8::decode_utf8(bytes@),
{
    String::from_utf8_lossy(bytes).into_owned()
}

/// The path named by the rest of a `file://` URL.
pub open spec fn file_url_path(rest: Seq<char>) -> Seq<char> {
    utf8_lossy(percent_decode(vstd::utf8::encode_utf8(rest)))
}

/// Decodes the percent escapes of a `file://` URL's path.
pub fn percent_decode_file_url(raw: &str) -> (r: String)
    ensures
        r@ == file_url_path(raw@),
{
    let raw = raw.as_bytes();
    let ghost b = raw@;
    let mut bytes: Vec<u8> = Vec::new();
    let mut index: usize = 0;
    assert(b.skip(0) =~= b);
    while index < raw.len()
        invariant
            index <= raw@.len(),
            b == raw@,
            bytes@ + percent_decode(b.skip(index as int)) == percent_decode(b),
        decreases raw.len() - index,
    {
        let ghost rest = b.skip(index as int);
        if raw[index] == 0x25 && 2 < raw.len() - index {
            let high = hex_value(raw[index + 1]);
            let low = hex_value(raw[index + 2]);
            match (high, low) {
                (Some(h), Some(l)) => {
                    assert(rest[1] == raw@[index + 1] && rest[2] == raw@[index + 2]);
                    assert(rest.skip(3) =~= b.skip(index + 3));
                    let byte: u8 = h * 16 + l;
                    bytes.push(byte);
                    index += 3;
                    assert(bytes@ + percent_decode(b.skip(index as int)) =~= percent_decode(b));
                    continue;
                },
                _ => {},
            }
        }
        assert(rest.skip(1) =~= b.skip(index + 1));
        bytes.push(raw[index]);
        index += 1;
        assert(bytes@ + percent_decode(b.skip(index as int)) =~= percent_decode(b));
    }
    assert(b.skip(raw@.len() as int) =~= Seq::<u8>::empty());
    assert(bytes@ =~= percent_decode(b));
    from_utf8_lossy(bytes.as_slice())
}

// ---------------------------------------------------------------------------
// Profile summary
// ---------------------------------------------------------------------------
/// What the library reads from a profile.
pub struct ProfileInfo {
    pub provider: String,
    pub aerial_asset_id: Option<String>,
    /// The distinct local files that the profile references, in path order.
    pub file_references: Vec<String>,
}

/// Why a profile cannot be used.
#[derive(Clone, Copy, Debug, PartialEq, Eq, Structural)]
pub enum ProfileError {
    /// No wallpaper provider is named.
    NoWallpaperProvider,
    /// An Aerial profile does not name its asset.
    MissingAerialAssetId,
    /// The Aerial configuration could not be encoded.
    ConfigurationEncoding,
}

impl ProfileError {
    /// The message that describes the error.
    pub fn message(&self) -> (r: &'static str)
        ensures
            r@ == profile_error_message(*self),
    {
        match self {
            ProfileError::NoWallpaperProvider => "profile has no usable desktop wallpaper provider",
            ProfileError::MissingAerialAssetId => "Aerial profile is missing assetID",
            ProfileError::ConfigurationEncoding => "failed to serialize Aerial asset configuration",
        }
    }
}

pub open spec fn profile_error_message(e: ProfileError) -> Seq<char> {
    match e {
        ProfileError::NoWallpaperProvider => "profile has no usable desktop wallpaper provider"@,
        ProfileError::MissingAerialAssetId => "Aerial profile is missing assetID"@,
        ProfileError::ConfigurationEncoding => "failed to serialize Aerial asset configuration"@,
    }
}

/// `info` describes the profile `t`: its provider, its Aerial asset (looked for only
/// when the provider is the Aerial one) and its distinct file references in path order.
pub open spec fn describes(t: PlistTree, info: ProfileInfo) -> bool {
    &&& wallpaper_provider_spec(t) == Some(info.provider@)
    &&& opt_chars(info.aerial_asset_id) == (if info.provider@ == AERIAL_PROVIDER@ {
        aerial_asset_id_spec(t)
    } else {
        None
    })
    &&& sorted_distinct(ref_paths(t), strings_view(info.file_references@))
}

/// Reads the provider, the Aerial asset and the file references of a profile; fails
/// exactly when the profile names no usable provider.
pub fn analyze_profile(value: &PlistValue) -> (r: Result<ProfileInfo, ProfileError>)
    ensures
        match r {
            Ok(info) => describes(value.tree(), info),
            Err(e) => e == ProfileError::NoWallpaperProvider && wallpaper_provider_spec(
                value.tree(),
            ) is None,
        },
{
    let provider = match wallpaper_provider(value) {
        Some(p) => p,
        None => {
            return Err(ProfileError::NoWallpaperProvider);
        },
    };
    let aerial_asset_id = if crate::text::str_eq(provider.as_str(), AERIAL_PROVIDER) {
        extract_aerial_asset_id(value)
    } else {
        None
    };
    let refs = collect_file_references(value);
    let file_references = sorted_distinct_paths(&refs);
    Ok(ProfileInfo { provider, aerial_asset_id, file_references })
}

/// `analyze_profile`, failing also for an Aerial profile without its asset.
pub fn validate_profile(value: &PlistValue) -> (r: Result<ProfileInfo, ProfileError>)
    ensures
        match r {
            Ok(info) => describes(value.tree(), info) && !(info.provider@ == AERIAL_PROVIDER@
                && info.aerial_asset_id is None),
            Err(ProfileError::NoWallpaperProvider) => wallpaper_provider_spec(value.tree()) is None,
            Err(ProfileError::MissingAerialAssetId) => wallpaper_provider_spec(value.tree())
                == Some(AERIAL_PROVIDER@) && aerial_asset_id_spec(value.tree()) is None,
            Err(ProfileError::ConfigurationEncoding) => false,
        },
{
    let info = analyze_profile(value)?;
    if crate::text::str_eq(info.provider.as_str(), AERIAL_PROVIDER) && info.aerial_asset_id.is_none() {
        return Err(ProfileError::MissingAerialAssetId);
    }
    Ok(info)
}

/// The mode a requested mode stands for with this profile: `Smart` becomes
/// `FullProfile` for Aerial profiles and `WallpaperOnly` for the others.
pub open spec fn resolved_mode_spec(requested: ApplyMode, provider: Seq<char>) -> ApplyMode {
    match requested {
        ApplyMode::Smart => if provider == AERIAL_PROVIDER@ {
            ApplyMode::FullProfile
        } else {
            ApplyMode::WallpaperOnly
        },
        explicit => explicit,
    }
}

/// The mode to apply a profile with (see [`resolved_mode_spec`]).
pub fn resolved_apply_mode(requested: ApplyMode, info: &ProfileInfo) -> (r: ApplyMode)
    ensures
        r == resolved_mode_spec(requested, info.provider@),
{
    match requested {
        ApplyMode::Smart => {
            if crate::text::str_eq(info.provider.as_str(), AERIAL_PROVIDER) {
                ApplyMode::FullProfile
            } else {
                ApplyMode::WallpaperOnly
            }
        },
        ApplyMode::FullProfile => ApplyMode::FullProfile,
        ApplyMode::WallpaperOnly => ApplyMode::WallpaperOnly,
    }
}

// ---------------------------------------------------------------------------
// Promoting the default wallpaper to an explicit Aerial asset
// ---------------------------------------------------------------------------
/// The Aerial configuration that names one asset: a dictionary with `assetID`.
pub open spec fn aerial_configuration_tree(asset_id: Seq<char>) -> PlistTree {
    PlistTree::Dictionary(seq![("assetID"@, PlistTree::String(asset_id))])
}

/// The binary property list of the Aerial configuration for an asset (see
/// [`aerial_configuration_tree`]); `None` when the encoding fails.
pub fn aerial_configuration_data(asset_id: &str) -> (r: Option<Vec<u8>>)
    ensures
        match r {
            Some(b) => crate::plist_tree::plist_binary_encoding(aerial_configuration_tree(asset_id@))
                == Some(b@),
            None => crate::plist_tree::plist_binary_encoding(aerial_configuration_tree(asset_id@))
                is None,
        },
{
    let mut d = PlistDict::new();
    d.insert(crate::config::string_of_str("assetID"), PlistValue::String(crate::config::string_of_str(asset_id)));
    let v = PlistValue::Dictionary(d);
    proof {
        lemma_dict_tree(&d);
        assert(d.model() =~= seq![("assetID"@, PlistTree::String(asset_id@))]);
    }
    crate::plist_tree::encode_binary(&v)
}

/// A dictionary whose `Provider` is the default one.
pub open spec fn names_default_provider(es: Seq<(Seq<char>, PlistTree)>) -> bool {
    dict_get(es, "Provider"@) == Some(PlistTree::String(DEFAULT_PROVIDER@))
}

/// A dictionary that holds an `assetID` string; the walk does not go below it.
pub open spec fn holds_asset_id(es: Seq<(Seq<char>, PlistTree)>) -> bool {
    dict_get(es, "assetID"@) matches Some(PlistTree::String(_))
}

/// Keys that a promotion overwrites.
pub open spec fn is_promotion_key(k: Seq<char>) -> bool {
    k == "Provider"@ || k == "Configuration"@
}

/// `t` with every dictionary whose `Provider` is the default one switched to the Aerial
/// provider with configuration `conf`; the walk does not go below a dictionary that
/// holds an `assetID` string.
pub open spec fn promote_tree(t: PlistTree, conf: Seq<u8>) -> PlistTree
    decreases t,
{
    match t {
        PlistTree::Dictionary(es) => {
            let hit = names_default_provider(es);
            let walked = if holds_asset_id(es) {
                es
            } else {
                promote_entries(es, conf, hit)
            };
            PlistTree::Dictionary(
                if hit {
                    crate::plist_tree::dict_insert(
                        crate::plist_tree::dict_insert(
                            walked,
                            "Provider"@,
                            PlistTree::String(AERIAL_PROVIDER@),
                        ),
                        "Configuration"@,
                        PlistTree::Data(conf),
                    )
                } else {
                    walked
                },
            )
        },
        PlistTree::Array(items) => PlistTree::Array(promote_items(items, conf)),
        _ => t,
    }
}

/// The entries with their values promoted; with `hit`, the entries that the promotion
/// of this dictionary overwrites are left as they are.
pub open spec fn promote_entries(es: Seq<(Seq<char>, PlistTree)>, conf: Seq<u8>, hit: bool) -> Seq<
    (Seq<char>, PlistTree),
>
    decreases es,
{
    if es.len() == 0 {
        Seq::empty()
    } else {
        proof {
            assert(decreases_to!(es => es[es.len() - 1]));
            assert(decreases_to!(es[es.len() - 1] => es[es.len() - 1].1));
            assert(decreases_to!(es => es.subrange(0, es.len() - 1)));
        }
        let pre = promote_entries(es.subrange(0, es.len() - 1), conf, hit);
        let e = es[es.len() - 1];
        if hit && is_promotion_key(e.0) {
            pre.push(e)
        } else {
            pre.push((e.0, promote_tree(e.1, conf)))
        }
    }
}

pub open spec fn promote_items(items: Seq<PlistTree>, conf: Seq<u8>) -> Seq<PlistTree>
    decreases items,
{
    if items.len() == 0 {
        Seq::empty()
    } else {
        proof {
            assert(decreases_to!(items => items[items.len() - 1]));
            assert(decreases_to!(items => items.subrange(0, items.len() - 1)));
        }
        promote_items(items.subrange(0, items.len() - 1), conf).push(
            promote_tree(items[items.len() - 1], conf),
        )
    }
}

/// A count as a `usize` holds it: the count itself, or `usize::MAX` when it is larger.
pub open spec fn saturated(n: nat) -> usize {
    if n <= usize::MAX {
        n as usize
    } else {
        usize::MAX
    }
}

/// How many dictionaries [`promote_tree`] switches.
pub open spec fn promoted_count(t: PlistTree) -> nat
    decreases t,
{
    match t {
        PlistTree::Dictionary(es) => {
            let hit = names_default_provider(es);
            (if holds_asset_id(es) {
                0
            } else {
                promoted_in_entries(es, hit)
            }) + (if hit {
                1nat
            } else {
                0nat
            })
        },
        PlistTree::Array(items) => promoted_in_items(items),
        _ => 0,
    }
}

pub open spec fn promoted_in_entries(es: Seq<(Seq<char>, PlistTree)>, hit: bool) -> nat
    decreases es,
{
    if es.len() == 0 {
        0
    } else {
        proof {
            assert(decreases_to!(es => es[es.len() - 1]));
            assert(decreases_to!(es[es.len() - 1] => es[es.len() - 1].1));
            assert(decreases_to!(es => es.subrange(0, es.len() - 1)));
        }
        let pre = promoted_in_entries(es.subrange(0, es.len() - 1), hit);
        let e = es[es.len() - 1];
        if hit && is_promotion_key(e.0) {
            pre
        } else {
            pre + promoted_count(e.1)
        }
    }
}

pub open spec fn promoted_in_items(items: Seq<PlistTree>) -> nat
    decreases items,
{
    if items.len() == 0 {
        0
    } else {
        proof {
            assert(decreases_to!(items => items[items.len() - 1]));
            assert(decreases_to!(items => items.subrange(0, items.len() - 1)));
        }
        promoted_in_items(items.subrange(0, items.len() - 1)) + promoted_count(
            items[items.len() - 1],
        )
    }
}

fn is_promotion_key_str(k: &str) -> (r: bool)
    ensures
        r == is_promotion_key(k@),
{
    crate::text::str_eq(k, "Provider") || crate::text::str_eq(k, "Configuration")
}

fn promote_inner(value: &PlistValue, conf: &Vec<u8>) -> (r: (PlistValue, usize))
    ensures
        r.0.tree() == promote_tree(value.tree(), conf@),
        r.1 == saturated(promoted_count(value.tree())),
    decreases value,
{
    match value {
        PlistValue::Dictionary(d) => {
            proof {
                lemma_dict_tree(d);
            }
            let ghost es = d.model();
            let hit = match d.get("Provider") {
                Some(PlistValue::String(p)) => crate::text::str_eq(p.as_str(), DEFAULT_PROVIDER),
                _ => false,
            };
            let stop = match d.get("assetID") {
                Some(PlistValue::String(_)) => true,
                _ => false,
            };
            assert(hit == names_default_provider(es));
            assert(stop == holds_asset_id(es));
            let mut out: Vec<(String, PlistValue)> = Vec::new();
            let mut count: usize = 0;
            if !stop {
                let mut i: usize = 0;
                while i < d.entries.len()
                    invariant
                        *value == PlistValue::Dictionary(*d),
                        es == d.model(),
                        value.tree() == PlistTree::Dictionary(es),
                        hit == names_default_provider(es),
                        !holds_asset_id(es),
                        i <= d.entries@.len(),
                        crate::plist_tree::entry_trees(out@) == promote_entries(
                            es.subrange(0, i as int),
                            conf@,
                            hit,
                        ),
                        count == saturated(promoted_in_entries(es.subrange(0, i as int), hit)),
                    decreases d.entries.len() - i,
                {
                    proof {
                        lemma_dict_child_decreases(*value, *d, i as int);
                        lemma_prefix_step(es, i as int);
                    }
                    let ghost before = out@;
                    let key = d.entries[i].0.clone();
                    if hit && is_promotion_key_str(key.as_str()) {
                        out.push((key, crate::plist_tree::clone_value(&d.entries[i].1)));
                    } else {
                        let (child, n) = promote_inner(&d.entries[i].1, conf);
                        out.push((key, child));
                        count = count.saturating_add(n);
                    }
                    proof {
                        assert(crate::plist_tree::entry_trees(out@) =~= promote_entries(
                            es.subrange(0, i + 1),
                            conf@,
                            hit,
                        ));
                    }
                    i += 1;
                }
                assert(es.subrange(0, es.len() as int) =~= es);
            } else {
                let mut i: usize = 0;
                while i < d.entries.len()
                    invariant
                        es == d.model(),
                        i <= d.entries@.len(),
                        crate::plist_tree::entry_trees(out@) == es.subrange(0, i as int),
                    decreases d.entries.len() - i,
                {
                    let ghost before = out@;
                    let k = d.entries[i].0.clone();
                    let v = crate::plist_tree::clone_value(&d.entries[i].1);
                    out.push((k, v));
                    assert(crate::plist_tree::entry_trees(out@) =~= crate::plist_tree::entry_trees(
                        before,
                    ).push((d.entries@[i as int].0@, d.entries@[i as int].1.tree())));
                    assert(crate::plist_tree::entry_trees(out@) =~= es.subrange(0, i + 1));
                    i += 1;
                }
                assert(es.subrange(0, es.len() as int) =~= es);
            }
            let mut nd = PlistDict { entries: out };
            if hit {
                nd.insert(
                    crate::config::string_of_str("Provider"),
                    PlistValue::String(crate::config::string_of_str(AERIAL_PROVIDER)),
                );
                nd.insert(crate::config::string_of_str("Configuration"), PlistValue::Data(conf.clone()));
                count = count.saturating_add(1);
            }
            proof {
                lemma_dict_tree(&nd);
            }
            (PlistValue::Dictionary(nd), count)
        },
        PlistValue::Array(items) => {
            proof {
                lemma_array_tree(items);
            }
            let ghost ts = trees(items@);
            let mut out: Vec<PlistValue> = Vec::new();
            let mut count: usize = 0;
            let mut i: usize = 0;
            while i < items.len()
                invariant
                    *value == PlistValue::Array(*items),
                    ts == trees(items@),
                    value.tree() == PlistTree::Array(ts),
                    i <= items@.len(),
                    trees(out@) == promote_items(ts.subrange(0, i as int), conf@),
                    count == saturated(promoted_in_items(ts.subrange(0, i as int))),
                decreases items.len() - i,
            {
                proof {
                    lemma_array_child_decreases(*value, *items, i as int);
                    lemma_prefix_step(ts, i as int);
                }
                let ghost before = out@;
                let (child, n) = promote_inner(&items[i], conf);
                out.push(child);
                count = count.saturating_add(n);
                proof {
                    assert(trees(out@) =~= trees(before).push(child.tree()));
                }
                i += 1;
            }
            assert(ts.subrange(0, ts.len() as int) =~= ts);
            proof {
                lemma_array_tree(&out);
            }
            (PlistValue::Array(out), count)
        },
        _ => (crate::plist_tree::clone_value(value), 0),
    }
}

/// Switches every dictionary of the profile whose `Provider` is the default one to the
/// Aerial provider with a configuration that names `asset_id` (see [`promote_tree`]),
/// and returns how many were switched (`usize::MAX` standing for any larger count).
/// Fails only when the configuration cannot be encoded, and then leaves the profile as
/// it was.
pub fn promote_default_aerial_profile(value: &mut PlistValue, asset_id: &str) -> (r: Result<
    usize,
    ProfileError,
>)
    ensures
        match crate::plist_tree::plist_binary_encoding(aerial_configuration_tree(asset_id@)) {
            Some(conf) => r == Ok::<usize, ProfileError>(saturated(promoted_count(old(value).tree())))
                && final(value).tree() == promote_tree(old(value).tree(), conf),
            None => r == Err::<usize, ProfileError>(ProfileError::ConfigurationEncoding)
                && final(value).tree() == old(value).tree(),
        },
{
    let conf = match aerial_configuration_data(asset_id) {
        Some(c) => c,
        None => {
            return Err(ProfileError::ConfigurationEncoding);
        },
    };
    let (promoted, count) = promote_inner(value, &conf);
    *value = promoted;
    Ok(count)
}

} // verus!
