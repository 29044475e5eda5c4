//! Maps keyed by text, held as entry lists sorted by key (the order of `BTreeMap`
//! over `String`), with their view as a mathematical map.
use vstd::prelude::*;

use crate::fs_path::{compare_char_seqs, lemma_order_chars, order_chars};
use crate::text::chars_of;

verus! {

/// `a` comes before `b` in the order of strings.
pub open spec fn key_lt(a: Seq<char>, b: Seq<char>) -> bool {
    order_chars(a, b) < 0
}

/// Keys strictly increasing, so no key occurs twice.
pub open spec fn sorted_keys<T>(es: Seq<(String, T)>) -> bool {
    forall|i: int, j: int| 0 <= i < j < es.len() ==> key_lt((#[trigger] es[i]).0@, (#[trigger] es[j]).0@)
}

/// Some entry has key `k`.
pub open spec fn has_key<T>(es: Seq<(String, T)>, k: Seq<char>) -> bool {
    exists|i: int| 0 <= i < es.len() && (#[trigger] es[i]).0@ == k
}

/// The position of the entry with key `k`.
pub open spec fn key_pos<T>(es: Seq<(String, T)>, k: Seq<char>) -> int {
    choose|i: int| 0 <= i < es.len() && (#[trigger] es[i]).0@ == k
}

/// The entries as a map from key to the view of the value.
pub open spec fn key_map<T: View>(es: Seq<(String, T)>) -> Map<Seq<char>, T::V> {
    Map::new(|k: Seq<char>| has_key(es, k), |k: Seq<char>| es[key_pos(es, k)].1@)
}

pub proof fn lemma_sorted_unique<T>(es: Seq<(String, T)>, i: int, j: int)
    requires
        sorted_keys(es),
        0 <= i < es.len(),
        0 <= j < es.len(),
        es[i].0@ == es[j].0@,
    ensures
        i == j,
{
    if i < j {
        lemma_order_chars(es[i].0@, es[j].0@);
    } else if j < i {
        lemma_order_chars(es[j].0@, es[i].0@);
    }
}

/// The entry at a known position gives the map's value for its key.
pub proof fn lemma_key_map_at<T: View>(es: Seq<(String, T)>, i: int)
    requires
        sorted_keys(es),
        0 <= i < es.len(),
    ensures
        key_map(es).contains_key(es[i].0@),
        key_map(es)[es[i].0@] == es[i].1@,
{
    let k = es[i].0@;
    assert(has_key(es, k));
    let p = key_pos(es, k);
    lemma_sorted_unique(es, i, p);
}

/// Where a key is, or where it would go.
pub fn find_key<T>(es: &Vec<(String, T)>, k: &str) -> (r: Result<usize, usize>)
    requires
        sorted_keys(es@),
    ensures
        match r {
            Ok(i) => i < es@.len() && es@[i as int].0@ == k@,
            Err(i) => i <= es@.len() && (forall|j: int| 0 <= j < i ==> key_lt((#[trigger] es@[j]).0@, k@))
                && (forall|j: int| i <= j < es@.len() ==> key_lt(k@, (#[trigger] es@[j]).0@)),
        },
        r is Err <==> !has_key(es@, k@),
{
    let kc = chars_of(k);
    let mut i: usize = 0;
    while i < es.len()
        invariant
            i <= es@.len(),
            kc@ == k@,
            sorted_keys(es@),
            forall|j: int| 0 <= j < i ==> key_lt((#[trigger] es@[j]).0@, k@),
        decreases es.len() - i,
    {
        let c = compare_char_seqs(&chars_of(es[i].0.as_str()), &kc);
        proof {
            lemma_order_chars(es@[i as int].0@, k@);
        }
        if c == 0 {
            return Ok(i);
        }
        if c > 0 {
            proof {
                assert forall|j: int| i <= j < es@.len() implies key_lt(k@, (#[trigger] es@[j]).0@) by {
                    if j > i {
                        crate::fs_path::lemma_order_chars_trans(k@, es@[i as int].0@, es@[j].0@);
                    }
                }
                if has_key(es@, k@) {
                    let w = choose|w: int| 0 <= w < es@.len() && (#[trigger] es@[w]).0@ == k@;
                    lemma_order_chars(k@, k@);
                    if w < i {
                        assert(key_lt(es@[w].0@, k@));
                    } else {
                        assert(key_lt(k@, es@[w].0@));
                    }
                }
            }
            return Err(i);
        }
        i += 1;
    }
    proof {
        if has_key(es@, k@) {
            let w = choose|w: int| 0 <= w < es@.len() && (#[trigger] es@[w]).0@ == k@;
            lemma_order_chars(k@, k@);
            assert(key_lt(es@[w].0@, k@));
        }
    }
    Err(i)
}

/// Replacing the value at a position keeps the keys sorted and stores the new value
/// under that key.
pub proof fn lemma_set_value<T: View>(es: Seq<(String, T)>, i: int, v: T)
    requires
        sorted_keys(es),
        0 <= i < es.len(),
    ensures
        sorted_keys(es.update(i, (es[i].0, v))),
        key_map(es.update(i, (es[i].0, v))) == key_map(es).insert(es[i].0@, v@),
{
    let u = es.update(i, (es[i].0, v));
    let k = es[i].0@;
    assert forall|a: int, b: int| 0 <= a < b < u.len() implies key_lt((#[trigger] u[a]).0@, (#[trigger] u[b]).0@) by {
        assert(u[a].0 == es[a].0 && u[b].0 == es[b].0);
    }
    assert forall|x: Seq<char>| #[trigger] key_map(u).contains_key(x) == key_map(es).insert(k, v@).contains_key(x) by {
        if has_key(u, x) {
            let w = choose|w: int| 0 <= w < u.len() && (#[trigger] u[w]).0@ == x;
            assert(es[w].0@ == x);
        }
        if has_key(es, x) {
            let w = choose|w: int| 0 <= w < es.len() && (#[trigger] es[w]).0@ == x;
            assert(u[w].0@ == x);
        }
    }
    assert forall|x: Seq<char>| key_map(u).contains_key(x) implies #[trigger] key_map(u)[x] == key_map(es).insert(k, v@)[x] by {
        let w = key_pos(u, x);
        assert(es[w].0@ == x);
        lemma_key_map_at(u, w);
        if w == i {
        } else {
            lemma_key_map_at(es, w);
            if x == k {
                lemma_sorted_unique(es, w, i);
            }
        }
    }
    assert(key_map(u) =~= key_map(es).insert(k, v@));
}

/// Inserting a new key where `find_key` said it goes keeps the keys sorted and adds
/// the entry to the map.
pub proof fn lemma_insert_entry<T: View>(es: Seq<(String, T)>, i: int, key: String, v: T)
    requires
        sorted_keys(es),
        0 <= i <= es.len(),
        forall|j: int| 0 <= j < i ==> key_lt((#[trigger] es[j]).0@, key@),
        forall|j: int| i <= j < es.len() ==> key_lt(key@, (#[trigger] es[j]).0@),
    ensures
        sorted_keys(es.insert(i, (key, v))),
        key_map(es.insert(i, (key, v))) == key_map(es).insert(key@, v@),
{
    let u = es.insert(i, (key, v));
    let k = key@;
    es.insert_ensures(i, (key, v));
    assert forall|a: int, b: int| 0 <= a < b < u.len() implies key_lt((#[trigger] u[a]).0@, (#[trigger] u[b]).0@) by {
        if b < i {
            assert(u[a] == es[a] && u[b] == es[b]);
        } else if b == i {
            assert(u[a] == es[a]);
        } else if a == i {
            assert(u[b] == es[b - 1]);
        } else if a < i {
            assert(u[a] == es[a] && u[b] == es[b - 1]);
        } else {
            assert(u[a] == es[a - 1] && u[b] == es[b - 1]);
        }
    }
    assert forall|x: Seq<char>| #[trigger] key_map(u).contains_key(x) == key_map(es).insert(k, v@).contains_key(x) by {
        if has_key(u, x) {
            let w = choose|w: int| 0 <= w < u.len() && (#[trigger] u[w]).0@ == x;
            if w < i {
                assert(u[w] == es[w]);
            } else if w > i {
                assert(u[w] == es[w - 1]);
            }
        }
        if has_key(es, x) {
            let w = choose|w: int| 0 <= w < es.len() && (#[trigger] es[w]).0@ == x;
            if w < i {
                assert(u[w] == es[w]);
            } else {
                assert(u[w + 1] == es[w]);
            }
        }
    }
    assert forall|x: Seq<char>| key_map(u).contains_key(x) implies #[trigger] key_map(u)[x] == key_map(es).insert(k, v@)[x] by {
        let w = key_pos(u, x);
        lemma_key_map_at(u, w);
        if w < i {
            assert(u[w] == es[w]);
            lemma_key_map_at(es, w);
            lemma_order_chars(es[w].0@, k);
        } else if w > i {
            assert(u[w] == es[w - 1]);
            lemma_key_map_at(es, w - 1);
            lemma_order_chars(k, es[w - 1].0@);
        }
    }
    assert(key_map(u) =~= key_map(es).insert(k, v@));
}

/// Removing the entry at a position keeps the keys sorted and removes its key.
pub proof fn lemma_remove_entry<T: View>(es: Seq<(String, T)>, i: int)
    requires
        sorted_keys(es),
        0 <= i < es.len(),
    ensures
        sorted_keys(es.remove(i)),
        key_map(es.remove(i)) == key_map(es).remove(es[i].0@),
{
    let u = es.remove(i);
    let k = es[i].0@;
    es.remove_ensures(i);
    assert forall|a: int, b: int| 0 <= a < b < u.len() implies key_lt((#[trigger] u[a]).0@, (#[trigger] u[b]).0@) by {
        if b < i {
            assert(u[a] == es[a] && u[b] == es[b]);
        } else if a < i {
            assert(u[a] == es[a] && u[b] == es[b + 1]);
        } else {
            assert(u[a] == es[a + 1] && u[b] == es[b + 1]);
        }
    }
    assert forall|x: Seq<char>| #[trigger] key_map(u).contains_key(x) == key_map(es).remove(k).contains_key(x) by {
        if has_key(u, x) {
            let w = choose|w: int| 0 <= w < u.len() && (#[trigger] u[w]).0@ == x;
            if w < i {
                assert(u[w] == es[w]);
                if x == k {
                    lemma_sorted_unique(es, w, i);
                }
            } else {
                assert(u[w] == es[w + 1]);
                if x == k {
                    lemma_sorted_unique(es, w + 1, i);
                }
            }
        }
        if has_key(es, x) && x != k {
            let w = choose|w: int| 0 <= w < es.len() && (#[trigger] es[w]).0@ == x;
            if w < i {
                assert(u[w] == es[w]);
            } else {
                assert(w != i);
                assert(u[w - 1] == es[w]);
            }
        }
    }
    assert forall|x: Seq<char>| key_map(u).contains_key(x) implies #[trigger] key_map(u)[x] == key_map(es).remove(k)[x] by {
        let w = key_pos(u, x);
        lemma_key_map_at(u, w);
        if w < i {
            assert(u[w] == es[w]);
            lemma_key_map_at(es, w);
        } else {
            assert(u[w] == es[w + 1]);
            lemma_key_map_at(es, w + 1);
        }
    }
    assert(key_map(u) =~= key_map(es).remove(k));
}

/// Whether the keys are strictly increasing (see [`sorted_keys`]).
pub fn keys_sorted<T>(es: &Vec<(String, T)>) -> (r: bool)
    ensures
        r == sorted_keys(es@),
{
    let mut i: usize = 1;
    if es.len() == 0 {
        return true;
    }
    while i < es.len()
        invariant
            1 <= i <= es@.len(),
            sorted_keys(es@.subrange(0, i as int)),
        decreases es.len() - i,
    {
        let a = chars_of(es[i - 1].0.as_str());
        let b = chars_of(es[i].0.as_str());
        if compare_char_seqs(&a, &b) >= 0 {
            proof {
                assert(!key_lt(es@[i - 1].0@, es@[i as int].0@));
            }
            return false;
        }
        proof {
            let pre = es@.subrange(0, i as int);
            let now = es@.subrange(0, i + 1);
            assert forall|x: int, y: int| 0 <= x < y < now.len() implies key_lt(
                (#[trigger] now[x]).0@,
                (#[trigger] now[y]).0@,
            ) by {
                if y < i {
                    assert(now[x] == pre[x] && now[y] == pre[y]);
                } else if x < i - 1 {
                    assert(now[x] == pre[x] && pre[i - 1] == now[i - 1]);
                    crate::fs_path::lemma_order_chars_trans(now[x].0@, now[i - 1].0@, now[y].0@);
                }
            }
        }
        i += 1;
    }
    assert(es@.subrange(0, es@.len() as int) =~= es@);
    true
}

} // verus!
