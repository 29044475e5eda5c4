//! Decisions of the collection store: the order collections are listed in, and when a
//! collection may be created or removed.
use vstd::prelude::*;

use crate::config::CollectionConfig;
use crate::fs_path::{compare_char_seqs, lemma_order_chars, order_chars};
use crate::text::chars_of;

verus! {

/// `sorted` with `x` placed after every collection whose name is not greater.
pub open spec fn insert_by_name(sorted: Seq<CollectionConfig>, x: CollectionConfig) -> Seq<CollectionConfig>
    decreases sorted.len(),
{
    if sorted.len() == 0 {
        seq![x]
    } else if order_chars(sorted.last().name@, x.name@) <= 0 {
        sorted.push(x)
    } else {
        insert_by_name(sorted.drop_last(), x).push(sorted.last())
    }
}

/// Collections ordered by name as a stable sort orders them.
pub open spec fn sort_by_name(s: Seq<CollectionConfig>) -> Seq<CollectionConfig>
    decreases s.len(),
{
    if s.len() == 0 {
        Seq::empty()
    } else {
        insert_by_name(sort_by_name(s.drop_last()), s.last())
    }
}

proof fn lemma_insert_by_name(s: Seq<CollectionConfig>, x: CollectionConfig, pos: int)
    requires
        0 <= pos <= s.len(),
        pos > 0 ==> order_chars(s[pos - 1].name@, x.name@) <= 0,
        forall|j: int| pos <= j < s.len() ==> order_chars(#[trigger] s[j].name@, x.name@) > 0,
    ensures
        insert_by_name(s, x) == s.insert(pos, x),
    decreases s.len(),
{
    s.insert_ensures(pos, x);
    if s.len() == 0 {
        assert(s.insert(pos, x) =~= seq![x]);
    } else if pos == s.len() {
        assert(s.insert(pos, x) =~= s.push(x));
    } else {
        let d = s.drop_last();
        assert forall|j: int| pos <= j < d.len() implies order_chars(#[trigger] d[j].name@, x.name@) > 0 by {
            assert(d[j] == s[j]);
        }
        if pos > 0 {
            assert(d[pos - 1] == s[pos - 1]);
        }
        lemma_insert_by_name(d, x, pos);
        d.insert_ensures(pos, x);
        assert(s.insert(pos, x) =~= d.insert(pos, x).push(s.last()));
    }
}

/// Collections ordered by name (see [`sort_by_name`]), as `list_collections` lists them.
pub fn sorted_by_name(configs: Vec<CollectionConfig>) -> (r: Vec<CollectionConfig>)
    ensures
        r@ == sort_by_name(configs@),
{
    let ghost input = configs@;
    let mut rest = configs;
    let mut reversed: Vec<CollectionConfig> = Vec::new();
    while rest.len() > 0
        invariant
            reversed@ + rest@.reverse() == input.reverse(),
        decreases rest.len(),
    {
        let ghost before = rest@;
        let c = rest.pop().unwrap();
        let ghost mid = reversed@;
        reversed.push(c);
        proof {
            assert(before =~= rest@.push(c));
            assert(before.reverse() =~= seq![c] + rest@.reverse());
            assert(reversed@ =~= mid.push(c));
            assert(mid.push(c) + rest@.reverse() =~= mid + before.reverse());
        }
    }
    assert(rest@.reverse() =~= Seq::<CollectionConfig>::empty());
    assert(reversed@ =~= input.reverse());
    let mut out: Vec<CollectionConfig> = Vec::new();
    let mut k: usize = 0;
    let total = reversed.len();
    assert(input.len() == total);
    while reversed.len() > 0
        invariant
            input.len() <= usize::MAX,
            k + reversed@.len() == input.len(),
            reversed@ == input.subrange(k as int, input.len() as int).reverse(),
            out@ == sort_by_name(input.subrange(0, k as int)),
        decreases reversed.len(),
    {
        let ghost before = reversed@;
        let x = reversed.pop().unwrap();
        proof {
            assert(x == input[k as int]);
            assert(reversed@ =~= input.subrange(k + 1, input.len() as int).reverse());
        }
        let ghost ov = out@;
        let xc = chars_of(x.name.as_str());
        let mut pos: usize = out.len();
        while pos > 0 && compare_char_seqs(&chars_of(out[pos - 1].name.as_str()), &xc) > 0
            invariant
                pos <= out@.len(),
                ov == out@,
                xc@ == x.name@,
                forall|j: int| pos <= j < out@.len() ==> order_chars(#[trigger] ov[j].name@, x.name@) > 0,
            decreases pos,
        {
            pos -= 1;
        }
        proof {
            lemma_insert_by_name(ov, x, pos as int);
            assert(input.subrange(0, k + 1).drop_last() =~= input.subrange(0, k as int));
            assert(input.subrange(0, k + 1).last() == x);
        }
        out.insert(pos, x);
        k += 1;
    }
    assert(input.subrange(0, input.len() as int) =~= input);
    out
}

/// Why the store refused a change.
#[derive(Debug)]
pub enum StorageError {
    /// A collection with this name already exists.
    AlreadyExists { name: String },
    /// The collection is active and cannot be removed.
    ActiveCollection { name: String },
    /// No collection has this name.
    NotFound { name: String },
}

/// A new collection needs a name no collection has yet.
pub fn creation_check(name: &str, dir_exists: bool) -> (r: Result<(), StorageError>)
    ensures
        r is Ok <==> !dir_exists,
        r matches Err(StorageError::AlreadyExists { name: n }) ==> n@ == name@,
        r matches Err(e) ==> e is AlreadyExists,
{
    if dir_exists {
        Err(StorageError::AlreadyExists { name: crate::config::string_of_str(name) })
    } else {
        Ok(())
    }
}

/// A collection can be removed when it is not the active one and it exists.
pub fn removal_check(name: &str, active: Option<&str>, dir_exists: bool) -> (r: Result<(), StorageError>)
    ensures
        (active matches Some(a) && a@ == name@) ==> (r matches Err(StorageError::ActiveCollection { name: n }) && n@ == name@),
        !(active matches Some(a) && a@ == name@) && !dir_exists ==> (r matches Err(StorageError::NotFound { name: n }) && n@ == name@),
        !(active matches Some(a) && a@ == name@) && dir_exists ==> r is Ok,
{
    if let Some(a) = active {
        if crate::text::str_eq(a, name) {
            return Err(StorageError::ActiveCollection { name: crate::config::string_of_str(name) });
        }
    }
    if !dir_exists {
        return Err(StorageError::NotFound { name: crate::config::string_of_str(name) });
    }
    Ok(())
}

} // verus!
