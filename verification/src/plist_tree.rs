//! Property-list values: the library's own tree type, its mathematical model, the
//! ordered dictionary with the insertion and removal rules of the `plist` crate's
//! `Dictionary`, and the calls into the `plist` crate for binary encoding and decoding.
use vstd::prelude::*;

verus! {

/// Mathematical model of a property-list value. Dictionaries are ordered lists of
/// key and value pairs.
pub enum PlistTree {
    Array(Seq<PlistTree>),
    Dictionary(Seq<(Seq<char>, PlistTree)>),
    Boolean(bool),
    Data(Seq<u8>),
    Date(Seq<char>),
    Real(Seq<char>),
    Integer(int),
    String(Seq<char>),
    Uid(u64),
}

/// A property-list value.
///
/// Dates are held as their XML (RFC 3339) text and reals as their shortest decimal
/// text; integers above `i64::MAX` are `UnsignedInteger`.
#[derive(Debug, PartialEq)]
pub enum PlistValue {
    Array(Vec<PlistValue>),
    Dictionary(PlistDict),
    Boolean(bool),
    Data(Vec<u8>),
    Date(String),
    Real(String),
    Integer(i64),
    UnsignedInteger(u64),
    String(String),
    Uid(u64),
}

/// An ordered dictionary of a property list.
#[derive(Debug, PartialEq)]
pub struct PlistDict {
    pub entries: Vec<(String, PlistValue)>,
}

impl PlistValue {
    /// The mathematical model of the value.
    pub open spec fn tree(&self) -> PlistTree
        decreases self,
    {
        match self {
            PlistValue::Array(items) => PlistTree::Array(
                Seq::new(
                    items@.len(),
                    |i: int|
                        if 0 <= i < items@.len() {
                            items@[i].tree()
                        } else {
                            PlistTree::Boolean(false)
                        },
                ),
            ),
            PlistValue::Dictionary(d) => PlistTree::Dictionary(
                Seq::new(
                    d.entries@.len(),
                    |i: int|
                        if 0 <= i < d.entries@.len() {
                            (d.entries@[i].0@, d.entries@[i].1.tree())
                        } else {
                            (Seq::empty(), PlistTree::Boolean(false))
                        },
                ),
            ),
            PlistValue::Boolean(b) => PlistTree::Boolean(*b),
            PlistValue::Data(d) => PlistTree::Data(d@),
            PlistValue::Date(s) => PlistTree::Date(s@),
            PlistValue::Real(s) => PlistTree::Real(s@),
            PlistValue::Integer(n) => PlistTree::Integer(*n as int),
            PlistValue::UnsignedInteger(n) => PlistTree::Integer(*n as int),
            PlistValue::String(s) => PlistTree::String(s@),
            PlistValue::Uid(n) => PlistTree::Uid(*n),
        }
    }
}

/// Models of a list of values.
pub open spec fn trees(items: Seq<PlistValue>) -> Seq<PlistTree> {
    Seq::new(items.len(), |i: int| items[i].tree())
}

/// Models of a list of dictionary entries.
pub open spec fn entry_trees(es: Seq<(String, PlistValue)>) -> Seq<(Seq<char>, PlistTree)> {
    Seq::new(es.len(), |i: int| (es[i].0@, es[i].1.tree()))
}

impl PlistDict {
    /// The mathematical model of the dictionary.
    pub open spec fn model(&self) -> Seq<(Seq<char>, PlistTree)> {
        entry_trees(self.entries@)
    }
}

pub proof fn lemma_array_tree(items: &Vec<PlistValue>)
    ensures
        PlistValue::Array(*items).tree() == PlistTree::Array(trees(items@)),
{
    let t = PlistValue::Array(*items).tree();
    if let PlistTree::Array(s) = t {
        assert(s =~= trees(items@));
    }
}

pub proof fn lemma_dict_tree(d: &PlistDict)
    ensures
        PlistValue::Dictionary(*d).tree() == PlistTree::Dictionary(d.model()),
{
    let t = PlistValue::Dictionary(*d).tree();
    if let PlistTree::Dictionary(s) = t {
        assert(s =~= d.model());
    }
}

// ---------------------------------------------------------------------------
// Dictionary rules
// ---------------------------------------------------------------------------
/// Index of the first entry with `key`, or -1.
pub open spec fn key_index(es: Seq<(Seq<char>, PlistTree)>, key: Seq<char>) -> int
    decreases es.len(),
{
    if es.len() == 0 {
        -1
    } else {
        let r = key_index(es.drop_last(), key);
        if r >= 0 {
            r
        } else if es.last().0 == key {
            es.len() - 1
        } else {
            -1
        }
    }
}

/// The value stored under `key`.
pub open spec fn dict_get(es: Seq<(Seq<char>, PlistTree)>, key: Seq<char>) -> Option<PlistTree> {
    let i = key_index(es, key);
    if i >= 0 {
        Some(es[i].1)
    } else {
        None
    }
}

/// Inserting: an existing key keeps its place and gets the new value; a new key goes last.
pub open spec fn dict_insert(es: Seq<(Seq<char>, PlistTree)>, key: Seq<char>, v: PlistTree) -> Seq<
    (Seq<char>, PlistTree),
> {
    let i = key_index(es, key);
    if i >= 0 {
        es.update(i, (key, v))
    } else {
        es.push((key, v))
    }
}

/// Removing: the last entry takes the place of the removed one.
pub open spec fn dict_remove(es: Seq<(Seq<char>, PlistTree)>, key: Seq<char>) -> Seq<
    (Seq<char>, PlistTree),
> {
    let i = key_index(es, key);
    if i < 0 {
        es
    } else if i == es.len() - 1 {
        es.drop_last()
    } else {
        es.update(i, es.last()).drop_last()
    }
}

/// No key occurs twice.
pub open spec fn unique_keys(es: Seq<(Seq<char>, PlistTree)>) -> bool {
    forall|i: int, j: int| 0 <= i < j < es.len() ==> (#[trigger] es[i]).0 != (#[trigger] es[j]).0
}

pub proof fn lemma_key_index_bounds(es: Seq<(Seq<char>, PlistTree)>, key: Seq<char>)
    ensures
        -1 <= key_index(es, key) < es.len(),
        key_index(es, key) >= 0 ==> es[key_index(es, key)].0 == key,
        key_index(es, key) >= 0 ==> forall|j: int|
            0 <= j < key_index(es, key) ==> (#[trigger] es[j]).0 != key,
        key_index(es, key) < 0 ==> forall|j: int| 0 <= j < es.len() ==> (#[trigger] es[j]).0 != key,
    decreases es.len(),
{
    if es.len() > 0 {
        let p = es.drop_last();
        lemma_key_index_bounds(p, key);
        let r = key_index(p, key);
        if r >= 0 {
            assert(key_index(es, key) == r);
            assert(p[r] == es[r]);
            assert forall|j: int| 0 <= j < r implies (#[trigger] es[j]).0 != key by {
                assert(p[j] == es[j]);
            }
        } else {
            assert forall|j: int| 0 <= j < es.len() - 1 implies (#[trigger] es[j]).0 != key by {
                assert(p[j] == es[j]);
            }
        }
    }
}

/// `key_index` is the first position holding the key.
pub proof fn lemma_key_index_first(es: Seq<(Seq<char>, PlistTree)>, key: Seq<char>, i: int)
    requires
        0 <= i < es.len(),
        es[i].0 == key,
        forall|j: int| 0 <= j < i ==> (#[trigger] es[j]).0 != key,
    ensures
        key_index(es, key) == i,
{
    lemma_key_index_bounds(es, key);
    let k = key_index(es, key);
    if k < 0 {
        assert(es[i].0 != key);
    } else if k < i {
        assert(es[k].0 != key);
    } else if k > i {
        assert(es[i].0 != key);
    }
}

/// `key_index` is -1 when no entry holds the key.
pub proof fn lemma_key_index_absent(es: Seq<(Seq<char>, PlistTree)>, key: Seq<char>)
    requires
        forall|j: int| 0 <= j < es.len() ==> (#[trigger] es[j]).0 != key,
    ensures
        key_index(es, key) == -1,
{
    lemma_key_index_bounds(es, key);
    if key_index(es, key) >= 0 {
        assert(es[key_index(es, key)].0 != key);
    }
}

/// Inserting keeps the keys unique.
pub proof fn lemma_dict_insert_unique(es: Seq<(Seq<char>, PlistTree)>, key: Seq<char>, v: PlistTree)
    requires
        unique_keys(es),
    ensures
        unique_keys(dict_insert(es, key, v)),
        dict_get(dict_insert(es, key, v), key) == Some(v),
{
    lemma_key_index_bounds(es, key);
    let r = dict_insert(es, key, v);
    let i = key_index(es, key);
    if i >= 0 {
        assert forall|a: int, b: int| 0 <= a < b < r.len() implies (#[trigger] r[a]).0 != (
        #[trigger] r[b]).0 by {
            assert(es[a].0 != es[b].0);
        }
        lemma_key_index_first(r, key, i);
    } else {
        assert forall|a: int, b: int| 0 <= a < b < r.len() implies (#[trigger] r[a]).0 != (
        #[trigger] r[b]).0 by {
            if b < es.len() {
                assert(es[a].0 != es[b].0);
            } else {
                assert(r[b].0 == key);
                assert(r[a] == es[a]);
            }
        }
        assert forall|j: int| 0 <= j < es.len() implies (#[trigger] r[j]).0 != key by {
            assert(r[j] == es[j]);
        }
        lemma_key_index_first(r, key, es.len() as int);
    }
}

/// Inserting under one key leaves every other key's value as it was.
pub proof fn lemma_dict_insert_other(
    es: Seq<(Seq<char>, PlistTree)>,
    key: Seq<char>,
    v: PlistTree,
    other: Seq<char>,
)
    requires
        other != key,
    ensures
        dict_get(dict_insert(es, key, v), other) == dict_get(es, other),
{
    lemma_key_index_bounds(es, key);
    lemma_key_index_bounds(es, other);
    let r = dict_insert(es, key, v);
    let k = key_index(es, other);
    if k >= 0 {
        assert forall|j: int| 0 <= j < k implies (#[trigger] r[j]).0 != other by {
            assert(es[j].0 != other);
            if j == key_index(es, key) {
            } else {
                assert(r[j] == es[j]);
            }
        }
        if k == key_index(es, key) {
            assert(es[k].0 == key);
        }
        assert(r[k] == es[k]);
        lemma_key_index_first(r, other, k);
    } else {
        assert forall|j: int| 0 <= j < r.len() implies (#[trigger] r[j]).0 != other by {
            if j < es.len() {
                if j == key_index(es, key) {
                } else {
                    assert(r[j] == es[j]);
                }
            }
        }
        lemma_key_index_absent(r, other);
    }
}


// ---------------------------------------------------------------------------
// Executable dictionary operations
// ---------------------------------------------------------------------------
impl PlistDict {
    /// An empty dictionary.
    pub fn new() -> (r: PlistDict)
        ensures
            r.model() == Seq::<(Seq<char>, PlistTree)>::empty(),
    {
        let r = PlistDict { entries: Vec::new() };
        assert(r.model() =~= Seq::<(Seq<char>, PlistTree)>::empty());
        r
    }

    /// Number of entries.
    pub fn len(&self) -> (r: usize)
        ensures
            r == self.model().len(),
    {
        self.entries.len()
    }

    /// The entries, in order.
    pub fn entries(&self) -> (r: &Vec<(String, PlistValue)>)
        ensures
            r@ == self.entries@,
    {
        &self.entries
    }

    /// Position of the first entry with `key`.
    pub fn position(&self, key: &str) -> (r: Option<usize>)
        ensures
            match r {
                Some(i) => key_index(self.model(), key@) == i && i < self.entries@.len(),
                None => key_index(self.model(), key@) == -1,
            },
    {
        let ghost m = self.model();
        let mut i: usize = 0;
        while i < self.entries.len()
            invariant
                i <= self.entries@.len() == m.len(),
                m == self.model(),
                forall|j: int| 0 <= j < i ==> (#[trigger] m[j]).0 != key@,
            decreases self.entries.len() - i,
        {
            if crate::text::str_eq(self.entries[i].0.as_str(), key) {
                proof {
                    lemma_key_index_first(m, key@, i as int);
                }
                return Some(i);
            }
            i += 1;
        }
        proof {
            lemma_key_index_absent(m, key@);
        }
        None
    }

    /// The value stored under `key`.
    pub fn get(&self, key: &str) -> (r: Option<&PlistValue>)
        ensures
            match r {
                Some(v) => dict_get(self.model(), key@) == Some(v.tree()),
                None => dict_get(self.model(), key@) is None,
            },
    {
        match self.position(key) {
            Some(i) => Some(&self.entries[i].1),
            None => None,
        }
    }

    /// Stores `value` under `key`: an existing key keeps its place, a new key goes last.
    pub fn insert(&mut self, key: String, value: PlistValue)
        ensures
            final(self).model() == dict_insert(old(self).model(), key@, value.tree()),
    {
        let ghost old_model = self.model();
        let ghost kv = (key@, value.tree());
        match self.position(key.as_str()) {
            Some(i) => {
                self.entries.set(i, (key, value));
                assert(self.model() =~= old_model.update(i as int, kv));
            },
            None => {
                self.entries.push((key, value));
                assert(self.model() =~= old_model.push(kv));
            },
        }
    }

    /// Removes the entry with `key`; the last entry takes its place.
    pub fn remove(&mut self, key: &str)
        ensures
            final(self).model() == dict_remove(old(self).model(), key@),
    {
        let ghost old_model = self.model();
        match self.position(key) {
            Some(i) => {
                let _ = self.entries.swap_remove(i);
                if i == self.entries.len() {
                    assert(self.model() =~= old_model.drop_last());
                } else {
                    assert(self.model() =~= old_model.update(i as int, old_model.last()).drop_last());
                }
            },
            None => {},
        }
    }
}

/// A deep copy of a value.
pub fn clone_value(v: &PlistValue) -> (r: PlistValue)
    ensures
        r.tree() == v.tree(),
    decreases v,
{
    match v {
        PlistValue::Array(items) => {
            let mut out: Vec<PlistValue> = Vec::new();
            let mut i: usize = 0;
            while i < items.len()
                invariant
                    *v == PlistValue::Array(*items),
                    i <= items@.len(),
                    out@.len() == i,
                    forall|j: int| 0 <= j < i ==> (#[trigger] out@[j]).tree() == items@[j].tree(),
                decreases items.len() - i,
            {
                let child = &items[i];
                proof {
                    assert(decreases_to!(*v => (*v)->Array_0));
                    assert(decreases_to!(*items => items@));
                    assert(decreases_to!(items@ => items@[i as int]));
                    assert(decreases_to!(*v => *child));
                }
                let c = clone_value(child);
                out.push(c);
                i += 1;
            }
            proof {
                lemma_array_tree(items);
                lemma_array_tree(&out);
                assert(trees(out@) =~= trees(items@));
            }
            PlistValue::Array(out)
        },
        PlistValue::Dictionary(d) => {
            let mut out: Vec<(String, PlistValue)> = Vec::new();
            let mut i: usize = 0;
            while i < d.entries.len()
                invariant
                    *v == PlistValue::Dictionary(*d),
                    i <= d.entries@.len(),
                    out@.len() == i,
                    forall|j: int|
                        0 <= j < i ==> (#[trigger] out@[j]).0@ == d.entries@[j].0@ && out@[j].1.tree()
                            == d.entries@[j].1.tree(),
                decreases d.entries.len() - i,
            {
                let k = d.entries[i].0.clone();
                let child = &d.entries[i].1;
                proof {
                    assert(decreases_to!(*v => (*v)->Dictionary_0));
                    assert(decreases_to!(*d => d.entries));
                    assert(decreases_to!(d.entries => d.entries@));
                    assert(decreases_to!(d.entries@ => d.entries@[i as int]));
                    assert(decreases_to!(d.entries@[i as int] => d.entries@[i as int].1));
                    assert(decreases_to!(*v => *child));
                }
                let c = clone_value(child);
                out.push((k, c));
                i += 1;
            }
            let nd = PlistDict { entries: out };
            proof {
                lemma_dict_tree(d);
                lemma_dict_tree(&nd);
                assert(nd.model() =~= d.model());
            }
            PlistValue::Dictionary(nd)
        },
        PlistValue::Boolean(b) => PlistValue::Boolean(*b),
        PlistValue::Data(bytes) => PlistValue::Data(bytes.clone()),
        PlistValue::Date(t) => PlistValue::Date(t.clone()),
        PlistValue::Real(t) => PlistValue::Real(t.clone()),
        PlistValue::Integer(n) => PlistValue::Integer(*n),
        PlistValue::UnsignedInteger(n) => PlistValue::UnsignedInteger(*n),
        PlistValue::String(t) => PlistValue::String(t.clone()),
        PlistValue::Uid(n) => PlistValue::Uid(*n),
    }
}


impl View for PlistValue {
    type V = PlistTree;

    open spec fn view(&self) -> PlistTree {
        self.tree()
    }
}

/// The model of an optional value.
pub open spec fn option_tree(v: Option<PlistValue>) -> Option<PlistTree> {
    match v {
        Some(x) => Some(x.tree()),
        None => None,
    }
}

// ---------------------------------------------------------------------------
// Binary encoding and decoding through the `plist` crate
// ---------------------------------------------------------------------------
/// Name for the bytes that `plist::Value::to_writer_binary` writes for a value
/// (`None` when it reports an error).
pub uninterp spec fn plist_binary_encoding(t: PlistTree) -> Option<Seq<u8>>;

/// Name for the value that `plist::Value::from_reader` reads from bytes in any
/// property-list encoding (`None` when it reports an error).
pub uninterp spec fn plist_decoding(bytes: Seq<u8>) -> Option<PlistTree>;

#[verifier::external_type_specification]
#[verifier::external_body]
pub struct ExPlistValue(plist::Value);

/// Converts the scalar variants to the `plist` crate's `Value`, one for one.
#[verifier::external_body]
fn scalar_to_outside(value: &PlistValue) -> plist::Value {
    match value {
        PlistValue::Boolean(b) => (*b).into(),
        PlistValue::Data(d) => plist::Value::Data(d.clone()),
        PlistValue::Date(t) => plist::Date::from_xml_format(t)
            .map_or_else(|_| t.as_str().into(), plist::Value::Date),
        PlistValue::Real(t) => plist::Value::Real(t.parse().unwrap_or_default()),
        PlistValue::Integer(n) => (*n).into(),
        PlistValue::UnsignedInteger(n) => (*n).into(),
        PlistValue::Uid(n) => plist::Value::Uid(plist::Uid::new(*n)),
        other => plist_to_outside(other),
    }
}

/// Converts a value to the `plist` crate's `Value`, one for one.
#[verifier::external_body]
fn plist_to_outside(value: &PlistValue) -> plist::Value {
    match value {
        PlistValue::Array(items) => plist::Value::Array(items.iter().map(plist_to_outside).collect()),
        PlistValue::Dictionary(d) => plist::Value::Dictionary(
            d.entries.iter().map(|e| (e.0.as_str(), plist_to_outside(&e.1))).collect(),
        ),
        PlistValue::String(t) => t.as_str().into(),
        other => scalar_to_outside(other),
    }
}

/// Converts the scalar variants of the `plist` crate's `Value`, one for one.
#[verifier::external_body]
fn scalar_from_outside(value: &plist::Value) -> PlistValue {
    match value {
        plist::Value::Boolean(b) => PlistValue::Boolean(*b),
        plist::Value::Data(d) => PlistValue::Data(d.clone()),
        plist::Value::Date(t) => PlistValue::Date(t.to_xml_format()),
        plist::Value::Real(r) => PlistValue::Real(r.to_string()),
        plist::Value::Integer(n) => n.as_signed().map_or_else(
            || PlistValue::UnsignedInteger(n.as_unsigned().unwrap_or_default()),
            PlistValue::Integer,
        ),
        plist::Value::Uid(u) => PlistValue::Uid(u.get()),
        other => plist_from_outside(other),
    }
}

/// Converts the `plist` crate's `Value` into a value of the library, one for one.
#[verifier::external_body]
fn plist_from_outside(value: &plist::Value) -> PlistValue {
    match value {
        plist::Value::Array(items) => PlistValue::Array(items.iter().map(plist_from_outside).collect()),
        plist::Value::Dictionary(d) => PlistValue::Dictionary(PlistDict {
            entries: d.iter().map(|(k, v)| (k.clone(), plist_from_outside(v))).collect(),
        }),
        plist::Value::String(t) => PlistValue::String(t.clone()),
        _ => scalar_from_outside(value),
    }
}

/// Calls `plist::Value::to_writer_binary`: the binary property-list encoding of the
/// value, or `None` where the crate reports an error.
#[verifier::external_body]
pub(crate) fn encode_binary(value: &PlistValue) -> (r: Option<Vec<u8>>)
    ensures
        match r {
            Some(b) => plist_binary_encoding(value.tree()) == Some(b@),
            None => plist_binary_encoding(value.tree()) is None,
        },
{
    let mut bytes = Vec::new();
    plist_to_outside(value).to_writer_binary(&mut bytes).ok().map(|_| bytes)
}

/// Name for the bytes that `plist::Value::to_writer_xml` writes for a value (`None`
/// when it reports an error).
pub uninterp spec fn plist_xml_encoding(t: PlistTree) -> Option<Seq<u8>>;

/// Calls `plist::Value::to_writer_xml`: the XML property-list encoding of the value, or
/// `None` where the crate reports an error.
#[verifier::external_body]
pub(crate) fn encode_xml(value: &PlistValue) -> (r: Option<Vec<u8>>)
    ensures
        match r {
            Some(b) => plist_xml_encoding(value.tree()) == Some(b@),
            None => plist_xml_encoding(value.tree()) is None,
        },
{
    let mut bytes = Vec::new();
    plist_to_outside(value).to_writer_xml(&mut bytes).ok().map(|_| bytes)
}

/// Calls `plist::Value::from_reader`: the value stored in `bytes` (binary, XML or ASCII
/// property list), or `None` where the crate reports an error.
#[verifier::external_body]
pub(crate) fn decode_plist(bytes: &[u8]) -> (r: Option<PlistValue>)
    ensures
        option_tree(r) == plist_decoding(bytes@),
{
    plist::Value::from_reader(std::io::Cursor::new(bytes)).ok().map(|v| plist_from_outside(&v))
}


/// The contents of a binary property-list file holding the value; `None` when the
/// value cannot be encoded.
pub fn to_binary_bytes(value: &PlistValue) -> (r: Option<Vec<u8>>)
    ensures
        match r {
            Some(b) => plist_binary_encoding(value.tree()) == Some(b@),
            None => plist_binary_encoding(value.tree()) is None,
        },
{
    encode_binary(value)
}

/// The contents of an XML property-list file holding the value; `None` when the value
/// cannot be encoded.
pub fn to_xml_bytes(value: &PlistValue) -> (r: Option<Vec<u8>>)
    ensures
        match r {
            Some(b) => plist_xml_encoding(value.tree()) == Some(b@),
            None => plist_xml_encoding(value.tree()) is None,
        },
{
    encode_xml(value)
}

/// The value stored in the contents of a property-list file (binary, XML or ASCII);
/// `None` when they hold no property list.
pub fn from_bytes(bytes: &[u8]) -> (r: Option<PlistValue>)
    ensures
        option_tree(r) == plist_decoding(bytes@),
{
    decode_plist(bytes)
}

/// A child of an array value is smaller than the value.
pub proof fn lemma_array_child_decreases(v: PlistValue, items: Vec<PlistValue>, i: int)
    requires
        v == PlistValue::Array(items),
        0 <= i < items@.len(),
    ensures
        decreases_to!(v => items@[i]),
{
    assert(decreases_to!(v => v->Array_0));
    assert(decreases_to!(items => items@));
    assert(decreases_to!(items@ => items@[i]));
}

/// A value stored in a dictionary value is smaller than the value.
pub proof fn lemma_dict_child_decreases(v: PlistValue, d: PlistDict, i: int)
    requires
        v == PlistValue::Dictionary(d),
        0 <= i < d.entries@.len(),
    ensures
        decreases_to!(v => d.entries@[i].1),
{
    assert(decreases_to!(v => v->Dictionary_0));
    assert(decreases_to!(d => d.entries));
    assert(decreases_to!(d.entries => d.entries@));
    assert(decreases_to!(d.entries@ => d.entries@[i]));
    assert(decreases_to!(d.entries@[i] => d.entries@[i].1));
}

} // verus!
