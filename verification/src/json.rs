//! JSON documents (Apple's Aerial manifest and the manifests of wallpaper extensions):
//! the library's own tree type, its mathematical model, the parse through the
//! `serde_json` crate, and reading values out of a document.
use vstd::prelude::*;

use crate::profile::opt_chars;

verus! {

/// Mathematical model of a JSON value. Numbers are held as the 64-bit integer they
/// are, where they are one.
pub enum JsonTree {
    Null,
    Bool(bool),
    Number(Option<i64>),
    String(Seq<char>),
    Array(Seq<JsonTree>),
    Object(Seq<(Seq<char>, JsonTree)>),
}

/// A JSON value; object members in the order `serde_json` keeps them.
pub enum JsonValue {
    Null,
    Bool(bool),
    /// The number as an `i64`, where it is one.
    Number(Option<i64>),
    String(String),
    Array(Vec<JsonValue>),
    Object(Vec<(String, JsonValue)>),
}

impl JsonValue {
    /// The mathematical model of the value.
    pub open spec fn tree(&self) -> JsonTree
        decreases self,
    {
        match self {
            JsonValue::Null => JsonTree::Null,
            JsonValue::Bool(b) => JsonTree::Bool(*b),
            JsonValue::Number(n) => JsonTree::Number(*n),
            JsonValue::String(s) => JsonTree::String(s@),
            JsonValue::Array(items) => JsonTree::Array(
                Seq::new(
                    items@.len(),
                    |i: int|
                        if 0 <= i < items@.len() {
                            items@[i].tree()
                        } else {
                            JsonTree::Null
                        },
                ),
            ),
            JsonValue::Object(es) => JsonTree::Object(
                Seq::new(
                    es@.len(),
                    |i: int|
                        if 0 <= i < es@.len() {
                            (es@[i].0@, es@[i].1.tree())
                        } else {
                            (Seq::empty(), JsonTree::Null)
                        },
                ),
            ),
        }
    }
}

/// Models of a list of values.
pub open spec fn json_trees(items: Seq<JsonValue>) -> Seq<JsonTree> {
    Seq::new(items.len(), |i: int| items[i].tree())
}

/// Models of a list of object members.
pub open spec fn member_trees(es: Seq<(String, JsonValue)>) -> Seq<(Seq<char>, JsonTree)> {
    Seq::new(es.len(), |i: int| (es[i].0@, es[i].1.tree()))
}

/// The model of an optional value.
pub open spec fn option_json(v: Option<JsonValue>) -> Option<JsonTree> {
    match v {
        Some(x) => Some(x.tree()),
        None => None,
    }
}

proof fn lemma_array_tree(items: &Vec<JsonValue>)
    ensures
        JsonValue::Array(*items).tree() == JsonTree::Array(json_trees(items@)),
{
    let t = JsonValue::Array(*items).tree();
    if let JsonTree::Array(s) = t {
        assert(s =~= json_trees(items@));
    }
}

proof fn lemma_object_tree(es: &Vec<(String, JsonValue)>)
    ensures
        JsonValue::Object(*es).tree() == JsonTree::Object(member_trees(es@)),
{
    let t = JsonValue::Object(*es).tree();
    if let JsonTree::Object(s) = t {
        assert(s =~= member_trees(es@));
    }
}

// ---------------------------------------------------------------------------
// Parsing through `serde_json`
// ---------------------------------------------------------------------------
/// Name for the value that `serde_json::from_str::<serde_json::Value>` reads from a
/// text (`None` when it reports an error).
pub uninterp spec fn json_parse(text: Seq<char>) -> Option<JsonTree>;

#[verifier::external_type_specification]
#[verifier::external_body]
pub struct ExJsonValue(serde_json::Value);

/// Converts the `serde_json` crate's `Value` into a value of the library, one for one.
#[verifier::external_body]
fn json_from_outside(value: &serde_json::Value) -> JsonValue {
    match value {
        serde_json::Value::Null => JsonValue::Null,
        serde_json::Value::Bool(b) => JsonValue::Bool(*b),
        serde_json::Value::Number(n) => JsonValue::Number(n.as_i64()),
        serde_json::Value::String(s) => JsonValue::String(s.clone()),
        serde_json::Value::Array(items) => JsonValue::Array(items.iter().map(json_from_outside).collect()),
        serde_json::Value::Object(m) => JsonValue::Object(
            m.iter().map(|(k, v)| (k.clone(), json_from_outside(v))).collect(),
        ),
    }
}

/// Calls `serde_json::from_str::<serde_json::Value>`: the JSON value the text holds, or
/// `None` where the crate reports an error.
#[verifier::external_body]
fn parse_outside(text: &str) -> (r: Option<JsonValue>)
    ensures
        option_json(r) == json_parse(text@),
{
    serde_json::from_str::<serde_json::Value>(text).ok().map(|v| json_from_outside(&v))
}

/// The JSON value that a text holds, or `None` when it holds none.
pub fn parse_json(text: &str) -> (r: Option<JsonValue>)
    ensures
        option_json(r) == json_parse(text@),
{
    parse_outside(text)
}

// ---------------------------------------------------------------------------
// Reading values
// ---------------------------------------------------------------------------
/// The value of the first member named `key`.
pub open spec fn member_get(es: Seq<(Seq<char>, JsonTree)>, key: Seq<char>) -> Option<JsonTree>
    decreases es.len(),
{
    if es.len() == 0 {
        None
    } else if es[0].0 == key {
        Some(es[0].1)
    } else {
        member_get(es.drop_first(), key)
    }
}

/// The member `key` of an object (`None` for any other value).
pub open spec fn json_get(t: JsonTree, key: Seq<char>) -> Option<JsonTree> {
    match t {
        JsonTree::Object(es) => member_get(es, key),
        _ => None,
    }
}

/// The text of a string value.
pub open spec fn str_of(o: Option<JsonTree>) -> Option<Seq<char>> {
    match o {
        Some(JsonTree::String(s)) => Some(s),
        _ => None,
    }
}

/// The integer of a number that is a 64-bit integer.
pub open spec fn i64_of(o: Option<JsonTree>) -> Option<i64> {
    match o {
        Some(JsonTree::Number(n)) => n,
        _ => None,
    }
}

/// The items of an array value.
pub open spec fn array_of(o: Option<JsonTree>) -> Option<Seq<JsonTree>> {
    match o {
        Some(JsonTree::Array(items)) => Some(items),
        _ => None,
    }
}

/// The member `key` of an object value (see [`json_get`]).
pub fn get<'a>(value: &'a JsonValue, key: &str) -> (r: Option<&'a JsonValue>)
    ensures
        match r {
            Some(v) => json_get(value.tree(), key@) == Some(v.tree()),
            None => json_get(value.tree(), key@) is None,
        },
{
    match value {
        JsonValue::Object(es) => {
            proof {
                lemma_object_tree(es);
            }
            let ghost ms = member_trees(es@);
            let mut i: usize = 0;
            assert(ms.subrange(0, ms.len() as int) =~= ms);
            while i < es.len()
                invariant
                    i <= es@.len(),
                    ms == member_trees(es@),
                    value.tree() == JsonTree::Object(ms),
                    member_get(ms, key@) == member_get(ms.subrange(i as int, ms.len() as int), key@),
                decreases es.len() - i,
            {
                let ghost rest = ms.subrange(i as int, ms.len() as int);
                assert(rest.len() > 0);
                assert(rest[0] == ms[i as int]);
                assert(ms[i as int] == (es@[i as int].0@, es@[i as int].1.tree()));
                if crate::text::str_eq(es[i].0.as_str(), key) {
                    assert(member_get(rest, key@) == Some(rest[0].1));
                    return Some(&es[i].1);
                }
                assert(rest.drop_first() =~= ms.subrange(i + 1, ms.len() as int));
                i += 1;
            }
            None
        },
        _ => None,
    }
}

/// The text of a string value (see [`str_of`]).
pub fn string_of_value(o: Option<&JsonValue>) -> (r: Option<String>)
    ensures
        opt_chars(r) == str_of(
            match o {
                Some(v) => Some(v.tree()),
                None => None,
            },
        ),
{
    match o {
        Some(JsonValue::String(s)) => Some(s.clone()),
        _ => None,
    }
}

/// The integer of a number value (see [`i64_of`]).
pub fn i64_of_value(o: Option<&JsonValue>) -> (r: Option<i64>)
    ensures
        r == i64_of(
            match o {
                Some(v) => Some(v.tree()),
                None => None,
            },
        ),
{
    match o {
        Some(JsonValue::Number(n)) => *n,
        _ => None,
    }
}

/// The items of an array value (see [`array_of`]).
pub fn items_of<'a>(o: Option<&'a JsonValue>) -> (r: Option<&'a Vec<JsonValue>>)
    ensures
        match r {
            Some(items) => array_of(
                match o {
                    Some(v) => Some(v.tree()),
                    None => None,
                },
            ) == Some(json_trees(items@)),
            None => array_of(
                match o {
                    Some(v) => Some(v.tree()),
                    None => None,
                },
            ) is None,
        },
{
    match o {
        Some(JsonValue::Array(items)) => {
            proof {
                lemma_array_tree(items);
            }
            Some(items)
        },
        _ => None,
    }
}

/// The members of an object value with the text of those that are strings.
pub open spec fn string_members(o: Option<JsonTree>) -> Option<Seq<(Seq<char>, Option<Seq<char>>)>> {
    match o {
        Some(JsonTree::Object(es)) => Some(
            es.map_values(|e: (Seq<char>, JsonTree)| (e.0, str_of(Some(e.1)))),
        ),
        _ => None,
    }
}

/// The members of an object value with the text of those that are strings (see
/// [`string_members`]).
pub fn string_members_of(o: Option<&JsonValue>) -> (r: Option<Vec<(String, Option<String>)>>)
    ensures
        match r {
            Some(v) => string_members(
                match o {
                    Some(x) => Some(x.tree()),
                    None => None,
                },
            ) == Some(text_pairs(v@)),
            None => string_members(
                match o {
                    Some(x) => Some(x.tree()),
                    None => None,
                },
            ) is None,
        },
{
    match o {
        Some(JsonValue::Object(es)) => {
            proof {
                lemma_object_tree(es);
            }
            let ghost ms = member_trees(es@);
            let ghost want = ms.map_values(|e: (Seq<char>, JsonTree)| (e.0, str_of(Some(e.1))));
            let mut out: Vec<(String, Option<String>)> = Vec::new();
            let mut i: usize = 0;
            while i < es.len()
                invariant
                    i <= es@.len(),
                    ms == member_trees(es@),
                    want == ms.map_values(|e: (Seq<char>, JsonTree)| (e.0, str_of(Some(e.1)))),
                    text_pairs(out@) == want.subrange(0, i as int),
                decreases es.len() - i,
            {
                let ghost before = text_pairs(out@);
                let k = es[i].0.clone();
                let v = string_of_value(Some(&es[i].1));
                out.push((k, v));
                assert(text_pairs(out@) =~= before.push((es@[i as int].0@, opt_chars(v))));
                assert(want.subrange(0, i + 1) =~= want.subrange(0, i as int).push(want[i as int]));
                i += 1;
            }
            assert(want.subrange(0, want.len() as int) =~= want);
            Some(out)
        },
        _ => None,
    }
}

/// The texts of a list of names and optional texts.
pub open spec fn text_pairs(v: Seq<(String, Option<String>)>) -> Seq<(Seq<char>, Option<Seq<char>>)> {
    v.map_values(|e: (String, Option<String>)| (e.0@, opt_chars(e.1)))
}

} // verus!
