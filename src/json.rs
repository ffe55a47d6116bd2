//! A structured JSON value, and the queries on JSON text that the
//! extraction makes through serde_json.
use vstd::prelude::*;
use crate::text::same_text;

verus! {

/// A JSON value: null, a boolean, a number (kept as its decimal text), a
/// string, an array, or an object as its entries in order.
pub enum JsonValue {
    Null,
    Bool(bool),
    Number(String),
    Str(String),
    Array(Vec<JsonValue>),
    Object(Vec<(String, JsonValue)>),
}

/// The value of the first entry named `key`.
pub open spec fn lookup(entries: Seq<(String, JsonValue)>, key: Seq<char>) -> Option<JsonValue>
    decreases entries.len(),
{
    if entries.len() == 0 {
        None
    } else if entries[0].0@ == key {
        Some(entries[0].1)
    } else {
        lookup(entries.drop_first(), key)
    }
}

/// The value of the first entry of `entries` named `key`, as `lookup` says.
pub fn object_get<'a>(entries: &'a Vec<(String, JsonValue)>, key: &str) -> (r: Option<
    &'a JsonValue,
>)
    ensures
        match r {
            Some(v) => lookup(entries@, key@) == Some(*v),
            None => lookup(entries@, key@) is None,
        },
{
    let mut i: usize = 0;
    assert(entries@.skip(0) =~= entries@);
    while i < entries.len()
        invariant
            i <= entries@.len(),
            lookup(entries@, key@) == lookup(entries@.skip(i as int), key@),
        decreases entries@.len() - i,
    {
        let ghost rest = entries@.skip(i as int);
        assert(rest.drop_first() =~= entries@.skip(i + 1));
        if same_text(entries[i].0.as_str(), key) {
            return Some(&entries[i].1);
        }
        i = i + 1;
    }
    None
}

pub open spec fn opt_view(o: Option<String>) -> Option<Seq<char>> {
    match o {
        Some(s) => Some(s@),
        None => None,
    }
}

/// The decimal text of the number at `key` of the JSON object written by
/// `doc`; `None` where `doc` is not JSON or holds no number there.
pub uninterp spec fn json_number_text(doc: Seq<char>, key: Seq<char>) -> Option<Seq<char>>;

/// The string at `key` of the JSON object written by `doc`; `None` where
/// `doc` is not JSON or holds no string there.
pub uninterp spec fn json_string_text(doc: Seq<char>, key: Seq<char>) -> Option<Seq<char>>;

/// Relies on serde_json::from_str into a Value, Value::get, Value::as_number
/// and Number's Display: the result depends on the two texts alone.
#[verifier::external_body]
pub(crate) fn number_field_text(doc: &str, key: &str) -> (r: Option<String>)
    ensures
        opt_view(r) == json_number_text(doc@, key@),
{
    let v: serde_json::Value = serde_json::from_str(doc).ok()?;
    v.get(key)?.as_number().map(|n| n.to_string())
}

/// Relies on serde_json::from_str into a Value, Value::get and
/// Value::as_str: the result depends on the two texts alone.
#[verifier::external_body]
pub(crate) fn string_field_text(doc: &str, key: &str) -> (r: Option<String>)
    ensures
        opt_view(r) == json_string_text(doc@, key@),
{
    let v: serde_json::Value = serde_json::from_str(doc).ok()?;
    v.get(key)?.as_str().map(|s| s.to_string())
}

} // verus!
