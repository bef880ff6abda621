//! A parsed JSON document as plain values, and the lookups that the
//! metadata extraction performs on it.
use vstd::prelude::*;
use crate::text::str_eq;

verus! {

/// The two integer readings of a JSON number that the library uses: the
/// number as a `u64` when it is a non-negative integer, and the number
/// rounded to the nearest integer (halves away from zero) and saturated to
/// the `u64` range.
#[derive(Debug, Clone, Copy)]
pub struct JsonNumber {
    pub as_u64: Option<u64>,
    pub rounded: Option<u64>,
}

/// A JSON value. The members of an object are listed in document order of
/// the parser's map, with distinct names.
#[derive(Debug)]
pub enum JsonValue {
    Null,
    Bool(bool),
    Number(JsonNumber),
    Str(String),
    Array(Vec<JsonValue>),
    Object(Vec<(String, JsonValue)>),
}

/// First member named `key` among `entries`, from position `i` on.
pub open spec fn member_from(entries: Seq<(String, JsonValue)>, key: Seq<char>, i: int) -> Option<
    JsonValue,
>
    decreases entries.len() - i,
{
    if i < 0 || i >= entries.len() {
        None
    } else if entries[i].0@ == key {
        Some(entries[i].1)
    } else {
        member_from(entries, key, i + 1)
    }
}

/// `Value::get(key)`: the member named `key` of an object; None for other
/// values.
pub open spec fn json_get(v: JsonValue, key: Seq<char>) -> Option<JsonValue> {
    match v {
        JsonValue::Object(entries) => member_from(entries@, key, 0),
        _ => None,
    }
}

/// `Value::as_str`.
pub open spec fn json_str(v: JsonValue) -> Option<Seq<char>> {
    match v {
        JsonValue::Str(s) => Some(s@),
        _ => None,
    }
}

/// `Value::as_array`.
pub open spec fn json_array(v: JsonValue) -> Option<Seq<JsonValue>> {
    match v {
        JsonValue::Array(a) => Some(a@),
        _ => None,
    }
}

/// The member names of an object.
pub open spec fn json_keys(v: JsonValue) -> Option<Seq<Seq<char>>> {
    match v {
        JsonValue::Object(entries) => Some(entries@.map_values(|e: (String, JsonValue)| e.0@)),
        _ => None,
    }
}

/// The string member `key` of `v`, if there is one.
pub open spec fn get_str(v: JsonValue, key: Seq<char>) -> Option<Seq<char>> {
    match json_get(v, key) {
        Some(m) => json_str(m),
        None => None,
    }
}

pub fn get<'a>(v: &'a JsonValue, key: &str) -> (r: Option<&'a JsonValue>)
    ensures
        r matches Some(m) ==> json_get(*v, key@) == Some(*m),
        r is None ==> json_get(*v, key@) is None,
{
    match v {
        JsonValue::Object(entries) => {
            let mut i: usize = 0;
            assert(json_get(*v, key@) == member_from(entries@, key@, 0));
            while i < entries.len()
                invariant
                    i <= entries@.len(),
                    json_get(*v, key@) == member_from(entries@, key@, 0),
                    member_from(entries@, key@, 0) == member_from(entries@, key@, i as int),
                decreases entries.len() - i,
            {
                if str_eq(entries[i].0.as_str(), key) {
                    assert(entries@[i as int].0@ == key@);
                    return Some(&entries[i].1);
                }
                i += 1;
            }
            None
        },
        _ => None,
    }
}

pub fn as_str<'a>(v: &'a JsonValue) -> (r: Option<&'a str>)
    ensures
        r matches Some(s) ==> json_str(*v) == Some(s@),
        r is None ==> json_str(*v) is None,
{
    match v {
        JsonValue::Str(s) => Some(s.as_str()),
        _ => None,
    }
}

pub fn as_array<'a>(v: &'a JsonValue) -> (r: Option<&'a Vec<JsonValue>>)
    ensures
        r matches Some(a) ==> json_array(*v) == Some(a@),
        r is None ==> json_array(*v) is None,
{
    match v {
        JsonValue::Array(a) => Some(a),
        _ => None,
    }
}

pub fn is_null(v: &JsonValue) -> (r: bool)
    ensures
        r == (*v is Null),
{
    match v {
        JsonValue::Null => true,
        _ => false,
    }
}

pub fn get_string<'a>(v: &'a JsonValue, key: &str) -> (r: Option<&'a str>)
    ensures
        r matches Some(s) ==> get_str(*v, key@) == Some(s@),
        r is None ==> get_str(*v, key@) is None,
{
    match get(v, key) {
        Some(m) => as_str(m),
        None => None,
    }
}

/// The member names of an object (None for other values).
pub fn object_keys(v: &JsonValue) -> (r: Option<Vec<String>>)
    ensures
        r matches Some(k) ==> json_keys(*v) == Some(k@.map_values(|s: String| s@)),
        r is None ==> json_keys(*v) is None,
{
    match v {
        JsonValue::Object(entries) => {
            let mut keys: Vec<String> = Vec::new();
            let mut i: usize = 0;
            while i < entries.len()
                invariant
                    i <= entries@.len(),
                    keys@.map_values(|s: String| s@) == entries@.take(i as int).map_values(
                        |e: (String, JsonValue)| e.0@,
                    ),
                decreases entries.len() - i,
            {
                let k = entries[i].0.clone();
                assert(k@ == entries@[i as int].0@);
                let ghost kv = keys@;
                keys.push(k);
                assert(keys@ == kv.push(k));
                assert(keys@.map_values(|s: String| s@) =~= kv.map_values(|s: String| s@).push(k@));
                assert(entries@.take(i + 1) =~= entries@.take(i as int).push(entries@[i as int]));
                assert(entries@.take(i + 1).map_values(|e: (String, JsonValue)| e.0@)
                    =~= entries@.take(i as int).map_values(|e: (String, JsonValue)| e.0@).push(
                    entries@[i as int].0@,
                ));
                assert(keys@.map_values(|s: String| s@) =~= entries@.take(i + 1).map_values(
                    |e: (String, JsonValue)| e.0@,
                ));
                i += 1;
            }
            assert(entries@.take(entries@.len() as int) =~= entries@);
            Some(keys)
        },
        _ => None,
    }
}

} // verus!
