//! JSON documents as plain values, with the lookups that API responses need.

use vstd::prelude::*;
use crate::text::str_equal;

verus! {

/// A JSON value. Numbers keep only what is read of them: their value when it
/// is a non-negative integer that fits in `u64`.
#[derive(Debug)]
pub enum JsonValue {
    Null,
    Bool(bool),
    Number(Option<u64>),
    String(String),
    Array(Vec<JsonValue>),
    /// Member names, and the member values at the same positions.
    Object(Vec<String>, Vec<JsonValue>),
}

/// The value of the first member named `key`.
pub open spec fn field_lookup(names: Seq<String>, values: Seq<JsonValue>, key: Seq<char>) -> Option<
    JsonValue,
>
    decreases names.len(),
{
    if names.len() == 0 || values.len() == 0 {
        None
    } else if names[0]@ == key {
        Some(values[0])
    } else {
        field_lookup(names.drop_first(), values.drop_first(), key)
    }
}

/// Member `key` of an object (nothing for any other value).
pub open spec fn json_get(v: JsonValue, key: Seq<char>) -> Option<JsonValue> {
    match v {
        JsonValue::Object(names, values) => field_lookup(names@, values@, key),
        _ => None,
    }
}

/// Text of member `key`, when it is a string.
pub open spec fn str_at(v: JsonValue, key: Seq<char>) -> Option<Seq<char>> {
    match json_get(v, key) {
        Some(JsonValue::String(s)) => Some(s@),
        _ => None,
    }
}

/// Value of member `key`, when it is a non-negative integer.
pub open spec fn u64_at(v: JsonValue, key: Seq<char>) -> Option<u64> {
    match json_get(v, key) {
        Some(JsonValue::Number(Some(n))) => Some(n),
        _ => None,
    }
}

/// Items of member `key`, when it is an array.
pub open spec fn array_at(v: JsonValue, key: Seq<char>) -> Option<Seq<JsonValue>> {
    match json_get(v, key) {
        Some(JsonValue::Array(items)) => Some(items@),
        _ => None,
    }
}

impl JsonValue {
    /// Member `key` of an object.
    pub fn get(&self, key: &str) -> (r: Option<&JsonValue>)
        ensures
            match r {
                Some(x) => json_get(*self, key@) == Some(*x),
                None => json_get(*self, key@) is None,
            },
    {
        match self {
            JsonValue::Object(names, values) => {
                let n = if names.len() <= values.len() {
                    names.len()
                } else {
                    values.len()
                };
                let mut i: usize = 0;
                assert(names@.skip(0) =~= names@);
                assert(values@.skip(0) =~= values@);
                while i < n
                    invariant
                        *self == JsonValue::Object(*names, *values),
                        n <= names@.len(),
                        n <= values@.len(),
                        n == names@.len() || n == values@.len(),
                        i <= n,
                        field_lookup(names@, values@, key@) == field_lookup(
                            names@.skip(i as int),
                            values@.skip(i as int),
                            key@,
                        ),
                    decreases n - i,
                {
                    assert(names@.skip(i as int)[0] == names@[i as int]);
                    assert(values@.skip(i as int)[0] == values@[i as int]);
                    assert(names@.skip(i as int).drop_first() =~= names@.skip(i + 1));
                    assert(values@.skip(i as int).drop_first() =~= values@.skip(i + 1));
                    if str_equal(names[i].as_str(), key) {
                        return Some(&values[i]);
                    }
                    i = i + 1;
                }
                None
            },
            _ => None,
        }
    }

    /// The text of a string value.
    pub fn as_str(&self) -> (r: Option<&str>)
        ensures
            match *self {
                JsonValue::String(s) => r is Some && r->0@ == s@,
                _ => r is None,
            },
    {
        match self {
            JsonValue::String(s) => Some(s.as_str()),
            _ => None,
        }
    }

    /// The value of a non-negative integer.
    pub fn as_u64(&self) -> (r: Option<u64>)
        ensures
            match *self {
                JsonValue::Number(n) => r == n,
                _ => r is None,
            },
    {
        match self {
            JsonValue::Number(n) => *n,
            _ => None,
        }
    }

    /// The items of an array.
    pub fn as_array(&self) -> (r: Option<&Vec<JsonValue>>)
        ensures
            match *self {
                JsonValue::Array(items) => r is Some && *r->0 == items,
                _ => r is None,
            },
    {
        match self {
            JsonValue::Array(items) => Some(items),
            _ => None,
        }
    }
}

/// Text of member `key` of `v`.
pub fn get_str<'a>(v: &'a JsonValue, key: &str) -> (r: Option<&'a str>)
    ensures
        match str_at(*v, key@) {
            Some(s) => r is Some && r->0@ == s,
            None => r is None,
        },
{
    match v.get(key) {
        Some(x) => x.as_str(),
        None => None,
    }
}

/// Value of member `key` of `v`, when it is a non-negative integer.
pub fn get_u64(v: &JsonValue, key: &str) -> (r: Option<u64>)
    ensures
        r == u64_at(*v, key@),
{
    match v.get(key) {
        Some(x) => x.as_u64(),
        None => None,
    }
}

/// Items of member `key` of `v`, when it is an array.
pub fn get_array<'a>(v: &'a JsonValue, key: &str) -> (r: Option<&'a Vec<JsonValue>>)
    ensures
        match array_at(*v, key@) {
            Some(items) => r is Some && r->0@ == items,
            None => r is None,
        },
{
    match v.get(key) {
        Some(x) => x.as_array(),
        None => None,
    }
}

} // verus!
