//! JSON values of the `serde_json` crate, and what the library believes of them.

use vstd::prelude::*;

verus! {

/// The JSON value of `serde_json`, a tree of members and items that only its own methods open.
#[verifier::external_type_specification]
#[verifier::external_body]
pub struct ExValue(serde_json::Value);

/// What a JSON value holds.
pub enum Json {
    Null,
    Bool(bool),
    /// The bits of the double precision number that stands for the JSON number.
    Number(u64),
    Text(Seq<char>),
    Array(Seq<Json>),
    Object(Map<Seq<char>, Json>),
}

/// The contents of a `serde_json::Value`: its members, its items, its text or its number.
pub uninterp spec fn contents(value: serde_json::Value) -> Json;

/// The contents of the items of an array.
pub open spec fn items_of(values: Seq<serde_json::Value>) -> Seq<Json> {
    values.map_values(|value: serde_json::Value| contents(value))
}

/// The member of an object, where there is one.
pub open spec fn member(json: Json, key: Seq<char>) -> Option<Json> {
    match json {
        Json::Object(members) => if members.contains_key(key) {
            Some(members[key])
        } else {
            None
        },
        _ => None,
    }
}

/// The text of a JSON string.
pub open spec fn text_of(json: Json) -> Option<Seq<char>> {
    match json {
        Json::Text(chars) => Some(chars),
        _ => None,
    }
}

/// Calls `serde_json::Value::get` with a string. It gives the member of that name where the
/// value is an object that has one, and nothing otherwise.
#[verifier::external_body]
pub(crate) fn get<'a>(value: &'a serde_json::Value, key: &str) -> (found: Option<
    &'a serde_json::Value,
>)
    ensures
        match found {
            Some(v) => member(contents(*value), key@) == Some(contents(*v)),
            None => member(contents(*value), key@) is None,
        },
{
    value.get(key)
}

/// Calls `serde_json::Value::as_str`. It gives the text of a JSON string, and nothing for any
/// other value.
#[verifier::external_body]
pub(crate) fn as_str(value: &serde_json::Value) -> (text: Option<&str>)
    ensures
        match text {
            Some(t) => text_of(contents(*value)) == Some(t@),
            None => text_of(contents(*value)) is None,
        },
{
    value.as_str()
}

/// Calls `serde_json::Value::as_array`. It gives the items of a JSON array in their order, and
/// nothing for any other value.
#[verifier::external_body]
pub(crate) fn as_array(value: &serde_json::Value) -> (items: Option<&Vec<serde_json::Value>>)
    ensures
        match items {
            Some(v) => contents(*value) == Json::Array(items_of(v@)),
            None => !(contents(*value) is Array),
        },
{
    value.as_array()
}

/// Calls `serde_json::Value::as_f64`. It gives the double precision number that stands for a
/// JSON number, here as its bits, and nothing for any other value. Without the feature
/// `arbitrary_precision`, which this crate leaves off, every JSON number has one.
#[verifier::external_body]
pub(crate) fn as_f64(value: &serde_json::Value) -> (bits: Option<u64>)
    ensures
        bits == match contents(*value) {
            Json::Number(b) => Some(b),
            _ => None,
        },
{
    match value.as_f64() {
        Some(number) => Some(number.to_bits()),
        None => None,
    }
}

} // verus!
