//! JSON lines, read through the crate `serde_json`.

use vstd::prelude::*;
use serde_json::Value;

verus! {

#[verifier::external_type_specification]
#[verifier::external_body]
pub struct ExValue(Value);

/// The string members of a JSON value: for an object, each key whose value is a JSON string,
/// mapped to that string; any other value has none.
pub uninterp spec fn string_members(v: Value) -> Map<Seq<char>, Seq<char>>;

/// What `serde_json::from_str::<Value>` makes of a text: `None` where the text is not valid
/// JSON, else the string members of the value that it parses.
pub uninterp spec fn parsed_string_members(text: Seq<char>) -> Option<Map<Seq<char>, Seq<char>>>;

/// Calls `serde_json::from_str::<Value>`, with `None` for its error.
#[verifier::external_body]
pub(crate) fn parse_json(text: &str) -> (v: Option<Value>)
    ensures
        v is Some <==> parsed_string_members(text@) is Some,
        v matches Some(v) ==> string_members(v) == parsed_string_members(text@)->0,
{
    serde_json::from_str::<Value>(text).ok()
}

/// Calls `Value::get` with a key and keeps the member only where it is a JSON string (the
/// variant `Value::String`, as `Value::as_str` tells it apart).
#[verifier::external_body]
pub(crate) fn string_member(v: &Value, key: &str) -> (s: Option<String>)
    ensures
        s is Some <==> string_members(*v).dom().contains(key@),
        s matches Some(s) ==> s@ == string_members(*v)[key@],
{
    match v.get(key) {
        Some(Value::String(s)) => Some(s.clone()),
        _ => None,
    }
}

} // verus!
