//! The JSON that the Skills Manager CLI prints, read with `serde_json`.

use vstd::prelude::*;

verus! {

/// `serde_json::Value`, carried through without looking inside.
#[verifier::external_type_specification]
#[verifier::external_body]
pub struct ExJsonValue(serde_json::Value);

/// Whether `serde_json` parses `text` as one JSON value.
pub uninterp spec fn spec_is_json(text: Seq<char>) -> bool;

/// The string member `key` of the JSON object that `serde_json` parses from
/// `text`: none when `text` is not JSON, not an object, lacks `key`, or holds a
/// non-string there.
pub uninterp spec fn spec_json_string_field(text: Seq<char>, key: Seq<char>) -> Option<Seq<char>>;

/// Parses `text` with `serde_json::from_str::<serde_json::Value>`. The result
/// is present exactly when the parse succeeds, which depends on `text` alone;
/// what the value holds is not stated.
#[verifier::external_body]
pub fn parse_json(text: &str) -> (r: Option<serde_json::Value>)
    ensures
        r is Some <==> spec_is_json(text@),
{
    serde_json::from_str::<serde_json::Value>(text).ok()
}

/// Parses `text` with `serde_json::from_str::<serde_json::Value>`, then takes
/// member `key` with `Value::get` and its text with `Value::as_str`. The result
/// is the named outcome of those calls on `text` and `key`.
#[verifier::external_body]
pub fn json_string_field(text: &str, key: &str) -> (r: Option<String>)
    ensures
        match r {
            Some(s) => spec_json_string_field(text@, key@) == Some(s@),
            None => spec_json_string_field(text@, key@) is None,
        },
{
    match serde_json::from_str::<serde_json::Value>(text) {
        Ok(value) => match value.get(key) {
            Some(field) => match field.as_str() {
                Some(s) => Some(s.to_owned()),
                None => None,
            },
            None => None,
        },
        Err(_) => None,
    }
}

} // verus!
