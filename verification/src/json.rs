//! Trusted bridge to serde_json.
//!
//! The pipeline needs two things from a JSON parser: whether a text is valid
//! JSON at all (for JSON modules), and the string held under a top-level key
//! of an object (for package manifests). Both are pure functions of the
//! text, named here and computed by serde_json.

use vstd::prelude::*;

verus! {

/// Whether a text parses as JSON; a function of the text alone.
pub uninterp spec fn json_valid(text: Seq<char>) -> bool;

/// The string under a top-level key of a JSON object text, if the text is an
/// object and the key holds a string; a function of text and key alone.
pub uninterp spec fn json_string_field_of(text: Seq<char>, key: Seq<char>) -> Option<Seq<char>>;

/// Relies on `serde_json::from_str::<Value>`: whether the text is valid JSON.
#[verifier::external_body]
pub(crate) fn json_is_valid(text: &str) -> (r: bool)
    ensures
        r == json_valid(text@),
{
    serde_json::from_str::<serde_json::Value>(text).is_ok()
}

/// Relies on `serde_json::from_str::<Value>`, `Value::get` and
/// `Value::as_str`: looks up the string under a top-level key of a JSON
/// object.
#[verifier::external_body]
pub(crate) fn json_string_field(text: &str, key: &str) -> (r: Option<String>)
    ensures
        match r {
            Some(v) => json_string_field_of(text@, key@) == Some(v@),
            None => json_string_field_of(text@, key@) is None,
        },
{
    match serde_json::from_str::<serde_json::Value>(text) {
        Ok(val) => val.get(key).and_then(|v| v.as_str()).map(|s| s.to_string()),
        Err(_) => None,
    }
}

} // verus!
