//! The JSON operations the library needs, performed by `serde_json`.
use vstd::prelude::*;

verus! {

/// `serde_json::Error`, carried through as an opaque value.
#[verifier::external_type_specification]
#[verifier::external_body]
pub struct ExJsonError(serde_json::Error);

/// The JSON text `serde_json::to_string` produces for an array of strings.
pub uninterp spec fn json_string_array(items: Seq<Seq<char>>) -> Seq<char>;

/// The string value of the field `key` of the JSON object `text`, as
/// `serde_json` parses it; `None` when `text` is not valid JSON or holds no
/// string under `key` at its top level.
pub uninterp spec fn json_string_field(text: Seq<char>, key: Seq<char>) -> Option<Seq<char>>;

/// The views of a list of strings.
pub open spec fn string_views(v: Seq<String>) -> Seq<Seq<char>> {
    v.map_values(|s: String| s@)
}

/// Calls `serde_json::to_string` on a list of strings. Its documentation
/// says serialization fails only when a `Serialize` impl decides to fail or
/// a map has non-string keys, neither of which a list of strings can do; so
/// the call succeeds, with the text named by `json_string_array`.
#[verifier::external_body]
pub(crate) fn encode_string_array(items: &Vec<String>) -> (r: Result<String, serde_json::Error>)
    ensures
        r is Ok,
        r matches Ok(t) ==> t@ == json_string_array(string_views(items@)),
{
    serde_json::to_string(items)
}

/// Parses `text` with `serde_json::from_str` into a `serde_json::Value`
/// and reads the string held under `key` (`Value::get`, then
/// `Value::as_str`). The result is named by `json_string_field`.
#[verifier::external_body]
pub(crate) fn string_field(text: &str, key: &str) -> (r: Option<String>)
    ensures
        match r {
            Some(v) => json_string_field(text@, key@) == Some(v@),
            None => json_string_field(text@, key@) is None,
        },
{
    let value: serde_json::Value = serde_json::from_str(text).ok()?;
    value.get(key).and_then(|v| v.as_str()).map(|s| s.to_string())
}

} // verus!
