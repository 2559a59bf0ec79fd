//! JSON payload values: the library builds `null` and string values and
//! otherwise carries payloads without looking inside.
use vstd::prelude::*;

verus! {

/// `serde_json::Value`, the payload of every event.
#[verifier::external_type_specification]
#[verifier::external_body]
pub struct ExJsonValue(serde_json::Value);

/// What `Value::is_null` returns for a value: whether it is JSON `null`.
pub uninterp spec fn json_is_null(v: serde_json::Value) -> bool;

/// What `Value::as_str` returns for a value: the text of a JSON string, and
/// nothing for any other value.
pub uninterp spec fn json_as_str(v: serde_json::Value) -> Option<Seq<char>>;

/// Builds the JSON string value holding `text` (`Value::String`): it is not
/// `null`, and `as_str` gives back `text`.
#[verifier::external_body]
pub(crate) fn make_json_string(text: String) -> (result: serde_json::Value)
    ensures
        !json_is_null(result),
        json_as_str(result) == Some(text@),
{
    serde_json::Value::String(text)
}

/// Builds JSON `null` through `Value::from(())`, which gives `Value::Null`:
/// `is_null` holds of it and `as_str` gives nothing.
#[verifier::external_body]
pub(crate) fn make_json_null() -> (result: serde_json::Value)
    ensures
        json_is_null(result),
        json_as_str(result) is None,
{
    serde_json::Value::from(())
}

/// `serde_json::Value` derives `Clone`, which copies the value field by field:
/// the copy is the same value.
pub assume_specification[ <serde_json::Value as Clone>::clone ](v: &serde_json::Value) -> (r: serde_json::Value)
    ensures
        r == *v,
;

/// `serde_json::Error`, the error of parsing or converting JSON.
#[verifier::external_type_specification]
#[verifier::external_body]
pub struct ExJsonError(serde_json::Error);

/// Calls `to_string` on a `serde_json::Error`, which writes its `Display`
/// text. Nothing is claimed of the text: for an I/O error it is the
/// operating system's message, which may depend on the locale.
#[verifier::external_body]
pub(crate) fn json_error_message(e: &serde_json::Error) -> String {
    e.to_string()
}

} // verus!
