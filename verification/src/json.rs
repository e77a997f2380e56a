//! JSON documents, read by `serde_json`. Nothing in this file is proved: it
//! states what the verified code takes from that crate.

use vstd::prelude::*;

verus! {

#[verifier::external_type_specification]
#[verifier::external_body]
pub struct ExValue(serde_json::Value);

#[verifier::external_type_specification]
#[verifier::external_body]
pub struct ExError(serde_json::Error);

/// The value that `serde_json::from_str` reads from a text, or `None` where
/// it reports an error.
pub uninterp spec fn json_document(text: Seq<char>) -> Option<serde_json::Value>;

/// What indexing a JSON value with a string key gives.
pub uninterp spec fn json_member(value: serde_json::Value, key: Seq<char>) -> serde_json::Value;

/// What `serde_json::Value::as_str` gives: the characters of a value that is
/// a string.
pub uninterp spec fn json_text(value: serde_json::Value) -> Option<Seq<char>>;

/// What `serde_json::Value::as_array` gives: the elements of a value that is
/// an array.
pub uninterp spec fn json_items(value: serde_json::Value) -> Option<Seq<serde_json::Value>>;

/// Calls `serde_json::from_str` for a `serde_json::Value`. The contract only
/// names the result: the same text gives the same value, or an error each
/// time.
#[verifier::external_body]
pub(crate) fn document_of(text: &str) -> (read: Result<serde_json::Value, serde_json::Error>)
    ensures
        read matches Ok(document) ==> json_document(text@) == Some(document),
        read is Err ==> json_document(text@) is None,
{
    serde_json::from_str::<serde_json::Value>(text)
}

/// Indexes a `serde_json::Value` with a string key, as `value[key]` does. The
/// crate returns a reference in every case, to its null value where `value` is
/// no object or has no such key. The contract only names the result.
#[verifier::external_body]
pub(crate) fn member<'a>(value: &'a serde_json::Value, key: &str) -> (found: &'a serde_json::Value)
    ensures
        *found == json_member(*value, key@),
{
    &value[key]
}

/// Calls `serde_json::Value::as_str`, which gives the string that the value
/// holds and `None` for a value of another kind. The contract only names the
/// result.
#[verifier::external_body]
pub(crate) fn text_of_value<'a>(value: &'a serde_json::Value) -> (text: Option<&'a str>)
    ensures
        text matches Some(characters) ==> json_text(*value) == Some(characters@),
        text is None ==> json_text(*value) is None,
{
    value.as_str()
}

/// Calls `serde_json::Value::as_array`, which gives the vector that the value
/// holds and `None` for a value of another kind. The contract only names the
/// result.
#[verifier::external_body]
pub(crate) fn items_of<'a>(value: &'a serde_json::Value) -> (items: Option<
    &'a Vec<serde_json::Value>,
>)
    ensures
        items matches Some(elements) ==> json_items(*value) == Some(elements@),
        items is None ==> json_items(*value) is None,
{
    value.as_array()
}

} // verus!
