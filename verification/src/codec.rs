//! JSON text: reading a reply and writing a request body or a document, with
//! serde_json doing the parsing and the printing.
use vstd::prelude::*;
use crate::json::{Json, JsonV, Member};
use crate::markdown::{commonmark_events, markdown_to_tiptap_json, tiptap_of_events};

verus! {

#[verifier::external_type_specification]
#[verifier::external_body]
pub struct ExValue(serde_json::Value);

/// Converts a `serde_json::Value` variant for variant (a number becomes
/// `UInt` when it is an unsigned 64-bit integer, else `OtherNumber`).  Part
/// of the conversion in `parse_json`, whose contract covers its result; it
/// states nothing of its own.
#[verifier::external_body]
fn value_to_json(v: &serde_json::Value) -> Json {
    match v {
        serde_json::Value::Null => Json::Null,
        serde_json::Value::Bool(b) => Json::Bool(*b),
        serde_json::Value::Number(n) => match n.as_u64() {
            Some(u) => Json::UInt(u),
            None => Json::OtherNumber,
        },
        serde_json::Value::String(s) => Json::Str(s.clone()),
        serde_json::Value::Array(items) => Json::Array(items.iter().map(value_to_json).collect()),
        serde_json::Value::Object(map) => Json::Object(
            map.iter().map(|(k, x)| Member { key: k.clone(), value: value_to_json(x) }).collect(),
        ),
    }
}

/// Converts a `Json` into a `serde_json::Value` variant for variant, the
/// members of an object inserted in order into serde_json's map
/// (`OtherNumber`, which carries no number, becomes `null`).  Part of the
/// conversion in `write_json`, whose contract covers its result; it states
/// nothing of its own.
#[verifier::external_body]
fn json_to_value(j: &Json) -> serde_json::Value {
    match j {
        Json::Null => serde_json::Value::Null,
        Json::Bool(b) => serde_json::Value::Bool(*b),
        Json::UInt(n) => serde_json::Value::from(*n),
        Json::OtherNumber => serde_json::Value::Null,
        Json::Str(s) => serde_json::Value::String(s.clone()),
        Json::Array(items) => serde_json::Value::Array(items.iter().map(json_to_value).collect()),
        Json::Object(ms) => serde_json::Value::Object(
            ms.iter().map(|m| (m.key.clone(), json_to_value(&m.value))).collect(),
        ),
    }
}

/// The value that serde_json reads from the text `text` (a number that is
/// not an unsigned 64-bit integer kept as `OtherNumber`), or `None` when
/// `text` is not JSON.
pub uninterp spec fn json_of_text(text: Seq<char>) -> Option<JsonV>;

/// The compact JSON text that serde_json writes for the value `v` (an
/// `OtherNumber` written as `null`).
pub uninterp spec fn json_text(v: JsonV) -> Seq<char>;

/// Calls `serde_json::from_str::<serde_json::Value>` on `text` and converts
/// the value it reads.  Trusted to return `json_of_text(text)`: what
/// serde_json reads depends on the text alone.
#[verifier::external_body]
pub(crate) fn parse_json(text: &str) -> (r: Option<Json>)
    ensures
        match r {
            Some(j) => json_of_text(text@) == Some(j@),
            None => json_of_text(text@) is None,
        },
{
    match serde_json::from_str::<serde_json::Value>(text) {
        Ok(v) => Some(value_to_json(&v)),
        Err(_) => None,
    }
}

/// Converts `j` into a `serde_json::Value` and calls `serde_json::to_string`
/// on it.  Trusted to return `json_text(j)`: what serde_json writes depends on
/// the value alone.  Writing a `serde_json::Value` does not fail (its keys are
/// strings and its numbers finite), so the error arm is never taken.
#[verifier::external_body]
pub(crate) fn write_json(j: &Json) -> (s: String)
    ensures
        s@ == json_text(j@),
{
    match serde_json::to_string(&json_to_value(j)) {
        Ok(s) => s,
        Err(_) => String::new(),
    }
}

/// The Tiptap JSON text for Markdown `md`: what `update` sends as the new
/// content of a document.
pub fn tiptap_text_of_markdown(md: &str) -> (s: String)
    ensures
        s@ == json_text(tiptap_of_events(commonmark_events(md@))),
{
    let doc = markdown_to_tiptap_json(md);
    write_json(&doc)
}

} // verus!
