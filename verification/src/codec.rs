//! JSON text and bytes as `serde_json` reads and prints them, in the
//! library's JSON model, and the lossy UTF-8 decoding of bytes.
//!
//! What `serde_json` makes of a text is a function of the text alone; the
//! library names it and reasons over the name.

use vstd::prelude::*;
use serde_json::Value;
use crate::json::{Json, JsonValue};

verus! {

#[verifier::external_type_specification]
#[verifier::external_body]
pub struct ExSerdeValue(serde_json::Value);

#[verifier::external_type_specification]
#[verifier::external_body]
pub struct ExSerdeNumber(serde_json::Number);

/// What `serde_json::from_str::<serde_json::Value>` makes of `text`, in the
/// library's model; `None` when the text is not JSON.
pub uninterp spec fn json_parse(text: Seq<char>) -> Option<JsonValue>;

/// What `serde_json::from_slice::<serde_json::Value>` makes of `bytes`, in the
/// library's model; `None` when the bytes are not JSON.
pub uninterp spec fn json_bytes_parse(bytes: Seq<u8>) -> Option<JsonValue>;

/// The text `serde_json::to_string` prints for a value; `None` when it fails.
pub uninterp spec fn json_text(v: JsonValue) -> Option<Seq<char>>;

/// The bytes `serde_json::to_vec_pretty` prints for a value; `None` when it
/// fails.
pub uninterp spec fn json_pretty_bytes(v: JsonValue) -> Option<Seq<u8>>;

/// `String::from_utf8_lossy`: the bytes decoded as UTF-8, each invalid
/// sequence replaced by U+FFFD.
pub uninterp spec fn utf8_lossy(bytes: Seq<u8>) -> Seq<char>;

/// A `serde_json` number in the library's model: its unsigned or signed
/// integer value, or else its text.
#[verifier::external_body]
fn json_of_number(n: serde_json::Number) -> Json {
    match (n.as_u64(), n.as_i64()) {
        (Some(u), _) => Json::UInt(u),
        (None, Some(i)) => Json::Int(i),
        (None, None) => Json::Float(n.to_string()),
    }
}

/// A `serde_json` value in the library's model, variant for variant.
#[verifier::external_body]
fn json_of_value(v: serde_json::Value) -> Json {
    match v {
        Value::Null => Json::Null,
        Value::Bool(b) => Json::Bool(b),
        Value::Number(n) => json_of_number(n),
        Value::String(s) => Json::Str(s),
        Value::Array(a) => Json::Array(a.into_iter().map(json_of_value).collect()),
        Value::Object(m) => Json::Object(m.into_iter().map(|(k, x)| (k, json_of_value(x))).collect()),
    }
}

/// A value of the library's model as a `serde_json` value, variant for
/// variant (a number's text read back as a number).
#[verifier::external_body]
fn value_of_json(j: &Json) -> serde_json::Value {
    match j {
        Json::Null => Value::Null,
        Json::Bool(b) => Value::Bool(*b),
        Json::UInt(n) => Value::from(*n),
        Json::Int(n) => Value::from(*n),
        Json::Float(t) => serde_json::from_str(t).unwrap_or(Value::Null),
        Json::Str(s) => Value::String(s.clone()),
        Json::Array(a) => Value::Array(a.iter().map(value_of_json).collect()),
        Json::Object(es) => Value::Object(es.iter().map(|(k, x)| (k.clone(), value_of_json(x))).collect()),
    }
}

/// `serde_json::from_str::<serde_json::Value>`: the result is the value
/// named by [`json_parse`] for the text.
#[verifier::external_body]
pub(crate) fn parse_json_text(text: &str) -> (r: Option<Json>)
    ensures
        match r {
            Some(j) => json_parse(text@) == Some(j@),
            None => json_parse(text@) is None,
        },
{
    serde_json::from_str::<serde_json::Value>(text).ok().map(json_of_value)
}

/// `serde_json::from_slice::<serde_json::Value>`: the result is the value
/// named by [`json_bytes_parse`] for the bytes.
#[verifier::external_body]
pub(crate) fn parse_json_bytes(bytes: &[u8]) -> (r: Option<Json>)
    ensures
        match r {
            Some(j) => json_bytes_parse(bytes@) == Some(j@),
            None => json_bytes_parse(bytes@) is None,
        },
{
    serde_json::from_slice::<serde_json::Value>(bytes).ok().map(json_of_value)
}

/// `serde_json::to_string`: the result is the text named by [`json_text`]
/// for the value.
#[verifier::external_body]
pub(crate) fn json_to_string(j: &Json) -> (r: Option<String>)
    ensures
        match r {
            Some(s) => json_text(j@) == Some(s@),
            None => json_text(j@) is None,
        },
{
    serde_json::to_string(&value_of_json(j)).ok()
}

/// `serde_json::to_vec_pretty`: the result is the bytes named by
/// [`json_pretty_bytes`] for the value.
#[verifier::external_body]
pub(crate) fn json_to_vec_pretty(j: &Json) -> (r: Option<Vec<u8>>)
    ensures
        match r {
            Some(b) => json_pretty_bytes(j@) == Some(b@),
            None => json_pretty_bytes(j@) is None,
        },
{
    serde_json::to_vec_pretty(&value_of_json(j)).ok()
}

/// `String::from_utf8_lossy`: the result is the text named by
/// [`utf8_lossy`] for the bytes.
#[verifier::external_body]
pub(crate) fn utf8_lossy_string(bytes: &[u8]) -> (r: String)
    ensures
        r@ == utf8_lossy(bytes@),
{
    String::from_utf8_lossy(bytes).into_owned()
}

/// What `std::str::from_utf8` reports of bytes that are not valid UTF-8:
/// the length of the valid prefix, and whether an invalid sequence (rather
/// than one cut short at the end) follows it; `None` for valid UTF-8.
pub uninterp spec fn utf8_error(bytes: Seq<u8>) -> Option<(nat, bool)>;

/// `std::str::from_utf8`, as its error: the result is the report named by
/// [`utf8_error`], and the valid prefix lies within the bytes.
#[verifier::external_body]
pub(crate) fn utf8_error_of(bytes: &[u8]) -> (r: Option<(usize, bool)>)
    ensures
        match r {
            Some((n, bad)) => utf8_error(bytes@) == Some((n as nat, bad)) && n <= bytes@.len(),
            None => utf8_error(bytes@) is None,
        },
{
    match std::str::from_utf8(bytes) {
        Ok(_) => None,
        Err(e) => Some((e.valid_up_to(), e.error_len().is_some())),
    }
}

} // verus!
