//! A plain JSON model. The manifest file is JSON; an outside reader parses
//! the text, and its result is translated into `JsonValue`, which the
//! manifest's schema checks are then proved over.

use vstd::prelude::*;

verus! {

/// A parsed JSON document, as plain data. A number keeps only its textual
/// form: no manifest field is numeric, so a number can only ever be a type
/// error for the schema.
#[derive(Debug)]
pub enum JsonValue {
    Null,
    Bool(bool),
    Number(String),
    Str(String),
    Array(Vec<JsonValue>),
    Object(Vec<(String, JsonValue)>),
}

/// What the JSON reader returns for a given text, translated to `JsonValue`;
/// `None` when the text is not valid JSON. The reader's result is a function
/// of the text alone, so it can be given this name.
pub uninterp spec fn json_of(text: Seq<char>) -> Option<JsonValue>;

/// Relies on serde_json::from_str::<serde_json::Value>: parses the text as
/// one JSON document, deterministically; object members come back sorted by
/// key (the reader's map keeps them so), each key once, the last value given
/// for a duplicated key winning.
#[verifier::external_body]
pub(crate) fn parse_json(text: &str) -> (r: Option<JsonValue>)
    ensures
        r == json_of(text@),
{
    match serde_json::from_str::<serde_json::Value>(text) {
        Ok(v) => Some(json_from_serde(v)),
        Err(_) => None,
    }
}

#[verifier::external_type_specification]
#[verifier::external_body]
pub struct ExSerdeJsonValue(serde_json::Value);

/// Relies on the shape of serde_json::Value and on iteration over its array
/// and object containers: each variant is carried over to `JsonValue`, one
/// arm per variant, values recursively; a number is kept as its text.
#[verifier::external_body]
fn json_from_serde(v: serde_json::Value) -> JsonValue {
    match v {
        serde_json::Value::Null => JsonValue::Null,
        serde_json::Value::Bool(b) => JsonValue::Bool(b),
        serde_json::Value::Number(n) => JsonValue::Number(n.to_string()),
        serde_json::Value::String(s) => JsonValue::Str(s),
        serde_json::Value::Array(a) => JsonValue::Array(
            a.into_iter().map(json_from_serde).collect(),
        ),
        serde_json::Value::Object(o) => JsonValue::Object(
            o.into_iter().map(|(k, x)| (k, json_from_serde(x))).collect(),
        ),
    }
}

} // verus!
