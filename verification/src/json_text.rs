//! JSON text, read and written by serde_json: parsing a text into a
//! `JsonValue`, and the compact text of a `JsonValue`.
use vstd::prelude::*;

use serde_json::Value;

use crate::json::{Json, JsonValue};

verus! {

broadcast use vstd::string::group_string_axioms;

/// serde_json's value type, carried opaquely.
#[verifier::external_type_specification]
#[verifier::external_body]
pub struct ExSerdeValue(serde_json::Value);

/// The JSON value that `serde_json::from_str::<serde_json::Value>` reads
/// from a text, as plain values; `None` when the text is not JSON.
pub uninterp spec fn json_parse(text: Seq<char>) -> Option<Json>;

/// The text that `serde_json::to_string` writes for a value, members of
/// an object in key order (the order of serde_json's map).
pub uninterp spec fn json_serialize(v: Json) -> Seq<char>;

/// A serde_json value as a `JsonValue`: one variant for each, numbers kept
/// as the text serde_json writes for them. Nothing is claimed of it beyond
/// what `parse_json` claims.
#[verifier::external_body]
fn json_of_value(v: &Value) -> (r: JsonValue) {
    match v {
        Value::Null => JsonValue::Null,
        Value::Bool(b) => JsonValue::Bool(*b),
        Value::Number(n) => JsonValue::Number(n.to_string()),
        Value::String(s) => JsonValue::Str(s.clone()),
        Value::Array(a) => JsonValue::Array(a.iter().map(json_of_value).collect()),
        Value::Object(m) => JsonValue::Object(m.iter().map(|(k, x)| (k.clone(), json_of_value(x))).collect()),
    }
}

/// A `JsonValue` as a serde_json value: one variant for each; a number
/// whose text serde_json does not read as a number becomes `null`. Nothing
/// is claimed of it beyond what `json_text` claims.
#[verifier::external_body]
fn value_of_json(v: &JsonValue) -> (r: Value) {
    match v {
        JsonValue::Null => Value::Null,
        JsonValue::Bool(b) => Value::Bool(*b),
        JsonValue::Number(t) => t.parse::<serde_json::Number>().map_or(Value::Null, Value::Number),
        JsonValue::Str(s) => Value::String(s.clone()),
        JsonValue::Array(a) => Value::Array(a.iter().map(value_of_json).collect()),
        JsonValue::Object(m) => Value::Object(m.iter().map(|(k, x)| (k.clone(), value_of_json(x))).collect()),
    }
}

/// `serde_json::from_str::<serde_json::Value>`, converted to a
/// `JsonValue`. Claimed: `Some` exactly when `json_parse` reads a value,
/// and then that value.
#[verifier::external_body]
pub fn parse_json(text: &str) -> (r: Option<JsonValue>)
    ensures
        r matches Some(v) ==> json_parse(text@) == Some(v@),
        r is None ==> json_parse(text@) is None,
{
    serde_json::from_str::<Value>(text).ok().map(|v| json_of_value(&v))
}

/// `serde_json::to_string` of the value. Claimed: the result is
/// `json_serialize` of the value; serializing a `serde_json::Value` does
/// not fail.
#[verifier::external_body]
pub fn json_text(v: &JsonValue) -> (r: String)
    ensures
        r@ == json_serialize(v@),
{
    serde_json::to_string(&value_of_json(v)).unwrap_or_default()
}

} // verus!
