//! JSON pretty-printing, done by `serde_json`.
use vstd::prelude::*;
use serde_json::Value;

verus! {

/// What `serde_json::to_string_pretty` gives for the value that
/// `serde_json::from_str::<serde_json::Value>` parses from `text`; `None` where
/// either call fails.
pub uninterp spec fn json_pretty_of(text: Seq<char>) -> Option<Seq<char>>;

/// Parses `text` as a `serde_json::Value` and calls
/// `serde_json::to_string_pretty` on it. Claimed: the result is the named
/// function `json_pretty_of` of `text`.
#[verifier::external_body]
pub(crate) fn json_pretty(text: &str) -> (r: Option<String>)
    ensures
        match r {
            Some(s) => json_pretty_of(text@) == Some(s@),
            None => json_pretty_of(text@) is None,
        },
{
    match serde_json::from_str::<serde_json::Value>(text) {
        Ok(v) => serde_json::to_string_pretty(&v).ok(),
        Err(_) => None,
    }
}

/// A JSON object member's value, as the log view shows it: a string's
/// contents, a number's and a composite value's compact JSON text, a
/// boolean, or null.
pub enum JsonValue {
    Str(String),
    Number(String),
    Bool(bool),
    Null,
    Composite(String),
}

/// A JSON value as plain values.
pub enum JsonValueView {
    Str(Seq<char>),
    Number(Seq<char>),
    Bool(bool),
    Null,
    Composite(Seq<char>),
}

/// An object member: key and value.
pub struct JsonField {
    pub key: String,
    pub value: JsonValue,
}

impl JsonValue {
    /// The value as plain values.
    pub open spec fn view_value(self) -> JsonValueView {
        match self {
            JsonValue::Str(s) => JsonValueView::Str(s@),
            JsonValue::Number(s) => JsonValueView::Number(s@),
            JsonValue::Bool(b) => JsonValueView::Bool(b),
            JsonValue::Null => JsonValueView::Null,
            JsonValue::Composite(s) => JsonValueView::Composite(s@),
        }
    }
}

/// The members as plain values.
pub open spec fn fields_view(fields: Seq<JsonField>) -> Seq<(Seq<char>, JsonValueView)> {
    Seq::new(fields.len(), |i: int| (fields[i].key@, fields[i].value.view_value()))
}

/// The members, in the order `serde_json::Map` iterates them, of the object
/// that `serde_json::from_str::<serde_json::Value>` parses from `text`;
/// `None` when `text` does not parse or is not an object.
pub uninterp spec fn json_object_fields_of(text: Seq<char>) -> Option<Seq<(Seq<char>, JsonValueView)>>;

/// Parses `text` as a `serde_json::Value` and, when it is an object, walks
/// its `serde_json::Map` and converts each value: strings by their contents,
/// numbers and composites by their `Display` (compact JSON) text. Claimed:
/// the result is the named function `json_object_fields_of` of `text`.
#[verifier::external_body]
pub(crate) fn json_object_fields(text: &str) -> (r: Option<Vec<JsonField>>)
    ensures
        match r {
            Some(v) => json_object_fields_of(text@) == Some(fields_view(v@)),
            None => json_object_fields_of(text@) is None,
        },
{
    match serde_json::from_str::<Value>(text) {
        Ok(Value::Object(map)) => Some(map.into_iter().map(|(key, v)| JsonField { key, value: match v {
            Value::String(s) => JsonValue::Str(s),
            Value::Number(n) => JsonValue::Number(n.to_string()),
            Value::Bool(b) => JsonValue::Bool(b),
            Value::Null => JsonValue::Null,
            other => JsonValue::Composite(other.to_string()),
        } }).collect()),
        _ => None,
    }
}

} // verus!
