//! The JSON parser that the classifier rests on.
//!
//! Parsing and member lookup are done by `serde_json`. Its results are named
//! here (`parsed`, `member_of`) and are functions of their arguments alone.

use vstd::prelude::*;

verus! {

#[verifier::external_type_specification]
#[verifier::external_body]
pub struct ExValue(serde_json::Value);

/// What a top-level member of a JSON document holds, as far as the
/// classifier looks into it.
pub enum JsonField {
    /// The document is not an object, or has no member of that name.
    Missing,
    Null,
    Bool,
    Number,
    Str(String),
    Array,
    Object,
}

/// The mathematical counterpart of `JsonField`.
pub enum FieldShape {
    Missing,
    Null,
    Bool,
    Number,
    Str(Seq<char>),
    Array,
    Object,
}

impl View for JsonField {
    type V = FieldShape;

    open spec fn view(&self) -> FieldShape {
        match self {
            JsonField::Missing => FieldShape::Missing,
            JsonField::Null => FieldShape::Null,
            JsonField::Bool => FieldShape::Bool,
            JsonField::Number => FieldShape::Number,
            JsonField::Str(s) => FieldShape::Str(s@),
            JsonField::Array => FieldShape::Array,
            JsonField::Object => FieldShape::Object,
        }
    }
}

/// The JSON value that `text` parses to, or `None` where it is not JSON.
pub uninterp spec fn parsed(text: Seq<char>) -> Option<serde_json::Value>;

/// What the member named `key` of the document `doc` holds.
pub uninterp spec fn member_of(doc: serde_json::Value, key: Seq<char>) -> FieldShape;

/// Relies on `serde_json::from_str::<Value>`: it parses the whole text as one
/// JSON value (trailing characters other than whitespace are an error), and
/// the outcome depends on the text alone.
#[verifier::external_body]
pub(crate) fn parse_json(text: &str) -> (r: Option<serde_json::Value>)
    ensures
        r == parsed(text@),
{
    serde_json::from_str::<serde_json::Value>(text).ok()
}

/// Relies on `serde_json::Value::get` with a string index: the member of that
/// name where the value is an object, `None` otherwise.
#[verifier::external_body]
pub(crate) fn member(doc: &serde_json::Value, key: &str) -> (r: JsonField)
    ensures
        r@ == member_of(*doc, key@),
{
    match doc.get(key) {
        None => JsonField::Missing,
        Some(serde_json::Value::Null) => JsonField::Null,
        Some(serde_json::Value::Bool(_)) => JsonField::Bool,
        Some(serde_json::Value::Number(_)) => JsonField::Number,
        Some(serde_json::Value::String(s)) => JsonField::Str(s.clone()),
        Some(serde_json::Value::Array(_)) => JsonField::Array,
        Some(serde_json::Value::Object(_)) => JsonField::Object,
    }
}

} // verus!
