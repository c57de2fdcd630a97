//! The diagnostic projection: a generic structured value tree of objects,
//! arrays, strings and numbers. Every message shape renders into it for
//! logging and inspection; nothing ever decodes from it.

use vstd::prelude::*;

verus! {

/// A structured diagnostic value. Numbers are kept wide enough for every
/// integer the wire carries, signed or unsigned.
#[derive(Debug, PartialEq, Eq)]
pub enum JsonValue {
    Number(i128),
    Text(String),
    Array(Vec<JsonValue>),
    Object(Vec<(String, JsonValue)>),
}

/// The mathematical shape of a diagnostic value.
#[verifier::ext_equal]
pub enum JsonSpec {
    Number(int),
    Text(Seq<char>),
    Array(Seq<JsonSpec>),
    Object(Seq<(Seq<char>, JsonSpec)>),
}

/// The mathematical shape of a diagnostic value: numbers and strings map to
/// their spec forms, and the children of arrays and objects map pointwise.
pub open spec fn json_view(v: JsonValue) -> JsonSpec
    decreases v,
{
    match v {
        JsonValue::Number(n) => JsonSpec::Number(n as int),
        JsonValue::Text(s) => JsonSpec::Text(s@),
        JsonValue::Array(items) => JsonSpec::Array(
            Seq::new(items@.len(), |i: int|
                if 0 <= i < items@.len() {
                    json_view(items[i])
                } else {
                    JsonSpec::Number(0)
                }
            ),
        ),
        JsonValue::Object(fields) => JsonSpec::Object(
            Seq::new(fields@.len(), |i: int|
                if 0 <= i < fields@.len() {
                    (fields[i].0@, json_view(fields[i].1))
                } else {
                    (Seq::empty(), JsonSpec::Number(0))
                }
            ),
        ),
    }
}

impl View for JsonValue {
    type V = JsonSpec;

    open spec fn view(&self) -> JsonSpec {
        json_view(*self)
    }
}

impl JsonValue {
    /// Wraps an integer as a diagnostic number.
    pub fn number(n: i128) -> (r: JsonValue)
        ensures
            r@ == JsonSpec::Number(n as int),
    {
        JsonValue::Number(n)
    }

    /// Wraps a string as a diagnostic text value.
    pub fn string(s: String) -> (r: JsonValue)
        ensures
            r@ == JsonSpec::Text(s@),
    {
        JsonValue::Text(s)
    }

    /// Wraps an ordered list of values as a diagnostic array.
    pub fn array(items: Vec<JsonValue>) -> (r: JsonValue)
        ensures
            (r@ matches JsonSpec::Array(elems) && elems.len() == items@.len()
                && forall|i: int| 0 <= i < items@.len() ==> elems[i] == items@[i]@),
    {
        JsonValue::Array(items)
    }

    /// Wraps an ordered list of named fields as a diagnostic object.
    pub fn object(fields: Vec<(String, JsonValue)>) -> (r: JsonValue)
        ensures
            (r@ matches JsonSpec::Object(fs) && fs.len() == fields@.len()
                && forall|i: int| 0 <= i < fields@.len()
                    ==> fs[i] == (fields@[i].0@, fields@[i].1@)),
    {
        JsonValue::Object(fields)
    }
}

} // verus!
