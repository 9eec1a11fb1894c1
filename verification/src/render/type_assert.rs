//! Utility functions for type assertions.
use serde_json::Value;
use vstd::prelude::*;

use crate::render::scope::{value_array, value_object};

verus! {

/// JSON types used for type assertions.
#[derive(Copy, Clone, Debug, PartialEq, Eq, Structural)]
pub enum Type {
    /// The `null` JSON type.
    Null,
    /// The `boolean` JSON type.
    Bool,
    /// The `number` JSON type.
    Number,
    /// The `string` JSON type.
    String,
    /// The `object` JSON type.
    Object,
    /// The `array` JSON type.
    Array,
}

impl Type {
    /// The name of the type as written in messages.
    pub open spec fn name(self) -> Seq<char> {
        match self {
            Type::Null => "null"@,
            Type::Bool => "boolean"@,
            Type::Number => "number"@,
            Type::String => "string"@,
            Type::Object => "object"@,
            Type::Array => "array"@,
        }
    }

    /// The name of the type as written in messages.
    pub fn to_string(&self) -> (res: String)
        ensures
            res@ == self.name(),
    {
        let name = match self {
            Type::Null => "null",
            Type::Bool => "boolean",
            Type::Number => "number",
            Type::String => "string",
            Type::Object => "object",
            Type::Array => "array",
        };
        name.to_owned()
    }
}

/// The JSON type of a `serde_json` value.
pub uninterp spec fn value_kind(v: Value) -> Type;

/// The JSON type of a value: which variant of `serde_json::Value` it is;
/// only an object value has entries and only an array value has elements.
#[verifier::external_body]
pub(crate) fn json_type(value: &Value) -> (res: Type)
    ensures
        res == value_kind(*value),
        (res == Type::Object) == (value_object(*value) is Some),
        (res == Type::Array) == (value_array(*value) is Some),
{
    match value {
        Value::Null => Type::Null,
        Value::Bool(_) => Type::Bool,
        Value::Number(_) => Type::Number,
        Value::String(_) => Type::String,
        Value::Object(_) => Type::Object,
        Value::Array(_) => Type::Array,
    }
}

/// The JSON type of a value.
impl From<&Value> for Type {
    fn from(value: &Value) -> (res: Self) {
        json_type(value)
    }
}

impl vstd::std_specs::convert::FromSpecImpl<&Value> for Type {
    open spec fn obeys_from_spec() -> bool {
        true
    }

    open spec fn from_spec(value: &Value) -> Type {
        value_kind(*value)
    }
}

/// Assert on the type of a value.
///
/// The type of the value must be one of the given types.
///
/// If the type assertion fails the returned value contains a string
/// of the current type that caused the failure.
pub fn assert_types(value: &Value, kinds: &[Type]) -> (res: (bool, Option<String>))
    ensures
        res.0 == kinds@.contains(value_kind(*value)),
        res.0 ==> res.1 is None,
        !res.0 ==> (res.1 matches Some(s) && s@ == value_kind(*value).name()),
{
    let kind = json_type(value);
    assert_kind(&kind, kinds)
}

/// Assert that a value of JSON type `value` has one of the types `kinds`;
/// on failure the name of `value` is returned.
pub fn assert_kind(value: &Type, kinds: &[Type]) -> (res: (bool, Option<String>))
    ensures
        res.0 == kinds@.contains(*value),
        res.0 ==> res.1 is None,
        !res.0 ==> (res.1 matches Some(s) && s@ == value.name()),
{
    let mut i: usize = 0;
    while i < kinds.len()
        invariant
            i <= kinds@.len(),
            forall|j: int| 0 <= j < i ==> kinds@[j] != *value,
        decreases kinds@.len() - i,
    {
        if assert_type(value, &kinds[i]) {
            return (true, None);
        }
        i = i + 1;
    }
    (false, Some(value.to_string()))
}

/// Whether a value of type `value` has the type `kind`.
fn assert_type(value: &Type, kind: &Type) -> (res: bool)
    ensures
        res == (*value == *kind),
{
    match value {
        Type::Null => *kind == Type::Null,
        Type::Bool => *kind == Type::Bool,
        Type::String => *kind == Type::String,
        Type::Number => *kind == Type::Number,
        Type::Object => *kind == Type::Object,
        Type::Array => *kind == Type::Array,
    }
}

} // verus!
