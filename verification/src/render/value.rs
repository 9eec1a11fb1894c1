//! The JSON values of the literals written in templates.
use serde_json::Value;
use vstd::prelude::*;
use vstd::string::StringSliceAdditionalSpecFns;
use vstd::utf8::encode_utf8;

use crate::lexer::json_number_accepts;
use crate::parser::ast::{Json, JsonV};
use crate::render::type_assert::{value_kind, Type};

verus! {

/// The boolean of a JSON value that is a boolean; `None` for any other value.
pub uninterp spec fn value_bool(v: Value) -> Option<bool>;

/// The characters of a JSON value that is a string; `None` for any other
/// value.
pub uninterp spec fn value_str(v: Value) -> Option<Seq<char>>;

/// The number value that `serde_json` reads from the text of a number.
pub uninterp spec fn number_value_of(text: Seq<u8>) -> Value;

/// The null value (`Value::Null`).
#[verifier::external_body]
fn null_value() -> (res: Value)
    ensures
        value_kind(res) == Type::Null,
{
    Value::Null
}

/// A boolean value (`Value::Bool`).
#[verifier::external_body]
fn bool_value(b: bool) -> (res: Value)
    ensures
        value_kind(res) == Type::Bool,
        value_bool(res) == Some(b),
{
    Value::Bool(b)
}

/// A string value (`Value::String`).
#[verifier::external_body]
fn string_value(s: String) -> (res: Value)
    ensures
        value_kind(res) == Type::String,
        value_str(res) == Some(s@),
{
    Value::String(s)
}

/// A number value read from its text (`serde_json::Number`'s `FromStr`,
/// then `Value::Number`); the text is one that `serde_json` accepts, so the
/// read succeeds.
#[verifier::external_body]
fn number_value(text: &str) -> (res: Value)
    requires
        json_number_accepts(text.spec_bytes()),
    ensures
        value_kind(res) == Type::Number,
        res == number_value_of(text.spec_bytes()),
{
    match text.parse::<serde_json::Number>() {
        Ok(n) => Value::Number(n),
        Err(_) => Value::Null,
    }
}

/// A literal's number text is one that `serde_json` accepts.
pub open spec fn json_ok(j: JsonV) -> bool {
    j matches JsonV::Number(n) ==> json_number_accepts(encode_utf8(n))
}

/// The JSON value of a literal written in a template.
pub fn json_value(json: &Json) -> (res: Value)
    requires
        json_ok(json@),
    ensures
        match json@ {
            JsonV::Null => value_kind(res) == Type::Null,
            JsonV::Bool(b) => value_kind(res) == Type::Bool && value_bool(res) == Some(b),
            JsonV::Number(n) => value_kind(res) == Type::Number && res == number_value_of(encode_utf8(n)),
            JsonV::String(s) => value_kind(res) == Type::String && value_str(res) == Some(s),
        },
{
    match json {
        Json::Null => null_value(),
        Json::Bool(b) => bool_value(*b),
        Json::Number(text) => number_value(text.as_str()),
        Json::String(s) => string_value(s.clone()),
    }
}

} // verus!
