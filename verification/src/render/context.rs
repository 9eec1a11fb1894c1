//! Context information for the call to a helper.
use serde_json::Value;
use std::ops::Range;
use vstd::prelude::*;

use crate::parser::ast::{Call, Node};
use crate::render::lookup::{field_spec, find_field, found};
use crate::render::scope::{map_get, object_entries, JsonMap};
use crate::render::type_assert::{assert_types, json_type, value_kind, Type};

verus! {

/// The null value, borrowed for as long as needed (`&Value::Null`).
#[verifier::external_body]
fn null_ref() -> (res: &'static Value)
    ensures
        value_kind(*res) == Type::Null,
{
    &Value::Null
}

/// Represents a value to use when a variable lookup fails.
///
/// The underlying value is guaranteed to be `Value::String` and
/// encapsulates the raw value which can be either a path or sub-expression.
#[derive(Debug)]
pub enum MissingValue {
    /// Stores the raw value for a missing argument.
    Argument(usize, Value),
    /// Stores the raw value for a missing parameter.
    Parameter(String, Value),
}

/// Property represents a key/value pair.
///
/// This is used so that `blockHelperMissing` handlers have access
/// to the resolved property.
#[derive(Debug)]
pub struct Property {
    /// The path to the property.
    pub name: String,
    /// The resolved property value.
    pub value: Value,
}

/// Errors that a helper reports about its call.
#[derive(Debug)]
pub enum HelperError {
    /// The call has a number of arguments other than the one expected.
    ArityExact(String, usize),
    /// The call has a number of arguments outside the expected range.
    ArityRange(String, usize, usize),
    /// A value has none of the expected types: the helper's name, the
    /// type that failed and the value's type.
    TypeAssert(String, String, String),
    /// The helper needs an inner block template.
    BlockTemplate(String),
}

/// A helper result.
pub type HelperResult<T> = Result<T, HelperError>;

/// The value recorded for a missing argument at `index`: the first record
/// for that index.
pub open spec fn missing_arg(ms: Seq<MissingValue>, index: usize) -> Option<Value>
    decreases ms.len(),
{
    if ms.len() == 0 {
        None
    } else {
        match ms[0] {
            MissingValue::Argument(i, v) => if i == index {
                Some(v)
            } else {
                missing_arg(ms.drop_first(), index)
            },
            _ => missing_arg(ms.drop_first(), index),
        }
    }
}

/// The value recorded for a missing parameter named `name`: the first
/// record for that name.
pub open spec fn missing_param_spec(ms: Seq<MissingValue>, name: Seq<char>) -> Option<Value>
    decreases ms.len(),
{
    if ms.len() == 0 {
        None
    } else {
        match ms[0] {
            MissingValue::Parameter(k, v) => if k@ == name {
                Some(v)
            } else {
                missing_param_spec(ms.drop_first(), name)
            },
            _ => missing_param_spec(ms.drop_first(), name),
        }
    }
}

/// Context for the call to a helper exposes immutable access to
/// the arguments and hash parameters.
///
/// It also provides some useful functions for asserting on argument
/// arity and type.
pub struct Context<'call> {
    call: &'call Call<'call>,
    name: String,
    arguments: Vec<Value>,
    parameters: JsonMap,
    text: Option<&'call str>,
    property: Option<Property>,
    missing: Vec<MissingValue>,
}

impl<'call> Context<'call> {
    /// The helper's name.
    pub closed spec fn spec_name(&self) -> Seq<char> {
        self.name@
    }

    /// The argument values.
    pub closed spec fn spec_arguments(&self) -> Seq<Value> {
        self.arguments@
    }

    /// The hash parameters, by name.
    pub closed spec fn spec_parameters(&self) -> Map<Seq<char>, Value> {
        object_entries(self.parameters)
    }

    /// The records of missing values.
    pub closed spec fn spec_missing(&self) -> Seq<MissingValue> {
        self.missing@
    }

    /// The call.
    pub closed spec fn spec_call(&self) -> &'call Call<'call> {
        self.call
    }

    /// The raw text of a raw block call.
    pub closed spec fn spec_text(&self) -> Option<&'call str> {
        self.text
    }

    /// The resolved property.
    pub closed spec fn spec_property(&self) -> Option<Property> {
        self.property
    }

    /// Create a context.
    pub fn new(
        call: &'call Call<'call>,
        name: String,
        arguments: Vec<Value>,
        parameters: JsonMap,
        text: Option<&'call str>,
        property: Option<Property>,
        missing: Vec<MissingValue>,
    ) -> (res: Self)
        ensures
            res.spec_call() == call,
            res.spec_name() == name@,
            res.spec_arguments() == arguments@,
            res.spec_parameters() == object_entries(parameters),
            res.spec_text() == text,
            res.spec_property() == property,
            res.spec_missing() == missing@,
    {
        Self { call, name, arguments, parameters, text, property, missing }
    }

    /// Get the name for the call.
    pub fn name(&self) -> (res: &str)
        ensures
            res@ == self.spec_name(),
    {
        self.name.as_str()
    }

    /// Get the list of arguments.
    pub fn arguments(&self) -> (res: &Vec<Value>)
        ensures
            res@ == self.spec_arguments(),
    {
        &self.arguments
    }

    /// Get the map of hash parameters.
    pub fn parameters(&self) -> (res: &JsonMap)
        ensures
            object_entries(*res) == self.spec_parameters(),
    {
        &self.parameters
    }

    /// Get an argument at an index.
    pub fn get(&self, index: usize) -> (res: Option<&Value>)
        ensures
            found(
                res,
                if index < self.spec_arguments().len() {
                    Some(self.spec_arguments()[index as int])
                } else {
                    None
                },
            ),
    {
        if index < self.arguments.len() {
            Some(&self.arguments[index])
        } else {
            None
        }
    }

    /// Get a hash parameter for the name.
    pub fn param(&self, name: &str) -> (res: Option<&Value>)
        ensures
            found(
                res,
                if self.spec_parameters().dom().contains(name@) {
                    Some(self.spec_parameters()[name@])
                } else {
                    None
                },
            ),
    {
        map_get(&self.parameters, name)
    }

    /// Get an argument at an index and use a fallback string
    /// value when the argument is missing.
    pub fn get_fallback(&self, index: usize) -> (res: Option<&Value>)
        ensures
            ({
                let v = if index < self.spec_arguments().len() {
                    Some(self.spec_arguments()[index as int])
                } else {
                    None
                };
                found(
                    res,
                    match v {
                        Some(x) => if value_kind(x) == Type::Null && missing_arg(
                            self.spec_missing(),
                            index,
                        ) is Some {
                            missing_arg(self.spec_missing(), index)
                        } else {
                            v
                        },
                        None => None,
                    },
                )
            }),
    {
        let value = self.get(index);
        if let Some(v) = value {
            if json_type(v) == Type::Null {
                if let Some(m) = self.missing(index) {
                    return Some(m);
                }
            }
        }
        value
    }

    /// Get a hash parameter for the name and use a fallback string
    /// value when the parameter is missing.
    pub fn param_fallback(&self, name: &str) -> (res: Option<&Value>)
        ensures
            ({
                let v = if self.spec_parameters().dom().contains(name@) {
                    Some(self.spec_parameters()[name@])
                } else {
                    None
                };
                found(
                    res,
                    match v {
                        Some(x) => if value_kind(x) == Type::Null && missing_param_spec(
                            self.spec_missing(),
                            name@,
                        ) is Some {
                            missing_param_spec(self.spec_missing(), name@)
                        } else {
                            v
                        },
                        None => None,
                    },
                )
            }),
    {
        let value = self.param(name);
        if let Some(v) = value {
            if json_type(v) == Type::Null {
                if let Some(m) = self.missing_param(name) {
                    return Some(m);
                }
            }
        }
        value
    }

    /// Get the value for a missing argument.
    ///
    /// When the value for an argument is missing it is coerced to
    /// `Value::Null`; this function allows a helper to distinguish
    /// between a literal null value and a null resulting from a missing
    /// value.
    pub fn missing(&self, index: usize) -> (res: Option<&Value>)
        ensures
            found(res, missing_arg(self.spec_missing(), index)),
    {
        let mut k: usize = 0;
        assert(self.missing@.skip(0) =~= self.missing@);
        while k < self.missing.len()
            invariant
                k <= self.missing@.len(),
                missing_arg(self.missing@, index) == missing_arg(self.missing@.skip(k as int), index),
            decreases self.missing@.len() - k,
        {
            assert(self.missing@.skip(k as int).drop_first() =~= self.missing@.skip(k + 1));
            assert(self.missing@.skip(k as int)[0] == self.missing@[k as int]);
            if let MissingValue::Argument(i, value) = &self.missing[k] {
                if *i == index {
                    return Some(value);
                }
            }
            k = k + 1;
        }
        None
    }

    /// Get the value for a missing parameter.
    ///
    /// When the value for a parameter is missing it is coerced to
    /// `Value::Null`; this function allows a helper to distinguish
    /// between a literal null value and a null resulting from a missing
    /// value.
    pub fn missing_param(&self, name: &str) -> (res: Option<&Value>)
        ensures
            found(res, missing_param_spec(self.spec_missing(), name@)),
    {
        let mut k: usize = 0;
        assert(self.missing@.skip(0) =~= self.missing@);
        while k < self.missing.len()
            invariant
                k <= self.missing@.len(),
                missing_param_spec(self.missing@, name@) == missing_param_spec(
                    self.missing@.skip(k as int),
                    name@,
                ),
            decreases self.missing@.len() - k,
        {
            assert(self.missing@.skip(k as int).drop_first() =~= self.missing@.skip(k + 1));
            assert(self.missing@.skip(k as int)[0] == self.missing@[k as int]);
            if let MissingValue::Parameter(key, value) = &self.missing[k] {
                let key_str = key.as_str();
                let same = crate::text::str_eq(key_str, name);
                proof {
                    crate::text::lemma_text_of_bytes(key_str);
                    crate::text::lemma_text_of_bytes(name);
                }
                if same {
                    return Some(value);
                }
            }
            k = k + 1;
        }
        None
    }

    /// Get the call syntax tree element.
    pub fn call(&self) -> (res: &'call Call<'call>)
        ensures
            res == self.spec_call(),
    {
        self.call
    }

    /// Get an argument at an index and assert that the value
    /// is one of the given types.
    ///
    /// If no argument exists at the given index the value is
    /// treated as null and type assertion is performed on the
    /// null value.
    pub fn try_get(&self, index: usize, kinds: &[Type]) -> (res: HelperResult<&Value>)
        ensures
            ({
                let kind = if index < self.spec_arguments().len() {
                    value_kind(self.spec_arguments()[index as int])
                } else {
                    Type::Null
                };
                &&& res is Ok <==> kinds@.contains(kind)
                &&& res matches Ok(v) ==> (index < self.spec_arguments().len() ==> *v
                    == self.spec_arguments()[index as int]) && value_kind(*v) == kind
                &&& res matches Err(e) ==> self.type_error(e, kind)
            }),
    {
        let value = match self.get(index) {
            Some(v) => v,
            None => null_ref(),
        };
        self.assert_value(value, kinds)?;
        Ok(value)
    }

    /// Get a hash parameter for the name and assert that the value
    /// is one of the given types.
    ///
    /// If no parameter exists for the given name the value is
    /// treated as null and type assertion is performed on the
    /// null value.
    pub fn try_param(&self, name: &str, kinds: &[Type]) -> (res: HelperResult<&Value>)
        ensures
            ({
                let has = self.spec_parameters().dom().contains(name@);
                let kind = if has {
                    value_kind(self.spec_parameters()[name@])
                } else {
                    Type::Null
                };
                &&& res is Ok <==> kinds@.contains(kind)
                &&& res matches Ok(v) ==> (has ==> *v == self.spec_parameters()[name@]) && value_kind(*v)
                    == kind
                &&& res matches Err(e) ==> self.type_error(e, kind)
            }),
    {
        let value = match self.param(name) {
            Some(v) => v,
            None => null_ref(),
        };
        self.assert_value(value, kinds)?;
        Ok(value)
    }

    /// Get the text for this context.
    ///
    /// Only available when invoked as a raw block.
    pub fn text(&self) -> (res: &Option<&'call str>)
        ensures
            *res == self.spec_text(),
    {
        &self.text
    }

    /// Get a resolved property.
    ///
    /// Only available to `blockHelperMissing` handlers.
    pub fn property(&self) -> (res: &Option<Property>)
        ensures
            *res == self.spec_property(),
    {
        &self.property
    }

    /// Assert that the call arguments have a valid arity.
    ///
    /// If the range start and end are equal than an exact number
    /// of arguments are expected and a more concise error message
    /// is used. Range ends are exclusive so 1..1 and 1..2 are the
    /// same test they will just generate different error messages.
    pub fn arity(&self, range: Range<usize>) -> (res: HelperResult<()>)
        ensures
            ({
                let n = self.spec_arguments().len();
                if range.start == range.end {
                    match res {
                        Ok(_) => n == range.start,
                        Err(e) => n != range.start && (e matches HelperError::ArityExact(name, k) && name@
                            == self.spec_name() && k == range.start),
                    }
                } else {
                    match res {
                        Ok(_) => range.start <= n < range.end,
                        Err(e) => !(range.start <= n < range.end) && (e matches HelperError::ArityRange(
                            name,
                            a,
                            b,
                        ) && name@ == self.spec_name() && a == range.start && b == range.end),
                    }
                }
            }),
    {
        if range.start == range.end {
            if self.arguments.len() != range.start {
                return Err(HelperError::ArityExact(self.name.clone(), range.start));
            }
        } else {
            if self.arguments.len() < range.start || self.arguments.len() >= range.end {
                return Err(HelperError::ArityRange(self.name.clone(), range.start, range.end));
            }
        }
        Ok(())
    }

    /// The error for a value of type `kind` that has none of the expected
    /// types.
    pub open spec fn type_error(&self, e: HelperError, kind: Type) -> bool {
        e matches HelperError::TypeAssert(name, failed, actual) && name@ == self.spec_name() && failed@
            == kind.name() && actual@ == kind.name()
    }

    /// Assert on the type of a value.
    pub fn assert_value(&self, value: &Value, kinds: &[Type]) -> (res: HelperResult<()>)
        ensures
            res is Ok <==> kinds@.contains(value_kind(*value)),
            res matches Err(e) ==> self.type_error(e, value_kind(*value)),
    {
        let (result, kind) = assert_types(value, kinds);
        if !result {
            let failed = match kind {
                Some(k) => k,
                None => String::new(),
            };
            let actual = Type::from(value).to_string();
            return Err(HelperError::TypeAssert(self.name.clone(), failed, actual));
        }
        Ok(())
    }

    /// Map an optional template to a result.
    ///
    /// If the template is `None` this will yield an error; use this
    /// to assert when an inner block template is required.
    pub fn assert_block<'a>(&self, template: Option<&'a Node<'a>>) -> (res: HelperResult<&'a Node<'a>>)
        ensures
            match template {
                Some(n) => res matches Ok(r) && r == n,
                None => res matches Err(e) && e matches HelperError::BlockTemplate(name) && name@
                    == self.spec_name(),
            },
    {
        if let Some(node) = template {
            return Ok(node);
        }
        Err(HelperError::BlockTemplate(self.name.clone()))
    }

    /// Lookup a field of a value.
    ///
    /// If the target value is not an object or array then this
    /// will yield `None`.
    pub fn lookup<'a>(&self, target: &'a Value, field: &str) -> (res: Option<&'a Value>)
        ensures
            found(res, field_spec(*target, field@)),
    {
        find_field(target, field)
    }
}

} // verus!
