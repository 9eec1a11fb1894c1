//! Scopes define the evaluation context for variable paths.
use serde_json::Value;
use vstd::prelude::*;

use crate::text::{push_char, push_str};

verus! {

/// A JSON value of `serde_json`; opaque here, carried through scopes.
#[verifier::external_type_specification]
#[verifier::external_body]
pub struct ExJsonValue(serde_json::Value);

/// A JSON object's map of `serde_json`; opaque here, read through
/// `object_entries`.
#[verifier::external_type_specification]
#[verifier::external_body]
#[verifier::reject_recursive_types(K)]
#[verifier::reject_recursive_types(V)]
pub struct ExJsonMap<K, V>(serde_json::Map<K, V>);

/// A JSON object's map, from keys to values.
pub type JsonMap = serde_json::Map<String, Value>;

/// The entries of a JSON object map, keyed by the characters of each key.
pub uninterp spec fn object_entries(m: JsonMap) -> Map<Seq<char>, Value>;

/// The entries of a JSON value that is an object; `None` for any other value.
pub uninterp spec fn value_object(v: Value) -> Option<Map<Seq<char>, Value>>;

/// The elements of a JSON value that is an array; `None` for any other value.
pub uninterp spec fn value_array(v: Value) -> Option<Seq<Value>>;

/// No entries at all.
pub open spec fn no_entries() -> Map<Seq<char>, Value> {
    Map::empty()
}

/// A new empty object map (`serde_json::Map::new`): it has no entries.
#[verifier::external_body]
fn object_map_new() -> (res: JsonMap)
    ensures
        object_entries(res) == no_entries(),
{
    serde_json::Map::new()
}

/// Wrap a map as an object value (`Value::Object`): the value is an object
/// whose entries are those of the map.
#[verifier::external_body]
fn object_value(m: JsonMap) -> (res: Value)
    ensures
        value_object(res) == Some(object_entries(m)),
{
    Value::Object(m)
}

/// Insert into an object value (`serde_json::Map::insert` on its map): the
/// entry for `key` becomes `value`, replacing any earlier one; the other
/// entries are kept.
#[verifier::external_body]
fn object_insert(v: &mut Value, key: String, value: Value)
    requires
        value_object(*old(v)) is Some,
    ensures
        value_object(*final(v)) == Some(value_object(*old(v))->0.insert(key@, value)),
{
    if let Value::Object(m) = v {
        m.insert(key, value);
    }
}

/// Look up a key in an object value (`serde_json::Map::get` on its map):
/// the entry for `key` if there is one.
#[verifier::external_body]
pub(crate) fn object_get<'a>(v: &'a Value, key: &str) -> (res: Option<&'a Value>)
    requires
        value_object(*v) is Some,
    ensures
        match res {
            Some(x) => value_object(*v)->0.dom().contains(key@) && *x == value_object(*v)->0[key@],
            None => !value_object(*v)->0.dom().contains(key@),
        },
{
    match v {
        Value::Object(m) => m.get(key),
        _ => None,
    }
}

/// Clone a JSON value (`Clone` for `serde_json::Value`, derived there): a
/// value that is an object gives an object with the same entries.
pub assume_specification[<serde_json::Value as core::clone::Clone>::clone](v: &Value) -> (res: Value)
    ensures
        value_object(res) == value_object(*v),
;

/// Look up a key in an object map (`serde_json::Map::get`): the entry for
/// `key` if there is one.
#[verifier::external_body]
pub(crate) fn map_get<'a>(m: &'a JsonMap, key: &str) -> (res: Option<&'a Value>)
    ensures
        match res {
            Some(x) => object_entries(*m).dom().contains(key@) && *x == object_entries(*m)[key@],
            None => !object_entries(*m).dom().contains(key@),
        },
{
    m.get(key)
}

/// A scope encapsulates a base value (lookup object) used when
/// resolving variable paths and a collection of local variables
/// which are prefixed using the `@` symbol.
///
/// Helpers can create scopes and push and pop them from the scope
/// stack to create new variable evaluation contexts.
#[derive(Debug, Clone)]
pub struct Scope {
    value: Option<Value>,
    locals: Value,
}

impl Scope {
    /// The locals value is a JSON object.
    pub closed spec fn wf(&self) -> bool {
        value_object(self.locals) is Some
    }

    /// The local variables, keyed by name (with the `@` prefix).
    pub closed spec fn spec_locals(&self) -> Map<Seq<char>, Value> {
        value_object(self.locals)->0
    }

    /// The base value of the scope.
    pub closed spec fn spec_base_value(&self) -> Option<Value> {
        self.value
    }

    /// The locals as one value.
    pub closed spec fn spec_locals_value(&self) -> Value {
        self.locals
    }

    /// Create a new scope: no locals and no base value.
    pub fn new() -> (res: Self)
        ensures
            res.wf(),
            res.spec_locals() == no_entries(),
            res.spec_base_value() is None,
    {
        Self { locals: object_value(object_map_new()), value: None }
    }

    /// Create a scope whose locals are the entries of `map`.
    pub fn from(map: JsonMap) -> (res: Self)
        ensures
            res.wf(),
            res.spec_locals() == object_entries(map),
            res.spec_base_value() is None,
    {
        Self { locals: object_value(map), value: None }
    }

    /// Get the underlying locals value.
    pub fn locals(&self) -> (res: &Value)
        ensures
            *res == self.spec_locals_value(),
            self.wf() ==> value_object(*res) == Some(self.spec_locals()),
    {
        &self.locals
    }

    /// Set a named local variable.
    ///
    /// The name does not need an `@` prefix it is automatically
    /// prepended to the key.
    pub fn set_local(&mut self, name: &str, value: Value)
        requires
            old(self).wf(),
        ensures
            final(self).wf(),
            final(self).spec_locals() == old(self).spec_locals().insert(seq!['@'] + name@, value),
            final(self).spec_base_value() == old(self).spec_base_value(),
    {
        let mut key = String::new();
        push_char(&mut key, '@');
        push_str(&mut key, name);
        object_insert(&mut self.locals, key, value);
    }

    /// Get a named local.
    ///
    /// Locals should have the `@` prefix.
    pub fn local(&self, name: &str) -> (res: Option<&Value>)
        requires
            self.wf(),
        ensures
            match res {
                Some(x) => self.spec_locals().dom().contains(name@) && *x == self.spec_locals()[name@],
                None => !self.spec_locals().dom().contains(name@),
            },
    {
        object_get(&self.locals, name)
    }

    /// Set the base value for the scope.
    ///
    /// When the renderer resolves variables if they
    /// can be resolved using this value they are preferred
    /// over the root object.
    pub fn set_base_value(&mut self, value: Value)
        ensures
            final(self).spec_base_value() == Some(value),
            final(self).spec_locals_value() == old(self).spec_locals_value(),
            final(self).wf() == old(self).wf(),
            final(self).spec_locals() == old(self).spec_locals(),
    {
        self.value = Some(value);
    }

    /// Get the base value for this scope.
    pub fn base_value(&self) -> (res: &Option<Value>)
        ensures
            *res == self.spec_base_value(),
    {
        &self.value
    }
}

/// The locals value of a well-formed scope is the object of its locals.
pub proof fn lemma_locals_value(s: Scope)
    requires
        s.wf(),
    ensures
        value_object(s.spec_locals_value()) == Some(s.spec_locals()),
{
}

/// A local read back after it was set gives the value that was set, under
/// the name with the `@` prefix; setting a local leaves the other locals as
/// they were.
pub proof fn lemma_local_after_set(before: Scope, after: Scope, name: Seq<char>, value: Value, other: Seq<char>)
    requires
        before.wf(),
        after.wf(),
        after.spec_locals() == before.spec_locals().insert(seq!['@'] + name, value),
    ensures
        after.spec_locals().dom().contains(seq!['@'] + name),
        after.spec_locals()[seq!['@'] + name] == value,
        other != seq!['@'] + name ==> (after.spec_locals().dom().contains(other)
            == before.spec_locals().dom().contains(other)),
        other != seq!['@'] + name && before.spec_locals().dom().contains(other)
            ==> after.spec_locals()[other] == before.spec_locals()[other],
{
}

} // verus!
