//! Resolve variable paths against the root value and the scope stack.
use serde_json::Value;
use vstd::prelude::*;

use crate::parser::ast::{comps_ok, Component, Path, PathV};
use crate::render::scope::{object_get, value_array, value_object, Scope};
use crate::render::type_assert::{json_type, Type};

verus! {

/// Whether `s` is made of decimal digits only.
pub open spec fn all_digits(s: Seq<char>) -> bool {
    forall|i: int| 0 <= i < s.len() ==> '0' <= #[trigger] s[i] <= '9'
}

/// The number written by the decimal digits `s`.
pub open spec fn digits_value(s: Seq<char>) -> int
    decreases s.len(),
{
    if s.len() == 0 {
        0
    } else {
        digits_value(s.drop_last()) * 10 + (s.last() as int - '0' as int)
    }
}

/// An array index written as text, as std parses a `usize`: an optional `+`
/// sign then one or more decimal digits, whose value fits in a `usize`.
pub open spec fn index_spec(s: Seq<char>) -> Option<usize> {
    let d = if s.len() > 0 && s[0] == '+' {
        s.drop_first()
    } else {
        s
    };
    if d.len() > 0 && all_digits(d) && digits_value(d) <= usize::MAX {
        Some(digits_value(d) as usize)
    } else {
        None
    }
}

/// Parse an array index (std's `str::parse::<usize>`). The std
/// documentation states that the text must be an optional `+` followed by
/// decimal digits only, and that a value too large for the type is an error.
#[verifier::external_body]
fn parse_index(s: &str) -> (res: Option<usize>)
    ensures
        res == index_spec(s@),
{
    s.parse::<usize>().ok()
}

/// An element of an array value (`Vec::get` on the array of a
/// `serde_json::Value`): the element at `i` if there is one.
#[verifier::external_body]
fn array_get<'a>(v: &'a Value, i: usize) -> (res: Option<&'a Value>)
    requires
        value_array(*v) is Some,
    ensures
        match res {
            Some(x) => i < value_array(*v)->0.len() && *x == value_array(*v)->0[i as int],
            None => i >= value_array(*v)->0.len(),
        },
{
    match v {
        Value::Array(a) => a.get(i),
        _ => None,
    }
}

/// A reference to a value is the value `s` (or both are absent).
pub open spec fn found(res: Option<&Value>, s: Option<Value>) -> bool {
    match res {
        Some(r) => s == Some(*r),
        None => s is None,
    }
}

/// The value named `part` inside `v`: an object's entry for that key, an
/// array's element at that index; nothing inside any other value.
pub open spec fn field_spec(v: Value, part: Seq<char>) -> Option<Value> {
    match value_object(v) {
        Some(m) => if m.dom().contains(part) {
            Some(m[part])
        } else {
            None
        },
        None => match value_array(v) {
            Some(a) => match index_spec(part) {
                Some(i) => if i < a.len() {
                    Some(a[i as int])
                } else {
                    None
                },
                None => None,
            },
            None => None,
        },
    }
}

/// Walk from `v` through `parts[i..]`, one field at a time; no parts left
/// to walk finds nothing, and a missing field ends the walk.
pub open spec fn walk_spec(v: Value, parts: Seq<Seq<char>>, i: int) -> Option<Value>
    decreases parts.len() - i,
{
    if i < 0 || i >= parts.len() {
        None
    } else {
        match field_spec(v, parts[i]) {
            None => None,
            Some(x) => if i + 1 == parts.len() {
                Some(x)
            } else {
                walk_spec(x, parts, i + 1)
            },
        }
    }
}

/// The text of each component of a path.
pub open spec fn path_parts(p: PathV) -> Seq<Seq<char>> {
    p.components.map_values(|c: crate::parser::ast::ComponentV| c.value_text())
}

/// Try the base values of the scopes from innermost to outermost, then the
/// root: the first walk that finds a value.
pub open spec fn search_spec(root: Value, scopes: Seq<Scope>, parts: Seq<Seq<char>>) -> Option<Value>
    decreases scopes.len(),
{
    if scopes.len() == 0 {
        walk_spec(root, parts, 0)
    } else {
        match scopes.last().spec_base_value() {
            Some(b) => match walk_spec(b, parts, 0) {
                Some(r) => Some(r),
                None => search_spec(root, scopes.drop_last(), parts),
            },
            None => search_spec(root, scopes.drop_last(), parts),
        }
    }
}

/// The value a path resolves to:
/// - `@root`: walk the components after the first from the root;
/// - explicit `this`: start from the innermost scope's base value (or the
///   root); that value itself when there is nothing after `this`;
/// - a local `@name`: walk the innermost scope's locals;
/// - `n` parent references: walk the `n`-th value out of the root and the
///   scopes' locals, counted from the innermost;
/// - otherwise: search the scopes' base values, then the root.
pub open spec fn lookup_spec(root: Value, scopes: Seq<Scope>, path: PathV) -> Option<Value> {
    let parts = path_parts(path);
    if path.root {
        walk_spec(root, parts, 1)
    } else if path.explicit {
        let base = if scopes.len() > 0 && scopes.last().spec_base_value() is Some {
            scopes.last().spec_base_value()->0
        } else {
            root
        };
        if path.components.len() == 1 {
            Some(base)
        } else {
            walk_spec(base, parts, 1)
        }
    } else if path.is_local() {
        if scopes.len() > 0 {
            walk_spec(scopes.last().spec_locals_value(), parts, 0)
        } else {
            None
        }
    } else if path.parents > 0 {
        if scopes.len() + 1 > path.parents {
            let index = scopes.len() - path.parents;
            let v = if index == 0 {
                root
            } else {
                scopes[index - 1].spec_locals_value()
            };
            walk_spec(v, parts, 0)
        } else {
            None
        }
    } else {
        search_spec(root, scopes, parts)
    }
}

/// The base value of scope `i` is set and walking `parts` in it finds a
/// value.
pub open spec fn base_yields(scopes: Seq<Scope>, i: int, parts: Seq<Seq<char>>) -> bool {
    scopes[i].spec_base_value() matches Some(b) && walk_spec(b, parts, 0) is Some
}

/// Searching the scopes finds the value in the base value of the innermost
/// (last) scope that yields one; the root is searched only when no scope
/// yields a value.
proof fn lemma_search_innermost(root: Value, scopes: Seq<Scope>, parts: Seq<Seq<char>>)
    ensures
        forall|i: int|
            0 <= i < scopes.len() && #[trigger] base_yields(scopes, i, parts) && (forall|j: int|
                i < j < scopes.len() ==> !base_yields(scopes, j, parts)) ==> search_spec(root, scopes, parts)
                == walk_spec(scopes[i].spec_base_value()->0, parts, 0),
        (forall|i: int| 0 <= i < scopes.len() ==> !#[trigger] base_yields(scopes, i, parts)) ==> search_spec(
            root,
            scopes,
            parts,
        ) == walk_spec(root, parts, 0),
    decreases scopes.len(),
{
    if scopes.len() > 0 {
        let d = scopes.drop_last();
        let n = scopes.len() - 1;
        lemma_search_innermost(root, d, parts);
        assert forall|j: int| 0 <= j < d.len() implies base_yields(d, j, parts) == base_yields(scopes, j, parts) by {
            assert(d[j] == scopes[j]);
        }
        assert(scopes.last() == scopes[n]);
        if base_yields(scopes, n, parts) {
            assert forall|i: int|
                0 <= i < scopes.len() && #[trigger] base_yields(scopes, i, parts) && (forall|j: int|
                    i < j < scopes.len() ==> !base_yields(scopes, j, parts)) implies i == n by {
                if i < n {
                    assert(!base_yields(scopes, n, parts));
                }
            }
        } else {
            assert forall|i: int|
                0 <= i < scopes.len() && #[trigger] base_yields(scopes, i, parts) && (forall|j: int|
                    i < j < scopes.len() ==> !base_yields(scopes, j, parts)) implies search_spec(root, scopes, parts)
                == walk_spec(scopes[i].spec_base_value()->0, parts, 0) by {
                assert(i < n);
                assert(base_yields(d, i, parts));
                assert forall|j: int| i < j < d.len() implies !base_yields(d, j, parts) by {
                    assert(!base_yields(scopes, j, parts));
                }
            }
            if forall|i: int| 0 <= i < scopes.len() ==> !#[trigger] base_yields(scopes, i, parts) {
                assert forall|i: int| 0 <= i < d.len() implies !#[trigger] base_yields(d, i, parts) by {
                    assert(!base_yields(scopes, i, parts));
                }
            }
        }
    }
}

/// A plain path (no `@root`, `this`, `@local` or `../`) resolves in the
/// base value of the innermost (last) scope whose base value yields a
/// value; an outer scope, and last the root, is consulted only when every
/// inner scope's base value yields nothing.
pub proof fn lemma_lookup_innermost(root: Value, scopes: Seq<Scope>, path: PathV)
    requires
        !path.root,
        !path.explicit,
        !path.is_local(),
        path.parents == 0,
    ensures
        forall|i: int|
            0 <= i < scopes.len() && #[trigger] base_yields(scopes, i, path_parts(path)) && (forall|j: int|
                i < j < scopes.len() ==> !base_yields(scopes, j, path_parts(path))) ==> lookup_spec(root, scopes, path)
                == walk_spec(scopes[i].spec_base_value()->0, path_parts(path), 0),
        (forall|i: int| 0 <= i < scopes.len() ==> !#[trigger] base_yields(scopes, i, path_parts(path)))
            ==> lookup_spec(root, scopes, path) == walk_spec(root, path_parts(path), 0),
{
    lemma_search_innermost(root, scopes, path_parts(path));
}

/// Find the value named `part` inside `v`.
pub fn find_field<'a>(v: &'a Value, part: &str) -> (res: Option<&'a Value>)
    ensures
        found(res, field_spec(*v, part@)),
{
    match json_type(v) {
        Type::Object => object_get(v, part),
        Type::Array => match parse_index(part) {
            Some(i) => array_get(v, i),
            None => None,
        },
        _ => None,
    }
}

/// Walk from `v` through the values of the components `comps[from..]`.
pub fn find_parts<'a>(v: &'a Value, comps: &Vec<Component<'_>>, from: usize) -> (res: Option<&'a Value>)
    requires
        forall|i: int| 0 <= i < comps@.len() ==> (#[trigger] comps@[i])@.value is None ==> comps@[i]@.slice_ok(),
    ensures
        found(res, walk_spec(*v, comps@.map_values(|c: Component| c@.value_text()), from as int)),
{
    let ghost parts = comps@.map_values(|c: Component| c@.value_text());
    if from >= comps.len() {
        return None;
    }
    let mut cur = v;
    let mut i = from;
    while i < comps.len()
        invariant
            from <= i < comps@.len(),
            parts == comps@.map_values(|c: Component| c@.value_text()),
            forall|k: int| 0 <= k < comps@.len() ==> (#[trigger] comps@[k])@.value is None ==> comps@[k]@.slice_ok(),
            walk_spec(*v, parts, from as int) == walk_spec(*cur, parts, i as int),
        decreases comps@.len() - i,
    {
        let part = comps[i].as_value();
        assert(part@ == parts[i as int]);
        match find_field(cur, part) {
            None => {
                return None;
            },
            Some(x) => {
                if i + 1 == comps.len() {
                    return Some(x);
                }
                cur = x;
            },
        }
        i = i + 1;
    }
    None
}

/// Resolve `path` against the root value and the scope stack (the last
/// scope is the innermost).
pub fn lookup<'a>(root: &'a Value, scopes: &'a Vec<Scope>, path: &Path<'_>) -> (res: Option<&'a Value>)
    requires
        comps_ok(path@.source, path@.components),
    ensures
        found(res, lookup_spec(*root, scopes@, path@)),
        !path@.root && !path@.explicit && !path@.is_local() && path@.parents == 0 ==> {
            &&& forall|i: int|
                0 <= i < scopes@.len() && #[trigger] base_yields(scopes@, i, path_parts(path@)) && (forall|j: int|
                    i < j < scopes@.len() ==> !base_yields(scopes@, j, path_parts(path@))) ==> found(
                    res,
                    walk_spec(scopes@[i].spec_base_value()->0, path_parts(path@), 0),
                )
            &&& (forall|i: int| 0 <= i < scopes@.len() ==> !#[trigger] base_yields(scopes@, i, path_parts(path@)))
                ==> found(res, walk_spec(*root, path_parts(path@), 0))
        },
{
    proof {
        if !path@.root && !path@.explicit && !path@.is_local() && path@.parents == 0 {
            lemma_lookup_innermost(*root, scopes@, path@);
        }
    }
    let comps = path.components();
    let ghost parts = path_parts(path@);
    proof {
        assert(comps@.map_values(|c: Component| c@.value_text()) =~= parts);
        assert forall|i: int| 0 <= i < comps@.len() && (#[trigger] comps@[i])@.value is None implies comps@[i]@.slice_ok() by {
            assert(comps@.map_values(|c: Component| c@)[i] == path@.components[i]);
        }
    }
    if path.is_root() {
        find_parts(root, comps, 1)
    } else if path.is_explicit() {
        let value = if scopes.len() > 0 {
            match scopes[scopes.len() - 1].base_value() {
                Some(base) => base,
                None => root,
            }
        } else {
            root
        };
        if comps.len() == 1 {
            Some(value)
        } else {
            find_parts(value, comps, 1)
        }
    } else if path.is_local() {
        if scopes.len() > 0 {
            find_parts(scopes[scopes.len() - 1].locals(), comps, 0)
        } else {
            None
        }
    } else if path.parents() > 0 {
        let parents = path.parents() as usize;
        if scopes.len() >= parents {
            let index = scopes.len() - parents;
            let value = if index == 0 {
                root
            } else {
                scopes[index - 1].locals()
            };
            find_parts(value, comps, 0)
        } else {
            None
        }
    } else {
        let mut i = scopes.len();
        proof {
            assert(scopes@.take(i as int) =~= scopes@);
        }
        while i > 0
            invariant
                i <= scopes@.len(),
                parts == comps@.map_values(|c: Component| c@.value_text()),
                forall|k: int| 0 <= k < comps@.len() ==> (#[trigger] comps@[k])@.value is None ==> comps@[k]@.slice_ok(),
                search_spec(*root, scopes@, parts) == search_spec(*root, scopes@.take(i as int), parts),
                parts == path_parts(path@),
                !path@.root && !path@.explicit && !path@.is_local() && path@.parents == 0,
            decreases i,
        {
            proof {
                assert(scopes@.take(i as int).drop_last() =~= scopes@.take(i - 1));
                assert(scopes@.take(i as int).last() == scopes@[i - 1]);
            }
            let ghost prefix = scopes@.take(i as int);
            i = i - 1;
            if let Some(base) = scopes[i].base_value() {
                if let Some(v) = find_parts(base, comps, 0) {
                    assert(prefix.last().spec_base_value() == Some(*base));
                    assert(search_spec(*root, prefix, parts) == Some(*v));
                    proof {
                        lemma_lookup_innermost(*root, scopes@, path@);
                    }
                    return Some(v);
                }
            }
        }
        find_parts(root, comps, 0)
    }
}

/// Looking up a local `@name` reads the innermost scope's locals: the value
/// set there under that name, or nothing when none was set. (With
/// `Scope::set_local`, a local read back after it was set gives the value
/// that was set.)
pub proof fn lemma_lookup_local(root: Value, scopes: Seq<Scope>, path: PathV)
    requires
        scopes.len() > 0,
        scopes.last().wf(),
        !path.root,
        !path.explicit,
        path.is_local(),
        path.components.len() == 1,
    ensures
        ({
            let key = path.components[0].value_text();
            let locals = scopes.last().spec_locals();
            lookup_spec(root, scopes, path) == if locals.dom().contains(key) {
                Some(locals[key])
            } else {
                None::<Value>
            }
        }),
{
    crate::render::scope::lemma_locals_value(scopes.last());
    assert(path_parts(path)[0] == path.components[0].value_text());
}

} // verus!
