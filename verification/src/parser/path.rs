//! Parse variable paths such as `foo.bar`, `../baz`, `this.qux` and
//! `@root.list.[0]`.
use std::ops::Range;
use vstd::prelude::*;

use crate::error::{err_at, ErrorV, SyntaxErrorKind, SyntaxResult};
use crate::lexer::{self, is_suffix, pending, spec_is_newline, tokens_ok, token_ok, tspan, Lexer, Parameters, Token};
use crate::parser::ast::{
    comps_ok, root_bytes, span_chars, Component, ComponentType, ComponentV, Path, PathV, RawIdType, Slice,
};
use crate::parser::string::{
    self, initial_flags, lemma_literal_span, lemma_literal_suffix, literal_spec, precedes, RawLiteral,
    RawLiteralType,
};
use crate::parser::ParseState;
use crate::text::{slice_span, valid_span};

verus! {

/// Whether a parameter token can form part of a path.
pub open spec fn spec_is_path_component(lex: Parameters) -> bool {
    match lex {
        Parameters::ExplicitThisKeyword
        | Parameters::ExplicitThisDotSlash
        | Parameters::ParentRef
        | Parameters::Identifier
        | Parameters::LocalIdentifier
        | Parameters::PathDelimiter
        | Parameters::StartArray
        | Parameters::SingleQuoteString
        | Parameters::DoubleQuoteString => true,
        _ => false,
    }
}

/// Determine if a parameter token can form part of a path.
pub fn is_path_component(lex: &Parameters) -> (res: bool)
    ensures
        res == spec_is_path_component(*lex),
{
    match lex {
        Parameters::ExplicitThisKeyword
        | Parameters::ExplicitThisDotSlash
        | Parameters::ParentRef
        | Parameters::Identifier
        | Parameters::LocalIdentifier
        | Parameters::PathDelimiter
        | Parameters::StartArray
        | Parameters::SingleQuoteString
        | Parameters::DoubleQuoteString => true,
        _ => false,
    }
}

/// The component kind for a parameter token, if it has one.
pub open spec fn component_kind(lex: Parameters) -> Option<ComponentType> {
    match lex {
        Parameters::ExplicitThisKeyword => Some(ComponentType::ThisKeyword),
        Parameters::ExplicitThisDotSlash => Some(ComponentType::ThisDotSlash),
        Parameters::ParentRef => Some(ComponentType::Parent),
        Parameters::Identifier => Some(ComponentType::Identifier),
        Parameters::LocalIdentifier => Some(ComponentType::LocalIdentifier),
        Parameters::PathDelimiter => Some(ComponentType::Delimiter),
        Parameters::SingleQuoteString => Some(ComponentType::RawIdentifier(RawIdType::Single)),
        Parameters::DoubleQuoteString => Some(ComponentType::RawIdentifier(RawIdType::Double)),
        Parameters::StartArray => Some(ComponentType::RawIdentifier(RawIdType::Array)),
        _ => None,
    }
}

/// The component built from a token kind and span: its kind follows the
/// token; it holds an owned, unescaped value when it is a raw identifier
/// with escape sequences. `None` when the token kind has no component kind.
pub open spec fn to_component_spec<'s>(
    source: &'s str,
    lex: Parameters,
    span: Range<usize>,
    raw_id: Option<RawLiteral>,
) -> Option<ComponentV<'s>> {
    match component_kind(lex) {
        None => None,
        Some(kind) => Some(
            ComponentV {
                source,
                kind,
                span,
                value: match raw_id {
                    Some(raw) => if raw.spec_has_escape_sequences() {
                        Some(raw.unescape(span_chars(source, span)))
                    } else {
                        None
                    },
                    None => None,
                },
            },
        ),
    }
}

/// Convert a token to a path component.
pub fn to_component<'source>(
    source: &'source str,
    state: &mut ParseState,
    lex: &Parameters,
    span: Range<usize>,
    raw_id: Option<RawLiteral>,
) -> (res: SyntaxResult<Component<'source>>)
    requires
        raw_id matches Some(r) && r.spec_has_escape_sequences() ==> valid_span(
            source,
            span.start as int,
            span.end as int,
        ),
    ensures
        *final(state) == *old(state),
        match to_component_spec(source, *lex, span, raw_id) {
            Some(c) => res matches Ok(comp) && comp@ == c,
            None => res matches Err(e) && e@ == err_at(
                SyntaxErrorKind::ComponentType,
                old(state).line,
                old(state).byte,
            ) && e.info.file_name == old(state).file_name,
        },
{
    let value = if let Some(raw) = &raw_id {
        if raw.has_escape_sequences() {
            Some(raw.into_owned(slice_span(source, span.start, span.end)))
        } else {
            None
        }
    } else {
        None
    };
    let kind = match lex {
        Parameters::ExplicitThisKeyword => ComponentType::ThisKeyword,
        Parameters::ExplicitThisDotSlash => ComponentType::ThisDotSlash,
        Parameters::ParentRef => ComponentType::Parent,
        Parameters::Identifier => ComponentType::Identifier,
        Parameters::LocalIdentifier => ComponentType::LocalIdentifier,
        Parameters::PathDelimiter => ComponentType::Delimiter,
        Parameters::SingleQuoteString => ComponentType::RawIdentifier(RawIdType::Single),
        Parameters::DoubleQuoteString => ComponentType::RawIdentifier(RawIdType::Double),
        Parameters::StartArray => ComponentType::RawIdentifier(RawIdType::Array),
        _ => {
            return Err(state.error(SyntaxErrorKind::ComponentType));
        },
    };
    Ok(Component::new(source, kind, span, value))
}

/// The number of parent references at the front of a token sequence.
pub open spec fn parent_run(ts: Seq<Token>) -> nat
    decreases ts.len(),
{
    if ts.len() > 0 && ts[0] matches Token::Parameters(Parameters::ParentRef, _) {
        1 + parent_run(ts.drop_first())
    } else {
        0
    }
}

/// No run of parent references anywhere in the sequence is too long to
/// count in a `u8`.
pub open spec fn runs_ok(ts: Seq<Token>) -> bool {
    forall|k: int| 0 <= k <= ts.len() ==> #[trigger] parent_run(ts.skip(k)) < 255
}

/// Parent-reference runs stay short in a suffix.
pub proof fn lemma_runs_suffix(a: Seq<Token>, b: Seq<Token>)
    requires
        is_suffix(a, b),
        runs_ok(b),
    ensures
        runs_ok(a),
{
    let n = b.len() - a.len();
    assert forall|k: int| 0 <= k <= a.len() implies #[trigger] parent_run(a.skip(k)) < 255 by {
        assert(a.skip(k) =~= b.skip(n + k));
        assert(parent_run(b.skip(n + k)) < 255);
    }
}

/// Count parent references: returns the count (starting from `n`), the
/// first token that is not a parent reference (taken) and the rest.
pub open spec fn parents_spec(ts: Seq<Token>, n: int) -> (int, Option<Token>, Seq<Token>)
    decreases ts.len(),
{
    if ts.len() == 0 {
        (n, None, ts)
    } else if ts[0] matches Token::Parameters(Parameters::ParentRef, _) {
        parents_spec(ts.drop_first(), n + 1)
    } else {
        (n, Some(ts[0]), ts.drop_first())
    }
}

/// Facts about counting parent references.
pub proof fn lemma_parents(ts: Seq<Token>, n: int)
    ensures
        parents_spec(ts, n).0 == n + parent_run(ts),
        is_suffix(parents_spec(ts, n).2, ts),
        parents_spec(ts, n).1 is Some ==> parents_spec(ts, n).2.len() < ts.len()
            && parents_spec(ts, n).1 == Some(ts[ts.len() - parents_spec(ts, n).2.len() - 1]),
    decreases ts.len(),
{
    if ts.len() == 0 {
        lexer::lemma_suffix_refl(ts);
    } else {
        lexer::lemma_suffix_drop_first(ts);
        if ts[0] matches Token::Parameters(Parameters::ParentRef, _) {
            lemma_parents(ts.drop_first(), n + 1);
            lexer::lemma_suffix_trans(parents_spec(ts, n).2, ts.drop_first(), ts);
            let out = parents_spec(ts, n);
            if out.1 is Some {
                let k = ts.len() - out.2.len() - 1;
                assert(ts.drop_first()[k - 1] == ts[k]);
            }
        }
    }
}

/// Count the parent references of a path.
fn parents<'source>(
    _state: &mut ParseState,
    lexer: &mut Lexer<'source>,
    path: &mut Path<'source>,
) -> (res: Option<Token>)
    requires
        old(lexer).wf(),
        parent_run(old(lexer).rest()) < 255,
    ensures
        final(lexer).wf(),
        final(lexer).src() == old(lexer).src(),
        *final(_state) == *old(_state),
        ({
            let (n, next, rest) = parents_spec(old(lexer).rest(), 1);
            &&& final(path)@ == (PathV { parents: n as u8, ..old(path)@ })
            &&& res == next
            &&& final(lexer).rest() == rest
        }),
{
    path.set_parents(1);
    let ghost out = parents_spec(lexer.rest(), 1);
    loop
        invariant
            lexer.wf(),
            lexer.src() == old(lexer).src(),
            path@ == (PathV { parents: path@.parents, ..old(path)@ }),
            path@.parents + parent_run(lexer.rest()) < 256,
            parents_spec(lexer.rest(), path@.parents as int) == out,
            out == parents_spec(old(lexer).rest(), 1),
        decreases lexer.rest().len(),
    {
        let ghost ts = lexer.rest();
        let next = lexer.next();
        match next {
            Some(token) => {
                assert(token == ts[0]);
                match &token {
                    Token::Parameters(Parameters::ParentRef, _) => {
                        path.set_parents(path.parents() + 1);
                    },
                    _ => {
                        return Some(token);
                    },
                }
            },
            None => {
                return None;
            },
        }
    }
}

/// Outcome of reading path components: the next token or an error, the
/// tokens left, the line and byte reached and the path built so far.
pub struct PathOut<'s> {
    pub res: Result<Option<Token>, ErrorV>,
    pub rest: Seq<Token>,
    pub line: usize,
    pub byte: usize,
    pub path: PathV<'s>,
}

/// One step of reading path components.
pub enum ComponentStep<'s> {
    /// Reading stops with this outcome.
    Stop(PathOut<'s>),
    /// Reading goes on from here.
    Go { rest: Seq<Token>, byte: usize, path: PathV<'s>, wants: bool },
}

/// After a component token (whose span may have been narrowed to the inner
/// span of a raw identifier): a delimiter is expected or refused, then the
/// component is added.
pub open spec fn component_after<'s>(
    source: &'s str,
    rest: Seq<Token>,
    line: usize,
    byte: usize,
    path: PathV<'s>,
    wants: bool,
    lex: Parameters,
    span: Range<usize>,
    raw_id: Option<RawLiteral>,
) -> ComponentStep<'s> {
    if wants {
        if lex == Parameters::PathDelimiter {
            ComponentStep::Go { rest, byte, path, wants: false }
        } else {
            ComponentStep::Stop(
                PathOut {
                    res: Err(err_at(SyntaxErrorKind::ExpectedPathDelimiter, line, span.start)),
                    rest,
                    line,
                    byte: span.start,
                    path,
                },
            )
        }
    } else if lex == Parameters::PathDelimiter {
        ComponentStep::Stop(
            PathOut {
                res: Err(err_at(SyntaxErrorKind::UnexpectedPathDelimiter, line, span.start)),
                rest,
                line,
                byte: span.start,
                path,
            },
        )
    } else {
        match to_component_spec(source, lex, span, raw_id) {
            None => ComponentStep::Stop(
                PathOut {
                    res: Err(err_at(SyntaxErrorKind::ComponentType, line, byte)),
                    rest,
                    line,
                    byte,
                    path,
                },
            ),
            Some(c) => ComponentStep::Go {
                rest,
                byte,
                path: PathV { components: path.components.push(c), ..path },
                wants: true,
            },
        }
    }
}

/// The literal type read for a raw identifier token.
pub open spec fn raw_type(lex: Parameters) -> RawLiteralType {
    match lex {
        Parameters::SingleQuoteString => RawLiteralType::Single,
        Parameters::DoubleQuoteString => RawLiteralType::Double,
        _ => RawLiteralType::Array,
    }
}

/// One step of reading path components from a non-empty token sequence.
pub open spec fn component_step<'s>(
    source: &'s str,
    ts: Seq<Token>,
    line: usize,
    byte: usize,
    path: PathV<'s>,
    wants: bool,
) -> ComponentStep<'s> {
    let t = ts[0];
    let r = ts.drop_first();
    if spec_is_newline(t) {
        // Paths are terminated by a newline.
        if r.len() > 0 {
            ComponentStep::Stop(
                PathOut { res: Ok(Some(r[0])), rest: r.drop_first(), line: (line + 1) as usize, byte, path },
            )
        } else {
            ComponentStep::Stop(
                PathOut { res: Ok(None), rest: r, line: (line + 1) as usize, byte, path },
            )
        }
    } else {
        match t {
            Token::Parameters(lex, sp) => {
                let b = sp.start;
                if lex == Parameters::End {
                    ComponentStep::Stop(PathOut { res: Ok(Some(t)), rest: r, line, byte: b, path })
                } else if spec_is_path_component(lex) {
                    match lex {
                        Parameters::ExplicitThisKeyword | Parameters::ExplicitThisDotSlash => ComponentStep::Stop(
                            PathOut {
                                res: Err(err_at(SyntaxErrorKind::UnexpectedPathExplicitThis, line, b)),
                                rest: r,
                                line,
                                byte: b,
                                path,
                            },
                        ),
                        Parameters::ParentRef => ComponentStep::Stop(
                            PathOut {
                                res: Err(err_at(SyntaxErrorKind::UnexpectedPathParent, line, b)),
                                rest: r,
                                line,
                                byte: b,
                                path,
                            },
                        ),
                        Parameters::LocalIdentifier => ComponentStep::Stop(
                            PathOut {
                                res: Err(err_at(SyntaxErrorKind::UnexpectedPathLocal, line, b)),
                                rest: r,
                                line,
                                byte: b,
                                path,
                            },
                        ),
                        Parameters::SingleQuoteString
                        | Parameters::DoubleQuoteString
                        | Parameters::StartArray => {
                            let lo = literal_spec(r, line, b, sp.end, sp.end, initial_flags(raw_type(lex)));
                            match lo.res {
                                Err(e) => ComponentStep::Stop(
                                    PathOut { res: Err(e), rest: lo.rest, line, byte: lo.byte, path },
                                ),
                                Ok((inner, flags)) => component_after(
                                    source,
                                    lo.rest,
                                    line,
                                    lo.byte,
                                    path,
                                    wants,
                                    lex,
                                    inner,
                                    Some(flags),
                                ),
                            }
                        },
                        _ => component_after(source, r, line, b, path, wants, lex, sp, None),
                    }
                } else {
                    ComponentStep::Stop(PathOut { res: Ok(Some(t)), rest: r, line, byte: b, path })
                }
            },
            _ => ComponentStep::Stop(PathOut { res: Ok(Some(t)), rest: r, line, byte, path }),
        }
    }
}

/// Every step takes at least one token.
pub proof fn lemma_component_step(
    source: &str,
    ts: Seq<Token>,
    line: usize,
    byte: usize,
    path: PathV,
    wants: bool,
)
    requires
        ts.len() > 0,
    ensures
        match component_step(source, ts, line, byte, path, wants) {
            ComponentStep::Stop(o) => is_suffix(o.rest, ts) && o.rest.len() < ts.len(),
            ComponentStep::Go { rest, .. } => is_suffix(rest, ts) && rest.len() < ts.len(),
        },
{
    let r = ts.drop_first();
    lexer::lemma_suffix_drop_first(ts);
    if r.len() > 0 {
        lexer::lemma_suffix_drop_first(r);
        lexer::lemma_suffix_trans(r.drop_first(), r, ts);
    }
    match ts[0] {
        Token::Parameters(lex, sp) => {
            let lo = literal_spec(r, line, sp.start, sp.end, sp.end, initial_flags(raw_type(lex)));
            lemma_literal_suffix(r, line, sp.start, sp.end, sp.end, initial_flags(raw_type(lex)));
            lexer::lemma_suffix_trans(lo.rest, r, ts);
        },
        _ => {},
    }
}

/// Reading components only appends to a path: the components it had stay
/// first and its other fields are kept.
pub proof fn lemma_components_prefix<'s>(
    source: &'s str,
    ts: Seq<Token>,
    line: usize,
    byte: usize,
    path: PathV<'s>,
    wants: bool,
)
    ensures
        ({
            let q = components_spec(source, ts, line, byte, path, wants).path;
            &&& q.source == path.source
            &&& q.parents == path.parents
            &&& q.open == path.open
            &&& q.components.len() >= path.components.len()
            &&& forall|i: int| 0 <= i < path.components.len() ==> #[trigger] q.components[i] == path.components[i]
        }),
    decreases ts.len(),
{
    if ts.len() > 0 {
        match component_step(source, ts, line, byte, path, wants) {
            ComponentStep::Stop(o) => {},
            ComponentStep::Go { rest, byte: b2, path: p2, wants: w2 } => {
                if rest.len() < ts.len() {
                    lemma_components_prefix(source, rest, line, b2, p2, w2);
                    assert forall|i: int| 0 <= i < path.components.len() implies #[trigger] p2.components[i]
                        == path.components[i] by {
                        if p2.components.len() > path.components.len() {
                            assert(p2.components[i] == path.components.push(p2.components.last())[i]);
                        }
                    }
                }
            },
        }
    }
}

/// Read the components of a path after its first component.
pub open spec fn components_spec<'s>(
    source: &'s str,
    ts: Seq<Token>,
    line: usize,
    byte: usize,
    path: PathV<'s>,
    wants: bool,
) -> PathOut<'s>
    decreases ts.len(),
{
    if ts.len() == 0 {
        PathOut { res: Ok(None), rest: ts, line, byte, path }
    } else {
        match component_step(source, ts, line, byte, path, wants) {
            ComponentStep::Stop(o) => o,
            ComponentStep::Go { rest, byte, path, wants } => if rest.len() < ts.len() {
                components_spec(source, rest, line, byte, path, wants)
            } else {
                PathOut { res: Ok(None), rest, line, byte, path }
            },
        }
    }
}

/// The bound on line numbers: each remaining token may add a little, and a
/// token held aside adds less.
pub open spec fn line_budget(line: usize, ts: Seq<Token>, held: bool) -> int {
    line + 4 * ts.len() + if held {
        2int
    } else {
        0int
    }
}

/// Every component ends at or before the start of every token in `ts`.
pub open spec fn comps_before(cs: Seq<ComponentV>, ts: Seq<Token>) -> bool {
    forall|i: int, k: int|
        0 <= i < cs.len() && 0 <= k < ts.len() ==> (#[trigger] cs[i]).span.end <= tspan(
            #[trigger] ts[k],
        ).start
}

/// Components before a sequence are before any suffix of it.
pub proof fn lemma_before_suffix(cs: Seq<ComponentV>, a: Seq<Token>, b: Seq<Token>)
    requires
        comps_before(cs, b),
        is_suffix(a, b),
    ensures
        comps_before(cs, a),
{
    assert forall|i: int, k: int| 0 <= i < cs.len() && 0 <= k < a.len() implies (#[trigger] cs[i]).span.end
        <= tspan(#[trigger] a[k]).start by {
        assert(a[k] == b.skip(b.len() - a.len())[k]);
        assert(a[k] == b[b.len() - a.len() + k]);
    }
}

/// Adding a component taken from the front of `ts`, which ends before the
/// tokens left, keeps the components in order and before those tokens.
pub proof fn lemma_push_comp(
    source: &str,
    cs: Seq<ComponentV>,
    c: ComponentV,
    ts: Seq<Token>,
    rest: Seq<Token>,
)
    requires
        comps_ok(source, cs),
        comps_before(cs, ts),
        valid_span(source, c.span.start as int, c.span.end as int),
        c.source == source,
        ts.len() > 0,
        tspan(ts[0]).start <= c.span.start,
        string::precedes(c.span, rest),
        is_suffix(rest, ts),
    ensures
        comps_ok(source, cs.push(c)),
        comps_before(cs.push(c), rest),
{
    lemma_before_suffix(cs, rest, ts);
    let n = cs.push(c);
    assert forall|i: int, j: int| 0 <= i < j < n.len() implies (#[trigger] n[i]).span.end <= (
    #[trigger] n[j]).span.start by {
        if j == cs.len() {
            assert(cs[i].span.end <= tspan(ts[0]).start);
        } else {
            assert(n[i] == cs[i] && n[j] == cs[j]);
        }
    }
    assert forall|i: int, k: int| 0 <= i < n.len() && 0 <= k < rest.len() implies (#[trigger] n[i]).span.end
        <= tspan(#[trigger] rest[k]).start by {
        if i < cs.len() {
            assert(n[i] == cs[i]);
        }
    }
}

/// Read the path components that follow the first one.
pub fn components<'source>(
    source: &'source str,
    state: &mut ParseState,
    lexer: &mut Lexer<'source>,
    path: &mut Path<'source>,
    wants: bool,
) -> (res: SyntaxResult<Option<Token>>)
    requires
        old(lexer).wf(),
        old(lexer).src() == source,
        line_budget(old(state).line, old(lexer).rest(), false) < usize::MAX,
        comps_ok(source, old(path)@.components),
        comps_before(old(path)@.components, old(lexer).rest()),
    ensures
        final(lexer).wf(),
        final(lexer).src() == source,
        is_suffix(final(lexer).rest(), old(lexer).rest()),
        final(state).file_name == old(state).file_name,
        line_budget(final(state).line, final(lexer).rest(), res matches Ok(Some(_)))
            <= line_budget(old(state).line, old(lexer).rest(), false),
        res matches Ok(t) ==> held_ok(source, t) && is_suffix(
            pending(t, final(lexer).rest()),
            old(lexer).rest(),
        ),
        res is Ok ==> comps_ok(source, final(path)@.components),
        final(path)@.source == old(path)@.source,
        res matches Ok(t) ==> comps_before(final(path)@.components, pending(t, final(lexer).rest())),
        ({
            let out = components_spec(
                source,
                old(lexer).rest(),
                old(state).line,
                old(state).byte,
                old(path)@,
                wants,
            );
            &&& final(lexer).rest() == out.rest
            &&& final(state).line == out.line
            &&& final(state).byte == out.byte
            &&& final(path)@ == out.path
            &&& match res {
                Ok(t) => out.res == Ok::<Option<Token>, ErrorV>(t),
                Err(e) => out.res == Err::<Option<Token>, ErrorV>(e@) && e.info.file_name
                    == old(state).file_name,
            }
        }),
{
    let mut wants_delimiter = wants;
    let ghost out = components_spec(
        source,
        lexer.rest(),
        state.line,
        state.byte,
        path@,
        wants_delimiter,
    );
    proof {
        lexer::lemma_suffix_refl(lexer.rest());
    }
    loop
        invariant
            lexer.wf(),
            lexer.src() == source,
            is_suffix(lexer.rest(), old(lexer).rest()),
            state.file_name == old(state).file_name,
            line_budget(old(state).line, old(lexer).rest(), false) < usize::MAX,
            line_budget(state.line, lexer.rest(), false) <= line_budget(
                old(state).line,
                old(lexer).rest(),
                false,
            ),
            path@.source == old(path)@.source,
            comps_ok(source, path@.components),
            comps_before(path@.components, lexer.rest()),
            components_spec(source, lexer.rest(), state.line, state.byte, path@, wants_delimiter)
                == out,
            out == components_spec(
                source,
                old(lexer).rest(),
                old(state).line,
                old(state).byte,
                old(path)@,
                wants,
            ),
        decreases lexer.rest().len(),
    {
        proof {
            lexer.lemma_wf();
        }
        let ghost ts = lexer.rest();
        let ghost line0 = state.line;
        let ghost byte0 = state.byte;
        let ghost path0 = path@;
        let next = lexer.next();
        let token = match next {
            Some(t) => t,
            None => {
                return Ok(None);
            },
        };
        proof {
            lexer::lemma_suffix_drop_first(ts);
            lexer::lemma_suffix_trans(lexer.rest(), ts, old(lexer).rest());
            lemma_component_step(source, ts, line0, byte0, path0, wants_delimiter);
            lexer::lemma_pending_take(ts);
        }
        assert(token == ts[0]);
        assert(token_ok(source, ts[0]));
        if token.is_newline() {
            state.line = state.line + 1;
            // Paths are terminated if we hit a newline!
            let ghost r = lexer.rest();
            proof {
                lexer.lemma_wf();
            }
            let n = lexer.next();
            proof {
                if r.len() > 0 {
                    assert(token_ok(source, r[0]));
                    lexer::lemma_pending_take(r);
                    lemma_before_suffix(path@.components, r, ts);
                    lexer::lemma_suffix_drop_first(r);
                    lexer::lemma_suffix_trans(lexer.rest(), r, old(lexer).rest());
                }
            }
            return Ok(n);
        }
        match token {
            Token::Parameters(lex, span) => {
                state.byte = span.start;
                let mut span = span;
                let mut raw_id: Option<RawLiteral> = None;
                if lex == Parameters::End {
                    return Ok(Some(Token::Parameters(lex, span)));
                }
                if is_path_component(&lex) {
                    let ghost r = lexer.rest();
                    proof {
                        lexer::lemma_suffix_ok(source, r, ts);
                        assert forall|i: int| 0 <= i < r.len() implies span.end <= tspan(
                            #[trigger] r[i],
                        ).start by {
                            assert(r[i] == ts[i + 1]);
                        }
                    }
                    match lex {
                        Parameters::ExplicitThisKeyword | Parameters::ExplicitThisDotSlash => {
                            return Err(state.error(SyntaxErrorKind::UnexpectedPathExplicitThis));
                        },
                        Parameters::ParentRef => {
                            return Err(state.error(SyntaxErrorKind::UnexpectedPathParent));
                        },
                        Parameters::LocalIdentifier => {
                            return Err(state.error(SyntaxErrorKind::UnexpectedPathLocal));
                        },
                        Parameters::SingleQuoteString
                        | Parameters::DoubleQuoteString
                        | Parameters::StartArray => {
                            let t = match lex {
                                Parameters::SingleQuoteString => RawLiteralType::Single,
                                Parameters::DoubleQuoteString => RawLiteralType::Double,
                                _ => RawLiteralType::Array,
                            };
                            proof {
                                lemma_literal_span(
                                    source,
                                    r,
                                    state.line,
                                    state.byte,
                                    span.end,
                                    span.end,
                                    initial_flags(t),
                                );
                                lemma_literal_suffix(
                                    r,
                                    state.line,
                                    state.byte,
                                    span.end,
                                    span.end,
                                    initial_flags(t),
                                );
                            }
                            // Override the span to the inner string value
                            let (inner, flags) = match string::parse(
                                source,
                                lexer,
                                state,
                                (lex, span),
                                t,
                            ) {
                                Ok(v) => v,
                                Err(e) => {
                                    proof {
                                        lexer::lemma_suffix_trans(
                                            lexer.rest(),
                                            r,
                                            old(lexer).rest(),
                                        );
                                    }
                                    return Err(e);
                                },
                            };
                            proof {
                                lexer::lemma_suffix_trans(lexer.rest(), r, old(lexer).rest());
                                lexer::lemma_suffix_trans(lexer.rest(), r, ts);
                            }
                            span = inner;
                            raw_id = Some(flags);
                        },
                        _ => {},
                    }
                    if wants_delimiter {
                        match lex {
                            Parameters::PathDelimiter => {
                                proof {
                                    lemma_before_suffix(path@.components, lexer.rest(), ts);
                                }
                                wants_delimiter = false;
                                continue ;
                            },
                            _ => {
                                state.byte = span.start;
                                return Err(state.error(SyntaxErrorKind::ExpectedPathDelimiter));
                            },
                        }
                    } else {
                        match lex {
                            Parameters::PathDelimiter => {
                                state.byte = span.start;
                                return Err(state.error(SyntaxErrorKind::UnexpectedPathDelimiter));
                            },
                            _ => {},
                        }
                    }
                    let component = to_component(source, state, &lex, span, raw_id)?;
                    proof {
                        lemma_push_comp(source, path@.components, component@, ts, lexer.rest());
                    }
                    path.add_component(component);
                    wants_delimiter = true;
                } else {
                    return Ok(Some(Token::Parameters(lex, span)));
                }
            },
            _ => {
                return Ok(Some(token));
            },
        }
    }
}

/// Outcome of parsing a path: the path (if one was found) and the next
/// token, or an error; the tokens left and the line and byte reached.
pub struct PathParse<'s> {
    pub res: Result<(Option<PathV<'s>>, Option<Token>), ErrorV>,
    pub rest: Seq<Token>,
    pub line: usize,
    pub byte: usize,
}

/// One for a held token, zero for none.
pub open spec fn held_count(t: Option<Token>) -> nat {
    if t is Some {
        1
    } else {
        0
    }
}

/// Whether a held token (if any) fits the source.
pub open spec fn held_ok(source: &str, t: Option<Token>) -> bool {
    t matches Some(tok) ==> token_ok(source, tok)
}

/// Look for the first component of a path, skipping parameter tokens that
/// cannot start one, then read the rest of the path.
pub open spec fn path_loop<'s>(
    source: &'s str,
    next: Option<Token>,
    ts: Seq<Token>,
    line: usize,
    byte: usize,
    path: PathV<'s>,
) -> PathParse<'s>
    decreases ts.len(), held_count(next),
{
    match next {
        None => PathParse { res: Ok((None, None)), rest: ts, line, byte },
        Some(Token::Parameters(lex, sp)) => {
            let b = sp.start;
            if spec_is_path_component(lex) {
                match to_component_spec(source, lex, sp, None) {
                    None => PathParse {
                        res: Err(err_at(SyntaxErrorKind::ComponentType, line, b)),
                        rest: ts,
                        line,
                        byte: b,
                    },
                    Some(c) => {
                        // Flag as a path that should be resolved from the root object
                        let p1 = if path.components.len() == 0 && c.bytes() == root_bytes() {
                            PathV { root: true, ..path }
                        } else {
                            path
                        };
                        let p2 = if c.is_explicit() {
                            PathV { explicit: true, ..p1 }
                        } else {
                            p1
                        };
                        if c.is_local() && p2.parents > 0 {
                            PathParse {
                                res: Err(err_at(SyntaxErrorKind::UnexpectedPathParentWithLocal, line, b)),
                                rest: ts,
                                line,
                                byte: b,
                            }
                        } else if c.is_explicit() && p2.parents > 0 {
                            PathParse {
                                res: Err(err_at(SyntaxErrorKind::UnexpectedPathParentWithExplicit, line, b)),
                                rest: ts,
                                line,
                                byte: b,
                            }
                        } else {
                            let p3 = PathV { components: p2.components.push(c), ..p2 };
                            let co = components_spec(
                                source,
                                ts,
                                line,
                                b,
                                p3,
                                c.kind != ComponentType::ThisDotSlash,
                            );
                            match co.res {
                                Err(e) => PathParse { res: Err(e), rest: co.rest, line: co.line, byte: co.byte },
                                Ok(nx) => if co.path.components.len() == 0 {
                                    PathParse {
                                        res: Err(err_at(SyntaxErrorKind::EmptyPath, co.line, co.byte)),
                                        rest: co.rest,
                                        line: co.line,
                                        byte: co.byte,
                                    }
                                } else {
                                    PathParse { res: Ok((Some(co.path), nx)), rest: co.rest, line: co.line, byte: co.byte }
                                },
                            }
                        }
                    },
                }
            } else if ts.len() > 0 {
                path_loop(source, Some(ts[0]), ts.drop_first(), line, b, path)
            } else {
                path_loop(source, None, ts, line, b, path)
            }
        },
        Some(_) => PathParse {
            res: Err(err_at(SyntaxErrorKind::TokenParameterPath, line, byte)),
            rest: ts,
            line,
            byte,
        },
    }
}

/// Parse a path starting with the parameter token `(lex, span)`: a leading
/// delimiter is refused, leading parent references are counted, then the
/// first component is looked for.
pub open spec fn parse_spec<'s>(
    source: &'s str,
    ts: Seq<Token>,
    line: usize,
    byte: usize,
    lex: Parameters,
    span: Range<usize>,
) -> PathParse<'s> {
    let path0 = PathV::empty(source, span, line..(line + 1) as usize);
    if lex == Parameters::PathDelimiter {
        PathParse {
            res: Err(err_at(SyntaxErrorKind::UnexpectedPathDelimiter, line, byte)),
            rest: ts,
            line,
            byte,
        }
    } else if lex == Parameters::ParentRef {
        let (n, nx, r) = parents_spec(ts, 1);
        path_loop(source, nx, r, line, byte, PathV { parents: n as u8, ..path0 })
    } else {
        path_loop(source, Some(Token::Parameters(lex, span)), ts, line, byte, path0)
    }
}

/// Parse a path starting from the parameter token `current`.
#[verifier::rlimit(40)]
pub fn parse<'source>(
    source: &'source str,
    lexer: &mut Lexer<'source>,
    state: &mut ParseState,
    current: (Parameters, Range<usize>),
) -> (res: SyntaxResult<(Option<Path<'source>>, Option<Token>)>)
    requires
        old(lexer).wf(),
        old(lexer).src() == source,
        tokens_ok(source, pending(Some(Token::Parameters(current.0, current.1)), old(lexer).rest())),
        line_budget(old(state).line, old(lexer).rest(), true) < usize::MAX,
        current.0 == Parameters::ParentRef ==> parent_run(old(lexer).rest()) < 255,
    ensures
        final(lexer).wf(),
        final(lexer).src() == source,
        is_suffix(final(lexer).rest(), old(lexer).rest()),
        final(state).file_name == old(state).file_name,
        line_budget(final(state).line, final(lexer).rest(), res matches Ok((_, Some(_))))
            <= line_budget(old(state).line, old(lexer).rest(), true),
        res matches Ok((_, next)) ==> held_ok(source, next) && is_suffix(
            pending(next, final(lexer).rest()),
            old(lexer).rest(),
        ),
        res matches Ok((Some(p), next)) ==> p@.source == source && comps_ok(source, p@.components) && comps_before(
            p@.components,
            pending(next, final(lexer).rest()),
        ) && p@.open_ok() && p@.open == current.1,
        ({
            let out = parse_spec(
                source,
                old(lexer).rest(),
                old(state).line,
                old(state).byte,
                current.0,
                current.1,
            );
            &&& final(lexer).rest() == out.rest
            &&& final(state).line == out.line
            &&& final(state).byte == out.byte
            &&& match res {
                Ok((p, t)) => out.res == Ok::<(Option<PathV<'source>>, Option<Token>), ErrorV>(
                    (
                        match p {
                            Some(p) => Some(p@),
                            None => None,
                        },
                        t,
                    ),
                ),
                Err(e) => out.res == Err::<(Option<PathV<'source>>, Option<Token>), ErrorV>(e@)
                    && e.info.file_name == old(state).file_name,
            }
        }),
{
    let (lex, span) = current;
    let mut path = Path::new(source, span.start..span.end, state.line_range());
    let ghost ts0 = lexer.rest();
    let ghost p0 = pending(Some(Token::Parameters(lex, span)), ts0);
    proof {
        assert(p0[0] == Token::Parameters(lex, span));
    }
    let mut next: Option<Token> = Some(Token::Parameters(lex, span.start..span.end));
    proof {
        lexer::lemma_suffix_refl(lexer.rest());
    }
    match lex {
        // Cannot start with a path delimiter
        Parameters::PathDelimiter => {
            return Err(state.error(SyntaxErrorKind::UnexpectedPathDelimiter));
        },
        // Count parent references
        Parameters::ParentRef => {
            proof {
                lemma_parents(lexer.rest(), 1);
                lexer.lemma_wf();
            }
            next = parents(state, lexer, &mut path);
            proof {
                let k = ts0.len() - lexer.rest().len() - 1;
                if next is Some {
                    assert(token_ok(source, ts0[k]));
                    assert(pending(next, lexer.rest()) =~= ts0.skip(k));
                    assert(is_suffix(pending(next, lexer.rest()), ts0));
                }
                lexer::lemma_suffix_ok(source, pending(next, lexer.rest()), ts0);
                let pn = pending(next, lexer.rest());
                assert forall|i: int| 0 <= i < pn.len() implies span.end <= tspan(#[trigger] pn[i]).start by {
                    let j = i + ts0.len() - pn.len();
                    assert(pn[i] == ts0[j]);
                    assert(p0[j + 1] == ts0[j]);
                }
            }
        },
        _ => {},
    }
    let ghost out = parse_spec(source, ts0, state.line, state.byte, lex, span);
    loop
        invariant
            lexer.wf(),
            lexer.src() == source,
            is_suffix(lexer.rest(), old(lexer).rest()),
            state.file_name == old(state).file_name,
            state.line == old(state).line,
            held_ok(source, next),
            tokens_ok(source, pending(next, lexer.rest())),
            path@.components.len() == 0,
            line_budget(old(state).line, old(lexer).rest(), true) < usize::MAX,
            line_budget(state.line, lexer.rest(), next is Some) <= line_budget(
                old(state).line,
                old(lexer).rest(),
                true,
            ),
            path@.source == source,
            path@.open == current.1,
            path@.parents > 0 ==> valid_span(source, current.1.start as int, current.1.end as int)
                && forall|i: int|
                0 <= i < pending(next, lexer.rest()).len() ==> current.1.end <= tspan(
                    #[trigger] pending(next, lexer.rest())[i],
                ).start,
            path_loop(source, next, lexer.rest(), state.line, state.byte, path@) == out,
            out == parse_spec(
                source,
                old(lexer).rest(),
                old(state).line,
                old(state).byte,
                current.0,
                current.1,
            ),
        decreases lexer.rest().len(), held_count(next),
    {
        let token = match next {
            Some(t) => t,
            None => {
                return Ok((None, None));
            },
        };
        match token {
            Token::Parameters(lex, span) => {
                state.byte = span.start;
                if is_path_component(&lex) {
                    let component = to_component(source, state, &lex, span, None)?;
                    // Flag as a path that should be resolved from the root object
                    if path.is_empty() && component.is_root() {
                        path.set_root(true);
                    }
                    if component.is_explicit() {
                        path.set_explicit(true);
                    }
                    if component.is_local() && path.parents() > 0 {
                        return Err(state.error(SyntaxErrorKind::UnexpectedPathParentWithLocal));
                    }
                    if component.is_explicit() && path.parents() > 0 {
                        return Err(state.error(SyntaxErrorKind::UnexpectedPathParentWithExplicit));
                    }
                    let wants_delimiter = !component.is_explicit_dot_slash();
                    proof {
                        let pd = pending(Some(token), lexer.rest());
                        assert(pd[0] == token);
                        assert(token_ok(source, pd[0]));
                        assert forall|k: int| 0 <= k < lexer.rest().len() implies span.end <= tspan(
                            #[trigger] lexer.rest()[k],
                        ).start by {
                            assert(pd[k + 1] == lexer.rest()[k]);
                        }
                        assert(pd.drop_first() =~= lexer.rest());
                        lexer::lemma_suffix_drop_first(pd);
                        lemma_push_comp(source, path@.components, component@, pd, lexer.rest());
                    }
                    path.add_component(component);
                    let ghost mid = lexer.rest();
                    let ghost pv = path@;
                    proof {
                        lemma_components_prefix(source, mid, state.line, state.byte, pv, wants_delimiter);
                        if path@.parents > 0 {
                            let pd = pending(Some(token), lexer.rest());
                            assert(pd[0] == token);
                        }
                    }
                    let next = match components(source, state, lexer, &mut path, wants_delimiter) {
                        Ok(n) => n,
                        Err(e) => {
                            proof {
                                lexer::lemma_suffix_trans(lexer.rest(), mid, old(lexer).rest());
                            }
                            return Err(e);
                        },
                    };
                    proof {
                        lexer::lemma_suffix_trans(lexer.rest(), mid, old(lexer).rest());
                        lexer::lemma_suffix_trans(pending(next, lexer.rest()), mid, old(lexer).rest());
                        lexer.lemma_wf();
                    }
                    if path.is_empty() {
                        return Err(state.error(SyntaxErrorKind::EmptyPath));
                    }
                    return Ok((Some(path), next));
                }
            },
            _ => {
                return Err(state.error(SyntaxErrorKind::TokenParameterPath));
            },
        }
        proof {
            lexer.lemma_wf();
        }
        let ghost ts = lexer.rest();
        next = lexer.next();
        proof {
            if ts.len() > 0 {
                lexer::lemma_suffix_drop_first(ts);
                lexer::lemma_suffix_trans(lexer.rest(), ts, old(lexer).rest());
                assert(token_ok(source, ts[0]));
                lexer::lemma_pending_take(ts);
            }
            assert(pending(next, lexer.rest()) =~= ts);
            assert forall|i: int| 0 <= i < ts.len() implies ts[i] == pending(Some(token), ts)[i + 1] by {}
        }
    }
}

/// Parse a path from a whole token stream that holds parameter tokens.
pub open spec fn from_str_spec<'s>(source: &'s str, ts: Seq<Token>) -> Result<Option<PathV<'s>>, ErrorV> {
    if ts.len() == 0 {
        Ok(None)
    } else {
        match ts[0] {
            Token::Parameters(lex, sp) => match parse_spec(source, ts.drop_first(), 0, 0, lex, sp).res {
                Ok((p, _)) => Ok(p),
                Err(e) => Err(e),
            },
            _ => Err(err_at(SyntaxErrorKind::TokenParameterPath, 0, 0)),
        }
    }
}

/// Parse a path from a stream of parameter tokens (the tokens of a path
/// expression such as `@root.foo`).
pub fn from_str<'source>(lexer: Lexer<'source>) -> (res: SyntaxResult<Option<Path<'source>>>)
    requires
        lexer.wf(),
        line_budget(0, lexer.rest(), false) < usize::MAX,
        parent_run(lexer.rest()) < 256,
    ensures
        match res {
            Ok(p) => from_str_spec(lexer.src(), lexer.rest()) == Ok::<Option<PathV<'source>>, ErrorV>(
                match p {
                    Some(p) => Some(p@),
                    None => None,
                },
            ),
            Err(e) => from_str_spec(lexer.src(), lexer.rest()) == Err::<Option<PathV<'source>>, ErrorV>(e@)
                && e.info.file_name@ == crate::parser::unknown_name(),
        },
{
    let mut lexer = lexer;
    let source = lexer.source();
    let mut state = ParseState::new();
    proof {
        lexer.lemma_wf();
    }
    let ghost ts = lexer.rest();
    if let Some(token) = lexer.next() {
        assert(token_ok(source, ts[0]));
        match token {
            Token::Parameters(lex, span) => {
                let (path, _) = parse(source, &mut lexer, &mut state, (lex, span))?;
                return Ok(path);
            },
            _ => {
                return Err(state.error(SyntaxErrorKind::TokenParameterPath));
            },
        }
    }
    Ok(None)
}

} // verus!
