//! Parse calls: variable interpolations, helper invocations and partials,
//! with their flags, target, arguments and hash parameters.
use std::ops::Range;
use vstd::prelude::*;

use crate::error::{err_at, ErrorV, SyntaxErrorKind, SyntaxResult};
use crate::lexer::{self, is_suffix, pending, tokens_ok, token_ok, tspan, Lexer, Parameters, Token};
use crate::parser::ast::{
    hash_insert, span_chars, Call, CallTarget, CallV, Element, Json, JsonV, Lines, ParamV,
    ParameterValue, TargetV,
};
use crate::parser::path::{self, held_count, line_budget, raw_type, runs_ok};
use crate::parser::string::{self, initial_flags, literal_spec, RawLiteralType};
use crate::parser::ParseState;
use crate::text::{slice, span_bytes};

verus! {

/// Indicate if this call statement is being parsed
/// in the context of a statement or block which is used
/// to determine if the `else` keyword is allowed.
#[derive(Clone, Copy, Debug, PartialEq, Eq, Structural)]
pub enum CallParseContext {
    /// Parsing as an open block.
    Block,
    /// Parsing as a raw block.
    Raw,
    /// Parsing as a statement out side a block
    Statement,
    /// Parsing as a statement inside a block scope
    /// in which case the `else` keyword should be parsed.
    ScopeStatement,
}

/// Repesents the types of calls that can be parsed.
///
/// Either a top-level call or a sub-expression.
///
/// Sub expressions do not parse partial information and must
/// use a path for the call target.
#[derive(Clone, Copy, Debug, PartialEq, Eq, Structural)]
pub enum CallContext {
    Call,
    SubExpr,
}

// ---------------------------------------------------------------------
// The stream of tokens
// ---------------------------------------------------------------------

/// The next token of a sequence (if any) and the tokens after it.
pub open spec fn next_of(ts: Seq<Token>) -> (Option<Token>, Seq<Token>) {
    if ts.len() > 0 {
        (Some(ts[0]), ts.drop_first())
    } else {
        (None, ts)
    }
}

/// How much is left to parse: every remaining token counts two, a token
/// held aside counts one.
pub open spec fn measure(held: Option<Token>, ts: Seq<Token>) -> nat {
    2 * ts.len() + held_count(held)
}

/// What the call parser needs of its input: the lexer is well-formed over
/// `source`, the held token (if any) and the remaining tokens fit the
/// source in order, no run of parent references is too long to count and
/// line numbers cannot overflow.
pub open spec fn input_ok(source: &str, lexer: Lexer, line: usize, held: Option<Token>) -> bool {
    &&& lexer.wf()
    &&& lexer.src() == source
    &&& tokens_ok(source, pending(held, lexer.rest()))
    &&& runs_ok(pending(held, lexer.rest()))
    &&& line_budget(line, lexer.rest(), held is Some) < usize::MAX
}

/// Parsing moved forward from `held`, `ts` at `line` to `held2`, `ts2` at
/// `line2`: tokens were only taken from the front, and the line number grew
/// by no more than the tokens taken allow.
pub open spec fn advanced(
    held: Option<Token>,
    ts: Seq<Token>,
    line: usize,
    held2: Option<Token>,
    ts2: Seq<Token>,
    line2: usize,
) -> bool {
    &&& is_suffix(ts2, ts)
    &&& is_suffix(pending(held2, ts2), pending(held, ts))
    &&& line_budget(line2, ts2, held2 is Some) <= line_budget(line, ts, held is Some)
}

/// Moving forward twice is moving forward.
pub proof fn lemma_advanced_trans(
    h1: Option<Token>,
    t1: Seq<Token>,
    l1: usize,
    h2: Option<Token>,
    t2: Seq<Token>,
    l2: usize,
    h3: Option<Token>,
    t3: Seq<Token>,
    l3: usize,
)
    requires
        advanced(h1, t1, l1, h2, t2, l2),
        advanced(h2, t2, l2, h3, t3, l3),
    ensures
        advanced(h1, t1, l1, h3, t3, l3),
{
    lexer::lemma_suffix_trans(t3, t2, t1);
    lexer::lemma_suffix_trans(pending(h3, t3), pending(h2, t2), pending(h1, t1));
}

/// Moving forward never makes more left to parse.
pub proof fn lemma_advanced_measure(
    h1: Option<Token>,
    t1: Seq<Token>,
    l1: usize,
    h2: Option<Token>,
    t2: Seq<Token>,
    l2: usize,
)
    requires
        advanced(h1, t1, l1, h2, t2, l2),
    ensures
        measure(h2, t2) <= measure(h1, t1),
        is_suffix(pending(h2, t2), t1) ==> measure(h2, t2) <= 2 * t1.len(),
{
}

/// Input that fits stays fitting after moving forward.
pub proof fn lemma_advanced_input(
    source: &str,
    l1: Lexer,
    line1: usize,
    h1: Option<Token>,
    l2: Lexer,
    line2: usize,
    h2: Option<Token>,
)
    requires
        input_ok(source, l1, line1, h1),
        advanced(h1, l1.rest(), line1, h2, l2.rest(), line2),
        l2.wf(),
        l2.src() == source,
    ensures
        input_ok(source, l2, line2, h2),
{
    lexer::lemma_suffix_ok(source, pending(h2, l2.rest()), pending(h1, l1.rest()));
    path::lemma_runs_suffix(pending(h2, l2.rest()), pending(h1, l1.rest()));
}

/// Taking the next token (and holding it) moves forward.
pub proof fn lemma_take(h: Option<Token>, ts: Seq<Token>, line: usize, nl: bool)
    requires
        h is Some,
        nl ==> (h matches Some(t) && lexer::spec_is_newline(t)),
    ensures
        advanced(
            h,
            ts,
            line,
            next_of(ts).0,
            next_of(ts).1,
            if nl {
                (line + 1) as usize
            } else {
                line
            },
        ),
{
    assert(pending(h, ts).drop_first() =~= ts);
    lexer::lemma_suffix_drop_first(pending(h, ts));
    if ts.len() > 0 {
        lexer::lemma_suffix_drop_first(ts);
        lexer::lemma_pending_take(ts);
    } else {
        lexer::lemma_suffix_refl(ts);
    }
}

/// Not moving at all is moving forward.
pub proof fn lemma_advanced_refl(h: Option<Token>, ts: Seq<Token>, line: usize)
    ensures
        advanced(h, ts, line, h, ts, line),
{
    lexer::lemma_suffix_refl(ts);
    lexer::lemma_suffix_refl(pending(h, ts));
}

// ---------------------------------------------------------------------
// What parsing a call computes
// ---------------------------------------------------------------------

/// Outcome of parsing part of a call: the next token or an error, the
/// tokens left, the line and byte reached, and the call built so far.
pub struct CallOut<'s> {
    pub res: Result<Option<Token>, ErrorV>,
    pub rest: Seq<Token>,
    pub line: usize,
    pub byte: usize,
    pub call: CallV<'s>,
}

/// Outcome of parsing a parameter value: the value and the next token, or
/// an error; the tokens left and the line and byte reached.
pub struct ValueOut<'s> {
    pub res: Result<(ParamV<'s>, Option<Token>), ErrorV>,
    pub rest: Seq<Token>,
    pub line: usize,
    pub byte: usize,
}

/// Outcome of parsing a JSON literal: the value and the end of its outer
/// span, or an error; the tokens left and the byte reached.
pub struct JsonOut {
    pub res: Result<(JsonV, usize), ErrorV>,
    pub rest: Seq<Token>,
    pub byte: usize,
}

/// Outcome of parsing a whole call.
pub struct CallParse<'s> {
    pub res: Result<CallV<'s>, ErrorV>,
    pub rest: Seq<Token>,
    pub line: usize,
    pub byte: usize,
}

/// A call parse that stops with an error of the given kind.
pub open spec fn fail<'s>(
    kind: SyntaxErrorKind,
    ts: Seq<Token>,
    line: usize,
    byte: usize,
    call: CallV<'s>,
) -> CallOut<'s> {
    CallOut { res: Err(err_at(kind, line, byte)), rest: ts, line, byte, call }
}

/// The call closed by the tag at `span`.
pub open spec fn exit_call<'s>(call: CallV<'s>, span: Range<usize>) -> CallV<'s> {
    CallV { close: Some(span), ..call }
}

/// The line after a whitespace or newline token.
pub open spec fn line_after(line: usize, lex: Parameters) -> usize {
    if lex == Parameters::Newline {
        (line + 1) as usize
    } else {
        line
    }
}

/// Tokens that start a path.
pub open spec fn is_path_start(lex: Parameters) -> bool {
    ||| lex == Parameters::ExplicitThisKeyword
    ||| lex == Parameters::PathDelimiter
    ||| lex == Parameters::ExplicitThisDotSlash
    ||| lex == Parameters::Identifier
    ||| lex == Parameters::LocalIdentifier
    ||| lex == Parameters::ParentRef
}

/// Tokens that start a JSON literal.
pub open spec fn is_literal(lex: Parameters) -> bool {
    ||| lex == Parameters::DoubleQuoteString
    ||| lex == Parameters::SingleQuoteString
    ||| lex == Parameters::StartArray
    ||| lex == Parameters::Number
    ||| lex == Parameters::True
    ||| lex == Parameters::False
    ||| lex == Parameters::Null
}

/// Tokens that start a parameter value.
pub open spec fn is_value_start(lex: Parameters) -> bool {
    is_path_start(lex) || is_literal(lex) || lex == Parameters::StartSubExpression
}

/// Parse a JSON literal starting with the token `(lex, span)`: `null`,
/// `true`, `false` and numbers are their own token; a quoted string or
/// square-bracket literal is read up to its end token, unescaped, and its
/// outer span ends one byte after the inner span.
#[verifier::opaque]
pub open spec fn json_literal_spec(
    source: &str,
    ts: Seq<Token>,
    line: usize,
    byte: usize,
    lex: Parameters,
    span: Range<usize>,
) -> JsonOut {
    if lex == Parameters::Null {
        JsonOut { res: Ok((JsonV::Null, span.end)), rest: ts, byte }
    } else if lex == Parameters::True {
        JsonOut { res: Ok((JsonV::Bool(true), span.end)), rest: ts, byte }
    } else if lex == Parameters::False {
        JsonOut { res: Ok((JsonV::Bool(false), span.end)), rest: ts, byte }
    } else if lex == Parameters::Number {
        JsonOut { res: Ok((JsonV::Number(span_chars(source, span)), span.end)), rest: ts, byte }
    } else if lex == Parameters::DoubleQuoteString || lex == Parameters::SingleQuoteString || lex
        == Parameters::StartArray {
        let lo = literal_spec(ts, line, byte, span.end, span.end, initial_flags(raw_type(lex)));
        match lo.res {
            Err(e) => JsonOut { res: Err(e), rest: lo.rest, byte: lo.byte },
            Ok((inner, flags)) => JsonOut {
                res: Ok(
                    (
                        JsonV::String(flags.unescape(span_chars(source, inner))),
                        (inner.end + 1) as usize,
                    ),
                ),
                rest: lo.rest,
                byte: lo.byte,
            },
        }
    } else {
        JsonOut { res: Err(err_at(SyntaxErrorKind::TokenJsonLiteral, line, byte)), rest: ts, byte }
    }
}

/// Parse a parameter value starting with the token `(lex, span)`: a path,
/// a sub-expression or a JSON literal (after which the next token is taken).
pub open spec fn value_spec<'s>(
    source: &'s str,
    ts: Seq<Token>,
    line: usize,
    byte: usize,
    lex: Parameters,
    span: Range<usize>,
) -> ValueOut<'s>
    decreases 2 * ts.len(), 3nat,
{
    if is_path_start(lex) {
        let o = path::parse_spec(source, ts, line, byte, lex, span);
        ValueOut {
            res: match o.res {
                Err(e) => Err(e),
                Ok((Some(p), t)) => Ok((ParamV::Path(p), t)),
                Ok((None, _)) => Err(err_at(SyntaxErrorKind::ExpectedPath, o.line, o.byte)),
            },
            rest: o.rest,
            line: o.line,
            byte: o.byte,
        }
    } else if lex == Parameters::StartSubExpression {
        let o = sub_expr_spec(source, ts, line, byte, span);
        ValueOut {
            res: match o.res {
                Err(e) => Err(e),
                Ok(t) => Ok((ParamV::SubExpr(o.call), t)),
            },
            rest: o.rest,
            line: o.line,
            byte: o.byte,
        }
    } else if is_literal(lex) {
        let jo = json_literal_spec(source, ts, line, byte, lex, span);
        match jo.res {
            Err(e) => ValueOut { res: Err(e), rest: jo.rest, line, byte: jo.byte },
            Ok((v, end)) => ValueOut {
                res: Ok(
                    (
                        ParamV::Json { value: v, span: span.start..end, line: line..(line + 1) as usize },
                        next_of(jo.rest).0,
                    ),
                ),
                rest: next_of(jo.rest).1,
                line,
                byte: jo.byte,
            },
        }
    } else {
        ValueOut { res: Err(err_at(SyntaxErrorKind::TokenParameter, line, byte)), rest: ts, line, byte }
    }
}

/// Parse a sub-expression opened by the tag at `open`: its target, then
/// its arguments up to the closing parenthesis.
pub open spec fn sub_expr_spec<'s>(
    source: &'s str,
    ts: Seq<Token>,
    line: usize,
    byte: usize,
    open: Range<usize>,
) -> CallOut<'s>
    decreases 2 * ts.len(), 2nat,
{
    let call0 = CallV::empty(source, open, line..(line + 1) as usize);
    let to = target_spec(
        source,
        next_of(ts).0,
        next_of(ts).1,
        line,
        open.end,
        call0,
        CallContext::SubExpr,
    );
    match to.res {
        Err(_) => to,
        Ok(nx) => if measure(nx, to.rest) <= 2 * ts.len() {
            let ao = arguments_spec(source, nx, to.rest, to.line, to.byte, to.call, CallContext::SubExpr);
            match ao.res {
                Err(_) => ao,
                Ok(_) => if ao.call.close is None {
                    CallOut {
                        res: Err(err_at(SyntaxErrorKind::SubExpressionNotTerminated, ao.line, ao.byte)),
                        ..ao
                    }
                } else {
                    CallOut {
                        call: CallV { line: ao.call.line.start..(ao.line + 1) as usize, ..ao.call },
                        ..ao
                    }
                },
            }
        } else {
            to
        },
    }
}

/// Parse the call target: whitespace is skipped; a path or (outside a
/// sub-expression) a sub-expression is the target; the end of the tag
/// without a target is an error unless the call is conditional.
pub open spec fn target_spec<'s>(
    source: &'s str,
    next: Option<Token>,
    ts: Seq<Token>,
    line: usize,
    byte: usize,
    call: CallV<'s>,
    ctx: CallContext,
) -> CallOut<'s>
    decreases measure(next, ts), 1nat,
{
    match next {
        None => CallOut { res: Ok(None), rest: ts, line, byte, call },
        Some(Token::Parameters(lex, span)) => if lex == Parameters::WhiteSpace || lex
            == Parameters::Newline {
            target_spec(source, next_of(ts).0, next_of(ts).1, line_after(line, lex), byte, call, ctx)
        } else if lex == Parameters::ElseKeyword {
            fail(SyntaxErrorKind::ElseNotAllowed, ts, line, byte, call)
        } else if is_path_start(lex) {
            let o = path::parse_spec(source, ts, line, byte, lex, span);
            match o.res {
                Err(e) => CallOut { res: Err(e), rest: o.rest, line: o.line, byte: o.byte, call },
                Ok((p, t)) => CallOut {
                    res: Ok(t),
                    rest: o.rest,
                    line: o.line,
                    byte: o.byte,
                    call: match p {
                        Some(p) => CallV { target: TargetV::Path(p), ..call },
                        None => call,
                    },
                },
            }
        } else if lex == Parameters::StartSubExpression {
            if ctx == CallContext::SubExpr {
                fail(SyntaxErrorKind::SubExprTargetNotAllowed, ts, line, byte, call)
            } else {
                let o = sub_expr_spec(source, ts, line, byte, span);
                match o.res {
                    Err(e) => CallOut { res: Err(e), rest: o.rest, line: o.line, byte: o.byte, call },
                    Ok(t) => CallOut {
                        res: Ok(t),
                        rest: o.rest,
                        line: o.line,
                        byte: o.byte,
                        call: CallV { target: TargetV::SubExpr(Box::new(o.call)), ..call },
                    },
                }
            }
        } else if lex == Parameters::End {
            if call.target.bytes().len() == 0 && !call.conditional {
                fail(SyntaxErrorKind::ExpectedIdentifier, ts, line, byte, call)
            } else {
                CallOut {
                    res: Ok(None),
                    rest: ts,
                    line,
                    byte,
                    call: if ctx != CallContext::SubExpr {
                        exit_call(call, span)
                    } else {
                        call
                    },
                }
            }
        } else {
            fail(SyntaxErrorKind::TokenCallTarget, ts, line, byte, call)
        },
        Some(_) => fail(SyntaxErrorKind::TokenParameter, ts, line, byte, call),
    }
}

/// Parse the arguments of a call: values are added in order, whitespace is
/// skipped, a hash key starts the hash parameters, and the end of the tag
/// (or of a sub-expression) closes the call.
pub open spec fn arguments_spec<'s>(
    source: &'s str,
    next: Option<Token>,
    ts: Seq<Token>,
    line: usize,
    byte: usize,
    call: CallV<'s>,
    ctx: CallContext,
) -> CallOut<'s>
    decreases measure(next, ts), 1nat,
{
    match next {
        None => CallOut { res: Ok(None), rest: ts, line, byte, call },
        Some(Token::Parameters(lex, span)) => if lex == Parameters::WhiteSpace || lex
            == Parameters::Newline {
            arguments_spec(
                source,
                next_of(ts).0,
                next_of(ts).1,
                line_after(line, lex),
                byte,
                call,
                ctx,
            )
        } else if lex == Parameters::Partial {
            fail(SyntaxErrorKind::PartialPosition, ts, line, byte, call)
        } else if lex == Parameters::ElseKeyword {
            CallOut { res: Ok(None), rest: ts, line, byte, call }
        } else if is_value_start(lex) {
            let vo = value_spec(source, ts, line, byte, lex, span);
            match vo.res {
                Err(e) => CallOut { res: Err(e), rest: vo.rest, line: vo.line, byte: vo.byte, call },
                Ok((v, t)) => {
                    let c2 = CallV { arguments: call.arguments.push(v), ..call };
                    if measure(t, vo.rest) < measure(next, ts) {
                        arguments_spec(source, t, vo.rest, vo.line, vo.byte, c2, ctx)
                    } else {
                        CallOut { res: Ok(None), rest: vo.rest, line: vo.line, byte: vo.byte, call: c2 }
                    }
                },
            }
        } else if lex == Parameters::HashKey {
            key_value_spec(source, ts, line, byte, call, span, ctx)
        } else if lex == Parameters::EndSubExpression {
            if ctx == CallContext::SubExpr {
                CallOut {
                    res: Ok(next_of(ts).0),
                    rest: next_of(ts).1,
                    line,
                    byte,
                    call: exit_call(call, span),
                }
            } else {
                fail(SyntaxErrorKind::SubExprNotOpen, ts, line, byte, call)
            }
        } else if lex == Parameters::Error {
            fail(SyntaxErrorKind::TokenError, ts, line, byte, call)
        } else {
            CallOut {
                res: Ok(None),
                rest: ts,
                line,
                byte,
                call: if ctx != CallContext::SubExpr {
                    exit_call(call, span)
                } else {
                    call
                },
            }
        },
        Some(_) => fail(SyntaxErrorKind::TokenParameter, ts, line, byte, call),
    }
}

/// The key of a hash parameter: the bytes of its token without the
/// trailing `=`.
pub open spec fn hash_key(source: &str, span: Range<usize>) -> Seq<u8> {
    span_bytes(source, span.start as int, span.end - 1)
}

/// Parse a hash parameter whose key token has the given span: its value is
/// the next token's, then further hash parameters follow.
pub open spec fn key_value_spec<'s>(
    source: &'s str,
    ts: Seq<Token>,
    line: usize,
    byte: usize,
    call: CallV<'s>,
    span: Range<usize>,
    ctx: CallContext,
) -> CallOut<'s>
    decreases 2 * ts.len(), 1nat,
{
    if ts.len() == 0 {
        CallOut { res: Ok(None), rest: ts, line, byte, call }
    } else {
        match ts[0] {
            Token::Parameters(lex, sp) => {
                let vo = value_spec(source, ts.drop_first(), line, byte, lex, sp);
                match vo.res {
                    Err(e) => CallOut { res: Err(e), rest: vo.rest, line: vo.line, byte: vo.byte, call },
                    Ok((v, t)) => {
                        let c2 = CallV {
                            parameters: hash_insert(call.parameters, hash_key(source, span), v),
                            ..call
                        };
                        if measure(t, vo.rest) < 2 * ts.len() {
                            kv_loop_spec(source, t, vo.rest, vo.line, vo.byte, c2, ctx)
                        } else {
                            CallOut {
                                res: Ok(None),
                                rest: vo.rest,
                                line: vo.line,
                                byte: vo.byte,
                                call: c2,
                            }
                        }
                    },
                }
            },
            _ => fail(SyntaxErrorKind::TokenParameter, ts.drop_first(), line, byte, call),
        }
    }
}

/// After a hash parameter: whitespace is skipped, another hash key starts
/// the next parameter, and the end of the tag (or of a sub-expression)
/// closes the call.
pub open spec fn kv_loop_spec<'s>(
    source: &'s str,
    next: Option<Token>,
    ts: Seq<Token>,
    line: usize,
    byte: usize,
    call: CallV<'s>,
    ctx: CallContext,
) -> CallOut<'s>
    decreases measure(next, ts), 1nat,
{
    match next {
        None => CallOut { res: Ok(None), rest: ts, line, byte, call },
        Some(Token::Parameters(lex, span)) => if lex == Parameters::WhiteSpace || lex
            == Parameters::Newline {
            kv_loop_spec(source, next_of(ts).0, next_of(ts).1, line_after(line, lex), byte, call, ctx)
        } else if lex == Parameters::HashKey {
            key_value_spec(source, ts, line, byte, call, span, ctx)
        } else if lex == Parameters::End {
            CallOut { res: Ok(None), rest: ts, line, byte, call: exit_call(call, span) }
        } else if lex == Parameters::EndSubExpression {
            if ctx == CallContext::SubExpr {
                CallOut {
                    res: Ok(next_of(ts).0),
                    rest: next_of(ts).1,
                    line,
                    byte,
                    call: exit_call(call, span),
                }
            } else {
                fail(SyntaxErrorKind::SubExprNotOpen, ts, line, byte, call)
            }
        } else {
            fail(SyntaxErrorKind::TokenHashKeyValue, ts, line, byte, call)
        },
        Some(_) => fail(SyntaxErrorKind::TokenParameter, ts, line, byte, call),
    }
}

/// Parse the partial (`>`) and conditional (`else`) flags: whitespace is
/// skipped and the first other token is handed on.
#[verifier::opaque]
pub open spec fn flags_spec<'s>(
    next: Option<Token>,
    ts: Seq<Token>,
    line: usize,
    byte: usize,
    call: CallV<'s>,
) -> CallOut<'s>
    decreases measure(next, ts),
{
    match next {
        None => CallOut { res: Ok(None), rest: ts, line, byte, call },
        Some(Token::Parameters(lex, span)) => if lex == Parameters::WhiteSpace || lex
            == Parameters::Newline {
            flags_spec(next_of(ts).0, next_of(ts).1, line_after(line, lex), byte, call)
        } else if lex == Parameters::Partial {
            CallOut {
                res: Ok(next_of(ts).0),
                rest: next_of(ts).1,
                line,
                byte,
                call: CallV { partial: true, ..call },
            }
        } else if lex == Parameters::ElseKeyword {
            CallOut {
                res: Ok(next_of(ts).0),
                rest: next_of(ts).1,
                line,
                byte,
                call: CallV { conditional: true, ..call },
            }
        } else {
            CallOut { res: Ok(next), rest: ts, line, byte, call }
        },
        Some(_) => CallOut { res: Ok(next), rest: ts, line, byte, call },
    }
}

/// Reading the flags never fails and changes nothing of the call but its
/// flags.
pub proof fn lemma_flags<'s>(next: Option<Token>, ts: Seq<Token>, line: usize, byte: usize, call: CallV<'s>)
    ensures
        flags_spec(next, ts, line, byte, call).res is Ok,
        flags_spec(next, ts, line, byte, call).byte == byte,
        flags_spec(next, ts, line, byte, call).call == (CallV {
            partial: flags_spec(next, ts, line, byte, call).call.partial,
            conditional: flags_spec(next, ts, line, byte, call).call.conditional,
            ..call
        }),
    decreases measure(next, ts),
{
    reveal(flags_spec);
    if let Some(Token::Parameters(lex, _)) = next {
        if lex == Parameters::WhiteSpace || lex == Parameters::Newline {
            lemma_flags(next_of(ts).0, next_of(ts).1, line_after(line, lex), byte, call);
        }
    }
}

/// Parse a call opened by the tag at `open`: flags, target, then
/// arguments; the token that ends the arguments is not handed on.
#[verifier::opaque]
pub open spec fn parse_spec<'s>(
    source: &'s str,
    ts: Seq<Token>,
    line: usize,
    byte: usize,
    open: Range<usize>,
) -> CallParse<'s> {
    let call0 = CallV::empty(source, open, line..(line + 1) as usize);
    let fo = flags_spec(next_of(ts).0, next_of(ts).1, line, open.end, call0);
    if fo.call.partial && fo.call.conditional {
        CallParse {
            res: Err(err_at(SyntaxErrorKind::MixedPartialConditional, fo.line, fo.byte)),
            rest: fo.rest,
            line: fo.line,
            byte: fo.byte,
        }
    } else {
        let nx = match fo.res {
            Ok(t) => t,
            Err(_) => None,
        };
        let to = target_spec(source, nx, fo.rest, fo.line, fo.byte, fo.call, CallContext::Call);
        match to.res {
            Err(e) => CallParse { res: Err(e), rest: to.rest, line: to.line, byte: to.byte },
            Ok(nx2) => {
                let ao = arguments_spec(source, nx2, to.rest, to.line, to.byte, to.call, CallContext::Call);
                match ao.res {
                    Err(e) => CallParse { res: Err(e), rest: ao.rest, line: ao.line, byte: ao.byte },
                    Ok(_) => CallParse {
                        res: Ok(CallV { line: ao.call.line.start..(ao.line + 1) as usize, ..ao.call }),
                        rest: ao.rest,
                        line: ao.line,
                        byte: ao.byte,
                    },
                }
            },
        }
    }
}

// ---------------------------------------------------------------------
// What the parsing functions promise of the stream
// ---------------------------------------------------------------------

/// Parsing moved forward from a token that was taken (and is not handed
/// back) followed by `ts` at `line`, to `held2`, `ts2` at `line2`.
pub open spec fn consumed(
    ts: Seq<Token>,
    line: usize,
    held2: Option<Token>,
    ts2: Seq<Token>,
    line2: usize,
) -> bool {
    &&& is_suffix(ts2, ts)
    &&& is_suffix(pending(held2, ts2), ts)
    &&& line_budget(line2, ts2, held2 is Some) <= line_budget(line, ts, true)
}

/// Moving forward past a taken token is moving forward, and leaves no
/// more to parse than the tokens after it.
pub proof fn lemma_consumed(
    cur: Token,
    ts: Seq<Token>,
    line: usize,
    held2: Option<Token>,
    ts2: Seq<Token>,
    line2: usize,
)
    requires
        consumed(ts, line, held2, ts2, line2),
    ensures
        advanced(Some(cur), ts, line, held2, ts2, line2),
        measure(held2, ts2) <= 2 * ts.len(),
{
    let p = pending(Some(cur), ts);
    assert(p.drop_first() =~= ts);
    lexer::lemma_suffix_drop_first(p);
    lexer::lemma_suffix_trans(pending(held2, ts2), ts, p);
}

/// Taking the first token, and holding it, is moving forward past the
/// token taken before.
pub proof fn lemma_consumed_take(ts: Seq<Token>, line: usize)
    ensures
        consumed(ts, line, next_of(ts).0, next_of(ts).1, line),
        pending(next_of(ts).0, next_of(ts).1) == ts,
{
    lexer::lemma_suffix_refl(ts);
    if ts.len() > 0 {
        lexer::lemma_pending_take(ts);
        lexer::lemma_suffix_drop_first(ts);
    }
}

/// Taking the first token (with none held) is moving forward.
pub proof fn lemma_take_first(ts: Seq<Token>, line: usize)
    ensures
        advanced(None, ts, line, next_of(ts).0, next_of(ts).1, line),
{
    lemma_consumed_take(ts, line);
    lexer::lemma_suffix_refl(ts);
}

/// Moving forward after moving past a taken token is moving past it.
pub proof fn lemma_consumed_trans(
    ts: Seq<Token>,
    line: usize,
    h1: Option<Token>,
    t1: Seq<Token>,
    l1: usize,
    h2: Option<Token>,
    t2: Seq<Token>,
    l2: usize,
)
    requires
        consumed(ts, line, h1, t1, l1),
        advanced(h1, t1, l1, h2, t2, l2),
    ensures
        consumed(ts, line, h2, t2, l2),
{
    lexer::lemma_suffix_trans(t2, t1, ts);
    lexer::lemma_suffix_trans(pending(h2, t2), pending(h1, t1), ts);
}

/// What a held token that fits gives: it fits, comes before the remaining
/// tokens, and a run of parent references after it is short.
pub proof fn lemma_held(source: &str, held: Token, ts: Seq<Token>)
    requires
        tokens_ok(source, pending(Some(held), ts)),
        runs_ok(pending(Some(held), ts)),
    ensures
        token_ok(source, held),
        string::precedes(tspan(held), ts),
        tokens_ok(source, ts),
        runs_ok(ts),
        path::parent_run(ts) < 255,
{
    let p = pending(Some(held), ts);
    assert(p[0] == held);
    assert forall|i: int| 0 <= i < ts.len() implies tspan(held).end <= tspan(#[trigger] ts[i]).start by {
        assert(p[i + 1] == ts[i]);
    }
    assert(p.drop_first() =~= ts);
    lexer::lemma_suffix_drop_first(p);
    lexer::lemma_suffix_ok(source, ts, p);
    path::lemma_runs_suffix(ts, p);
    assert(ts.skip(0) =~= ts);
}

/// The lexer moved forward well-formed over the same source, and the file
/// name was kept.
pub open spec fn step_done<'s>(
    source: &'s str,
    l0: Lexer<'s>,
    s0: ParseState,
    l1: Lexer<'s>,
    s1: ParseState,
    held: bool,
) -> bool {
    &&& l1.wf()
    &&& l1.src() == source
    &&& s1.file_name == s0.file_name
    &&& is_suffix(l1.rest(), l0.rest())
    &&& line_budget(s1.line, l1.rest(), false) <= line_budget(s0.line, l0.rest(), held)
}

/// How the stream moved on success: from the held token, or past the
/// token that was taken.
pub open spec fn moved(
    taken: bool,
    held: Option<Token>,
    ts: Seq<Token>,
    line: usize,
    held2: Option<Token>,
    ts2: Seq<Token>,
    line2: usize,
) -> bool {
    if taken {
        consumed(ts, line, held2, ts2, line2)
    } else {
        advanced(held, ts, line, held2, ts2, line2)
    }
}

/// A part of a call was parsed as `out` says.
pub open spec fn call_done<'s>(
    source: &'s str,
    taken: bool,
    held: Option<Token>,
    l0: Lexer<'s>,
    s0: ParseState,
    l1: Lexer<'s>,
    s1: ParseState,
    call: CallV<'s>,
    res: SyntaxResult<Option<Token>>,
    out: CallOut<'s>,
) -> bool {
    &&& step_done(source, l0, s0, l1, s1, taken || held is Some)
    &&& l1.rest() == out.rest
    &&& s1.line == out.line
    &&& s1.byte == out.byte
    &&& call == out.call
    &&& match res {
        Ok(t) => out.res == Ok::<Option<Token>, ErrorV>(t) && moved(
            taken,
            held,
            l0.rest(),
            s0.line,
            t,
            l1.rest(),
            s1.line,
        ),
        Err(e) => out.res == Err::<Option<Token>, ErrorV>(e@) && e.info.file_name == s0.file_name,
    }
}

/// A parameter value was parsed as `out` says.
pub open spec fn value_done<'s>(
    source: &'s str,
    l0: Lexer<'s>,
    s0: ParseState,
    l1: Lexer<'s>,
    s1: ParseState,
    res: SyntaxResult<(ParameterValue<'s>, Option<Token>)>,
    out: ValueOut<'s>,
) -> bool {
    &&& step_done(source, l0, s0, l1, s1, true)
    &&& l1.rest() == out.rest
    &&& s1.line == out.line
    &&& s1.byte == out.byte
    &&& match res {
        Ok((v, t)) => out.res == Ok::<(ParamV<'s>, Option<Token>), ErrorV>((v@, t)) && consumed(
            l0.rest(),
            s0.line,
            t,
            l1.rest(),
            s1.line,
        ),
        Err(e) => out.res == Err::<(ParamV<'s>, Option<Token>), ErrorV>(e@) && e.info.file_name
            == s0.file_name,
    }
}

/// A sub-expression was parsed as `out` says.
pub open spec fn sub_done<'s>(
    source: &'s str,
    l0: Lexer<'s>,
    s0: ParseState,
    l1: Lexer<'s>,
    s1: ParseState,
    res: SyntaxResult<(Call<'s>, Option<Token>)>,
    out: CallOut<'s>,
) -> bool {
    &&& step_done(source, l0, s0, l1, s1, true)
    &&& l1.rest() == out.rest
    &&& s1.line == out.line
    &&& s1.byte == out.byte
    &&& match res {
        Ok((c, t)) => out.res == Ok::<Option<Token>, ErrorV>(t) && c@ == out.call && consumed(
            l0.rest(),
            s0.line,
            t,
            l1.rest(),
            s1.line,
        ),
        Err(e) => out.res == Err::<Option<Token>, ErrorV>(e@) && e.info.file_name == s0.file_name,
    }
}

/// The close span of a call is unchanged, or is the span of one of the
/// tokens `ts`.
pub open spec fn closed_from(
    old_close: Option<Range<usize>>,
    new_close: Option<Range<usize>>,
    ts: Seq<Token>,
) -> bool {
    ||| new_close == old_close
    ||| (new_close matches Some(cl) && exists|k: int| 0 <= k < ts.len() && tspan(#[trigger] ts[k]) == cl)
}

/// A close span taken from a suffix was taken from the whole sequence.
pub proof fn lemma_closed_suffix(
    c0: Option<Range<usize>>,
    c1: Option<Range<usize>>,
    a: Seq<Token>,
    b: Seq<Token>,
)
    requires
        closed_from(c0, c1, a),
        is_suffix(a, b),
    ensures
        closed_from(c0, c1, b),
{
    if c1 != c0 {
        let k = choose|k: int| 0 <= k < a.len() && tspan(#[trigger] a[k]) == c1->Some_0;
        assert(a[k] == b.skip(b.len() - a.len())[k]);
        assert(tspan(b[b.len() - a.len() + k]) == c1->Some_0);
    }
}

/// The close span of a call is unchanged, or ends before any of the tokens
/// `ts` (those not yet consumed) begins.
pub open spec fn closed_before(
    old_close: Option<Range<usize>>,
    new_close: Option<Range<usize>>,
    ts: Seq<Token>,
) -> bool {
    ||| new_close == old_close
    ||| (new_close matches Some(cl) && forall|k: int|
        0 <= k < ts.len() ==> cl.end <= tspan(#[trigger] ts[k]).start)
}

/// A token held in front of well-formed tokens ends before any of them
/// begins.
pub proof fn lemma_ends_before(source: &str, tok: Token, ts: Seq<Token>)
    requires
        tokens_ok(source, pending(Some(tok), ts)),
    ensures
        forall|k: int| 0 <= k < ts.len() ==> tspan(tok).end <= tspan(#[trigger] ts[k]).start,
{
    assert forall|k: int| 0 <= k < ts.len() implies tspan(tok).end <= tspan(#[trigger] ts[k]).start by {
        assert(pending(Some(tok), ts)[0] == tok);
        assert(pending(Some(tok), ts)[k + 1] == ts[k]);
    }
}

/// An unchanged close span is closed before any tokens.
pub proof fn lemma_closed_before_same(c: Option<Range<usize>>, ts: Seq<Token>)
    ensures
        closed_before(c, c, ts),
{
    reveal(closed_before);
}

/// Closing at a token held in front of well-formed tokens closes before
/// them.
pub proof fn lemma_closed_before_exit(source: &str, c: Option<Range<usize>>, tok: Token, ts: Seq<Token>)
    requires
        tokens_ok(source, pending(Some(tok), ts)),
    ensures
        closed_before(c, Some(tspan(tok)), ts),
{
    reveal(closed_before);
    lemma_ends_before(source, tok, ts);
}

/// Closing before a sequence of tokens is closing before any suffix of it;
/// two steps compose.
pub proof fn lemma_closed_before_trans(
    c0: Option<Range<usize>>,
    c1: Option<Range<usize>>,
    c2: Option<Range<usize>>,
    a: Seq<Token>,
    b: Seq<Token>,
)
    requires
        closed_before(c0, c1, a),
        closed_before(c1, c2, b),
        is_suffix(b, a),
    ensures
        closed_before(c0, c2, b),
{
    reveal(closed_before);
    if c2 == c1 && c1 != c0 {
        let d = a.len() - b.len();
        assert forall|k: int| 0 <= k < b.len() implies c2->Some_0.end <= tspan(#[trigger] b[k]).start by {
            assert(b[k] == a[k + d]);
        }
    }
}

/// Parsing the arguments of a call keeps its source, open span, target and
/// flags.
pub open spec fn frame<'s>(c0: CallV<'s>, c1: CallV<'s>) -> bool {
    &&& c1.source == c0.source
    &&& c1.open == c0.open
    &&& c1.target == c0.target
    &&& c1.partial == c0.partial
    &&& c1.conditional == c0.conditional
}

// ---------------------------------------------------------------------
// Parsing
// ---------------------------------------------------------------------

/// Parse a JSON literal value.
fn json_literal<'source>(
    source: &'source str,
    lexer: &mut Lexer<'source>,
    state: &mut ParseState,
    current: (Parameters, Range<usize>),
    range: &mut Range<usize>,
) -> (res: SyntaxResult<Json>)
    requires
        input_ok(source, *old(lexer), old(state).line, Some(Token::Parameters(current.0, current.1))),
        *old(range) == current.1,
    ensures
        step_done(source, *old(lexer), *old(state), *final(lexer), *final(state), true),
        final(state).line == old(state).line,
        ({
            let jo = json_literal_spec(
                source,
                old(lexer).rest(),
                old(state).line,
                old(state).byte,
                current.0,
                current.1,
            );
            &&& final(lexer).rest() == jo.rest
            &&& final(state).byte == jo.byte
            &&& match res {
                Ok(v) => jo.res == Ok::<(JsonV, usize), ErrorV>((v@, final(range).end))
                    && final(range).start == old(range).start,
                Err(e) => jo.res == Err::<(JsonV, usize), ErrorV>(e@) && e.info.file_name
                    == old(state).file_name,
            }
        }),
{
    proof {
        reveal(json_literal_spec);
    }
    let (lex, span) = current;
    proof {
        lemma_held(source, Token::Parameters(lex, span), lexer.rest());
        lexer::lemma_suffix_refl(lexer.rest());
        lexer.lemma_wf();
    }
    let ghost ts = lexer.rest();
    let value = match lex {
        Parameters::Null => Json::Null,
        Parameters::True => Json::Bool(true),
        Parameters::False => Json::Bool(false),
        Parameters::Number => {
            let text = crate::text::slice_span(source, span.start, span.end);
            Json::Number(text.to_owned())
        },
        // NOTE: For string literal values we need to add one
        // NOTE: to the end value as the returned span is the
        // NOTE: inner span and we require the outer span
        // NOTE: (including quotes) for the AST data.
        Parameters::DoubleQuoteString | Parameters::SingleQuoteString | Parameters::StartArray => {
            let t = match lex {
                Parameters::DoubleQuoteString => RawLiteralType::Double,
                Parameters::SingleQuoteString => RawLiteralType::Single,
                _ => RawLiteralType::Array,
            };
            proof {
                string::lemma_literal_suffix(ts, state.line, state.byte, span.end, span.end, initial_flags(t));
            }
            let (value, span) = string::literal(source, lexer, state, (lex, span), t)?;
            range.end = span.end + 1;
            value
        },
        _ => {
            return Err(state.error(SyntaxErrorKind::TokenJsonLiteral));
        },
    };
    Ok(value)
}

/// Parse a parameter value: a path, a sub-expression or a JSON literal.
fn value<'source>(
    source: &'source str,
    lexer: &mut Lexer<'source>,
    state: &mut ParseState,
    current: (Parameters, Range<usize>),
) -> (res: SyntaxResult<(ParameterValue<'source>, Option<Token>)>)
    requires
        input_ok(source, *old(lexer), old(state).line, Some(Token::Parameters(current.0, current.1))),
    ensures
        value_done(
            source,
            *old(lexer),
            *old(state),
            *final(lexer),
            *final(state),
            res,
            value_spec(source, old(lexer).rest(), old(state).line, old(state).byte, current.0, current.1),
        ),
    decreases 2 * old(lexer).rest().len(), 3nat,
{
    let (lex, span) = current;
    let ghost ts = lexer.rest();
    proof {
        lemma_held(source, Token::Parameters(lex, span), ts);
        lexer::lemma_suffix_refl(ts);
    }
    match lex {
        // Path components
        Parameters::ExplicitThisKeyword
        | Parameters::PathDelimiter
        | Parameters::ExplicitThisDotSlash
        | Parameters::Identifier
        | Parameters::LocalIdentifier
        | Parameters::ParentRef => {
            let (path, token) = path::parse(source, lexer, state, (lex, span))?;
            match path {
                Some(path) => {
                    let v = ParameterValue::Path(path);
                    proof {
                        crate::parser::ast::lemma_param_view(v);
                    }
                    Ok((v, token))
                },
                None => Err(state.error(SyntaxErrorKind::ExpectedPath)),
            }
        },
        // Open a nested call
        Parameters::StartSubExpression => {
            let (call, token) = sub_expr(source, lexer, state, span)?;
            let v = ParameterValue::SubExpr(call);
            proof {
                crate::parser::ast::lemma_param_view(v);
            }
            Ok((v, token))
        },
        // Literal components
        Parameters::DoubleQuoteString
        | Parameters::SingleQuoteString
        | Parameters::StartArray
        | Parameters::Number
        | Parameters::True
        | Parameters::False
        | Parameters::Null => {
            let mut range = span.start..span.end;
            let line_range = state.line_range();
            let value = json_literal(source, lexer, state, (lex, span), &mut range)?;
            let ghost r = lexer.rest();
            proof {
                lexer.lemma_wf();
            }
            let next = lexer.next();
            let v = ParameterValue::Json { value, span: range, line: line_range };
            proof {
                crate::parser::ast::lemma_param_view(v);
                if r.len() > 0 {
                    lexer::lemma_pending_take(r);
                    lexer::lemma_suffix_drop_first(r);
                    lexer::lemma_suffix_trans(lexer.rest(), r, ts);
                }
            }
            Ok((v, next))
        },
        _ => Err(state.error(SyntaxErrorKind::TokenParameter)),
    }
}

/// Parse the call target.
#[verifier::rlimit(50)]
fn target<'source>(
    source: &'source str,
    lexer: &mut Lexer<'source>,
    state: &mut ParseState,
    call: &mut Call<'source>,
    next: Option<Token>,
    context: CallContext,
) -> (res: SyntaxResult<Option<Token>>)
    requires
        input_ok(source, *old(lexer), old(state).line, next),
        old(call)@.target.spans_ok(),
    ensures
        call_done(
            source,
            false,
            next,
            *old(lexer),
            *old(state),
            *final(lexer),
            *final(state),
            final(call)@,
            res,
            target_spec(source, next, old(lexer).rest(), old(state).line, old(state).byte, old(call)@, context),
        ),
        final(call)@.source == old(call)@.source,
        final(call)@.open == old(call)@.open,
        final(call)@.partial == old(call)@.partial,
        final(call)@.conditional == old(call)@.conditional,
        final(call)@.target.spans_ok(),
        closed_from(old(call)@.close, final(call)@.close, pending(next, old(lexer).rest())),
        res matches Ok(h) ==> closed_before(old(call)@.close, final(call)@.close, pending(h, final(lexer).rest())),
    decreases measure(next, old(lexer).rest()), 1nat,
{
    let ghost h0 = next;
    let ghost ts0 = lexer.rest();
    let ghost line0 = state.line;
    let ghost out = target_spec(source, next, lexer.rest(), state.line, state.byte, call@, context);
    let mut held = next;
    proof {
        lemma_advanced_refl(h0, ts0, line0);
        lexer::lemma_suffix_refl(ts0);
    }
    loop
        invariant
            input_ok(source, *lexer, state.line, held),
            advanced(h0, ts0, line0, held, lexer.rest(), state.line),
            h0 == next,
            input_ok(source, *old(lexer), line0, h0),
            ts0 == old(lexer).rest(),
            line0 == old(state).line,
            state.file_name == old(state).file_name,
            state.byte == old(state).byte,
            call@ == old(call)@,
            call@.target.spans_ok(),
            measure(held, lexer.rest()) <= measure(h0, ts0),
            target_spec(source, held, lexer.rest(), state.line, state.byte, call@, context) == out,
            out == target_spec(source, h0, ts0, line0, old(state).byte, old(call)@, context),
        decreases measure(held, lexer.rest()),
    {
        let token = match held {
            Some(t) => t,
            None => {
                proof {
                    lemma_closed_before_same(old(call)@.close, lexer.rest());
                }
                return Ok(None);
            },
        };
        let ghost ts = lexer.rest();
        let ghost line1 = state.line;
        let ghost tok = token;
        proof {
            lemma_held(source, token, ts);
            lexer.lemma_wf();
        }
        match token {
            Token::Parameters(lex, span) => {
                match lex {
                    Parameters::WhiteSpace | Parameters::Newline => {
                        if lex == Parameters::Newline {
                            state.line = state.line + 1;
                        }
                    },
                    Parameters::ElseKeyword => {
                        return Err(state.error(SyntaxErrorKind::ElseNotAllowed));
                    },
                    // Path components
                    Parameters::ExplicitThisKeyword
                    | Parameters::ExplicitThisDotSlash
                    | Parameters::Identifier
                    | Parameters::LocalIdentifier
                    | Parameters::ParentRef
                    | Parameters::PathDelimiter => {
                        let (path, token) = match path::parse(source, lexer, state, (lex, span)) {
                            Ok(v) => v,
                            Err(e) => {
                                proof {
                                    lexer::lemma_suffix_trans(lexer.rest(), ts, ts0);
                                }
                                return Err(e);
                            },
                        };
                        if let Some(path) = path {
                            let t = CallTarget::Path(path);
                            proof {
                                crate::parser::ast::lemma_target_view(t);
                            }
                            call.set_target(t);
                        }
                        proof {
                            lemma_consumed(tok, ts, line1, token, lexer.rest(), state.line);
                            lemma_advanced_trans(
                                h0,
                                ts0,
                                line0,
                                Some(tok),
                                ts,
                                line1,
                                token,
                                lexer.rest(),
                                state.line,
                            );
                        }
                        proof {
                            lemma_closed_before_same(old(call)@.close, pending(token, lexer.rest()));
                        }
                        return Ok(token);
                    },
                    Parameters::StartSubExpression => {
                        if context == CallContext::SubExpr {
                            return Err(state.error(SyntaxErrorKind::SubExprTargetNotAllowed));
                        }
                        let (sub_call, token) = match sub_expr(source, lexer, state, span) {
                            Ok(v) => v,
                            Err(e) => {
                                proof {
                                    lexer::lemma_suffix_trans(lexer.rest(), ts, ts0);
                                }
                                return Err(e);
                            },
                        };
                        let t = CallTarget::SubExpr(Box::new(sub_call));
                        proof {
                            crate::parser::ast::lemma_target_view(t);
                        }
                        call.set_target(t);
                        proof {
                            lemma_consumed(tok, ts, line1, token, lexer.rest(), state.line);
                            lemma_advanced_trans(
                                h0,
                                ts0,
                                line0,
                                Some(tok),
                                ts,
                                line1,
                                token,
                                lexer.rest(),
                                state.line,
                            );
                        }
                        proof {
                            lemma_closed_before_same(old(call)@.close, pending(token, lexer.rest()));
                        }
                        return Ok(token);
                    },
                    Parameters::End => {
                        if !call.has_target() && !call.is_conditional() {
                            return Err(state.error(SyntaxErrorKind::ExpectedIdentifier));
                        }
                        proof {
                            assert(pending(Some(tok), ts)[0] == tok);
                        }
                        proof {
                            if context != CallContext::SubExpr {
                                lemma_closed_before_exit(source, old(call)@.close, tok, ts);
                            } else {
                                lemma_closed_before_same(old(call)@.close, ts);
                            }
                        }
                        if context != CallContext::SubExpr {
                            call.exit(span);
                        }
                        proof {
                            lemma_closed_suffix(old(call)@.close, call@.close, pending(Some(tok), ts), pending(h0, ts0));
                            lexer::lemma_suffix_drop_first(pending(Some(tok), ts));
                            assert(pending(Some(tok), ts).drop_first() =~= ts);
                            lexer::lemma_suffix_refl(ts);
                            lexer::lemma_suffix_trans(ts, pending(Some(tok), ts), pending(h0, ts0));
                        }
                        return Ok(None);
                    },
                    _ => {
                        return Err(state.error(SyntaxErrorKind::TokenCallTarget));
                    },
                }
            },
            _ => {
                return Err(state.error(SyntaxErrorKind::TokenParameter));
            },
        }
        held = lexer.next();
        proof {
            lemma_take(Some(tok), ts, line1, tok matches Token::Parameters(Parameters::Newline, _));
            lemma_advanced_trans(h0, ts0, line0, Some(tok), ts, line1, held, lexer.rest(), state.line);
            lemma_advanced_input(source, *old(lexer), line0, h0, *lexer, state.line, held);
            lemma_advanced_measure(h0, ts0, line0, held, lexer.rest(), state.line);
        }
    }
}

/// Parse a sub-expression opened by the tag at `open`.
#[verifier::rlimit(100)]
pub fn sub_expr<'source>(
    source: &'source str,
    lexer: &mut Lexer<'source>,
    state: &mut ParseState,
    open: Range<usize>,
) -> (res: SyntaxResult<(Call<'source>, Option<Token>)>)
    requires
        input_ok(
            source,
            *old(lexer),
            old(state).line,
            Some(Token::Parameters(Parameters::StartSubExpression, open)),
        ),
    ensures
        sub_done(
            source,
            *old(lexer),
            *old(state),
            *final(lexer),
            *final(state),
            res,
            sub_expr_spec(source, old(lexer).rest(), old(state).line, old(state).byte, open),
        ),
        res matches Ok((c, _)) ==> c@.slice_ok() && c@.target.spans_ok() && c@.close is Some,
    decreases 2 * old(lexer).rest().len(), 2nat,
{
    let ghost ts0 = lexer.rest();
    let ghost line0 = state.line;
    let ghost cur = Token::Parameters(Parameters::StartSubExpression, open);
    proof {
        lemma_held(source, cur, ts0);
        lexer.lemma_wf();
    }
    state.byte = open.end;
    let mut call = Call::new(source, open, state.line_range());
    let next = lexer.next();
    proof {
        lemma_consumed_take(ts0, line0);
        lemma_consumed(cur, ts0, line0, next, lexer.rest(), state.line);
        lemma_advanced_input(source, *old(lexer), line0, Some(cur), *lexer, state.line, next);
    }
    let ghost ts1 = lexer.rest();
    let ghost h1 = next;
    let next = match target(source, lexer, state, &mut call, next, CallContext::SubExpr) {
        Ok(n) => n,
        Err(e) => {
            proof {
                lexer::lemma_suffix_trans(lexer.rest(), ts1, ts0);
            }
            return Err(e);
        },
    };
    proof {
        lemma_consumed_trans(ts0, line0, h1, ts1, line0, next, lexer.rest(), state.line);
        lemma_consumed(cur, ts0, line0, next, lexer.rest(), state.line);
        lemma_advanced_input(source, *old(lexer), line0, Some(cur), *lexer, state.line, next);
    }
    let ghost ts2 = lexer.rest();
    let ghost line2 = state.line;
    let ghost h2 = next;
    let next = match arguments(source, lexer, state, &mut call, next, CallContext::SubExpr) {
        Ok(n) => n,
        Err(e) => {
            proof {
                lexer::lemma_suffix_trans(lexer.rest(), ts2, ts0);
            }
            return Err(e);
        },
    };
    proof {
        lemma_consumed_trans(ts0, line0, h2, ts2, line2, next, lexer.rest(), state.line);
        call.lemma_views();
    }
    if !call.is_closed() {
        return Err(state.error(SyntaxErrorKind::SubExpressionNotTerminated));
    }
    call.lines_end(state.line());
    Ok((call, next))
}

/// Parse the arguments of a call.
#[verifier::rlimit(100)]
fn arguments<'source>(
    source: &'source str,
    lexer: &mut Lexer<'source>,
    state: &mut ParseState,
    call: &mut Call<'source>,
    next: Option<Token>,
    context: CallContext,
) -> (res: SyntaxResult<Option<Token>>)
    requires
        input_ok(source, *old(lexer), old(state).line, next),
    ensures
        call_done(
            source,
            false,
            next,
            *old(lexer),
            *old(state),
            *final(lexer),
            *final(state),
            final(call)@,
            res,
            arguments_spec(source, next, old(lexer).rest(), old(state).line, old(state).byte, old(call)@, context),
        ),
        frame(old(call)@, final(call)@),
        closed_from(old(call)@.close, final(call)@.close, pending(next, old(lexer).rest())),
        res matches Ok(h) ==> closed_before(old(call)@.close, final(call)@.close, pending(h, final(lexer).rest())),
    decreases measure(next, old(lexer).rest()), 1nat,
{
    let ghost ts0 = lexer.rest();
    let ghost line0 = state.line;
    proof {
        lexer::lemma_suffix_refl(ts0);
        lemma_advanced_refl(next, ts0, line0);
    }
    if let Some(token) = next {
        let ghost tok = token;
        proof {
            lemma_held(source, token, ts0);
            lexer.lemma_wf();
        }
        match token {
            Token::Parameters(lex, span) => {
                match lex {
                    Parameters::WhiteSpace | Parameters::Newline => {
                        if lex == Parameters::Newline {
                            state.line = state.line + 1;
                        }
                        let next = lexer.next();
                        proof {
                            lemma_take(Some(tok), ts0, line0, lex == Parameters::Newline);
                            lemma_advanced_input(source, *old(lexer), line0, Some(tok), *lexer, state.line, next);
                        }
                        let ghost ts1 = lexer.rest();
                        let ghost line1 = state.line;
                        let res = arguments(source, lexer, state, call, next, context);
                        proof {
                            if let Ok(t) = &res {
                                lemma_advanced_trans(Some(tok), ts0, line0, next, ts1, line1, *t, lexer.rest(), state.line);
                            }
                            lexer::lemma_suffix_trans(lexer.rest(), ts1, ts0);
                            lemma_consumed_take(ts0, line0);
                            lemma_consumed(tok, ts0, line0, next, ts1, line1);
                            lemma_closed_suffix(old(call)@.close, call@.close, pending(next, ts1), pending(Some(tok), ts0));
                        }
                        return res;
                    },
                    Parameters::Partial => {
                        return Err(state.error(SyntaxErrorKind::PartialPosition));
                    },
                    Parameters::ElseKeyword => {
                        proof {
                            lemma_consumed(tok, ts0, line0, None, ts0, line0);
                        }
                    },
                    Parameters::HashKey => {
                        let res = key_value(source, lexer, state, call, (lex, span), context);
                        proof {
                            if let Ok(t) = &res {
                                lemma_consumed(tok, ts0, line0, *t, lexer.rest(), state.line);
                            }
                            lexer::lemma_suffix_drop_first(pending(Some(tok), ts0));
                            assert(pending(Some(tok), ts0).drop_first() =~= ts0);
                            lemma_closed_suffix(old(call)@.close, call@.close, ts0, pending(Some(tok), ts0));
                        }
                        return res;
                    },
                    Parameters::EndSubExpression => {
                        if context == CallContext::SubExpr {
                            proof {
                                assert(pending(Some(tok), ts0)[0] == tok);
                            }
                            call.exit(span);
                            let n = lexer.next();
                            proof {
                                lemma_take(Some(tok), ts0, line0, false);
                                lemma_closed_before_exit(source, old(call)@.close, tok, ts0);
                                if ts0.len() > 0 {
                                    lexer::lemma_pending_take(ts0);
                                }
                            }
                            return Ok(n);
                        } else {
                            return Err(state.error(SyntaxErrorKind::SubExprNotOpen));
                        }
                    },
                    Parameters::Error => {
                        return Err(state.error(SyntaxErrorKind::TokenError));
                    },
                    Parameters::End => {
                        proof {
                            assert(pending(Some(tok), ts0)[0] == tok);
                        }
                        proof {
                            if context != CallContext::SubExpr {
                                lemma_closed_before_exit(source, old(call)@.close, tok, ts0);
                            } else {
                                lemma_closed_before_same(old(call)@.close, ts0);
                            }
                        }
                        if context != CallContext::SubExpr {
                            call.exit(span);
                        }
                        proof {
                            lemma_consumed(tok, ts0, line0, None, ts0, line0);
                        }
                        return Ok(None);
                    },
                    // Path components, sub-expressions and literals
                    _ => {
                        let (value, token) = value(source, lexer, state, (lex, span))?;
                        call.add_argument(value);
                        let ghost ts1 = lexer.rest();
                        let ghost line1 = state.line;
                        proof {
                            lemma_consumed(tok, ts0, line0, token, ts1, line1);
                            lemma_advanced_input(source, *old(lexer), line0, Some(tok), *lexer, state.line, token);
                        }
                        let res = arguments(source, lexer, state, call, token, context);
                        proof {
                            if let Ok(t) = &res {
                                lemma_advanced_trans(Some(tok), ts0, line0, token, ts1, line1, *t, lexer.rest(), state.line);
                            }
                            lexer::lemma_suffix_trans(lexer.rest(), ts1, ts0);
                            lemma_closed_suffix(old(call)@.close, call@.close, pending(token, ts1), pending(Some(tok), ts0));
                        }
                        return res;
                    },
                }
            },
            _ => {
                return Err(state.error(SyntaxErrorKind::TokenParameter));
            },
        }
    }
    proof {
        lemma_closed_before_same(old(call)@.close, old(lexer).rest());
    }
    Ok(None)
}

/// Parse a hash parameter (and those that follow it).
#[verifier::rlimit(60)]
fn key_value<'source>(
    source: &'source str,
    lexer: &mut Lexer<'source>,
    state: &mut ParseState,
    call: &mut Call<'source>,
    current: (Parameters, Range<usize>),
    context: CallContext,
) -> (res: SyntaxResult<Option<Token>>)
    requires
        input_ok(source, *old(lexer), old(state).line, Some(Token::Parameters(current.0, current.1))),
        current.0 == Parameters::HashKey,
    ensures
        call_done(
            source,
            true,
            None,
            *old(lexer),
            *old(state),
            *final(lexer),
            *final(state),
            final(call)@,
            res,
            key_value_spec(
                source,
                old(lexer).rest(),
                old(state).line,
                old(state).byte,
                old(call)@,
                current.1,
                context,
            ),
        ),
        frame(old(call)@, final(call)@),
        closed_from(old(call)@.close, final(call)@.close, old(lexer).rest()),
        res matches Ok(h) ==> closed_before(old(call)@.close, final(call)@.close, pending(h, final(lexer).rest())),
    decreases 2 * old(lexer).rest().len(), 1nat,
{
    let (_lex, span) = current;
    let ghost ts0 = lexer.rest();
    let ghost line0 = state.line;
    let ghost cur = Token::Parameters(_lex, span);
    proof {
        lemma_held(source, Token::Parameters(_lex, span), ts0);
        lexer.lemma_wf();
        lexer::lemma_suffix_refl(ts0);
    }
    let key = slice(source, span.start, span.end - 1);
    let mut next: Option<Token> = None;
    // Consume the first value
    if let Some(token) = lexer.next() {
        let ghost tok = token;
        proof {
            assert(token == ts0[0]);
            lemma_take(Some(Token::Parameters(_lex, span)), ts0, line0, false);
            lemma_advanced_input(
                source,
                *old(lexer),
                line0,
                Some(Token::Parameters(_lex, span)),
                *lexer,
                state.line,
                Some(token),
            );
        }
        match token {
            Token::Parameters(lex, span) => {
                let ghost ts1 = lexer.rest();
                proof {
                    lexer::lemma_suffix_drop_first(ts0);
                }
                let (value, token) = match value(source, lexer, state, (lex, span)) {
                    Ok(v) => v,
                    Err(e) => {
                        proof {
                            lexer::lemma_suffix_trans(lexer.rest(), ts1, ts0);
                            assert(ts1 == ts0.drop_first());
                            assert(ts0[0] == Token::Parameters(lex, span));
                            let vo = value_spec(source, ts1, line0, old(state).byte, lex, span);
                            assert(vo.res == Err::<(ParamV, Option<Token>), ErrorV>(e@));
                            let ko = key_value_spec(source, ts0, line0, old(state).byte, old(call)@, current.1, context);
                            assert(ko.res == Err::<Option<Token>, ErrorV>(e@));
                            assert(ko.rest == lexer.rest());
                        }
                        return Err(e);
                    },
                };
                call.add_parameter(key, value);
                next = token;
                proof {
                    lexer::lemma_suffix_drop_first(ts0);
                    lexer::lemma_suffix_trans(lexer.rest(), ts1, ts0);
                    lexer::lemma_suffix_trans(pending(next, lexer.rest()), ts1, ts0);
                    lemma_consumed(tok, ts1, line0, next, lexer.rest(), state.line);
                }
            },
            _ => {
                proof {
                    lexer::lemma_suffix_drop_first(ts0);
                }
                return Err(state.error(SyntaxErrorKind::TokenParameter));
            },
        }
    }
    let ghost out = kv_loop_spec(source, next, lexer.rest(), state.line, state.byte, call@, context);
    proof {
        lemma_consumed(cur, ts0, line0, next, lexer.rest(), state.line);
        lemma_advanced_input(source, *old(lexer), line0, Some(cur), *lexer, state.line, next);
        assert(ts0.len() == 0 ==> out == key_value_spec(source, ts0, line0, old(state).byte, old(call)@, span, context));
        assert(ts0.len() > 0 ==> out == key_value_spec(source, ts0, line0, old(state).byte, old(call)@, span, context));
    }
    // Read in other key/value pairs
    loop
        invariant
            input_ok(source, *lexer, state.line, next),
            consumed(ts0, line0, next, lexer.rest(), state.line),
            input_ok(source, *old(lexer), line0, Some(cur)),
            cur == Token::Parameters(current.0, current.1),
            span == current.1,
            frame(old(call)@, call@),
            call@.close == old(call)@.close,
            ts0 == old(lexer).rest(),
            line0 == old(state).line,
            state.file_name == old(state).file_name,
            kv_loop_spec(source, next, lexer.rest(), state.line, state.byte, call@, context) == out,
            out == key_value_spec(source, ts0, line0, old(state).byte, old(call)@, span, context),
        decreases measure(next, lexer.rest()),
    {
        let token = match next {
            Some(t) => t,
            None => {
                proof {
                    lemma_closed_before_same(old(call)@.close, lexer.rest());
                }
                return Ok(None);
            },
        };
        let ghost ts = lexer.rest();
        let ghost line1 = state.line;
        let ghost tok = token;
        proof {
            lemma_held(source, token, ts);
            lexer.lemma_wf();
        }
        match token {
            Token::Parameters(lex, span) => match lex {
                Parameters::WhiteSpace | Parameters::Newline => {
                    if lex == Parameters::Newline {
                        state.line = state.line + 1;
                    }
                },
                Parameters::HashKey => {
                    let ghost ts1 = lexer.rest();
                    let res = key_value(source, lexer, state, call, (lex, span), context);
                    proof {
                        lexer::lemma_suffix_trans(lexer.rest(), ts1, ts0);
                        if let Ok(t) = &res {
                            lexer::lemma_suffix_trans(pending(*t, lexer.rest()), ts1, ts0);
                        }
                        lexer::lemma_suffix_drop_first(pending(Some(tok), ts1));
                        assert(pending(Some(tok), ts1).drop_first() =~= ts1);
                        lexer::lemma_suffix_trans(ts1, pending(Some(tok), ts1), ts0);
                        lemma_closed_suffix(old(call)@.close, call@.close, ts1, ts0);
                    }
                    return res;
                },
                Parameters::End => {
                    proof {
                        let k = ts0.len() - ts.len() - 1;
                        assert(pending(Some(tok), ts) == ts0.skip(k));
                        assert(pending(Some(tok), ts)[0] == tok);
                        assert(ts0[k] == tok);
                        lemma_closed_before_exit(source, old(call)@.close, tok, ts);
                    }
                    call.exit(span);
                    return Ok(None);
                },
                Parameters::EndSubExpression => {
                    if context == CallContext::SubExpr {
                        proof {
                            let k = ts0.len() - ts.len() - 1;
                            assert(pending(Some(tok), ts) == ts0.skip(k));
                            assert(pending(Some(tok), ts)[0] == tok);
                            assert(ts0[k] == tok);
                        }
                        call.exit(span);
                        let n = lexer.next();
                        proof {
                            lemma_closed_before_exit(source, old(call)@.close, tok, ts);
                            if ts.len() > 0 {
                                lexer::lemma_pending_take(ts);
                            }
                            lemma_take(Some(tok), ts, line1, false);
                            lexer::lemma_suffix_trans(lexer.rest(), ts, ts0);
                            lexer::lemma_suffix_trans(pending(n, lexer.rest()), pending(Some(tok), ts), ts0);
                        }
                        return Ok(n);
                    } else {
                        return Err(state.error(SyntaxErrorKind::SubExprNotOpen));
                    }
                },
                _ => {
                    return Err(state.error(SyntaxErrorKind::TokenHashKeyValue));
                },
            },
            _ => {
                return Err(state.error(SyntaxErrorKind::TokenParameter));
            },
        }
        next = lexer.next();
        proof {
            lemma_take(Some(tok), ts, line1, tok matches Token::Parameters(Parameters::Newline, _));
            lexer::lemma_suffix_trans(lexer.rest(), ts, ts0);
            lexer::lemma_suffix_trans(pending(next, lexer.rest()), pending(Some(tok), ts), ts0);
            lemma_consumed(cur, ts0, line0, next, lexer.rest(), state.line);
            lemma_advanced_input(source, *old(lexer), line0, Some(cur), *lexer, state.line, next);
        }
    }
}

/// Parse the partial and conditional flags.
fn flags<'source>(
    _source: &'source str,
    lexer: &mut Lexer<'source>,
    state: &mut ParseState,
    call: &mut Call<'source>,
    next: Option<Token>,
) -> (res: SyntaxResult<Option<Token>>)
    requires
        input_ok(_source, *old(lexer), old(state).line, next),
    ensures
        call_done(
            _source,
            false,
            next,
            *old(lexer),
            *old(state),
            *final(lexer),
            *final(state),
            final(call)@,
            res,
            flags_spec(next, old(lexer).rest(), old(state).line, old(state).byte, old(call)@),
        ),
{
    let ghost h0 = next;
    let ghost ts0 = lexer.rest();
    let ghost line0 = state.line;
    let ghost out = flags_spec(next, lexer.rest(), state.line, state.byte, call@);
    let mut held = next;
    proof {
        lemma_advanced_refl(h0, ts0, line0);
        lexer::lemma_suffix_refl(ts0);
    }
    loop
        invariant
            input_ok(_source, *lexer, state.line, held),
            advanced(h0, ts0, line0, held, lexer.rest(), state.line),
            input_ok(_source, *old(lexer), line0, h0),
            h0 == next,
            ts0 == old(lexer).rest(),
            line0 == old(state).line,
            state.file_name == old(state).file_name,
            state.byte == old(state).byte,
            call@ == old(call)@,
            flags_spec(held, lexer.rest(), state.line, state.byte, call@) == out,
            out == flags_spec(h0, ts0, line0, old(state).byte, old(call)@),
        decreases measure(held, lexer.rest()),
    {
        proof {
            reveal(flags_spec);
        }
        let token = match held {
            Some(t) => t,
            None => {
                return Ok(None);
            },
        };
        let ghost ts = lexer.rest();
        let ghost line1 = state.line;
        let ghost tok = token;
        proof {
            lemma_held(_source, token, ts);
            lexer.lemma_wf();
            lexer::lemma_suffix_refl(ts);
            lemma_advanced_refl(Some(tok), ts, line1);
            lemma_take(Some(tok), ts, line1, false);
        }
        match token {
            Token::Parameters(lex, span) => match lex {
                Parameters::WhiteSpace | Parameters::Newline => {
                    if lex == Parameters::Newline {
                        state.line = state.line + 1;
                    }
                },
                Parameters::Partial => {
                    call.set_partial(true);
                    let n = lexer.next();
                    proof {
                        lemma_advanced_trans(h0, ts0, line0, Some(tok), ts, line1, n, lexer.rest(), state.line);
                    }
                    return Ok(n);
                },
                Parameters::ElseKeyword => {
                    call.set_conditional(true);
                    let n = lexer.next();
                    proof {
                        lemma_advanced_trans(h0, ts0, line0, Some(tok), ts, line1, n, lexer.rest(), state.line);
                    }
                    return Ok(n);
                },
                _ => {
                    return Ok(Some(Token::Parameters(lex, span)));
                },
            },
            _ => {
                return Ok(Some(token));
            },
        }
        held = lexer.next();
        proof {
            lemma_take(Some(tok), ts, line1, tok matches Token::Parameters(Parameters::Newline, _));
            lemma_advanced_trans(h0, ts0, line0, Some(tok), ts, line1, held, lexer.rest(), state.line);
            lemma_advanced_input(_source, *old(lexer), line0, h0, *lexer, state.line, held);
        }
    }
}

/// Parse a call opened by the tag at `open`: its flags, target and
/// arguments.
pub fn parse<'source>(
    source: &'source str,
    lexer: &mut Lexer<'source>,
    state: &mut ParseState,
    open: Range<usize>,
    _parse_context: CallParseContext,
) -> (res: SyntaxResult<Call<'source>>)
    requires
        input_ok(source, *old(lexer), old(state).line, None),
    ensures
        step_done(source, *old(lexer), *old(state), *final(lexer), *final(state), false),
        ({
            let o = parse_spec(source, old(lexer).rest(), old(state).line, old(state).byte, open);
            &&& final(lexer).rest() == o.rest
            &&& final(state).line == o.line
            &&& final(state).byte == o.byte
            &&& match res {
                Ok(c) => o.res == Ok::<CallV<'source>, ErrorV>(c@),
                Err(e) => o.res == Err::<CallV<'source>, ErrorV>(e@) && e.info.file_name
                    == old(state).file_name,
            }
        }),
        res is Ok ==> line_budget(final(state).line, final(lexer).rest(), false) <= line_budget(
            old(state).line,
            old(lexer).rest(),
            false,
        ),
        res matches Ok(c) ==> c@.source == source && c@.open == open && c@.target.spans_ok()
            && closed_from(None, c@.close, old(lexer).rest()),
        res matches Ok(c) ==> closed_before(None, c@.close, final(lexer).rest()),
        res matches Ok(c) ==> !(c@.partial && c@.conditional),
{
    proof {
        reveal(parse_spec);
    }
    let ghost ts0 = lexer.rest();
    let ghost line0 = state.line;
    proof {
        lexer.lemma_wf();
        lemma_take_first(ts0, line0);
    }
    state.byte = open.end;
    let mut call = Call::new(source, open, state.line_range());
    let next = lexer.next();
    let ghost ts1 = lexer.rest();
    let ghost h1 = next;
    proof {
        lemma_advanced_input(source, *old(lexer), line0, None, *lexer, state.line, next);
    }
    proof {
        lemma_flags(next, ts1, line0, state.byte, call@);
    }
    let next = match flags(source, lexer, state, &mut call, next) {
        Ok(n) => n,
        Err(e) => {
            proof {
                lexer::lemma_suffix_trans(lexer.rest(), ts1, ts0);
            }
            return Err(e);
        },
    };
    proof {
        reveal(flags_spec);
        lemma_advanced_trans(None, ts0, line0, h1, ts1, line0, next, lexer.rest(), state.line);
        lemma_advanced_input(source, *old(lexer), line0, None, *lexer, state.line, next);
    }
    if call.is_partial() && call.is_conditional() {
        return Err(state.error(SyntaxErrorKind::MixedPartialConditional));
    }
    let ghost ts2 = lexer.rest();
    let ghost line2 = state.line;
    let ghost h2 = next;
    let next = match target(source, lexer, state, &mut call, next, CallContext::Call) {
        Ok(n) => n,
        Err(e) => {
            proof {
                lexer::lemma_suffix_trans(lexer.rest(), ts2, ts0);
            }
            return Err(e);
        },
    };
    proof {
        lemma_advanced_trans(None, ts0, line0, h2, ts2, line2, next, lexer.rest(), state.line);
        lemma_advanced_input(source, *old(lexer), line0, None, *lexer, state.line, next);
        lemma_closed_suffix(None, call@.close, pending(h2, ts2), pending(None, ts0));
    }
    let ghost c3 = call@.close;
    let ghost ts3 = lexer.rest();
    let ghost line3 = state.line;
    let ghost h3 = next;
    let _next = match arguments(source, lexer, state, &mut call, next, CallContext::Call) {
        Ok(n) => n,
        Err(e) => {
            proof {
                lexer::lemma_suffix_trans(lexer.rest(), ts3, ts0);
            }
            return Err(e);
        },
    };
    proof {
        lemma_advanced_trans(None, ts0, line0, h3, ts3, line3, _next, lexer.rest(), state.line);
        lemma_closed_suffix(c3, call@.close, pending(h3, ts3), pending(None, ts0));
        lemma_closed_before_trans(None, c3, call@.close, pending(h3, ts3), pending(_next, lexer.rest()));
        if _next is Some {
            lexer::lemma_suffix_drop_first(pending(_next, lexer.rest()));
            assert(pending(_next, lexer.rest()).drop_first() =~= lexer.rest());
        } else {
            lexer::lemma_suffix_refl(lexer.rest());
        }
        lemma_closed_before_trans(None, call@.close, call@.close, pending(_next, lexer.rest()), lexer.rest());
    }
    call.lines_end(state.line());
    Ok(call)
}

} // verus!
