//! String literals and raw identifiers in quotes or square brackets.
use std::ops::Range;
use vstd::prelude::*;

use crate::error::{err_at, ErrorV, SyntaxErrorKind, SyntaxResult};
use crate::lexer::{self, is_suffix, tokens_ok, token_ok, tspan, Lexer, Parameters, Token};
use crate::parser::ast::{span_chars, Json, JsonV};
use crate::parser::ParseState;
use crate::text::{replace_escape, replace_escape_spec, slice_span, valid_span};

verus! {

/// The kind of quoting for a raw literal.
#[derive(Copy, Clone, Debug, PartialEq, Eq, Structural)]
pub enum RawLiteralType {
    Double,
    Single,
    Array,
}

/// Escape flags collected while reading a raw literal.
#[derive(Copy, Clone, Debug, PartialEq, Eq, Structural)]
pub struct RawLiteral {
    /// Escaped newline was encountered during parsing.
    pub newline: bool,
    /// Escaped delimiter was encountered during parsing.
    pub delimiter: bool,
    /// The type of literal statement.
    pub literal_type: RawLiteralType,
}

/// The delimiter character that a backslash escapes in a literal.
pub open spec fn delimiter_of(t: RawLiteralType) -> char {
    match t {
        RawLiteralType::Double => '"',
        RawLiteralType::Single => '\'',
        RawLiteralType::Array => ']',
    }
}

impl RawLiteral {
    /// Whether any escape sequence was seen.
    pub open spec fn spec_has_escape_sequences(self) -> bool {
        self.newline || self.delimiter
    }

    /// The text with escape sequences replaced: `\n` becomes a newline when
    /// an escaped newline was seen, then a backslash before the delimiter is
    /// dropped when an escaped delimiter was seen.
    pub open spec fn unescape(self, value: Seq<char>) -> Seq<char> {
        let v1 = if self.newline {
            replace_escape_spec(value, 'n', '\n')
        } else {
            value
        };
        if self.delimiter {
            replace_escape_spec(v1, delimiter_of(self.literal_type), delimiter_of(self.literal_type))
        } else {
            v1
        }
    }

    /// Determine if escape sequences were detected.
    pub fn has_escape_sequences(&self) -> (res: bool)
        ensures
            res == self.spec_has_escape_sequences(),
    {
        self.newline || self.delimiter
    }

    /// An owned copy of `value` with the escape sequences replaced.
    pub fn into_owned(&self, value: &str) -> (res: String)
        ensures
            res@ == self.unescape(value@),
    {
        let mut val = value.to_owned();
        if self.newline {
            val = replace_escape(value, 'n', '\n');
        }
        if self.delimiter {
            let d = match self.literal_type {
                RawLiteralType::Double => '"',
                RawLiteralType::Single => '\'',
                RawLiteralType::Array => ']',
            };
            val = replace_escape(val.as_str(), d, d);
        }
        val
    }
}

/// Outcome of reading a raw literal: the inner span and flags (or an
/// error), the tokens left and the byte offset reached.
pub struct LiteralParse {
    pub res: Result<(Range<usize>, RawLiteral), ErrorV>,
    pub rest: Seq<Token>,
    pub byte: usize,
}

/// Read the tokens of a raw literal up to its end token. Text and escape
/// tokens extend the inner span, escape tokens also set the flags, a newline is an error, as
/// is a token of another literal kind or running out of tokens.
pub open spec fn literal_spec(
    ts: Seq<Token>,
    line: usize,
    byte: usize,
    start: usize,
    end: usize,
    flags: RawLiteral,
) -> LiteralParse
    decreases ts.len(),
{
    if ts.len() == 0 {
        LiteralParse { res: Err(err_at(SyntaxErrorKind::TokenRawLiteral, line, byte)), rest: ts, byte }
    } else {
        let r = ts.drop_first();
        let nl = RawLiteral { newline: true, ..flags };
        let dl = RawLiteral { delimiter: true, ..flags };
        match flags.literal_type {
            RawLiteralType::Double => match ts[0] {
                Token::DoubleQuoteString(k, sp) => match k {
                    lexer::DoubleQuoteString::Newline => LiteralParse {
                        res: Err(err_at(SyntaxErrorKind::LiteralNewline, line, byte)),
                        rest: r,
                        byte,
                    },
                    lexer::DoubleQuoteString::EscapedNewline => literal_spec(r, line, byte, start, sp.end, nl),
                    lexer::DoubleQuoteString::Escaped => literal_spec(r, line, byte, start, sp.end, dl),
                    lexer::DoubleQuoteString::End => LiteralParse { res: Ok((start..end, flags)), rest: r, byte },
                    lexer::DoubleQuoteString::Text => literal_spec(r, line, (sp.end - 1) as usize, start, sp.end, flags),
                },
                _ => LiteralParse {
                    res: Err(err_at(SyntaxErrorKind::TokenDoubleQuoteLiteral, line, byte)),
                    rest: r,
                    byte,
                },
            },
            RawLiteralType::Single => match ts[0] {
                Token::SingleQuoteString(k, sp) => match k {
                    lexer::SingleQuoteString::Newline => LiteralParse {
                        res: Err(err_at(SyntaxErrorKind::LiteralNewline, line, byte)),
                        rest: r,
                        byte,
                    },
                    lexer::SingleQuoteString::EscapedNewline => literal_spec(r, line, byte, start, sp.end, nl),
                    lexer::SingleQuoteString::Escaped => literal_spec(r, line, byte, start, sp.end, dl),
                    lexer::SingleQuoteString::End => LiteralParse { res: Ok((start..end, flags)), rest: r, byte },
                    lexer::SingleQuoteString::Text => literal_spec(r, line, (sp.end - 1) as usize, start, sp.end, flags),
                },
                _ => LiteralParse {
                    res: Err(err_at(SyntaxErrorKind::TokenSingleQuoteLiteral, line, byte)),
                    rest: r,
                    byte,
                },
            },
            RawLiteralType::Array => match ts[0] {
                Token::Array(k, sp) => match k {
                    lexer::Array::Newline => LiteralParse {
                        res: Err(err_at(SyntaxErrorKind::LiteralNewline, line, byte)),
                        rest: r,
                        byte,
                    },
                    lexer::Array::Escaped => literal_spec(r, line, byte, start, sp.end, dl),
                    lexer::Array::End => LiteralParse { res: Ok((start..end, flags)), rest: r, byte },
                    lexer::Array::Text => literal_spec(r, line, (sp.end - 1) as usize, start, sp.end, flags),
                },
                _ => LiteralParse {
                    res: Err(err_at(SyntaxErrorKind::TokenArrayLiteral, line, byte)),
                    rest: r,
                    byte,
                },
            },
        }
    }
}

/// The flags a literal of the given type starts with.
pub open spec fn initial_flags(t: RawLiteralType) -> RawLiteral {
    RawLiteral { newline: false, delimiter: false, literal_type: t }
}

/// A syntax result seen through the error view.
pub open spec fn result_view<T>(r: SyntaxResult<T>) -> Result<T, ErrorV> {
    match r {
        Ok(v) => Ok(v),
        Err(e) => Err(e@),
    }
}

/// Whether an error (if any) carries the given file name.
pub open spec fn err_file<T>(r: SyntaxResult<T>, file: String) -> bool {
    r matches Err(e) ==> e.info.file_name == file
}

/// Parse a quoted string literal and return a span
/// that matches the inner value without quotes.
pub fn parse<'source>(
    source: &'source str,
    lexer: &mut Lexer<'source>,
    state: &mut ParseState,
    current: (Parameters, Range<usize>),
    string_type: RawLiteralType,
) -> (res: SyntaxResult<(Range<usize>, RawLiteral)>)
    requires
        old(lexer).wf(),
    ensures
        final(lexer).wf(),
        final(lexer).src() == old(lexer).src(),
        ({
            let out = literal_spec(
                old(lexer).rest(),
                old(state).line,
                old(state).byte,
                current.1.end,
                current.1.end,
                initial_flags(string_type),
            );
            &&& final(lexer).rest() == out.rest
            &&& final(state).byte == out.byte
            &&& result_view(res) == out.res
        }),
        final(state).line == old(state).line,
        final(state).file_name == old(state).file_name,
        err_file(res, old(state).file_name),
{
    let (_lex, span) = current;
    let str_start = span.end;
    let mut str_end = span.end;
    let mut flags = RawLiteral { literal_type: string_type, newline: false, delimiter: false };
    let ghost out = literal_spec(
        lexer.rest(),
        state.line,
        state.byte,
        str_start,
        str_end,
        flags,
    );
    loop
        invariant
            lexer.wf(),
            lexer.src() == old(lexer).src(),
            state.line == old(state).line,
            state.file_name == old(state).file_name,
            flags.literal_type == string_type,
            literal_spec(lexer.rest(), state.line, state.byte, str_start, str_end, flags) == out,
            out == literal_spec(
                old(lexer).rest(),
                old(state).line,
                old(state).byte,
                current.1.end,
                current.1.end,
                initial_flags(string_type),
            ),
        decreases lexer.rest().len(),
    {
        proof {
            lexer.lemma_wf();
        }
        let ghost ts = lexer.rest();
        let next = lexer.next();
        let token = match next {
            Some(t) => t,
            None => {
                return Err(state.error(SyntaxErrorKind::TokenRawLiteral));
            },
        };
        assert(token == ts[0]);
        match string_type {
            RawLiteralType::Double => match token {
                Token::DoubleQuoteString(lex, span) => match lex {
                    lexer::DoubleQuoteString::Newline => {
                        return Err(state.error(SyntaxErrorKind::LiteralNewline));
                    },
                    lexer::DoubleQuoteString::EscapedNewline => {
                        flags.newline = true;
                        str_end = span.end;
                    },
                    lexer::DoubleQuoteString::Escaped => {
                        flags.delimiter = true;
                        str_end = span.end;
                    },
                    lexer::DoubleQuoteString::End => {
                        return Ok((str_start..str_end, flags));
                    },
                    lexer::DoubleQuoteString::Text => {
                        state.byte = span.end - 1;
                        str_end = span.end;
                    },
                },
                _ => {
                    return Err(state.error(SyntaxErrorKind::TokenDoubleQuoteLiteral));
                },
            },
            RawLiteralType::Single => match token {
                Token::SingleQuoteString(lex, span) => match lex {
                    lexer::SingleQuoteString::Newline => {
                        return Err(state.error(SyntaxErrorKind::LiteralNewline));
                    },
                    lexer::SingleQuoteString::EscapedNewline => {
                        flags.newline = true;
                        str_end = span.end;
                    },
                    lexer::SingleQuoteString::Escaped => {
                        flags.delimiter = true;
                        str_end = span.end;
                    },
                    lexer::SingleQuoteString::End => {
                        return Ok((str_start..str_end, flags));
                    },
                    lexer::SingleQuoteString::Text => {
                        state.byte = span.end - 1;
                        str_end = span.end;
                    },
                },
                _ => {
                    return Err(state.error(SyntaxErrorKind::TokenSingleQuoteLiteral));
                },
            },
            RawLiteralType::Array => match token {
                Token::Array(lex, span) => match lex {
                    lexer::Array::Newline => {
                        return Err(state.error(SyntaxErrorKind::LiteralNewline));
                    },
                    lexer::Array::Escaped => {
                        flags.delimiter = true;
                        str_end = span.end;
                    },
                    lexer::Array::End => {
                        return Ok((str_start..str_end, flags));
                    },
                    lexer::Array::Text => {
                        state.byte = span.end - 1;
                        str_end = span.end;
                    },
                },
                _ => {
                    return Err(state.error(SyntaxErrorKind::TokenArrayLiteral));
                },
            },
        }
    }
}

/// Every remaining token starts at or after the end of `span`.
pub open spec fn precedes(span: Range<usize>, ts: Seq<Token>) -> bool {
    forall|i: int| 0 <= i < ts.len() ==> span.end <= tspan(#[trigger] ts[i]).start
}

/// A successful literal read yields a span that starts where reading
/// started and can be sliced from the source.
pub proof fn lemma_literal_span(
    source: &str,
    ts: Seq<Token>,
    line: usize,
    byte: usize,
    start: usize,
    end: usize,
    flags: RawLiteral,
)
    requires
        tokens_ok(source, ts),
        valid_span(source, start as int, end as int),
        precedes(start..end, ts),
    ensures
        literal_spec(ts, line, byte, start, end, flags).res matches Ok((r, f)) ==> {
            &&& r.start == start
            &&& valid_span(source, r.start as int, r.end as int)
            &&& f.literal_type == flags.literal_type
            &&& precedes(r, literal_spec(ts, line, byte, start, end, flags).rest)
        },
        precedes(start..end, ts) ==> forall|i: int|
            0 <= i < literal_spec(ts, line, byte, start, end, flags).rest.len() ==> end <= tspan(
                #[trigger] literal_spec(ts, line, byte, start, end, flags).rest[i],
            ).start,
        literal_spec(ts, line, byte, start, end, flags).rest.len() < ts.len() || (ts.len() == 0
            && literal_spec(ts, line, byte, start, end, flags).rest == ts),
        exists|k: int|
            0 <= k <= ts.len() && literal_spec(ts, line, byte, start, end, flags).rest == ts.skip(
                k,
            ),
    decreases ts.len(),
{
    if ts.len() == 0 {
        assert(ts.skip(0) == ts);
    } else {
        let r = ts.drop_first();
        assert(token_ok(source, ts[0]));
        assert(tokens_ok(source, r));
        let sp = tspan(ts[0]);
        let nl = RawLiteral { newline: true, ..flags };
        let dl = RawLiteral { delimiter: true, ..flags };
        assert(precedes(start..end, r));
        assert(precedes(start..sp.end, r));
        lemma_literal_span(source, r, line, byte, start, sp.end, nl);
        lemma_literal_span(source, r, line, byte, start, sp.end, dl);
        lemma_literal_span(source, r, line, byte, start, end, flags);
        lemma_literal_span(source, r, line, (sp.end - 1) as usize, start, sp.end, flags);
        let out = literal_spec(ts, line, byte, start, end, flags);
        if out.rest == r {
            assert(r == ts.skip(1));
        } else {
            let k = choose|k: int| 0 <= k <= r.len() && out.rest == r.skip(k);
            assert(r.skip(k) == ts.skip(k + 1));
        }
    }
}

/// Each token begins where the one before it ends.
pub open spec fn adjacent(ts: Seq<Token>) -> bool {
    forall|i: int| 0 <= i < ts.len() - 1 ==> tspan(#[trigger] ts[i]).end == tspan(ts[i + 1]).start
}

/// Over tokens that follow one another without gaps from the opening
/// quote, a literal that reads successfully spans exactly the text between
/// the quotes: from where reading started to where the closing token (the
/// last one taken) begins.
pub proof fn lemma_literal_between(
    ts: Seq<Token>,
    line: usize,
    byte: usize,
    start: usize,
    end: usize,
    flags: RawLiteral,
)
    requires
        adjacent(ts),
        ts.len() > 0 ==> tspan(ts[0]).start == end,
    ensures
        ({
            let o = literal_spec(ts, line, byte, start, end, flags);
            o.res matches Ok((r, _)) ==> {
                &&& o.rest.len() < ts.len()
                &&& r.start == start
                &&& r.end == tspan(ts[ts.len() - o.rest.len() - 1]).start
            }
        }),
    decreases ts.len(),
{
    if ts.len() > 0 {
        let r = ts.drop_first();
        let sp = tspan(ts[0]);
        assert(adjacent(r)) by {
            assert forall|i: int| 0 <= i < r.len() - 1 implies tspan(#[trigger] r[i]).end == tspan(r[i + 1]).start by {
                assert(r[i] == ts[i + 1] && r[i + 1] == ts[i + 2]);
            }
        }
        if r.len() > 0 {
            assert(r[0] == ts[1]);
        }
        lemma_literal_suffix(r, line, byte, start, sp.end, RawLiteral { newline: true, ..flags });
        lemma_literal_suffix(r, line, byte, start, sp.end, RawLiteral { delimiter: true, ..flags });
        lemma_literal_suffix(r, line, (sp.end - 1) as usize, start, sp.end, flags);
        lemma_literal_between(r, line, byte, start, sp.end, RawLiteral { newline: true, ..flags });
        lemma_literal_between(r, line, byte, start, sp.end, RawLiteral { delimiter: true, ..flags });
        lemma_literal_between(r, line, (sp.end - 1) as usize, start, sp.end, flags);
        let o = literal_spec(ts, line, byte, start, end, flags);
        if o.res is Ok && o.rest != r {
            assert(r[r.len() - o.rest.len() - 1] == ts[ts.len() - o.rest.len() - 1]);
        }
    }
}

/// Reading a literal only takes tokens from the front of the stream, and
/// takes at least one when there is one.
pub proof fn lemma_literal_suffix(
    ts: Seq<Token>,
    line: usize,
    byte: usize,
    start: usize,
    end: usize,
    flags: RawLiteral,
)
    ensures
        is_suffix(literal_spec(ts, line, byte, start, end, flags).rest, ts),
        ts.len() > 0 ==> literal_spec(ts, line, byte, start, end, flags).rest.len() < ts.len(),
    decreases ts.len(),
{
    if ts.len() == 0 {
        lexer::lemma_suffix_refl(ts);
    } else {
        let r = ts.drop_first();
        let sp = tspan(ts[0]);
        lexer::lemma_suffix_drop_first(ts);
        lemma_literal_suffix(r, line, byte, start, sp.end, RawLiteral { newline: true, ..flags });
        lemma_literal_suffix(r, line, byte, start, sp.end, RawLiteral { delimiter: true, ..flags });
        lemma_literal_suffix(r, line, byte, start, end, flags);
        lemma_literal_suffix(r, line, (sp.end - 1) as usize, start, sp.end, flags);
        let out = literal_spec(ts, line, byte, start, end, flags);
        if out.rest != r {
            lexer::lemma_suffix_trans(out.rest, r, ts);
        }
    }
}

/// Parse a quoted string literal and return a JSON string value with its
/// inner span.
pub fn literal<'source>(
    source: &'source str,
    lexer: &mut Lexer<'source>,
    state: &mut ParseState,
    current: (Parameters, Range<usize>),
    string_type: RawLiteralType,
) -> (res: SyntaxResult<(Json, Range<usize>)>)
    requires
        old(lexer).wf(),
        old(lexer).src() == source,
        valid_span(source, current.1.end as int, current.1.end as int),
        precedes(current.1, old(lexer).rest()),
    ensures
        final(lexer).wf(),
        final(lexer).src() == old(lexer).src(),
        ({
            let out = literal_spec(
                old(lexer).rest(),
                old(state).line,
                old(state).byte,
                current.1.end,
                current.1.end,
                initial_flags(string_type),
            );
            &&& final(lexer).rest() == out.rest
            &&& final(state).byte == out.byte
            &&& match out.res {
                Ok((span, flags)) => res matches Ok((v, s)) && s == span && v@ == JsonV::String(
                    flags.unescape(span_chars(source, span)),
                ) && valid_span(source, span.start as int, span.end as int),
                Err(e) => res matches Err(err) && err@ == e,
            }
        }),
        final(state).line == old(state).line,
        final(state).file_name == old(state).file_name,
        err_file(res, old(state).file_name),
{
    proof {
        lexer.lemma_wf();
        lemma_literal_span(
            source,
            lexer.rest(),
            state.line,
            state.byte,
            current.1.end,
            current.1.end,
            initial_flags(string_type),
        );
    }
    let (span, flags) = parse(source, lexer, state, current, string_type)?;
    let text = slice_span(source, span.start, span.end);
    let value = if flags.has_escape_sequences() {
        flags.into_owned(text)
    } else {
        text.to_owned()
    };
    Ok((Json::String(value), span))
}

} // verus!
