//! Tokens consumed by the parser and the token stream that carries them.
//!
//! The parser works on a stream of tokens, each a kind together with the
//! byte span of the template source that it covers. A [`Lexer`] checks that
//! a token sequence fits its source (spans in bounds, on character
//! boundaries, in order, number literals accepted by `serde_json`) and then
//! hands the tokens out one by one.
use std::ops::Range;
use vstd::prelude::*;
use vstd::string::StringSliceAdditionalSpecFns;
use vstd::utf8::is_char_boundary;

use crate::text::{slice, span_bytes, valid_span};

verus! {

/// Tokens of the top-level (block) mode.
#[derive(Clone, Copy, Debug, PartialEq, Eq, Structural)]
pub enum Block {
    Text,
    Newline,
    StartRawBlock,
    EndRawBlock,
    StartRawComment,
    StartRawStatement,
    StartComment,
    StartBlockScope,
    EndBlockScope,
    StartStatement,
}

/// Tokens inside a raw comment `{{!-- --}}`.
#[derive(Clone, Copy, Debug, PartialEq, Eq, Structural)]
pub enum RawComment {
    Text,
    Newline,
    End,
}

/// Tokens inside an escaped statement `\{{ }}`.
#[derive(Clone, Copy, Debug, PartialEq, Eq, Structural)]
pub enum RawStatement {
    Text,
    Newline,
    End,
}

/// Tokens inside a comment `{{! }}`.
#[derive(Clone, Copy, Debug, PartialEq, Eq, Structural)]
pub enum Comment {
    Text,
    Newline,
    End,
}

/// Tokens inside a statement or block tag.
#[derive(Clone, Copy, Debug, PartialEq, Eq, Structural)]
pub enum Parameters {
    WhiteSpace,
    Newline,
    Partial,
    ElseKeyword,
    ExplicitThisKeyword,
    ExplicitThisDotSlash,
    PathDelimiter,
    Identifier,
    LocalIdentifier,
    ParentRef,
    StartArray,
    HashKey,
    StartSubExpression,
    EndSubExpression,
    DoubleQuoteString,
    SingleQuoteString,
    Number,
    True,
    False,
    Null,
    Error,
    End,
}

/// Tokens inside a double quoted string literal.
#[derive(Clone, Copy, Debug, PartialEq, Eq, Structural)]
pub enum DoubleQuoteString {
    Text,
    Escaped,
    EscapedNewline,
    Newline,
    End,
}

/// Tokens inside a single quoted string literal.
#[derive(Clone, Copy, Debug, PartialEq, Eq, Structural)]
pub enum SingleQuoteString {
    Text,
    Escaped,
    EscapedNewline,
    Newline,
    End,
}

/// Tokens inside a square bracket raw identifier.
#[derive(Clone, Copy, Debug, PartialEq, Eq, Structural)]
pub enum Array {
    Text,
    Escaped,
    Newline,
    End,
}

/// Tokens inside a wiki-style link `[[href|label|title]]`.
#[derive(Clone, Copy, Debug, PartialEq, Eq, Structural)]
pub enum Link {
    Text,
    Newline,
    Pipe,
    Escaped,
    EscapedPipe,
    EscapedNewline,
    Error,
    End,
}

/// A token: its kind and the byte span of the source it covers.
#[derive(Debug)]
pub enum Token {
    Block(Block, Range<usize>),
    RawComment(RawComment, Range<usize>),
    RawStatement(RawStatement, Range<usize>),
    Comment(Comment, Range<usize>),
    Parameters(Parameters, Range<usize>),
    Array(Array, Range<usize>),
    DoubleQuoteString(DoubleQuoteString, Range<usize>),
    SingleQuoteString(SingleQuoteString, Range<usize>),
    Link(Link, Range<usize>),
}

/// The byte span of a token.
pub open spec fn tspan(t: Token) -> Range<usize> {
    match t {
        Token::Block(_, s) => s,
        Token::RawComment(_, s) => s,
        Token::RawStatement(_, s) => s,
        Token::Comment(_, s) => s,
        Token::Parameters(_, s) => s,
        Token::Array(_, s) => s,
        Token::DoubleQuoteString(_, s) => s,
        Token::SingleQuoteString(_, s) => s,
        Token::Link(_, s) => s,
    }
}

/// Whether a token is a newline in any lexer mode.
pub open spec fn spec_is_newline(t: Token) -> bool {
    match t {
        Token::Block(k, _) => k == Block::Newline,
        Token::RawComment(k, _) => k == RawComment::Newline,
        Token::RawStatement(k, _) => k == RawStatement::Newline,
        Token::Comment(k, _) => k == Comment::Newline,
        Token::Parameters(k, _) => k == Parameters::Newline,
        Token::Array(k, _) => k == Array::Newline,
        Token::DoubleQuoteString(k, _) => k == DoubleQuoteString::Newline,
        Token::SingleQuoteString(k, _) => k == SingleQuoteString::Newline,
        Token::Link(k, _) => k == Link::Newline,
    }
}

/// Whether a token is top-level text (text or a newline between tags).
pub open spec fn spec_is_text(t: Token) -> bool {
    match t {
        Token::Block(k, _) => k == Block::Text || k == Block::Newline,
        _ => false,
    }
}

impl Token {
    /// Determine if this token is a newline.
    pub fn is_newline(&self) -> (res: bool)
        ensures
            res == spec_is_newline(*self),
    {
        match self {
            Token::Block(k, _) => *k == Block::Newline,
            Token::RawComment(k, _) => *k == RawComment::Newline,
            Token::RawStatement(k, _) => *k == RawStatement::Newline,
            Token::Comment(k, _) => *k == Comment::Newline,
            Token::Parameters(k, _) => *k == Parameters::Newline,
            Token::Array(k, _) => *k == Array::Newline,
            Token::DoubleQuoteString(k, _) => *k == DoubleQuoteString::Newline,
            Token::SingleQuoteString(k, _) => *k == SingleQuoteString::Newline,
            Token::Link(k, _) => *k == Link::Newline,
        }
    }

    /// Determine if this token is top-level text.
    pub fn is_text(&self) -> (res: bool)
        ensures
            res == spec_is_text(*self),
    {
        match self {
            Token::Block(k, _) => *k == Block::Text || *k == Block::Newline,
            _ => false,
        }
    }

    /// The byte span of this token.
    pub fn span(&self) -> (res: &Range<usize>)
        ensures
            *res == tspan(*self),
    {
        match self {
            Token::Block(_, s) => s,
            Token::RawComment(_, s) => s,
            Token::RawStatement(_, s) => s,
            Token::Comment(_, s) => s,
            Token::Parameters(_, s) => s,
            Token::Array(_, s) => s,
            Token::DoubleQuoteString(_, s) => s,
            Token::SingleQuoteString(_, s) => s,
            Token::Link(_, s) => s,
        }
    }

    /// A copy of this token.
    pub fn duplicate(&self) -> (res: Token)
        ensures
            res == *self,
    {
        match self {
            Token::Block(k, s) => Token::Block(*k, s.start..s.end),
            Token::RawComment(k, s) => Token::RawComment(*k, s.start..s.end),
            Token::RawStatement(k, s) => Token::RawStatement(*k, s.start..s.end),
            Token::Comment(k, s) => Token::Comment(*k, s.start..s.end),
            Token::Parameters(k, s) => Token::Parameters(*k, s.start..s.end),
            Token::Array(k, s) => Token::Array(*k, s.start..s.end),
            Token::DoubleQuoteString(k, s) => Token::DoubleQuoteString(*k, s.start..s.end),
            Token::SingleQuoteString(k, s) => Token::SingleQuoteString(*k, s.start..s.end),
            Token::Link(k, s) => Token::Link(*k, s.start..s.end),
        }
    }
}

/// Whether `serde_json` accepts the given bytes as a JSON number
/// (the outcome of `<serde_json::Number as FromStr>::from_str`).
pub uninterp spec fn json_number_accepts(text: Seq<u8>) -> bool;

/// Calls `<serde_json::Number as FromStr>::from_str` on `text` and reports
/// whether it succeeded. The outcome depends on the text alone; it is
/// named by `json_number_accepts` (which JSON number grammar serde_json
/// implements is not restated here).
#[verifier::external_body]
fn number_parses(text: &str) -> (res: bool)
    ensures
        res == json_number_accepts(text.spec_bytes()),
{
    text.parse::<serde_json::Number>().is_ok()
}

/// A token fits the source: its span is non-empty, in bounds and on
/// character boundaries; a hash key's last byte starts a character (its
/// name is sliced without the trailing `=`), and a number literal is one
/// that `serde_json` accepts.
pub open spec fn token_ok(source: &str, t: Token) -> bool {
    let s = tspan(t);
    &&& s.start < s.end
    &&& valid_span(source, s.start as int, s.end as int)
    &&& (t matches Token::Parameters(Parameters::HashKey, _) ==> is_char_boundary(
        source.spec_bytes(),
        s.end - 1,
    ))
    &&& (t matches Token::Parameters(Parameters::Number, _) ==> json_number_accepts(
        span_bytes(source, s.start as int, s.end as int),
    ))
}

/// A token sequence fits the source: every token fits and spans are in order
/// and do not overlap.
pub open spec fn tokens_ok(source: &str, ts: Seq<Token>) -> bool {
    &&& forall|i: int| 0 <= i < ts.len() ==> token_ok(source, #[trigger] ts[i])
    &&& forall|i: int, j: int|
        0 <= i < j < ts.len() ==> tspan(#[trigger] ts[i]).end <= tspan(#[trigger] ts[j]).start
}

/// `a` is a suffix of `b` (what is left after taking tokens from `b`).
pub open spec fn is_suffix(a: Seq<Token>, b: Seq<Token>) -> bool {
    a.len() <= b.len() && a == b.skip(b.len() - a.len())
}

/// The tokens still to be parsed: a token held aside (if any) followed by
/// the remaining tokens.
pub open spec fn pending(held: Option<Token>, ts: Seq<Token>) -> Seq<Token> {
    match held {
        Some(t) => seq![t] + ts,
        None => ts,
    }
}

/// Taking the next token and holding it keeps the pending tokens.
pub proof fn lemma_pending_take(ts: Seq<Token>)
    ensures
        ts.len() > 0 ==> pending(Some(ts[0]), ts.drop_first()) == ts,
{
    if ts.len() > 0 {
        assert(seq![ts[0]] + ts.drop_first() =~= ts);
    }
}

/// Taking from a suffix leaves a suffix.
pub proof fn lemma_suffix_trans(a: Seq<Token>, b: Seq<Token>, c: Seq<Token>)
    requires
        is_suffix(a, b),
        is_suffix(b, c),
    ensures
        is_suffix(a, c),
{
    assert(a =~= c.skip(c.len() - a.len()));
}

/// Dropping the first token leaves a suffix.
pub proof fn lemma_suffix_drop_first(b: Seq<Token>)
    requires
        b.len() > 0,
    ensures
        is_suffix(b.drop_first(), b),
{
    assert(b.drop_first() =~= b.skip(1));
}

/// Every sequence is a suffix of itself.
pub proof fn lemma_suffix_refl(b: Seq<Token>)
    ensures
        is_suffix(b, b),
{
    assert(b =~= b.skip(0));
}

/// Tokens that fit the source still fit after dropping a prefix.
pub proof fn lemma_suffix_ok(source: &str, a: Seq<Token>, b: Seq<Token>)
    requires
        is_suffix(a, b),
        tokens_ok(source, b),
    ensures
        tokens_ok(source, a),
        forall|i: int| 0 <= i < a.len() ==> a[i] == b[i + b.len() - a.len()],
{
    assert forall|i: int| 0 <= i < a.len() implies a[i] == b[i + b.len() - a.len()] by {
        assert(a[i] == b.skip(b.len() - a.len())[i]);
    }
    assert forall|i: int, j: int|
        0 <= i < j < a.len() implies tspan(#[trigger] a[i]).end <= tspan(#[trigger] a[j]).start by {
        assert(a[i] == b[i + b.len() - a.len()]);
        assert(a[j] == b[j + b.len() - a.len()]);
    }
    assert forall|i: int| 0 <= i < a.len() implies token_ok(source, #[trigger] a[i]) by {
        assert(a[i] == b[i + b.len() - a.len()]);
    }
}

/// Stream of tokens over a template source.
pub struct Lexer<'source> {
    source: &'source str,
    tokens: Vec<Token>,
    pos: usize,
}

impl<'source> Lexer<'source> {
    /// The template source the tokens refer to.
    pub closed spec fn src(&self) -> &'source str {
        self.source
    }

    /// The tokens not yet handed out.
    pub closed spec fn rest(&self) -> Seq<Token> {
        self.tokens@.skip(self.pos as int)
    }

    /// Well-formedness: the remaining tokens fit the source, whose byte
    /// length fits in a `usize` with room to spare.
    pub closed spec fn wf(&self) -> bool {
        &&& self.pos <= self.tokens@.len()
        &&& self.source.spec_bytes().len() < usize::MAX
        &&& tokens_ok(self.source, self.tokens@.skip(self.pos as int))
    }

    /// What well-formedness says of the remaining tokens.
    pub proof fn lemma_wf(&self)
        requires
            self.wf(),
        ensures
            tokens_ok(self.src(), self.rest()),
            self.src().spec_bytes().len() < usize::MAX,
    {
    }

    /// Create a token stream over `source`.
    ///
    /// Yields `None` when the tokens do not fit the source (see
    /// [`tokens_ok`]).
    pub fn new(source: &'source str, tokens: Vec<Token>) -> (res: Option<Self>)
        requires
            source.spec_bytes().len() < usize::MAX,
        ensures
            res is Some <==> tokens_ok(source, tokens@),
            res matches Some(l) ==> l.wf() && l.src() == source && l.rest() == tokens@,
    {
        let len = source.len();
        let mut prev_end: usize = 0;
        let mut i: usize = 0;
        while i < tokens.len()
            invariant
                len == source.spec_bytes().len(),
                len < usize::MAX,
                i <= tokens@.len(),
                tokens_ok(source, tokens@.take(i as int)),
                i > 0 ==> prev_end == tspan(tokens@[i - 1]).end,
                i == 0 ==> prev_end == 0,
                forall|j: int| 0 <= j < i ==> tspan(#[trigger] tokens@[j]).end <= prev_end,
            decreases tokens@.len() - i,
        {
            let t = &tokens[i];
            let s = t.span();
            assert(tspan(tokens@[i as int]) == *s);
            if !(s.start < s.end && s.end <= len && prev_end <= s.start) {
                assert(!tokens_ok(source, tokens@)) by {
                    if !(s.start < s.end && s.end <= len) {
                        assert(!token_ok(source, tokens@[i as int]));
                    } else {
                        assert(tspan(tokens@[i - 1]).end > tspan(tokens@[i as int]).start);
                    }
                }
                return None;
            }
            if !(source.is_char_boundary(s.start) && source.is_char_boundary(s.end)) {
                assert(!token_ok(source, tokens@[i as int]));
                return None;
            }
            match t {
                Token::Parameters(Parameters::HashKey, _) => {
                    if !source.is_char_boundary(s.end - 1) {
                        assert(!token_ok(source, tokens@[i as int]));
                        return None;
                    }
                },
                Token::Parameters(Parameters::Number, _) => {
                    let text = slice(source, s.start, s.end);
                    if !number_parses(text) {
                        assert(!token_ok(source, tokens@[i as int]));
                        return None;
                    }
                },
                _ => {},
            }
            assert(token_ok(source, tokens@[i as int]));
            prev_end = s.end;
            assert(tokens@.take(i + 1) =~= tokens@.take(i as int).push(tokens@[i as int]));
            i = i + 1;
        }
        assert(tokens@.take(i as int) =~= tokens@);
        let lexer = Lexer { source, tokens, pos: 0 };
        assert(lexer.tokens@.skip(0) =~= lexer.tokens@);
        Some(lexer)
    }

    /// The template source the tokens refer to.
    pub fn source(&self) -> (res: &'source str)
        ensures
            res == self.src(),
    {
        self.source
    }

    /// Hand out the next token.
    pub fn next(&mut self) -> (res: Option<Token>)
        requires
            old(self).wf(),
        ensures
            final(self).wf(),
            final(self).src() == old(self).src(),
            old(self).rest().len() == 0 ==> res is None && final(self).rest() == old(self).rest(),
            old(self).rest().len() > 0 ==> res == Some(old(self).rest()[0])
                && final(self).rest() == old(self).rest().drop_first(),
    {
        if self.pos < self.tokens.len() {
            let t = self.tokens[self.pos].duplicate();
            proof {
                assert(self.tokens@.skip(self.pos + 1) =~= self.tokens@.skip(
                    self.pos as int,
                ).drop_first());
            }
            self.pos = self.pos + 1;
            Some(t)
        } else {
            None
        }
    }

    /// Consume tokens until the stream is back at a top-level token and
    /// hand that token out.
    pub fn until_mode(&mut self) -> (res: Option<Token>)
        requires
            old(self).wf(),
        ensures
            final(self).wf(),
            final(self).src() == old(self).src(),
            (res, final(self).rest()) == skip_to_block(old(self).rest()),
        decreases old(self).rest().len(),
    {
        let next = self.next();
        match next {
            Some(Token::Block(k, s)) => Some(Token::Block(k, s)),
            Some(_) => self.until_mode(),
            None => None,
        }
    }
}

/// Drop tokens until the first top-level token, which is taken; yields the
/// token taken (if any) and the tokens after it.
pub open spec fn skip_to_block(ts: Seq<Token>) -> (Option<Token>, Seq<Token>)
    decreases ts.len(),
{
    if ts.len() == 0 {
        (None, ts)
    } else {
        match ts[0] {
            Token::Block(k, s) => (Some(Token::Block(k, s)), ts.drop_first()),
            _ => skip_to_block(ts.drop_first()),
        }
    }
}

} // verus!
