//! Parse runs of text, comments, raw blocks and block scopes.
use std::ops::Range;
use vstd::prelude::*;

use crate::error::{err_at, ErrorV, SyntaxErrorKind, SyntaxResult};
use crate::lexer::{self, is_suffix, pending, spec_is_newline, spec_is_text, tspan, Lexer, Token};
use crate::parser::ast::{
    display_ok, exit_spec, push_spec, Block, BlockV, Element, Lines, Node, NodeV, Slice, Text,
    TextBlock, TextBlockV, TextV,
};
use crate::parser::call::{self, advanced, closed_from, input_ok, CallParseContext};
use crate::parser::path::line_budget;
use crate::parser::ParseState;
use crate::text::{push_char, push_str, str_eq, valid_span};
use vstd::utf8::decode_utf8;

verus! {

/// Which token ends a run of tokens read by [`until`].
#[derive(Clone, Copy, Debug, PartialEq, Eq, Structural)]
pub enum EndTest {
    /// Any token that is not top-level text.
    NotText,
    /// The start of the end tag of a raw block.
    EndRawBlock,
    /// The end of a raw comment.
    EndRawComment,
    /// The end of an escaped statement.
    EndRawStatement,
    /// The end of a comment.
    EndComment,
}

/// Whether the token `t` ends a run for the test `end`.
pub open spec fn is_end(end: EndTest, t: Token) -> bool {
    match end {
        EndTest::NotText => !spec_is_text(t),
        EndTest::EndRawBlock => t matches Token::Block(lexer::Block::EndRawBlock, _),
        EndTest::EndRawComment => t matches Token::RawComment(lexer::RawComment::End, _),
        EndTest::EndRawStatement => t matches Token::RawStatement(lexer::RawStatement::End, _),
        EndTest::EndComment => t matches Token::Comment(lexer::Comment::End, _),
    }
}

/// Determine whether the token `t` ends a run for the test `end`.
pub fn ends(end: EndTest, t: &Token) -> (res: bool)
    ensures
        res == is_end(end, *t),
{
    match end {
        EndTest::NotText => !t.is_text(),
        EndTest::EndRawBlock => match t {
            Token::Block(lexer::Block::EndRawBlock, _) => true,
            _ => false,
        },
        EndTest::EndRawComment => match t {
            Token::RawComment(lexer::RawComment::End, _) => true,
            _ => false,
        },
        EndTest::EndRawStatement => match t {
            Token::RawStatement(lexer::RawStatement::End, _) => true,
            _ => false,
        },
        EndTest::EndComment => match t {
            Token::Comment(lexer::Comment::End, _) => true,
            _ => false,
        },
    }
}

/// How the text read by [`text_until`] becomes a node.
#[derive(Clone, Copy, Debug, PartialEq, Eq, Structural)]
pub enum Wrap {
    /// The inner text as a text node.
    Text,
    /// An escaped statement.
    RawStatement,
    /// A raw comment.
    RawComment,
    /// A comment.
    Comment,
}

/// The node that a text block becomes.
pub open spec fn wrap_spec<'s>(w: Wrap, b: TextBlockV<'s>) -> NodeV<'s> {
    match w {
        Wrap::Text => NodeV::Text(b.text),
        Wrap::RawStatement => NodeV::RawStatement(b),
        Wrap::RawComment => NodeV::RawComment(b),
        Wrap::Comment => NodeV::Comment(b),
    }
}

/// Make the node for a text block.
pub fn wrap_node<'source>(block: TextBlock<'source>, wrap: Wrap) -> (res: Node<'source>)
    ensures
        res@ == wrap_spec(wrap, block@),
{
    let res = match wrap {
        Wrap::Text => Node::Text(block.into_text()),
        Wrap::RawStatement => Node::RawStatement(block),
        Wrap::RawComment => Node::RawComment(block),
        Wrap::Comment => Node::Comment(block),
    };
    proof {
        crate::parser::ast::lemma_node_view(res);
    }
    res
}

/// Outcome of reading a run of tokens: the span covered, the token that
/// ended the run (if any), the tokens left and the line and byte reached.
pub struct UntilOut {
    pub span: Range<usize>,
    pub next: Option<Token>,
    pub rest: Seq<Token>,
    pub line: usize,
    pub byte: usize,
}

/// Read tokens until one ends the run: each token that does not end it
/// extends the span to its end; newlines (the ending token included)
/// count lines.
pub open spec fn until_spec(ts: Seq<Token>, line: usize, byte: usize, span: Range<usize>, end: EndTest) -> UntilOut
    decreases ts.len(),
{
    if ts.len() == 0 {
        UntilOut { span, next: None, rest: ts, line, byte }
    } else {
        let t = ts[0];
        let l2 = if spec_is_newline(t) {
            (line + 1) as usize
        } else {
            line
        };
        if !is_end(end, t) {
            until_spec(ts.drop_first(), l2, (tspan(t).end - 1) as usize, span.start..tspan(t).end, end)
        } else {
            UntilOut { span, next: Some(t), rest: ts.drop_first(), line: l2, byte }
        }
    }
}

/// Every token of `ts` begins at or after `pos`.
pub open spec fn all_after(ts: Seq<Token>, pos: int) -> bool {
    forall|k: int| 0 <= k < ts.len() ==> pos <= tspan(#[trigger] ts[k]).start
}

/// Reading a run of well-formed tokens that all follow a valid span gives a
/// valid span with the same start; the token that ends the run fits the
/// source and follows the span, as do the tokens left.
pub proof fn lemma_until_valid(
    source: &str,
    ts: Seq<Token>,
    line: usize,
    byte: usize,
    span: Range<usize>,
    end: EndTest,
)
    requires
        valid_span(source, span.start as int, span.end as int),
        lexer::tokens_ok(source, ts),
        all_after(ts, span.end as int),
    ensures
        ({
            let o = until_spec(ts, line, byte, span, end);
            &&& o.span.start == span.start
            &&& valid_span(source, o.span.start as int, o.span.end as int)
            &&& o.next matches Some(t) ==> lexer::token_ok(source, t) && o.span.end <= tspan(t).start
                && all_after(o.rest, tspan(t).end as int)
        }),
    decreases ts.len(),
{
    if ts.len() > 0 {
        let t = ts[0];
        assert(lexer::token_ok(source, ts[0]));
        let rest = ts.drop_first();
        assert forall|k: int| 0 <= k < rest.len() implies tspan(t).end <= tspan(#[trigger] rest[k]).start by {
            assert(rest[k] == ts[k + 1]);
        }
        assert forall|i: int| 0 <= i < rest.len() implies lexer::token_ok(source, #[trigger] rest[i]) by {
            assert(rest[i] == ts[i + 1]);
        }
        assert forall|i: int, j: int| 0 <= i < j < rest.len() implies tspan(#[trigger] rest[i]).end <= tspan(
            #[trigger] rest[j],
        ).start by {
            assert(rest[i] == ts[i + 1]);
            assert(rest[j] == ts[j + 1]);
        }
        let l2 = if spec_is_newline(t) {
            (line + 1) as usize
        } else {
            line
        };
        if !is_end(end, t) {
            lemma_until_valid(source, rest, l2, (tspan(t).end - 1) as usize, span.start..tspan(t).end, end);
        }
    }
}

/// Reading text after a tag that fits the source, over well-formed tokens
/// that follow it, gives a node that can be displayed.
pub proof fn lemma_text_until_display(
    source: &str,
    ts: Seq<Token>,
    line: usize,
    byte: usize,
    span: Range<usize>,
    end: EndTest,
    w: Wrap,
)
    requires
        valid_span(source, span.start as int, span.end as int),
        lexer::tokens_ok(source, ts),
        all_after(ts, span.end as int),
    ensures
        text_until_spec(source, ts, line, byte, span, end, w).res matches Some((n, _)) ==> display_ok(n),
{
    reveal(text_until_spec);
    lemma_until_valid(source, ts, line, byte, span.end..span.end, end);
}

/// Taking the first token, and counting a line when it is a newline, is
/// moving forward whether or not the token is held.
pub proof fn lemma_step_first(ts: Seq<Token>, line: usize, nl: bool)
    requires
        ts.len() > 0,
    ensures
        advanced(None, ts, line, Some(ts[0]), ts.drop_first(), if nl { (line + 1) as usize } else { line }),
        advanced(None, ts, line, None, ts.drop_first(), if nl { (line + 1) as usize } else { line }),
{
    lexer::lemma_suffix_drop_first(ts);
    lexer::lemma_pending_take(ts);
    lexer::lemma_suffix_refl(ts);
}

/// Consume consecutive tokens into a single span.
pub fn until<'source>(
    lexer: &mut Lexer<'source>,
    state: &mut ParseState,
    span: Range<usize>,
    end: EndTest,
) -> (res: (Range<usize>, Option<Token>))
    requires
        old(lexer).wf(),
        line_budget(old(state).line, old(lexer).rest(), false) < usize::MAX,
    ensures
        final(lexer).wf(),
        final(lexer).src() == old(lexer).src(),
        final(state).file_name == old(state).file_name,
        ({
            let o = until_spec(old(lexer).rest(), old(state).line, old(state).byte, span, end);
            &&& res.0 == o.span
            &&& res.1 == o.next
            &&& final(lexer).rest() == o.rest
            &&& final(state).line == o.line
            &&& final(state).byte == o.byte
        }),
        advanced(None, old(lexer).rest(), old(state).line, res.1, final(lexer).rest(), final(state).line),
{
    let ghost ts0 = lexer.rest();
    let ghost line0 = state.line;
    let ghost out = until_spec(lexer.rest(), state.line, state.byte, span, end);
    let mut covered = span.start..span.end;
    proof {
        call::lemma_advanced_refl(None, ts0, line0);
    }
    loop
        invariant
            lexer.wf(),
            lexer.src() == old(lexer).src(),
            state.file_name == old(state).file_name,
            ts0 == old(lexer).rest(),
            line0 == old(state).line,
            line_budget(line0, ts0, false) < usize::MAX,
            advanced(None, ts0, line0, None, lexer.rest(), state.line),
            until_spec(lexer.rest(), state.line, state.byte, covered, end) == out,
            out == until_spec(ts0, line0, old(state).byte, span, end),
        decreases lexer.rest().len(),
    {
        proof {
            lexer.lemma_wf();
        }
        let ghost ts = lexer.rest();
        let ghost line1 = state.line;
        let t = match lexer.next() {
            Some(t) => t,
            None => {
                return (covered, None);
            },
        };
        proof {
            assert(t == ts[0]);
            assert(lexer::token_ok(lexer.src(), ts[0]));
            lemma_step_first(ts, line1, spec_is_newline(t));
        }
        if t.is_newline() {
            state.line = state.line + 1;
        }
        if !ends(end, &t) {
            state.byte = t.span().end - 1;
            covered.end = t.span().end;
            proof {
                call::lemma_advanced_trans(None, ts0, line0, None, ts, line1, None, lexer.rest(), state.line);
            }
        } else {
            proof {
                call::lemma_advanced_trans(None, ts0, line0, None, ts, line1, Some(t), lexer.rest(), state.line);
            }
            return (covered, Some(t));
        }
    }
}

/// Outcome of reading text: the node and the token that ended it (when
/// one did), the tokens left and the line and byte reached.
pub struct TextOut<'s> {
    pub res: Option<(NodeV<'s>, Option<Token>)>,
    pub rest: Seq<Token>,
    pub line: usize,
    pub byte: usize,
}

/// Read text after the tag at `span` until a token ends it: the text
/// starts where the tag ends; without an ending token there is no node.
#[verifier::opaque]
pub open spec fn text_until_spec<'s>(
    source: &'s str,
    ts: Seq<Token>,
    line: usize,
    byte: usize,
    span: Range<usize>,
    end: EndTest,
    w: Wrap,
) -> TextOut<'s> {
    let uo = until_spec(ts, line, byte, span.end..span.end, end);
    TextOut {
        res: match uo.next {
            Some(close) => Some(
                (
                    wrap_spec(
                        w,
                        TextBlockV {
                            source,
                            text: TextV { source, span: uo.span, line: line..(uo.line + 1) as usize },
                            open: span,
                            close: tspan(close),
                        },
                    ),
                    Some(close),
                ),
            ),
            None => None,
        },
        rest: uo.rest,
        line: uo.line,
        byte: uo.byte,
    }
}

/// Parse text until a test indicates the end of the block.
pub fn text_until<'source>(
    source: &'source str,
    lexer: &mut Lexer<'source>,
    state: &mut ParseState,
    span: Range<usize>,
    end: EndTest,
    wrap: Wrap,
) -> (res: Option<(Node<'source>, Option<Token>)>)
    requires
        old(lexer).wf(),
        line_budget(old(state).line, old(lexer).rest(), false) < usize::MAX,
    ensures
        final(lexer).wf(),
        final(lexer).src() == old(lexer).src(),
        final(state).file_name == old(state).file_name,
        ({
            let o = text_until_spec(source, old(lexer).rest(), old(state).line, old(state).byte, span, end, wrap);
            &&& final(lexer).rest() == o.rest
            &&& final(state).line == o.line
            &&& final(state).byte == o.byte
            &&& match res {
                Some((n, t)) => o.res == Some((n@, t)),
                None => o.res is None,
            }
        }),
        advanced(
            None,
            old(lexer).rest(),
            old(state).line,
            until_spec(old(lexer).rest(), old(state).line, old(state).byte, span.end..span.end, end).next,
            final(lexer).rest(),
            final(state).line,
        ),
{
    proof {
        reveal(text_until_spec);
    }
    let text = span.end..span.end;
    let open = span;
    let line_range = state.line_range();
    let (span, next_token) = until(lexer, state, text, end);
    if let Some(close) = &next_token {
        let mut text = Text::new(source, span, line_range);
        text.lines_end(state.line());
        let block = TextBlock::new(source, text, open, close.span().start..close.span().end);
        return Some((wrap_node(block, wrap), next_token));
    }
    None
}

/// Outcome of parsing a node: the node or an error, the tokens left and
/// the line and byte reached.
pub struct NodeOut<'s> {
    pub res: Result<NodeV<'s>, ErrorV>,
    pub rest: Seq<Token>,
    pub line: usize,
    pub byte: usize,
}

/// Read text up to the token that ends it into a node; without an ending
/// token the error `kind` is reported.
#[verifier::opaque]
pub open spec fn text_node_spec<'s>(
    source: &'s str,
    ts: Seq<Token>,
    line: usize,
    byte: usize,
    span: Range<usize>,
    end: EndTest,
    w: Wrap,
    kind: SyntaxErrorKind,
) -> NodeOut<'s> {
    let to = text_until_spec(source, ts, line, byte, span, end, w);
    NodeOut {
        res: match to.res {
            Some((n, _)) => Ok(n),
            None => Err(err_at(kind, to.line, to.byte)),
        },
        rest: to.rest,
        line: to.line,
        byte: to.byte,
    }
}

/// A node was parsed as `out` says, and on success the stream moved
/// forward.
pub open spec fn node_done<'s>(
    source: &'s str,
    l0: Lexer<'s>,
    s0: ParseState,
    l1: Lexer<'s>,
    s1: ParseState,
    res: SyntaxResult<Node<'s>>,
    out: NodeOut<'s>,
) -> bool {
    &&& call::step_done(source, l0, s0, l1, s1, false)
    &&& l1.rest() == out.rest
    &&& s1.line == out.line
    &&& s1.byte == out.byte
    &&& match res {
        Ok(n) => out.res == Ok::<NodeV<'s>, ErrorV>(n@) && advanced(
            None,
            l0.rest(),
            s0.line,
            None,
            l1.rest(),
            s1.line,
        ),
        Err(e) => out.res == Err::<NodeV<'s>, ErrorV>(e@) && e.info.file_name == s0.file_name,
    }
}

/// Read a text node up to the token `end`, or report the error `kind`.
fn text_node<'source>(
    source: &'source str,
    lexer: &mut Lexer<'source>,
    state: &mut ParseState,
    span: Range<usize>,
    end: EndTest,
    wrap: Wrap,
    kind: SyntaxErrorKind,
) -> (res: SyntaxResult<Node<'source>>)
    requires
        old(lexer).wf(),
        old(lexer).src() == source,
        line_budget(old(state).line, old(lexer).rest(), false) < usize::MAX,
    ensures
        node_done(
            source,
            *old(lexer),
            *old(state),
            *final(lexer),
            *final(state),
            res,
            text_node_spec(source, old(lexer).rest(), old(state).line, old(state).byte, span, end, wrap, kind),
        ),
{
    proof {
        reveal(text_node_spec);
    }
    let ghost ts0 = lexer.rest();
    let ghost line0 = state.line;
    let maybe_node = text_until(source, lexer, state, span, end, wrap);
    proof {
        let nx = until_spec(ts0, line0, old(state).byte, span.end..span.end, end).next;
        lexer::lemma_suffix_refl(lexer.rest());
        if nx is Some {
            assert(pending(nx, lexer.rest()).drop_first() =~= lexer.rest());
            lexer::lemma_suffix_drop_first(pending(nx, lexer.rest()));
            lexer::lemma_suffix_trans(lexer.rest(), pending(nx, lexer.rest()), ts0);
        }
    }
    if let Some((node, _)) = maybe_node {
        Ok(node)
    } else {
        Err(state.error(kind))
    }
}

/// Parse a raw comment `{{!-- comment --}}`.
pub fn raw_comment<'source>(
    source: &'source str,
    lexer: &mut Lexer<'source>,
    state: &mut ParseState,
    span: Range<usize>,
) -> (res: SyntaxResult<Node<'source>>)
    requires
        old(lexer).wf(),
        old(lexer).src() == source,
        line_budget(old(state).line, old(lexer).rest(), false) < usize::MAX,
    ensures
        node_done(
            source,
            *old(lexer),
            *old(state),
            *final(lexer),
            *final(state),
            res,
            text_node_spec(
                source,
                old(lexer).rest(),
                old(state).line,
                old(state).byte,
                span,
                EndTest::EndRawComment,
                Wrap::RawComment,
                SyntaxErrorKind::RawCommentNotTerminated,
            ),
        ),
{
    text_node(
        source,
        lexer,
        state,
        span,
        EndTest::EndRawComment,
        Wrap::RawComment,
        SyntaxErrorKind::RawCommentNotTerminated,
    )
}

/// Parse an escaped statement `\{{escaped}}`.
pub fn raw_statement<'source>(
    source: &'source str,
    lexer: &mut Lexer<'source>,
    state: &mut ParseState,
    span: Range<usize>,
) -> (res: SyntaxResult<Node<'source>>)
    requires
        old(lexer).wf(),
        old(lexer).src() == source,
        line_budget(old(state).line, old(lexer).rest(), false) < usize::MAX,
    ensures
        node_done(
            source,
            *old(lexer),
            *old(state),
            *final(lexer),
            *final(state),
            res,
            text_node_spec(
                source,
                old(lexer).rest(),
                old(state).line,
                old(state).byte,
                span,
                EndTest::EndRawStatement,
                Wrap::RawStatement,
                SyntaxErrorKind::RawStatementNotTerminated,
            ),
        ),
{
    text_node(
        source,
        lexer,
        state,
        span,
        EndTest::EndRawStatement,
        Wrap::RawStatement,
        SyntaxErrorKind::RawStatementNotTerminated,
    )
}

/// Parse a comment block `{{! comment }}`.
pub fn comment<'source>(
    source: &'source str,
    lexer: &mut Lexer<'source>,
    state: &mut ParseState,
    span: Range<usize>,
) -> (res: SyntaxResult<Node<'source>>)
    requires
        old(lexer).wf(),
        old(lexer).src() == source,
        line_budget(old(state).line, old(lexer).rest(), false) < usize::MAX,
    ensures
        node_done(
            source,
            *old(lexer),
            *old(state),
            *final(lexer),
            *final(state),
            res,
            text_node_spec(
                source,
                old(lexer).rest(),
                old(state).line,
                old(state).byte,
                span,
                EndTest::EndComment,
                Wrap::Comment,
                SyntaxErrorKind::CommentNotTerminated,
            ),
        ),
{
    text_node(
        source,
        lexer,
        state,
        span,
        EndTest::EndComment,
        Wrap::Comment,
        SyntaxErrorKind::CommentNotTerminated,
    )
}

/// Outcome of opening a block: the block or an error, the tokens left and
/// the line and byte reached.
pub struct BlockOut<'s> {
    pub res: Result<BlockV<'s>, ErrorV>,
    pub rest: Seq<Token>,
    pub line: usize,
    pub byte: usize,
}

/// Open a block at the tag `span`: its call is parsed from the tag.
#[verifier::opaque]
pub open spec fn scope_spec<'s>(
    source: &'s str,
    ts: Seq<Token>,
    line: usize,
    byte: usize,
    span: Range<usize>,
) -> BlockOut<'s> {
    let co = call::parse_spec(source, ts, line, byte, span);
    BlockOut {
        res: match co.res {
            Ok(c) => Ok(BlockV::fresh(source, span, false, line..(line + 1) as usize, c)),
            Err(e) => Err(e),
        },
        rest: co.rest,
        line: co.line,
        byte: co.byte,
    }
}

/// Open a scoped block `{{# block}}`.
pub fn scope<'source>(
    source: &'source str,
    lexer: &mut Lexer<'source>,
    state: &mut ParseState,
    span: Range<usize>,
) -> (res: SyntaxResult<Block<'source>>)
    requires
        input_ok(source, *old(lexer), old(state).line, None),
    ensures
        call::step_done(source, *old(lexer), *old(state), *final(lexer), *final(state), false),
        ({
            let o = scope_spec(source, old(lexer).rest(), old(state).line, old(state).byte, span);
            &&& final(lexer).rest() == o.rest
            &&& final(state).line == o.line
            &&& final(state).byte == o.byte
            &&& match res {
                Ok(b) => o.res == Ok::<BlockV<'source>, ErrorV>(b@),
                Err(e) => o.res == Err::<BlockV<'source>, ErrorV>(e@) && e.info.file_name
                    == old(state).file_name,
            }
        }),
        res matches Ok(b) ==> b@.call.target.spans_ok() && b@.call.source == source && closed_from(
            None,
            b@.call.close,
            old(lexer).rest(),
        ) && advanced(None, old(lexer).rest(), old(state).line, None, final(lexer).rest(), final(state).line),
        res matches Ok(b) ==> b@.nodes.len() == 0 && b@.conditionals.len() == 0,
{
    proof {
        reveal(scope_spec);
    }
    let mut block = Block::new(source, span.start..span.end, false, state.line_range());
    let call = call::parse(source, lexer, state, span, CallParseContext::Block)?;
    block.set_call(call);
    proof {
        lexer::lemma_suffix_refl(lexer.rest());
    }
    Ok(block)
}

/// The note given when the name that closes a block differs from the name
/// that opened it.
pub open spec fn opening_note(name: Seq<char>) -> Seq<char> {
    "opening name is '"@ + name + seq!['\'']
}

/// Make the note for a name mismatch.
pub fn opening_note_text(name: &str) -> (res: String)
    ensures
        res@ == opening_note(name@),
{
    let mut note = "opening name is '".to_owned();
    push_str(&mut note, name);
    push_char(&mut note, '\'');
    note
}

/// Parse a raw block `{{{{raw}}}} text {{{{/raw}}}}`: the open tag's call,
/// the text up to the end tag (the block's only child), then the end
/// tag's call, whose target must match the open tag's.
#[verifier::opaque]
pub open spec fn raw_spec<'s>(
    source: &'s str,
    ts: Seq<Token>,
    line: usize,
    byte: usize,
    span: Range<usize>,
) -> NodeOut<'s> {
    let co = call::parse_spec(source, ts, line, byte, span);
    match co.res {
        Err(e) => NodeOut { res: Err(e), rest: co.rest, line: co.line, byte: co.byte },
        Ok(c) => match c.close {
            None => NodeOut {
                res: Err(err_at(SyntaxErrorKind::RawBlockOpenNotTerminated, co.line, co.byte)),
                rest: co.rest,
                line: co.line,
                byte: co.byte,
            },
            Some(end_span) => {
                let b1 = BlockV::fresh(source, span, true, line..(line + 1) as usize, c);
                let to = text_until_spec(source, co.rest, co.line, co.byte, end_span, EndTest::EndRawBlock, Wrap::Text);
                match to.res {
                    None => NodeOut {
                        res: Err(err_at(SyntaxErrorKind::RawBlockNotTerminated, to.line, to.byte)),
                        rest: to.rest,
                        line: to.line,
                        byte: to.byte,
                    },
                    Some((node, next)) => match next {
                        Some(Token::Block(lexer::Block::EndRawBlock, sp2)) => {
                            let b2 = push_spec(b1, node);
                            let eo = call::parse_spec(source, to.rest, to.line, to.byte, sp2);
                            match eo.res {
                                Err(e) => NodeOut { res: Err(e), rest: eo.rest, line: eo.line, byte: eo.byte },
                                Ok(end_tag) => match end_tag.close {
                                    None => NodeOut {
                                        res: Err(err_at(SyntaxErrorKind::RawBlockNotTerminated, eo.line, eo.byte)),
                                        rest: eo.rest,
                                        line: eo.line,
                                        byte: eo.byte,
                                    },
                                    Some(cs) => {
                                        let b3 = exit_spec(b2, end_tag.open.start..cs.end);
                                        if c.target.bytes() != end_tag.target.bytes() {
                                            NodeOut {
                                                res: Err(
                                                    ErrorV {
                                                        kind: SyntaxErrorKind::TagNameMismatch,
                                                        line: eo.line,
                                                        byte: eo.byte,
                                                        notes: seq![opening_note(decode_utf8(c.target.bytes()))],
                                                    },
                                                ),
                                                rest: eo.rest,
                                                line: eo.line,
                                                byte: eo.byte,
                                            }
                                        } else {
                                            NodeOut {
                                                res: Ok(NodeV::Block(BlockV { line: b3.line.start..(eo.line + 1) as usize, ..b3 })),
                                                rest: eo.rest,
                                                line: eo.line,
                                                byte: eo.byte,
                                            }
                                        }
                                    },
                                },
                            }
                        },
                        Some(Token::Block(_, _)) => NodeOut {
                            res: Err(err_at(SyntaxErrorKind::TokenEndRawBlock, to.line, to.byte)),
                            rest: to.rest,
                            line: to.line,
                            byte: to.byte,
                        },
                        _ => NodeOut {
                            res: Err(err_at(SyntaxErrorKind::RawBlockNotTerminated, to.line, to.byte)),
                            rest: to.rest,
                            line: to.line,
                            byte: to.byte,
                        },
                    },
                }
            },
        },
    }
}

/// Parse a raw block `{{{{raw}}}}{{{{/raw}}}}`.
#[verifier::rlimit(60)]
pub fn raw<'source>(
    source: &'source str,
    lexer: &mut Lexer<'source>,
    state: &mut ParseState,
    span: Range<usize>,
) -> (res: SyntaxResult<Node<'source>>)
    requires
        input_ok(source, *old(lexer), old(state).line, None),
    ensures
        node_done(
            source,
            *old(lexer),
            *old(state),
            *final(lexer),
            *final(state),
            res,
            raw_spec(source, old(lexer).rest(), old(state).line, old(state).byte, span),
        ),
        res matches Ok(n) ==> display_ok(n@),
{
    proof {
        reveal(raw_spec);
        reveal(text_until_spec);
    }
    let ghost ts0 = lexer.rest();
    let ghost line0 = state.line;
    let mut block = Block::new(source, span.start..span.end, true, state.line_range());
    let call = call::parse(source, lexer, state, span.start..span.end, CallParseContext::Raw)?;
    proof {
        call.lemma_views();
    }
    if !call.is_closed() {
        return Err(state.error(SyntaxErrorKind::RawBlockOpenNotTerminated));
    }
    // NOTE: must have an accurate end span before reading the Text chunk!
    let end_span = match call.close_span() {
        Some(close) => close.start..close.end,
        None => {
            return Err(state.error(SyntaxErrorKind::RawBlockOpenNotTerminated));
        },
    };
    let target = call.target();
    proof {
        crate::parser::ast::lemma_target_spans(call@.target);
        target.lemma_slice();
    }
    let open_name = target.as_str();
    block.set_call(call);
    let ghost ts1 = lexer.rest();
    let ghost line1 = state.line;
    let ghost byte1 = state.byte;
    proof {
        reveal(call::closed_before);
        let k = choose|k: int| 0 <= k < ts0.len() && tspan(#[trigger] ts0[k]) == end_span;
        assert(lexer::token_ok(source, ts0[k]));
        lexer::lemma_suffix_ok(source, ts1, ts0);
        lemma_text_until_display(source, ts1, line1, byte1, end_span, EndTest::EndRawBlock, Wrap::Text);
    }
    let maybe_node = text_until(source, lexer, state, end_span, EndTest::EndRawBlock, Wrap::Text);
    proof {
        lexer::lemma_suffix_trans(lexer.rest(), ts1, ts0);
    }
    if let Some((node, next_token)) = maybe_node {
        let span = if let Some(token) = next_token {
            match token {
                Token::Block(lex, span) => match lex {
                    lexer::Block::EndRawBlock => span,
                    _ => {
                        return Err(state.error(SyntaxErrorKind::TokenEndRawBlock));
                    },
                },
                _ => {
                    return Err(state.error(SyntaxErrorKind::RawBlockNotTerminated));
                },
            }
        } else {
            return Err(state.error(SyntaxErrorKind::RawBlockNotTerminated));
        };
        block.push(node);
        let ghost ts2 = lexer.rest();
        let ghost line2 = state.line;
        proof {
            let nx = until_spec(ts1, line1, old(state).byte, end_span.end..end_span.end, EndTest::EndRawBlock).next;
            lexer::lemma_suffix_drop_first(pending(nx, ts2));
            assert(pending(nx, ts2).drop_first() =~= ts2);
            call::lemma_advanced_trans(None, ts0, line0, None, ts1, line1, nx, ts2, line2);
            lexer::lemma_suffix_trans(ts2, pending(nx, ts2), ts0);
            lexer::lemma_suffix_refl(ts2);
            call::lemma_advanced_input(source, *old(lexer), line0, None, *lexer, state.line, None);
        }
        let end_tag = match call::parse(source, lexer, state, span, CallParseContext::Raw) {
            Ok(c) => c,
            Err(e) => {
                proof {
                    lexer::lemma_suffix_trans(lexer.rest(), ts2, ts0);
                }
                return Err(e);
            },
        };
        proof {
            lexer::lemma_suffix_trans(lexer.rest(), ts2, ts0);
            end_tag.lemma_views();
        }
        if let Some(close_span) = end_tag.close_span() {
            let exit_span = end_tag.open_span().start..close_span.end;
            block.exit(exit_span);
        } else {
            return Err(state.error(SyntaxErrorKind::RawBlockNotTerminated));
        }
        let end_target = end_tag.target();
        proof {
            crate::parser::ast::lemma_target_spans(end_tag@.target);
            end_target.lemma_slice();
        }
        let end_name = end_target.as_str();
        if !str_eq(open_name, end_name) {
            proof {
                crate::text::lemma_text_of_bytes(open_name);
            }
            let note = opening_note_text(open_name);
            return Err(state.error_note(SyntaxErrorKind::TagNameMismatch, note));
        }
        block.lines_end(state.line());
        let res = Node::Block(block);
        proof {
            crate::parser::ast::lemma_node_view(res);
            assert(is_suffix(lexer.rest(), ts0));
            assert(block@.nodes == seq![node@]);
            crate::parser::ast::lemma_nodes_display_ok(seq![node@]);
            crate::parser::ast::lemma_nodes_display_ok(block@.conditionals);
        }
        Ok(res)
    } else {
        Err(state.error(SyntaxErrorKind::RawBlockNotTerminated))
    }
}

/// A raw block that parses is closed and holds exactly one child, the
/// text between its tags, and no conditionals.
pub proof fn lemma_raw_single_text(source: &str, ts: Seq<Token>, line: usize, byte: usize, span: Range<usize>)
    ensures
        raw_spec(source, ts, line, byte, span).res matches Ok(n) ==> (n matches NodeV::Block(b) && b.raw
            && b.nodes.len() == 1 && b.nodes[0] is Text && b.conditionals.len() == 0 && b.close is Some),
{
    reveal(raw_spec);
    reveal(text_until_spec);
}

/// Reading text gathers the leading run of text tokens: the span grows to
/// the end of the last of them and the first token that is not text is
/// handed back.
pub proof fn lemma_until_text_run(ts: Seq<Token>, line: usize, byte: usize, span: Range<usize>, k: int)
    requires
        0 <= k <= ts.len(),
        forall|i: int| 0 <= i < k ==> spec_is_text(#[trigger] ts[i]),
        k < ts.len() ==> !spec_is_text(ts[k]),
    ensures
        until_spec(ts, line, byte, span, EndTest::NotText).next == (if k < ts.len() {
            Some(ts[k])
        } else {
            None::<Token>
        }),
        until_spec(ts, line, byte, span, EndTest::NotText).span == (if k == 0 {
            span
        } else {
            span.start..tspan(ts[k - 1]).end
        }),
        until_spec(ts, line, byte, span, EndTest::NotText).rest.len() == if k < ts.len() {
            ts.len() - k - 1
        } else {
            0
        },
    decreases k,
{
    if k > 0 {
        let t = ts[0];
        let l2 = if spec_is_newline(t) {
            (line + 1) as usize
        } else {
            line
        };
        assert forall|i: int| 0 <= i < k - 1 implies spec_is_text(#[trigger] ts.drop_first()[i]) by {
            assert(ts.drop_first()[i] == ts[i + 1]);
        }
        lemma_until_text_run(
            ts.drop_first(),
            l2,
            (tspan(t).end - 1) as usize,
            span.start..tspan(t).end,
            k - 1,
        );
    }
}

} // verus!
