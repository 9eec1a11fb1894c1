//! Convert a token stream to AST nodes.
use std::ops::Range;
use vstd::prelude::*;
use vstd::string::StringSliceAdditionalSpecFns;

use crate::error::{err_at, ErrorInfo, ErrorV, SyntaxError, SyntaxErrorKind, SyntaxResult};
use crate::lexer::{self, is_suffix, pending, spec_is_newline, spec_is_text, tokens_ok, tspan, Lexer, Token};
use crate::parser::ast::{
    close_last, display_ok, exit_spec, nodes_display_ok, push_spec, Block, BlockV, CallTarget,
    Document, DocumentV, Element, Lines, Node, NodeV, Text, TextV, TargetV,
};
use crate::parser::block::{all_after, text_node_spec, until_spec, EndTest, Wrap};
use crate::parser::call::{input_ok, measure, CallParseContext};
use crate::parser::path::{line_budget, runs_ok};

pub mod ast;
pub mod string;
pub mod link;
pub mod path;
pub mod call;
pub mod block;
pub mod iter;

verus! {

/// The default file name, `unknown`.
pub open spec fn unknown_name() -> Seq<char> {
    seq!['u', 'n', 'k', 'n', 'o', 'w', 'n']
}

/// Set the file name used in error messages.
///
/// It is also possible to set the line and byte offsets if your template
/// is being extracted from a larger document.
#[derive(Debug)]
pub struct ParserOptions {
    /// The name of a file for the template source being parsed.
    pub file_name: String,
    /// A line offset into the file for error reporting,
    /// the first line has index zero.
    pub line_offset: usize,
    /// Byte offset into the source file.
    pub byte_offset: usize,
}

impl ParserOptions {
    /// Create parser options using the given `file_name`.
    pub fn new(file_name: String, line_offset: usize, byte_offset: usize) -> (res: Self)
        ensures
            res.file_name == file_name,
            res.line_offset == line_offset,
            res.byte_offset == byte_offset,
    {
        Self { file_name, line_offset, byte_offset }
    }
}

impl Default for ParserOptions {
    fn default() -> (res: Self)
        ensures
            res.file_name@ == unknown_name(),
            res.line_offset == 0,
            res.byte_offset == 0,
    {
        let name = "unknown";
        proof {
            reveal_strlit("unknown");
        }
        Self { file_name: name.to_owned(), line_offset: 0, byte_offset: 0 }
    }
}

/// Position of the parser: file name, current line and byte offset.
#[derive(Debug)]
pub struct ParseState {
    pub file_name: String,
    pub line: usize,
    pub byte: usize,
}

impl ParseState {
    /// Create a parser state with an unknown file name.
    pub fn new() -> (res: Self)
        ensures
            res.file_name@ == unknown_name(),
            res.line == 0,
            res.byte == 0,
    {
        let name = "unknown";
        proof {
            reveal_strlit("unknown");
        }
        Self { file_name: name.to_owned(), line: 0, byte: 0 }
    }

    /// Create a parser state from parser options.
    pub fn from_options(opts: &ParserOptions) -> (res: Self)
        ensures
            res.file_name == opts.file_name,
            res.line == opts.line_offset,
            res.byte == opts.byte_offset,
    {
        Self { file_name: opts.file_name.clone(), line: opts.line_offset, byte: opts.byte_offset }
    }

    /// The file name.
    pub fn file_name(&self) -> (res: &str)
        ensures
            res@ == self.file_name@,
    {
        self.file_name.as_str()
    }

    /// The current line.
    pub fn line(&self) -> (res: &usize)
        ensures
            *res == self.line,
    {
        &self.line
    }

    /// Mutable reference to the current line.
    pub fn line_mut(&mut self) -> (res: &mut usize)
        ensures
            *res == old(self).line,
            final(self).line == *final(res),
            final(self).byte == old(self).byte,
            final(self).file_name == old(self).file_name,
    {
        &mut self.line
    }

    /// The current byte offset.
    pub fn byte(&self) -> (res: &usize)
        ensures
            *res == self.byte,
    {
        &self.byte
    }

    /// Mutable reference to the current byte offset.
    pub fn byte_mut(&mut self) -> (res: &mut usize)
        ensures
            *res == old(self).byte,
            final(self).byte == *final(res),
            final(self).line == old(self).line,
            final(self).file_name == old(self).file_name,
    {
        &mut self.byte
    }

    /// An initial line range for this parse state: the current line only.
    pub fn line_range(&self) -> (res: Range<usize>)
        requires
            self.line < usize::MAX,
        ensures
            res.start == self.line,
            res.end == self.line + 1,
    {
        self.line..self.line + 1
    }

    /// A syntax error of the given kind at the current position, with one
    /// note for the reader.
    pub fn error_note(&self, kind: SyntaxErrorKind, note: String) -> (res: SyntaxError)
        ensures
            res@ == (ErrorV { kind, line: self.line, byte: self.byte, notes: seq![note@] }),
            res.info.file_name == self.file_name,
    {
        let mut res = self.error(kind);
        res.info.notes.push(note);
        assert(res@.notes =~= seq![note@]);
        res
    }

    /// A syntax error of the given kind at the current position.
    pub fn error(&self, kind: SyntaxErrorKind) -> (res: SyntaxError)
        ensures
            res@ == err_at(kind, self.line, self.byte),
            res.info.file_name == self.file_name,
    {
        let info = ErrorInfo {
            file_name: self.file_name.clone(),
            line: self.line,
            byte: self.byte,
            notes: Vec::new(),
        };
        let res = SyntaxError { kind, info };
        assert(res@.notes =~= Seq::<Seq<char>>::empty());
        res
    }
}

// ---------------------------------------------------------------------
// The parser
// ---------------------------------------------------------------------

/// The parser's state as values: the open blocks (each with the bytes of
/// its name), the token held back, the tokens left and the position.
pub struct PState<'s> {
    pub stack: Seq<(Seq<u8>, BlockV<'s>)>,
    pub held: Option<Token>,
    pub rest: Seq<Token>,
    pub line: usize,
    pub byte: usize,
}

/// Outcome of a parsing step: a node (or none) or an error, and the state
/// reached.
pub struct AdvOut<'s> {
    pub res: Result<Option<NodeV<'s>>, ErrorV>,
    pub st: PState<'s>,
}

/// How much is left to parse from a state.
pub open spec fn pmeasure(st: PState) -> nat {
    measure(st.held, st.rest)
}

/// Take the next token: the held token first, else the next remaining one.
pub open spec fn take_spec<'s>(st: PState<'s>) -> (Option<Token>, PState<'s>) {
    match st.held {
        Some(t) => (Some(t), PState { held: None, ..st }),
        None => if st.rest.len() > 0 {
            (Some(st.rest[0]), PState { rest: st.rest.drop_first(), ..st })
        } else {
            (None, st)
        },
    }
}

/// The note given when a block is closed that was never opened.
pub open spec fn perhaps_note(name: Seq<char>) -> Seq<char> {
    "perhaps open the block '"@ + name + seq!['\'']
}

/// Add a node to the innermost open block: a conditional statement
/// (`else`) starts a new conditional block, anything else is pushed.
pub open spec fn push_node_spec<'s>(
    source: &'s str,
    stack: Seq<(Seq<u8>, BlockV<'s>)>,
    node: NodeV<'s>,
) -> Seq<(Seq<u8>, BlockV<'s>)> {
    let (name, cur) = stack.last();
    let cur2 = match node {
        NodeV::Statement(c) => if c.conditional {
            let cond = BlockV::fresh(source, c.open, false, c.line, c);
            BlockV {
                conditionals: close_last(cur.conditionals, cond.call.open).push(NodeV::Block(cond)),
                ..cur
            }
        } else {
            push_spec(cur, node)
        },
        _ => push_spec(cur, node),
    };
    stack.update(stack.len() - 1, (name, cur2))
}

/// Adding a node that can be displayed to the innermost open block keeps
/// every open block's nodes displayable.
proof fn lemma_push_node_ok<'s>(source: &'s str, stack: Seq<(Seq<u8>, BlockV<'s>)>, node: NodeV<'s>)
    requires
        stack.len() > 0,
        stack_ok(stack),
        display_ok(node),
    ensures
        stack_ok(push_node_spec(source, stack, node)),
{
    let st2 = push_node_spec(source, stack, node);
    let cur = stack.last().1;
    assert(display_ok(NodeV::Block(stack[stack.len() - 1].1)));
    match node {
        NodeV::Statement(c) => if c.conditional {
            let cond = BlockV::fresh(source, c.open, false, c.line, c);
            crate::parser::ast::lemma_close_last_ok(cur.conditionals, cond.call.open);
            crate::parser::ast::lemma_nodes_display_ok(cond.nodes);
            crate::parser::ast::lemma_nodes_display_ok(cond.conditionals);
            crate::parser::ast::lemma_nodes_push_ok(
                close_last(cur.conditionals, cond.call.open),
                NodeV::Block(cond),
            );
        } else {
            crate::parser::ast::lemma_push_spec_ok(cur, node);
        },
        _ => crate::parser::ast::lemma_push_spec_ok(cur, node),
    }
    assert forall|i: int| 0 <= i < st2.len() implies display_ok(NodeV::Block(#[trigger] st2[i].1)) by {
        if i < stack.len() - 1 {
            assert(st2[i] == stack[i]);
        }
    }
}

/// A node parsed from the remaining tokens, in state `st`.
pub open spec fn node_step<'s>(st: PState<'s>, o: crate::parser::block::NodeOut<'s>) -> AdvOut<'s> {
    AdvOut {
        res: match o.res {
            Ok(n) => Ok(Some(n)),
            Err(e) => Err(e),
        },
        st: PState { rest: o.rest, line: o.line, byte: o.byte, ..st },
    }
}

/// A run of text tokens, starting with `t`, becomes one text node; the
/// token that ends the run is held back.
pub open spec fn text_step<'s>(source: &'s str, st: PState<'s>, t: Token) -> AdvOut<'s> {
    let uo = until_spec(st.rest, st.line, st.byte, tspan(t), EndTest::NotText);
    AdvOut {
        res: Ok(Some(NodeV::Text(TextV { source, span: uo.span, line: st.line..(uo.line + 1) as usize }))),
        st: PState { held: uo.next, rest: uo.rest, line: uo.line, byte: uo.byte, ..st },
    }
}

/// A statement tag becomes a statement node.
pub open spec fn statement_step<'s>(source: &'s str, st: PState<'s>, span: Range<usize>) -> AdvOut<'s> {
    let co = crate::parser::call::parse_spec(source, st.rest, st.line, st.byte, span);
    AdvOut {
        res: match co.res {
            Ok(c) => Ok(Some(NodeV::Statement(c))),
            Err(e) => Err(e),
        },
        st: PState { rest: co.rest, line: co.line, byte: co.byte, ..st },
    }
}

/// An end tag closes the innermost open block, whose name it must repeat;
/// the block's close span covers the whole end tag.
pub open spec fn close_scope_spec<'s>(source: &'s str, st: PState<'s>, span: Range<usize>) -> AdvOut<'s> {
    let so = crate::parser::block::scope_spec(source, st.rest, st.line, st.byte, span);
    let st2 = PState { rest: so.rest, line: so.line, byte: so.byte, ..st };
    match so.res {
        Err(e) => AdvOut { res: Err(e), st: st2 },
        Ok(temp) => if st.stack.len() == 0 {
            AdvOut {
                res: Err(
                    ErrorV {
                        kind: SyntaxErrorKind::BlockNotOpen,
                        line: so.line,
                        byte: span.start,
                        notes: match temp.name() {
                            Some(close) => seq![perhaps_note(vstd::utf8::decode_utf8(close))],
                            None => Seq::empty(),
                        },
                    },
                ),
                st: PState { byte: span.start, ..st2 },
            }
        } else {
            let (open_name, block) = st.stack.last();
            let st3 = PState { stack: st.stack.drop_last(), ..st2 };
            match temp.name() {
                Some(close_name) => if open_name != close_name {
                    AdvOut {
                        res: Err(
                            ErrorV {
                                kind: SyntaxErrorKind::TagNameMismatch,
                                line: so.line,
                                byte: so.byte,
                                notes: seq![crate::parser::block::opening_note(vstd::utf8::decode_utf8(open_name))],
                            },
                        ),
                        st: st3,
                    }
                } else {
                    let end = match temp.call.close {
                        Some(c) => c.end,
                        None => span.end,
                    };
                    AdvOut { res: Ok(Some(NodeV::Block(exit_spec(block, span.start..end)))), st: st3 }
                },
                None => AdvOut {
                    res: Err(err_at(SyntaxErrorKind::ExpectedIdentifier, so.line, so.byte)),
                    st: st3,
                },
            }
        },
    }
}

/// Consume the token `t` (already taken) and yield a node: a run of text
/// becomes one text node; raw blocks, comments and statements are parsed;
/// a block scope is parsed up to its end tag; an end tag closes the
/// innermost open block.
pub open spec fn advance_spec<'s>(source: &'s str, st: PState<'s>, t: Token) -> AdvOut<'s>
    decreases pmeasure(st), 3nat,
{
    let st1 = PState {
        line: if spec_is_newline(t) {
            (st.line + 1) as usize
        } else {
            st.line
        },
        ..st
    };
    if spec_is_text(t) {
        text_step(source, st1, t)
    } else {
        match t {
            Token::Block(lex, span) => match lex {
                lexer::Block::StartRawBlock => node_step(
                    st1,
                    crate::parser::block::raw_spec(source, st1.rest, st1.line, st1.byte, span),
                ),
                lexer::Block::StartRawComment => node_step(
                    st1,
                    text_node_spec(
                        source,
                        st1.rest,
                        st1.line,
                        st1.byte,
                        span,
                        EndTest::EndRawComment,
                        Wrap::RawComment,
                        SyntaxErrorKind::RawCommentNotTerminated,
                    ),
                ),
                lexer::Block::StartRawStatement => node_step(
                    st1,
                    text_node_spec(
                        source,
                        st1.rest,
                        st1.line,
                        st1.byte,
                        span,
                        EndTest::EndRawStatement,
                        Wrap::RawStatement,
                        SyntaxErrorKind::RawStatementNotTerminated,
                    ),
                ),
                lexer::Block::StartComment => node_step(
                    st1,
                    text_node_spec(
                        source,
                        st1.rest,
                        st1.line,
                        st1.byte,
                        span,
                        EndTest::EndComment,
                        Wrap::Comment,
                        SyntaxErrorKind::CommentNotTerminated,
                    ),
                ),
                lexer::Block::StartBlockScope => open_scope_spec(source, st1, span),
                lexer::Block::EndBlockScope => close_scope_spec(source, st1, span),
                lexer::Block::StartStatement => statement_step(source, st1, span),
                _ => AdvOut { res: Ok(None), st: st1 },
            },
            _ => AdvOut { res: Ok(None), st: st1 },
        }
    }
}

/// Open a block scope at the tag `span`: its call must name it with a
/// simple identifier; then nodes are parsed into it up to its end tag.
pub open spec fn open_scope_spec<'s>(source: &'s str, st: PState<'s>, span: Range<usize>) -> AdvOut<'s>
    decreases pmeasure(st), 2nat,
{
    let so = crate::parser::block::scope_spec(source, st.rest, st.line, st.byte, span);
    let st2 = PState { rest: so.rest, line: so.line, byte: so.byte, ..st };
    match so.res {
        Err(e) => AdvOut { res: Err(e), st: st2 },
        Ok(block) => match block.name() {
            None => AdvOut { res: Err(err_at(SyntaxErrorKind::ExpectedIdentifier, so.line, so.byte)), st: st2 },
            Some(name) => if block.call.target matches TargetV::Path(p) && !p.is_simple() {
                AdvOut {
                    res: Err(err_at(SyntaxErrorKind::ExpectedSimpleIdentifier, so.line, so.byte)),
                    st: st2,
                }
            } else {
                let st3 = PState { stack: st.stack.push((name, block)), ..st2 };
                if pmeasure(st3) <= pmeasure(st) {
                    scope_loop_spec(source, st3)
                } else {
                    AdvOut { res: Ok(None), st: st3 }
                }
            },
        },
    }
}

/// Inside a block scope: take tokens and parse nodes, adding each to the
/// innermost open block, until a step yields no node or closes the last
/// open block (that node is the result).
pub open spec fn scope_loop_spec<'s>(source: &'s str, st: PState<'s>) -> AdvOut<'s>
    decreases pmeasure(st), 1nat,
{
    let (t, st1) = take_spec(st);
    match t {
        None => AdvOut { res: Ok(None), st },
        Some(t) => if pmeasure(st1) < pmeasure(st) {
            let ao = advance_spec(source, st1, t);
            match ao.res {
                Err(_) => ao,
                Ok(node) => match node {
                    None => ao,
                    Some(n) => if ao.st.stack.len() == 0 {
                        ao
                    } else {
                        let st2 = PState { stack: push_node_spec(source, ao.st.stack, n), ..ao.st };
                        if pmeasure(st2) < pmeasure(st) {
                            scope_loop_spec(source, st2)
                        } else {
                            AdvOut { res: Ok(None), st: st2 }
                        }
                    },
                },
            }
        } else {
            AdvOut { res: Ok(None), st: st1 }
        },
    }
}

/// Outcome of asking the parser for its next node: the node or an error
/// (none when the tokens are used up), the state reached and the errors
/// collected (when they are collected).
pub struct NextOut<'s> {
    pub res: Option<Result<NodeV<'s>, ErrorV>>,
    pub st: PState<'s>,
    pub collected: Option<Seq<ErrorV>>,
}

/// The next node: take a token and advance; steps that yield no node yield
/// nothing. When errors are collected, an error is recorded, tokens are
/// skipped up to the next top-level token, and parsing goes on.
pub open spec fn next_spec<'s>(source: &'s str, st: PState<'s>, collected: Option<Seq<ErrorV>>) -> NextOut<'s>
    decreases pmeasure(st),
{
    let (t, st1) = take_spec(st);
    match t {
        None => NextOut { res: None, st, collected },
        Some(t) => if pmeasure(st1) < pmeasure(st) {
            let ao = advance_spec(source, st1, t);
            match ao.res {
                Ok(node) => NextOut {
                    res: match node {
                        Some(n) => Some(Ok(n)),
                        None => None,
                    },
                    st: ao.st,
                    collected,
                },
                Err(e) => match collected {
                    Some(errs) => {
                        let (h, r) = lexer::skip_to_block(ao.st.rest);
                        let st2 = PState { held: h, rest: r, ..ao.st };
                        if pmeasure(st2) < pmeasure(st) {
                            next_spec(source, st2, Some(errs.push(e)))
                        } else {
                            NextOut { res: None, st: st2, collected: Some(errs.push(e)) }
                        }
                    },
                    None => NextOut { res: Some(Err(e)), st: ao.st, collected },
                },
            }
        } else {
            NextOut { res: None, st: st1, collected }
        },
    }
}

/// Outcome of parsing a whole document: its view or an error, the state
/// reached and the errors collected.
pub struct DocOut<'s> {
    pub res: Result<DocumentV<'s>, ErrorV>,
    pub st: PState<'s>,
    pub collected: Option<Seq<ErrorV>>,
}

/// Parse the rest of a document: every next node is added after `nodes`
/// until there are none left; the first error (when errors are not
/// collected) ends parsing.
pub open spec fn doc_spec<'s>(
    source: &'s str,
    st: PState<'s>,
    collected: Option<Seq<ErrorV>>,
    nodes: Seq<NodeV<'s>>,
) -> DocOut<'s>
    decreases pmeasure(st),
{
    let no = next_spec(source, st, collected);
    match no.res {
        None => DocOut { res: Ok(DocumentV { source, nodes }), st: no.st, collected: no.collected },
        Some(Err(e)) => DocOut { res: Err(e), st: no.st, collected: no.collected },
        Some(Ok(n)) => if pmeasure(no.st) < pmeasure(st) {
            doc_spec(source, no.st, no.collected, nodes.push(n))
        } else {
            DocOut { res: Ok(DocumentV { source, nodes: nodes.push(n) }), st: no.st, collected: no.collected }
        },
    }
}

/// Convert a lexer token stream to AST nodes.
///
/// Call [`Parser::next`] for one node at a time, or [`Parser::parse`] for
/// the whole document.
pub struct Parser<'source> {
    source: &'source str,
    lexer: Lexer<'source>,
    state: ParseState,
    stack: Vec<(&'source str, Block<'source>)>,
    next_token: Option<Token>,
    errors: Option<Vec<SyntaxError>>,
}

/// Every open block holds only nodes that can be displayed.
pub open spec fn stack_ok<'s>(stack: Seq<(Seq<u8>, BlockV<'s>)>) -> bool {
    forall|i: int| 0 <= i < stack.len() ==> display_ok(NodeV::Block(#[trigger] stack[i].1))
}

/// The views of the open blocks: name bytes and block.
pub open spec fn stack_view<'s>(stack: Seq<(&'s str, Block<'s>)>) -> Seq<(Seq<u8>, BlockV<'s>)> {
    stack.map_values(|e: (&'s str, Block<'s>)| (e.0.spec_bytes(), e.1@))
}

/// The views of collected errors.
pub open spec fn errors_view(errors: Option<Vec<SyntaxError>>) -> Option<Seq<ErrorV>> {
    match errors {
        Some(v) => Some(v@.map_values(|e: SyntaxError| e@)),
        None => None,
    }
}

/// Text for the note given when a block is closed that was never opened.
fn perhaps_note_text(name: &str) -> (res: String)
    ensures
        res@ == perhaps_note(name@),
{
    let mut note = "perhaps open the block '".to_owned();
    crate::text::push_str(&mut note, name);
    crate::text::push_char(&mut note, '\'');
    note
}

impl<'source> Parser<'source> {
    /// The template source.
    pub closed spec fn src(&self) -> &'source str {
        self.source
    }

    /// The parser's state as values.
    pub closed spec fn pstate(&self) -> PState<'source> {
        PState {
            stack: stack_view(self.stack@),
            held: self.next_token,
            rest: self.lexer.rest(),
            line: self.state.line,
            byte: self.state.byte,
        }
    }

    /// The file name used in errors.
    pub closed spec fn spec_file_name(&self) -> String {
        self.state.file_name
    }

    /// The errors collected so far, when errors are collected.
    pub closed spec fn collected(&self) -> Option<Seq<ErrorV>> {
        errors_view(self.errors)
    }

    /// The tokens still to be parsed (the held token first) fit the source,
    /// and line numbers cannot overflow.
    pub closed spec fn wf(&self) -> bool {
        &&& input_ok(self.source, self.lexer, self.state.line, self.next_token)
        &&& stack_ok(stack_view(self.stack@))
    }

    /// Create a new parser for a token stream over a template source.
    pub fn new(lexer: Lexer<'source>, options: ParserOptions) -> (res: Self)
        requires
            lexer.wf(),
            runs_ok(lexer.rest()),
            line_budget(options.line_offset, lexer.rest(), false) < usize::MAX,
        ensures
            res.wf(),
            res.src() == lexer.src(),
            res.pstate() == (PState {
                stack: Seq::empty(),
                held: None,
                rest: lexer.rest(),
                line: options.line_offset,
                byte: options.byte_offset,
            }),
            res.spec_file_name() == options.file_name,
            res.collected() is None,
    {
        let source = lexer.source();
        let state = ParseState::from_options(&options);
        proof {
            lexer.lemma_wf();
        }
        let res = Self { source, lexer, state, stack: Vec::new(), next_token: None, errors: None };
        assert(stack_view(res.stack@) =~= Seq::empty());
        res
    }

    /// Collect syntax errors into `errors` instead of failing.
    ///
    /// Changes the behavior of this parser to be infallible to
    /// support a *lint* operation.
    pub fn set_errors(&mut self, errors: Vec<SyntaxError>)
        ensures
            final(self).collected() == Some(errors@.map_values(|e: SyntaxError| e@)),
            final(self).pstate() == old(self).pstate(),
            final(self).src() == old(self).src(),
            final(self).spec_file_name() == old(self).spec_file_name(),
            final(self).wf() == old(self).wf(),
    {
        self.errors = Some(errors);
    }

    /// The errors collected so far, when errors are collected.
    pub fn errors(&self) -> (res: Option<&Vec<SyntaxError>>)
        ensures
            match res {
                Some(v) => self.collected() == Some(v@.map_values(|e: SyntaxError| e@)),
                None => self.collected() is None,
            },
    {
        match &self.errors {
            Some(v) => Some(v),
            None => None,
        }
    }

    /// Give up the parser for the errors it collected, when it collects
    /// them.
    pub fn into_errors(self) -> (res: Option<Vec<SyntaxError>>)
        ensures
            match res {
                Some(v) => self.collected() == Some(v@.map_values(|e: SyntaxError| e@)),
                None => self.collected() is None,
            },
    {
        self.errors
    }

    /// Yield the next token accounting for text normalization which
    /// saves the next token for further processing.
    fn token(&mut self) -> (res: Option<Token>)
        requires
            old(self).wf(),
        ensures
            (res, final(self).pstate()) == take_spec(old(self).pstate()),
            input_ok(final(self).source, final(self).lexer, final(self).state.line, res),
            final(self).next_token is None,
            final(self).source == old(self).source,
            final(self).state.file_name == old(self).state.file_name,
            final(self).errors == old(self).errors,
            final(self).stack == old(self).stack,
    {
        if let Some(t) = self.next_token.take() {
            self.next_token = None;
            Some(t)
        } else {
            proof {
                self.lexer.lemma_wf();
            }
            let ghost ts = self.lexer.rest();
            let t = self.lexer.next();
            proof {
                if ts.len() > 0 {
                    lexer::lemma_pending_take(ts);
                }
            }
            t
        }
    }
}

/// What a parsing step keeps: the source, the file name and the collected
/// errors; the parser stays well-formed and the tokens left are a suffix of
/// those before.
spec fn keeps<'s>(p0: Parser<'s>, p1: Parser<'s>) -> bool {
    &&& p1.source == p0.source
    &&& p1.state.file_name == p0.state.file_name
    &&& p1.errors == p0.errors
    &&& p1.wf()
    &&& is_suffix(p1.lexer.rest(), p0.lexer.rest())
    &&& pmeasure(p1.pstate()) <= pmeasure(p0.pstate())
}

/// A parsing step went as `out` says.
spec fn adv_done<'s>(
    p0: Parser<'s>,
    p1: Parser<'s>,
    res: SyntaxResult<Option<Node<'s>>>,
    out: AdvOut<'s>,
) -> bool {
    &&& keeps(p0, p1)
    &&& p1.pstate() == out.st
    &&& (res matches Ok(Some(n)) ==> display_ok(n@))
    &&& match res {
        Ok(n) => out.res == Ok::<Option<NodeV<'s>>, ErrorV>(
            match n {
                Some(n) => Some(n@),
                None => None,
            },
        ),
        Err(e) => out.res == Err::<Option<NodeV<'s>>, ErrorV>(e@) && e.info.file_name
            == p0.state.file_name,
    }
}

/// Skipping to the next top-level token leaves a suffix, and takes a token
/// when it holds one.
proof fn lemma_skip_to_block(ts: Seq<Token>)
    ensures
        is_suffix(lexer::skip_to_block(ts).1, ts),
        is_suffix(pending(lexer::skip_to_block(ts).0, lexer::skip_to_block(ts).1), ts),
        lexer::skip_to_block(ts).0 is Some ==> lexer::skip_to_block(ts).1.len() < ts.len(),
    decreases ts.len(),
{
    if ts.len() == 0 {
        lexer::lemma_suffix_refl(ts);
    } else {
        lexer::lemma_suffix_drop_first(ts);
        match ts[0] {
            Token::Block(k, s) => {
                lexer::lemma_pending_take(ts);
                lexer::lemma_suffix_refl(ts);
            },
            _ => {
                lemma_skip_to_block(ts.drop_first());
                lexer::lemma_suffix_trans(lexer::skip_to_block(ts).1, ts.drop_first(), ts);
                lexer::lemma_suffix_trans(
                    pending(lexer::skip_to_block(ts).0, lexer::skip_to_block(ts).1),
                    ts.drop_first(),
                    ts,
                );
            },
        }
    }
}

impl<'source> Parser<'source> {
    /// Add a node to the innermost open block; a conditional statement
    /// (`else`) starts a new conditional block.
    fn push_node(&mut self, node: Node<'source>)
        requires
            old(self).stack@.len() > 0,
        ensures
            final(self).pstate() == (PState {
                stack: push_node_spec(old(self).source, old(self).pstate().stack, node@),
                ..old(self).pstate()
            }),
            final(self).source == old(self).source,
            final(self).lexer == old(self).lexer,
            final(self).state == old(self).state,
            final(self).next_token == old(self).next_token,
            final(self).errors == old(self).errors,
    {
        let ghost st0 = self.stack@;
        let (name, current) = self.stack.pop().unwrap();
        let mut current = current;
        proof {
            assert(self.stack@ =~= st0.drop_last());
            crate::parser::ast::lemma_node_view(node);
        }
        match node {
            // NOTE: The push() implementation on Block
            // NOTE: will add to the last conditional if
            // NOTE: any conditions are present.
            Node::Statement(call) => {
                proof {
                    call.lemma_views();
                }
                if call.is_conditional() {
                    let open = call.open_span();
                    let lines = call.lines();
                    let mut condition = Block::new(self.source, open.start..open.end, false, lines.start..lines.end);
                    condition.set_call(call);
                    current.add_condition(condition);
                } else {
                    let n = Node::Statement(call);
                    proof {
                        crate::parser::ast::lemma_node_view(n);
                    }
                    current.push(n);
                }
            },
            other => {
                current.push(other);
            },
        }
        self.stack.push((name, current));
        proof {
            assert(stack_view(self.stack@) =~= push_node_spec(self.source, stack_view(st0), node@));
        }
    }

    /// Consume tokens and yield nodes.
    ///
    /// Decoupled from the iterator `next()` implementation as it needs to
    /// greedily consume tokens and advance again when entering block scopes.
    fn advance(&mut self, next: Token) -> (res: SyntaxResult<Option<Node<'source>>>)
        requires
            input_ok(old(self).source, old(self).lexer, old(self).state.line, Some(next)),
            old(self).next_token is None,
            stack_ok(stack_view(old(self).stack@)),
        ensures
            adv_done(*old(self), *final(self), res, advance_spec(old(self).source, old(self).pstate(), next)),
        decreases pmeasure(old(self).pstate()), 3nat,
    {
        let ghost ts0 = self.lexer.rest();
        let ghost line0 = self.state.line;
        let ghost tok0 = next;
        proof {
            crate::parser::call::lemma_held(self.source, next, ts0);
            self.lexer.lemma_wf();
            lexer::lemma_suffix_refl(ts0);
            // The token taken fits the source and comes before the rest.
            assert(pending(Some(tok0), ts0)[0] == tok0);
            assert(pending(Some(tok0), ts0).drop_first() =~= ts0);
            lexer::lemma_suffix_drop_first(pending(Some(tok0), ts0));
            lexer::lemma_suffix_ok(self.source, ts0, pending(Some(tok0), ts0));
            crate::parser::call::lemma_ends_before(self.source, tok0, ts0);
            assert(lexer::token_ok(self.source, tok0));
            assert(all_after(ts0, tspan(tok0).end as int));
        }
        if next.is_newline() {
            self.state.line = self.state.line + 1;
        }
        proof {
            crate::parser::call::lemma_advanced_refl(None, ts0, self.state.line);
        }
        // Normalize consecutive text nodes
        if next.is_text() {
            let mut line_range = self.state.line_range();
            let ghost line1 = self.state.line;
            proof {
                crate::parser::block::lemma_until_valid(
                    self.source,
                    ts0,
                    line1,
                    self.state.byte,
                    tspan(tok0),
                    EndTest::NotText,
                );
            }
            let (span, next) = crate::parser::block::until(
                &mut self.lexer,
                &mut self.state,
                next.span().start..next.span().end,
                EndTest::NotText,
            );
            self.next_token = next;
            line_range.end = self.state.line + 1;
            let res = Node::Text(Text::new(self.source, span, line_range));
            proof {
                crate::parser::ast::lemma_node_view(res);
                crate::parser::call::lemma_advanced_input(
                    self.source,
                    old(self).lexer,
                    line1,
                    None,
                    self.lexer,
                    self.state.line,
                    next,
                );
                crate::parser::call::lemma_advanced_measure(None, ts0, line1, next, self.lexer.rest(), self.state.line);
            }
            return Ok(Some(res));
        }
        match next {
            Token::Block(lex, span) => match lex {
                lexer::Block::StartRawBlock => {
                    let res = crate::parser::block::raw(self.source, &mut self.lexer, &mut self.state, span);
                    proof {
                        self.lemma_after_step(old(self).lexer, line0, ts0);
                    }
                    match res {
                        Ok(n) => Ok(Some(n)),
                        Err(e) => Err(e),
                    }
                },
                lexer::Block::StartRawComment => {
                    proof {
                        reveal(text_node_spec);
                        crate::parser::block::lemma_text_until_display(
                            self.source,
                            ts0,
                            self.state.line,
                            self.state.byte,
                            span,
                            EndTest::EndRawComment,
                            Wrap::RawComment,
                        );
                    }
                    let res = crate::parser::block::raw_comment(self.source, &mut self.lexer, &mut self.state, span);
                    proof {
                        self.lemma_after_step(old(self).lexer, line0, ts0);
                    }
                    match res {
                        Ok(n) => Ok(Some(n)),
                        Err(e) => Err(e),
                    }
                },
                lexer::Block::StartRawStatement => {
                    proof {
                        reveal(text_node_spec);
                        crate::parser::block::lemma_text_until_display(
                            self.source,
                            ts0,
                            self.state.line,
                            self.state.byte,
                            span,
                            EndTest::EndRawStatement,
                            Wrap::RawStatement,
                        );
                    }
                    let res = crate::parser::block::raw_statement(self.source, &mut self.lexer, &mut self.state, span);
                    proof {
                        self.lemma_after_step(old(self).lexer, line0, ts0);
                    }
                    match res {
                        Ok(n) => Ok(Some(n)),
                        Err(e) => Err(e),
                    }
                },
                lexer::Block::StartComment => {
                    proof {
                        reveal(text_node_spec);
                        crate::parser::block::lemma_text_until_display(
                            self.source,
                            ts0,
                            self.state.line,
                            self.state.byte,
                            span,
                            EndTest::EndComment,
                            Wrap::Comment,
                        );
                    }
                    let res = crate::parser::block::comment(self.source, &mut self.lexer, &mut self.state, span);
                    proof {
                        self.lemma_after_step(old(self).lexer, line0, ts0);
                    }
                    match res {
                        Ok(n) => Ok(Some(n)),
                        Err(e) => Err(e),
                    }
                },
                lexer::Block::StartBlockScope => self.open_scope(span),
                lexer::Block::EndBlockScope => self.close_scope(span),
                lexer::Block::StartStatement => {
                    let context = if self.stack.len() == 0 {
                        CallParseContext::Statement
                    } else {
                        CallParseContext::ScopeStatement
                    };
                    let res = crate::parser::call::parse(self.source, &mut self.lexer, &mut self.state, span, context);
                    proof {
                        self.lemma_after_step(old(self).lexer, line0, ts0);
                    }
                    match res {
                        Ok(call) => {
                            let n = Node::Statement(call);
                            proof {
                                crate::parser::ast::lemma_node_view(n);
                                if call@.close is Some {
                                    let k = choose|k: int|
                                        0 <= k < ts0.len() && tspan(#[trigger] ts0[k]) == call@.close->Some_0;
                                    assert(lexer::token_ok(self.source, ts0[k]));
                                }
                            }
                            Ok(Some(n))
                        },
                        Err(e) => Err(e),
                    }
                },
                _ => Ok(None),
            },
            _ => Ok(None),
        }
    }

    /// After a step that started with no held token at `line0` over `ts0`
    /// (one token before them already taken), the parser is well-formed.
    proof fn lemma_after_step(&self, l0: Lexer<'source>, line0: usize, ts0: Seq<Token>)
        requires
            self.next_token is None,
            self.lexer.wf(),
            self.lexer.src() == self.source,
            l0.rest() == ts0,
            tokens_ok(self.source, ts0),
            runs_ok(ts0),
            is_suffix(self.lexer.rest(), ts0),
            line_budget(self.state.line, self.lexer.rest(), false) < usize::MAX,
            stack_ok(stack_view(self.stack@)),
        ensures
            self.wf(),
            pmeasure(self.pstate()) <= measure(None, ts0),
    {
        lexer::lemma_suffix_ok(self.source, self.lexer.rest(), ts0);
        crate::parser::path::lemma_runs_suffix(self.lexer.rest(), ts0);
    }
}

impl<'source> Parser<'source> {
    /// Open a scoped block and parse its inner nodes up to its end tag.
    fn open_scope(&mut self, span: Range<usize>) -> (res: SyntaxResult<Option<Node<'source>>>)
        requires
            input_ok(old(self).source, old(self).lexer, old(self).state.line, None),
            old(self).next_token is None,
            stack_ok(stack_view(old(self).stack@)),
        ensures
            adv_done(*old(self), *final(self), res, open_scope_spec(old(self).source, old(self).pstate(), span)),
        decreases pmeasure(old(self).pstate()), 2nat,
    {
        let ghost ts0 = self.lexer.rest();
        let ghost line0 = self.state.line;
        let block = crate::parser::block::scope(self.source, &mut self.lexer, &mut self.state, span);
        proof {
            self.lemma_after_step(old(self).lexer, line0, ts0);
        }
        let block = match block {
            Ok(b) => b,
            Err(e) => {
                return Err(e);
            },
        };
        proof {
            if let TargetV::Path(p) = block@.call.target {
                crate::parser::ast::lemma_comps_slice(p);
            }
        }
        let name = match block.name() {
            Some(n) => n,
            None => {
                return Err(self.state.error(SyntaxErrorKind::ExpectedIdentifier));
            },
        };
        let target = block.call().target();
        proof {
            crate::parser::ast::lemma_target_view(*target);
        }
        match target {
            CallTarget::Path(path) => {
                if !path.is_simple() {
                    return Err(self.state.error(SyntaxErrorKind::ExpectedSimpleIdentifier));
                }
            },
            CallTarget::SubExpr(_) => {},
        }
        let ghost st_before = self.stack@;
        let ghost bv = block@;
        self.stack.push((name, block));
        proof {
            assert(stack_view(self.stack@) =~= stack_view(st_before).push((name.spec_bytes(), bv)));
            crate::parser::ast::lemma_nodes_display_ok(bv.nodes);
            crate::parser::ast::lemma_nodes_display_ok(bv.conditionals);
            assert forall|i: int| 0 <= i < stack_view(self.stack@).len() implies display_ok(
                NodeV::Block(#[trigger] stack_view(self.stack@)[i].1),
            ) by {
                if i < stack_view(st_before).len() {
                    assert(stack_view(self.stack@)[i] == stack_view(st_before)[i]);
                }
            }
        }
        let ghost out = scope_loop_spec(self.source, self.pstate());
        loop
            invariant
                keeps(*old(self), *self),
                scope_loop_spec(self.source, self.pstate()) == out,
                out == open_scope_spec(old(self).source, old(self).pstate(), span),
            decreases pmeasure(self.pstate()),
        {
            let ghost p1 = *self;
            let t = match self.token() {
                Some(t) => t,
                None => {
                    return Ok(None);
                },
            };
            let ghost p2 = *self;
            let res = self.advance(t);
            proof {
                if p1.next_token is None && p1.lexer.rest().len() > 0 {
                    lexer::lemma_suffix_drop_first(p1.lexer.rest());
                } else {
                    lexer::lemma_suffix_refl(p1.lexer.rest());
                }
                lexer::lemma_suffix_trans(p2.lexer.rest(), p1.lexer.rest(), old(self).lexer.rest());
                lexer::lemma_suffix_trans(self.lexer.rest(), p2.lexer.rest(), old(self).lexer.rest());
            }
            match res {
                Ok(node) => {
                    if node.is_none() || self.stack.len() == 0 {
                        return Ok(node);
                    }
                    if let Some(node) = node {
                        proof {
                            lemma_push_node_ok(self.source, self.pstate().stack, node@);
                        }
                        self.push_node(node);
                    }
                },
                Err(e) => {
                    return Err(e);
                },
            }
        }
    }

    /// Close the innermost open block with the end tag at `span`.
    fn close_scope(&mut self, span: Range<usize>) -> (res: SyntaxResult<Option<Node<'source>>>)
        requires
            input_ok(old(self).source, old(self).lexer, old(self).state.line, None),
            old(self).next_token is None,
            stack_ok(stack_view(old(self).stack@)),
        ensures
            adv_done(*old(self), *final(self), res, close_scope_spec(old(self).source, old(self).pstate(), span)),
    {
        let ghost ts0 = self.lexer.rest();
        let ghost line0 = self.state.line;
        // Need a temp block to parse the call parameters so we
        // can match the tag end name
        let temp = crate::parser::block::scope(self.source, &mut self.lexer, &mut self.state, span.start..span.end);
        proof {
            self.lemma_after_step(old(self).lexer, line0, ts0);
        }
        let temp = match temp {
            Ok(b) => b,
            Err(e) => {
                return Err(e);
            },
        };
        let temp_call = temp.call();
        proof {
            if let TargetV::Path(p) = temp@.call.target {
                crate::parser::ast::lemma_comps_slice(p);
            }
            temp_call.lemma_views();
        }
        if self.stack.len() == 0 {
            let close = temp.name();
            self.state.byte = span.start;
            let err = match close {
                Some(close) => {
                    proof {
                        crate::text::lemma_text_of_bytes(close);
                    }
                    self.state.error_note(SyntaxErrorKind::BlockNotOpen, perhaps_note_text(close))
                },
                None => self.state.error(SyntaxErrorKind::BlockNotOpen),
            };
            return Err(err);
        }
        let ghost st0 = self.stack@;
        let ghost sp0 = span;
        let (open_name, block) = self.stack.pop().unwrap();
        proof {
            assert(stack_view(self.stack@) =~= stack_view(st0).drop_last());
            assert(stack_view(st0).last() == (open_name.spec_bytes(), block@));
            assert(display_ok(NodeV::Block(stack_view(st0)[stack_view(st0).len() - 1].1)));
            assert forall|i: int| 0 <= i < stack_view(self.stack@).len() implies display_ok(
                NodeV::Block(#[trigger] stack_view(self.stack@)[i].1),
            ) by {
                assert(stack_view(self.stack@)[i] == stack_view(st0)[i]);
            }
        }
        let mut block = block;
        if let Some(close_name) = temp.name() {
            if !crate::text::str_eq(open_name, close_name) {
                proof {
                    crate::text::lemma_text_of_bytes(open_name);
                }
                let note = crate::parser::block::opening_note_text(open_name);
                return Err(self.state.error_note(SyntaxErrorKind::TagNameMismatch, note));
            }
            let mut span = span;
            // Update span for entire close tag: `{{/name}}`!
            if temp_call.is_closed() {
                let end_tag_close = temp_call.span();
                span.end = end_tag_close.end;
            }
            proof {
                let end = match temp@.call.close {
                    Some(c) => c.end,
                    None => sp0.end,
                };
                assert(span.start == sp0.start && span.end == end);
            }
            let ghost bv0 = block@;
            block.exit(span);
            let res = Node::Block(block);
            proof {
                crate::parser::ast::lemma_node_view(res);
                crate::parser::ast::lemma_exit_ok(bv0, span);
            }
            return Ok(Some(res));
        } else {
            return Err(self.state.error(SyntaxErrorKind::ExpectedIdentifier));
        }
    }

    /// Yield the next node, or an error; `None` once the tokens are used
    /// up. When errors are collected (see [`Parser::set_errors`]) an error
    /// is recorded and parsing goes on from the next top-level token.
    pub fn next(&mut self) -> (res: Option<SyntaxResult<Node<'source>>>)
        requires
            old(self).wf(),
        ensures
            final(self).wf(),
            final(self).src() == old(self).src(),
            final(self).spec_file_name() == old(self).spec_file_name(),
            ({
                let o = next_spec(old(self).src(), old(self).pstate(), old(self).collected());
                &&& final(self).pstate() == o.st
                &&& final(self).collected() == o.collected
                &&& match res {
                    None => o.res is None,
                    Some(Ok(n)) => o.res == Some(Ok::<NodeV<'source>, ErrorV>(n@)),
                    Some(Err(e)) => o.res == Some(Err::<NodeV<'source>, ErrorV>(e@))
                        && e.info.file_name == old(self).spec_file_name(),
                }
            }),
            res is Some ==> pmeasure(final(self).pstate()) < pmeasure(old(self).pstate()),
            res matches Some(Ok(n)) ==> display_ok(n@),
        decreases pmeasure(old(self).pstate()),
    {
        if let Some(t) = self.token() {
            match self.advance(t) {
                Ok(node) => {
                    return match node {
                        Some(n) => Some(Ok(n)),
                        None => None,
                    };
                },
                Err(e) => {
                    match self.errors.take() {
                        Some(errors) => {
                            let mut errors = errors;
                            let ghost es = errors@;
                            errors.push(e);
                            self.errors = Some(errors);
                            proof {
                                assert(errors@.map_values(|e: SyntaxError| e@) =~= es.map_values(
                                    |e: SyntaxError| e@,
                                ).push(e@));
                                self.lexer.lemma_wf();
                                lemma_skip_to_block(self.lexer.rest());
                            }
                            // Consume tokens until we reach the top-level lexer mode
                            let ghost ts1 = self.lexer.rest();
                            let ghost held1 = self.next_token;
                            proof {
                                if held1 is Some {
                                    assert(pending(held1, ts1).drop_first() =~= ts1);
                                    lexer::lemma_suffix_drop_first(pending(held1, ts1));
                                } else {
                                    lexer::lemma_suffix_refl(ts1);
                                }
                            }
                            self.next_token = self.lexer.until_mode();
                            proof {
                                crate::parser::path::lemma_runs_suffix(ts1, pending(held1, ts1));
                                lexer::lemma_suffix_ok(self.source, pending(self.next_token, self.lexer.rest()), ts1);
                                crate::parser::path::lemma_runs_suffix(pending(self.next_token, self.lexer.rest()), ts1);
                            }
                            // NOTE: Try to advance to the next node or error
                            // NOTE: when collecting errors
                            return self.next();
                        },
                        None => {
                            return Some(Err(e));
                        },
                    }
                },
            }
        }
        None
    }

    /// Parse the entire document into a node tree.
    ///
    /// This iterates the parser until completion and adds
    /// each node to a `Document` node which is returned. Every node of the
    /// tree, at any depth, can be displayed (see [`display_ok`]): the text it
    /// shows is a valid slice of the source.
    pub fn parse(&mut self) -> (res: SyntaxResult<Node<'source>>)
        requires
            old(self).wf(),
        ensures
            final(self).wf(),
            final(self).src() == old(self).src(),
            final(self).spec_file_name() == old(self).spec_file_name(),
            ({
                let o = doc_spec(old(self).src(), old(self).pstate(), old(self).collected(), Seq::empty());
                &&& final(self).pstate() == o.st
                &&& final(self).collected() == o.collected
                &&& match res {
                    Ok(n) => o.res matches Ok(d) && n@ == NodeV::Document(d),
                    Err(e) => o.res == Err::<DocumentV<'source>, ErrorV>(e@) && e.info.file_name
                        == old(self).spec_file_name(),
                }
            }),
            res matches Ok(n) ==> (n@ matches NodeV::Document(d) && forall|i: int|
                0 <= i < d.nodes.len() ==> display_ok(#[trigger] d.nodes[i])),
    {
        let mut doc = Document(self.source, Vec::new());
        proof {
            crate::parser::ast::lemma_nodes_view(doc.1@);
            assert(crate::parser::ast::nodes_view(doc.1@) =~= Seq::<NodeV<'source>>::empty());
        }
        let ghost out = doc_spec(self.src(), self.pstate(), self.collected(), Seq::empty());
        loop
            invariant
                self.wf(),
                self.src() == old(self).src(),
                self.spec_file_name() == old(self).spec_file_name(),
                doc.0 == self.src(),
                doc_spec(self.src(), self.pstate(), self.collected(), doc@.nodes) == out,
                out == doc_spec(old(self).src(), old(self).pstate(), old(self).collected(), Seq::empty()),
                nodes_display_ok(doc@.nodes),
            decreases pmeasure(self.pstate()),
        {
            match self.next() {
                Some(node) => match node {
                    Ok(node) => {
                        let ghost ns = doc@.nodes;
                        doc.push(node);
                        proof {
                            assert(doc@.nodes.drop_last() =~= ns);
                        }
                    },
                    Err(e) => {
                        return Err(e);
                    },
                },
                None => {
                    let res = Node::Document(doc);
                    proof {
                        crate::parser::ast::lemma_node_view(res);
                        crate::parser::ast::lemma_nodes_display_ok(doc@.nodes);
                    }
                    return Ok(res);
                },
            }
        }
    }
}

/// When errors are collected, asking for the next node never yields an
/// error, and errors stay collected.
pub proof fn lemma_collecting_next(source: &str, st: PState, errs: Seq<ErrorV>)
    ensures
        !(next_spec(source, st, Some(errs)).res matches Some(Err(_))),
        next_spec(source, st, Some(errs)).collected is Some,
    decreases pmeasure(st),
{
    let (t, st1) = take_spec(st);
    if let Some(t) = t {
        if pmeasure(st1) < pmeasure(st) {
            let ao = advance_spec(source, st1, t);
            if let Err(e) = ao.res {
                let (h, r) = lexer::skip_to_block(ao.st.rest);
                let st2 = PState { held: h, rest: r, ..ao.st };
                if pmeasure(st2) < pmeasure(st) {
                    lemma_collecting_next(source, st2, errs.push(e));
                }
            }
        }
    }
}

/// Parsing a document is asking the parser for its next node until it has
/// none: no next node gives the document of the nodes so far, an error ends
/// parsing with that error, and a node (after which less is left to parse,
/// as [`Parser::next`] ensures) is added before parsing goes on.
pub proof fn lemma_parse_by_next(source: &str, st: PState, collected: Option<Seq<ErrorV>>, nodes: Seq<NodeV>)
    ensures
        ({
            let no = next_spec(source, st, collected);
            let d = doc_spec(source, st, collected, nodes);
            match no.res {
                None => d.res == Ok::<DocumentV, ErrorV>(DocumentV { source, nodes }) && d.st == no.st,
                Some(Err(e)) => d.res == Err::<DocumentV, ErrorV>(e),
                Some(Ok(n)) => pmeasure(no.st) < pmeasure(st) ==> d == doc_spec(
                    source,
                    no.st,
                    no.collected,
                    nodes.push(n),
                ),
            }
        }),
{
}

/// `a` starts with `b`.
pub open spec fn starts_with<T>(a: Seq<T>, b: Seq<T>) -> bool {
    b.len() <= a.len() && a.subrange(0, b.len() as int) == b
}

/// Collecting errors only adds to those already collected.
proof fn lemma_next_prefix(source: &str, st: PState, errs: Seq<ErrorV>)
    ensures
        next_spec(source, st, Some(errs)).collected matches Some(c) && starts_with(c, errs),
    decreases pmeasure(st),
{
    lemma_collecting_next(source, st, errs);
    let (t, st1) = take_spec(st);
    if let Some(t) = t {
        if pmeasure(st1) < pmeasure(st) {
            let ao = advance_spec(source, st1, t);
            if let Err(e) = ao.res {
                let (h, r) = lexer::skip_to_block(ao.st.rest);
                let st2 = PState { held: h, rest: r, ..ao.st };
                if pmeasure(st2) < pmeasure(st) {
                    lemma_next_prefix(source, st2, errs.push(e));
                    let c = next_spec(source, st2, Some(errs.push(e))).collected->0;
                    assert(c.subrange(0, errs.len() as int) =~= c.subrange(0, errs.len() as int + 1).subrange(0, errs.len() as int));
                    assert(errs.push(e).subrange(0, errs.len() as int) =~= errs);
                    assert(next_spec(source, st, Some(errs)).collected == Some(c));
                } else {
                    assert(errs.push(e).subrange(0, errs.len() as int) =~= errs);
                }
            } else {
                assert(errs.subrange(0, errs.len() as int) =~= errs);
            }
        } else {
            assert(errs.subrange(0, errs.len() as int) =~= errs);
        }
    } else {
        assert(errs.subrange(0, errs.len() as int) =~= errs);
    }
}

/// Asking for the next node goes the same way whether or not errors are
/// collected, up to the first error; that error is the first one
/// collected.
proof fn lemma_next_modes(source: &str, st: PState, errs: Seq<ErrorV>)
    ensures
        ({
            let a = next_spec(source, st, None);
            let b = next_spec(source, st, Some(errs));
            &&& !(a.res matches Some(Err(_))) ==> b.res == a.res && b.st == a.st && b.collected == Some(errs)
            &&& a.res matches Some(Err(e)) ==> b.collected matches Some(c) && c.len() > errs.len() && c[errs.len() as int] == e
        }),
{
    let (t, st1) = take_spec(st);
    if let Some(t) = t {
        if pmeasure(st1) < pmeasure(st) {
            let ao = advance_spec(source, st1, t);
            if let Err(e) = ao.res {
                let (h, r) = lexer::skip_to_block(ao.st.rest);
                let st2 = PState { held: h, rest: r, ..ao.st };
                if pmeasure(st2) < pmeasure(st) {
                    lemma_next_prefix(source, st2, errs.push(e));
                    let c = next_spec(source, st2, Some(errs.push(e))).collected->0;
                    assert(c.subrange(0, errs.len() as int + 1) == errs.push(e));
                    assert(c[errs.len() as int] == c.subrange(0, errs.len() as int + 1)[errs.len() as int]);
                }
            }
        }
    }
}

/// Collecting errors over a whole document only adds to those already
/// collected.
proof fn lemma_doc_prefix(source: &str, st: PState, errs: Seq<ErrorV>, nodes: Seq<NodeV>)
    ensures
        doc_spec(source, st, Some(errs), nodes).collected matches Some(c) && starts_with(c, errs),
    decreases pmeasure(st),
{
    lemma_next_prefix(source, st, errs);
    lemma_collecting_next(source, st, errs);
    let no = next_spec(source, st, Some(errs));
    let c1 = no.collected->0;
    if let Some(Ok(n)) = no.res {
        if pmeasure(no.st) < pmeasure(st) {
            lemma_doc_prefix(source, no.st, c1, nodes.push(n));
            let c = doc_spec(source, no.st, Some(c1), nodes.push(n)).collected->0;
            assert(c.subrange(0, errs.len() as int) =~= c.subrange(0, c1.len() as int).subrange(0, errs.len() as int));
        }
    }
}

/// Parsing a document goes the same way whether or not errors are
/// collected, up to the first error; that error is the first one
/// collected.
proof fn lemma_doc_modes(source: &str, st: PState, errs: Seq<ErrorV>, nodes: Seq<NodeV>)
    ensures
        ({
            let a = doc_spec(source, st, None, nodes);
            let b = doc_spec(source, st, Some(errs), nodes);
            &&& a.res is Ok ==> b.res == a.res && b.collected == Some(errs)
            &&& a.res matches Err(e) ==> b.collected matches Some(c) && c.len() > errs.len() && c[errs.len() as int] == e
        }),
    decreases pmeasure(st),
{
    lemma_next_modes(source, st, errs);
    lemma_collecting_next(source, st, errs);
    let na = next_spec(source, st, None);
    let nb = next_spec(source, st, Some(errs));
    match na.res {
        None => {},
        Some(Err(e)) => {
            let c1 = nb.collected->0;
            if let Some(Ok(n)) = nb.res {
                if pmeasure(nb.st) < pmeasure(st) {
                    lemma_doc_prefix(source, nb.st, c1, nodes.push(n));
                    let c = doc_spec(source, nb.st, Some(c1), nodes.push(n)).collected->0;
                    assert(c[errs.len() as int] == c.subrange(0, c1.len() as int)[errs.len() as int]);
                }
            }
        },
        Some(Ok(n)) => {
            if pmeasure(na.st) < pmeasure(st) {
                lemma_doc_modes(source, na.st, errs, nodes.push(n));
            }
        },
    }
}

/// Linting a template and parsing it agree: the lint finds no error
/// exactly when the template parses, and when it does not parse, the
/// error parsing stops at is the first error the lint finds.
pub proof fn lemma_lint_parse(source: &str, st: PState)
    ensures
        ({
            let a = doc_spec(source, st, None, Seq::empty());
            let b = doc_spec(source, st, Some(Seq::empty()), Seq::empty());
            &&& b.collected matches Some(c) && ((c.len() == 0) <==> a.res is Ok)
            &&& a.res matches Err(e) ==> b.collected->0[0] == e
        }),
{
    lemma_doc_modes(source, st, Seq::empty(), Seq::empty());
    lemma_collecting_parse(source, st, Seq::empty(), Seq::empty());
}

/// When errors are collected, parsing a document never fails.
pub proof fn lemma_collecting_parse(source: &str, st: PState, errs: Seq<ErrorV>, nodes: Seq<NodeV>)
    ensures
        doc_spec(source, st, Some(errs), nodes).res is Ok,
        doc_spec(source, st, Some(errs), nodes).collected is Some,
    decreases pmeasure(st),
{
    lemma_collecting_next(source, st, errs);
    let no = next_spec(source, st, Some(errs));
    if let Some(Ok(n)) = no.res {
        if pmeasure(no.st) < pmeasure(st) {
            lemma_collecting_parse(source, no.st, no.collected->Some_0, nodes.push(n));
        }
    }
}

/// An end tag closes a block only when one is open and the tag repeats the
/// name of the innermost open block; that block leaves the stack. With no
/// open block, an end tag is an error.
pub proof fn lemma_close_scope_names(source: &str, st: PState, span: Range<usize>)
    ensures
        close_scope_spec(source, st, span).res is Ok ==> {
            &&& st.stack.len() > 0
            &&& close_scope_spec(source, st, span).st.stack == st.stack.drop_last()
            &&& crate::parser::block::scope_spec(source, st.rest, st.line, st.byte, span).res matches Ok(temp)
                && temp.name() == Some(st.stack.last().0)
        },
        st.stack.len() == 0 ==> close_scope_spec(source, st, span).res is Err,
{
}

/// Consecutive text tokens become one text node: a text token followed by
/// `k` more text tokens yields a single text node from the start of the
/// first to the end of the last, and the token after them is held back
/// for the next step.
pub proof fn lemma_text_normalized(source: &str, st: PState, t: Token, k: int)
    requires
        spec_is_text(t),
        0 <= k <= st.rest.len(),
        forall|i: int| 0 <= i < k ==> spec_is_text(#[trigger] st.rest[i]),
        k < st.rest.len() ==> !spec_is_text(st.rest[k]),
    ensures
        advance_spec(source, st, t).res matches Ok(Some(NodeV::Text(text))) && text.span == (if k == 0 {
            tspan(t)
        } else {
            tspan(t).start..tspan(st.rest[k - 1]).end
        }),
        advance_spec(source, st, t).st.held == (if k < st.rest.len() {
            Some(st.rest[k])
        } else {
            None::<Token>
        }),
        advance_spec(source, st, t).st.stack == st.stack,
{
    let line1 = if spec_is_newline(t) {
        (st.line + 1) as usize
    } else {
        st.line
    };
    crate::parser::block::lemma_until_text_run(st.rest, line1, st.byte, tspan(t), k);
}

} // verus!
