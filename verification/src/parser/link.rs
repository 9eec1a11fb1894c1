//! Parse wiki-style links `[[href|label|title]]`.
use std::ops::Range;
use vstd::prelude::*;

use crate::error::{err_at, ErrorV, SyntaxErrorKind, SyntaxResult};
use crate::lexer::{self, is_suffix, tspan, Lexer, Token};
use crate::parser::ast::{span_chars, Element, Link, LinkV, Lines};
use crate::parser::string::precedes;
use crate::parser::ParseState;
use crate::text::{replace_escape, replace_escape_spec, slice_span, valid_span};

verus! {

/// Escape sequences seen while reading part of a link.
#[derive(Debug, Default, Clone, Copy, PartialEq, Eq, Structural)]
pub struct EscapeFlags {
    pub newline: bool,
    pub pipe: bool,
    pub bracket: bool,
}

impl EscapeFlags {
    /// No escape sequences seen.
    pub open spec fn none() -> Self {
        EscapeFlags { newline: false, pipe: false, bracket: false }
    }

    /// Whether any escape sequence was seen.
    pub open spec fn spec_has_escape_sequences(self) -> bool {
        self.newline || self.pipe || self.bracket
    }

    /// The text with `\n`, `\|` and `\]` replaced (in that order) by a
    /// newline, a pipe and a bracket, each only when it was seen.
    pub open spec fn unescape(self, value: Seq<char>) -> Seq<char> {
        let v1 = if self.newline {
            replace_escape_spec(value, 'n', '\n')
        } else {
            value
        };
        let v2 = if self.pipe {
            replace_escape_spec(v1, '|', '|')
        } else {
            v1
        };
        if self.bracket {
            replace_escape_spec(v2, ']', ']')
        } else {
            v2
        }
    }

    /// Determine if escape sequences were detected.
    pub fn has_escape_sequences(&self) -> (res: bool)
        ensures
            res == self.spec_has_escape_sequences(),
    {
        self.newline || self.pipe || self.bracket
    }

    /// An owned copy of `value` with the escape sequences replaced.
    pub fn into_owned(&self, value: &str) -> (res: String)
        ensures
            res@ == self.unescape(value@),
    {
        let mut val = value.to_owned();
        if self.newline {
            val = replace_escape(val.as_str(), 'n', '\n');
        }
        if self.pipe {
            val = replace_escape(val.as_str(), '|', '|');
        }
        if self.bracket {
            val = replace_escape(val.as_str(), ']', ']');
        }
        val
    }
}

/// Which part of a link is being read after the href.
#[derive(Debug, Clone, Copy, PartialEq, Eq, Structural)]
pub enum ValueType {
    Label,
    Title,
}

/// Outcome of reading part of a link: the result, the tokens left, the
/// line and byte reached and the link built so far.
pub struct LinkOut<'s> {
    pub res: Result<(), ErrorV>,
    pub rest: Seq<Token>,
    pub line: usize,
    pub byte: usize,
    pub link: LinkV<'s>,
}

/// The start of the span for the given part.
pub open spec fn part_start(l: LinkV, vt: ValueType) -> usize {
    match vt {
        ValueType::Label => l.label_span.start,
        ValueType::Title => l.title_span.start,
    }
}

/// Assign an owned value to the part when escape sequences were seen: the
/// unescaped text from the part's start to the start of `sp`.
pub open spec fn assign_spec<'s>(
    source: &'s str,
    l: LinkV<'s>,
    flags: EscapeFlags,
    sp: Range<usize>,
    vt: ValueType,
) -> LinkV<'s> {
    if flags.spec_has_escape_sequences() {
        let v = flags.unescape(span_chars(source, part_start(l, vt)..sp.start));
        match vt {
            ValueType::Label => LinkV { label: Some(v), ..l },
            ValueType::Title => LinkV { title: Some(v), ..l },
        }
    } else {
        l
    }
}

/// Read the label or title of a link.
pub open spec fn value_spec<'s>(
    source: &'s str,
    ts: Seq<Token>,
    line: usize,
    byte: usize,
    flags: EscapeFlags,
    l: LinkV<'s>,
    vt: ValueType,
) -> LinkOut<'s>
    decreases ts.len(),
{
    if ts.len() == 0 {
        LinkOut { res: Ok(()), rest: ts, line, byte, link: l }
    } else {
        let r = ts.drop_first();
        match ts[0] {
            Token::Link(k, sp) => {
                let b = (sp.end - 1) as usize;
                match k {
                    lexer::Link::Newline => value_spec(source, r, (line + 1) as usize, b, flags, l, vt),
                    lexer::Link::Text => match vt {
                        ValueType::Label => value_spec(
                            source,
                            r,
                            line,
                            b,
                            flags,
                            LinkV { label_span: l.label_span.start..sp.end, ..l },
                            vt,
                        ),
                        ValueType::Title => value_spec(
                            source,
                            r,
                            line,
                            b,
                            flags,
                            LinkV { title_span: l.title_span.start..sp.end, ..l },
                            vt,
                        ),
                    },
                    lexer::Link::Pipe => match vt {
                        ValueType::Label => {
                            let l1 = LinkV { label_span: l.label_span.start..sp.start, ..l };
                            let l2 = assign_spec(source, l1, flags, sp, vt);
                            let l3 = LinkV { title_span: sp.end..l2.title_span.end, ..l2 };
                            value_spec(source, r, line, b, EscapeFlags::none(), l3, ValueType::Title)
                        },
                        ValueType::Title => value_spec(
                            source,
                            r,
                            line,
                            b,
                            flags,
                            LinkV { title_span: l.title_span.start..sp.end, ..l },
                            vt,
                        ),
                    },
                    lexer::Link::EscapedNewline => value_spec(
                        source,
                        r,
                        line,
                        b,
                        EscapeFlags { newline: true, ..flags },
                        l,
                        vt,
                    ),
                    lexer::Link::EscapedPipe => value_spec(
                        source,
                        r,
                        line,
                        b,
                        EscapeFlags { pipe: true, ..flags },
                        l,
                        vt,
                    ),
                    lexer::Link::Escaped => value_spec(
                        source,
                        r,
                        line,
                        b,
                        EscapeFlags { bracket: true, ..flags },
                        l,
                        vt,
                    ),
                    lexer::Link::End => {
                        let l1 = assign_spec(source, l, flags, sp, vt);
                        LinkOut { res: Ok(()), rest: r, line, byte: b, link: LinkV { close: Some(sp), ..l1 } }
                    },
                    lexer::Link::Error => LinkOut {
                        res: Err(err_at(SyntaxErrorKind::TokenLink, line, b)),
                        rest: r,
                        line,
                        byte: b,
                        link: l,
                    },
                }
            },
            _ => LinkOut {
                res: Err(err_at(SyntaxErrorKind::TokenLink, line, byte)),
                rest: r,
                line,
                byte,
                link: l,
            },
        }
    }
}

/// The href set from its escape flags: the unescaped text from the end of
/// the open tag to the start of `sp`.
pub open spec fn href_assign<'s>(source: &'s str, l: LinkV<'s>, flags: EscapeFlags, sp: Range<usize>) -> LinkV<'s> {
    if flags.spec_has_escape_sequences() {
        LinkV { href: Some(flags.unescape(span_chars(source, l.open.end..sp.start))), ..l }
    } else {
        l
    }
}

/// Read the href of a link; a newline ends the link without closing it.
pub open spec fn href_spec<'s>(
    source: &'s str,
    ts: Seq<Token>,
    line: usize,
    byte: usize,
    flags: EscapeFlags,
    l: LinkV<'s>,
) -> LinkOut<'s>
    decreases ts.len(),
{
    if ts.len() == 0 {
        LinkOut { res: Ok(()), rest: ts, line, byte, link: l }
    } else {
        let r = ts.drop_first();
        match ts[0] {
            Token::Link(k, sp) => {
                let b = (sp.end - 1) as usize;
                match k {
                    lexer::Link::Newline => LinkOut {
                        res: Ok(()),
                        rest: r,
                        line: (line + 1) as usize,
                        byte: b,
                        link: l,
                    },
                    lexer::Link::Text => href_spec(
                        source,
                        r,
                        line,
                        b,
                        flags,
                        LinkV { href_span: l.href_span.start..sp.end, ..l },
                    ),
                    lexer::Link::Pipe => {
                        let l1 = href_assign(source, l, flags, sp);
                        let l2 = LinkV { label_span: sp.end..l1.label_span.end, ..l1 };
                        value_spec(source, r, line, b, EscapeFlags::none(), l2, ValueType::Label)
                    },
                    lexer::Link::EscapedNewline => href_spec(
                        source,
                        r,
                        line,
                        b,
                        EscapeFlags { newline: true, ..flags },
                        l,
                    ),
                    lexer::Link::EscapedPipe => href_spec(
                        source,
                        r,
                        line,
                        b,
                        EscapeFlags { pipe: true, ..flags },
                        l,
                    ),
                    lexer::Link::Escaped => href_spec(
                        source,
                        r,
                        line,
                        b,
                        EscapeFlags { bracket: true, ..flags },
                        l,
                    ),
                    lexer::Link::End => {
                        let l1 = href_assign(source, l, flags, sp);
                        LinkOut { res: Ok(()), rest: r, line, byte: b, link: LinkV { close: Some(sp), ..l1 } }
                    },
                    lexer::Link::Error => LinkOut {
                        res: Err(err_at(SyntaxErrorKind::TokenLink, line, b)),
                        rest: r,
                        line,
                        byte: b,
                        link: l,
                    },
                }
            },
            _ => LinkOut {
                res: Err(err_at(SyntaxErrorKind::TokenLink, line, byte)),
                rest: r,
                line,
                byte,
                link: l,
            },
        }
    }
}

/// Common requirements on the token stream while reading a link.
pub open spec fn stream_ok(source: &str, lexer: Lexer, state: ParseState) -> bool {
    &&& lexer.wf()
    &&& lexer.src() == source
    &&& state.line + lexer.rest().len() < usize::MAX
}

/// Assign an owned value to the link if escape sequences
/// were detected.
fn assign_if_escaped<'source>(
    source: &'source str,
    link: &mut Link<'source>,
    flags: &EscapeFlags,
    span: &Range<usize>,
    value_type: &ValueType,
)
    requires
        flags.spec_has_escape_sequences() ==> valid_span(
            source,
            part_start(old(link)@, *value_type) as int,
            span.start as int,
        ),
    ensures
        final(link)@ == assign_spec(source, old(link)@, *flags, *span, *value_type),
{
    if flags.has_escape_sequences() {
        match value_type {
            ValueType::Label => {
                let text = slice_span(source, link.label_span().start, span.start);
                let value = flags.into_owned(text);
                link.set_label(value);
            },
            ValueType::Title => {
                let text = slice_span(source, link.title_span().start, span.start);
                let value = flags.into_owned(text);
                link.set_title(value);
            },
        }
    }
}

/// Parse the label and title components.
fn value<'source>(
    source: &'source str,
    lexer: &mut Lexer<'source>,
    state: &mut ParseState,
    link: &mut Link<'source>,
    value_type: ValueType,
) -> (res: SyntaxResult<()>)
    requires
        stream_ok(source, *old(lexer), *old(state)),
        valid_span(
            source,
            part_start(old(link)@, value_type) as int,
            part_start(old(link)@, value_type) as int,
        ),
        precedes(part_start(old(link)@, value_type)..part_start(old(link)@, value_type), old(lexer).rest()),
    ensures
        final(lexer).wf(),
        final(lexer).src() == source,
        is_suffix(final(lexer).rest(), old(lexer).rest()),
        final(state).line + final(lexer).rest().len() <= old(state).line + old(lexer).rest().len(),
        final(state).file_name == old(state).file_name,
        ({
            let out = value_spec(
                source,
                old(lexer).rest(),
                old(state).line,
                old(state).byte,
                EscapeFlags::none(),
                old(link)@,
                value_type,
            );
            &&& final(lexer).rest() == out.rest
            &&& final(state).line == out.line
            &&& final(state).byte == out.byte
            &&& final(link)@ == out.link
            &&& match res {
                Ok(()) => out.res == Ok::<(), ErrorV>(()),
                Err(e) => out.res == Err::<(), ErrorV>(e@) && e.info.file_name == old(state).file_name,
            }
        }),
    decreases old(lexer).rest().len(),
{
    let mut flags = EscapeFlags { newline: false, pipe: false, bracket: false };
    let ghost out = value_spec(
        source,
        lexer.rest(),
        state.line,
        state.byte,
        flags,
        link@,
        value_type,
    );
    proof {
        lexer::lemma_suffix_refl(lexer.rest());
    }
    loop
        invariant
            stream_ok(source, *lexer, *state),
            is_suffix(lexer.rest(), old(lexer).rest()),
            state.line + lexer.rest().len() <= old(state).line + old(lexer).rest().len(),
            state.file_name == old(state).file_name,
            link@.source == old(link)@.source,
            part_start(link@, value_type) == part_start(old(link)@, value_type),
            valid_span(
                source,
                part_start(link@, value_type) as int,
                part_start(link@, value_type) as int,
            ),
            precedes(part_start(link@, value_type)..part_start(link@, value_type), lexer.rest()),
            value_spec(source, lexer.rest(), state.line, state.byte, flags, link@, value_type)
                == out,
            out == value_spec(
                source,
                old(lexer).rest(),
                old(state).line,
                old(state).byte,
                EscapeFlags::none(),
                old(link)@,
                value_type,
            ),
        decreases lexer.rest().len(),
    {
        proof {
            lexer.lemma_wf();
        }
        let ghost ts = lexer.rest();
        let next = lexer.next();
        proof {
            if ts.len() > 0 {
                lexer::lemma_suffix_drop_first(ts);
                lexer::lemma_suffix_trans(lexer.rest(), ts, old(lexer).rest());
            }
        }
        let token = match next {
            Some(t) => t,
            None => {
                return Ok(());
            },
        };
        assert(token == ts[0]);
        assert(lexer::token_ok(source, ts[0]));
        match token {
            Token::Link(lex, span) => {
                state.byte = span.end - 1;
                match lex {
                    lexer::Link::Newline => {
                        state.line = state.line + 1;
                    },
                    lexer::Link::Text => {
                        match value_type {
                            ValueType::Label => {
                                link.label_end(span.end);
                            },
                            ValueType::Title => {
                                link.title_end(span.end);
                            },
                        }
                    },
                    lexer::Link::Pipe => {
                        match value_type {
                            ValueType::Label => {
                                link.label_end(span.start);
                                assign_if_escaped(source, link, &flags, &span, &value_type);
                                link.title_start(span.end);
                                assert forall|i: int| 0 <= i < lexer.rest().len() implies span.end
                                    <= tspan(#[trigger] lexer.rest()[i]).start by {
                                    assert(lexer.rest()[i] == ts[i + 1]);
                                }
                                let ghost mid = lexer.rest();
                                let r = value(source, lexer, state, link, ValueType::Title);
                                proof {
                                    lexer::lemma_suffix_trans(lexer.rest(), mid, old(lexer).rest());
                                }
                                return r;
                            },
                            ValueType::Title => {
                                // Consume any additional pipes until we get till the end.
                                link.title_end(span.end);
                            },
                        }
                    },
                    lexer::Link::EscapedNewline => {
                        flags.newline = true;
                    },
                    lexer::Link::EscapedPipe => {
                        flags.pipe = true;
                    },
                    lexer::Link::Escaped => {
                        flags.bracket = true;
                    },
                    lexer::Link::End => {
                        assign_if_escaped(source, link, &flags, &span, &value_type);
                        link.exit(span);
                        return Ok(());
                    },
                    lexer::Link::Error => {
                        return Err(state.error(SyntaxErrorKind::TokenLink));
                    },
                }
            },
            _ => {
                return Err(state.error(SyntaxErrorKind::TokenLink));
            },
        }
    }
}

/// Parse the href and continue with the label and title.
fn href<'source>(
    source: &'source str,
    lexer: &mut Lexer<'source>,
    state: &mut ParseState,
    link: &mut Link<'source>,
) -> (res: SyntaxResult<()>)
    requires
        stream_ok(source, *old(lexer), *old(state)),
        valid_span(source, old(link)@.open.end as int, old(link)@.open.end as int),
        precedes(old(link)@.open, old(lexer).rest()),
    ensures
        final(lexer).wf(),
        final(lexer).src() == source,
        is_suffix(final(lexer).rest(), old(lexer).rest()),
        final(state).line + final(lexer).rest().len() <= old(state).line + old(lexer).rest().len(),
        final(state).file_name == old(state).file_name,
        ({
            let out = href_spec(
                source,
                old(lexer).rest(),
                old(state).line,
                old(state).byte,
                EscapeFlags::none(),
                old(link)@,
            );
            &&& final(lexer).rest() == out.rest
            &&& final(state).line == out.line
            &&& final(state).byte == out.byte
            &&& final(link)@ == out.link
            &&& match res {
                Ok(()) => out.res == Ok::<(), ErrorV>(()),
                Err(e) => out.res == Err::<(), ErrorV>(e@) && e.info.file_name == old(state).file_name,
            }
        }),
{
    let mut flags = EscapeFlags { newline: false, pipe: false, bracket: false };
    let ghost out = href_spec(source, lexer.rest(), state.line, state.byte, flags, link@);
    proof {
        lexer::lemma_suffix_refl(lexer.rest());
    }
    loop
        invariant
            stream_ok(source, *lexer, *state),
            is_suffix(lexer.rest(), old(lexer).rest()),
            state.line + lexer.rest().len() <= old(state).line + old(lexer).rest().len(),
            state.file_name == old(state).file_name,
            link@.source == old(link)@.source,
            link@.open == old(link)@.open,
            valid_span(source, link@.open.end as int, link@.open.end as int),
            precedes(link@.open, lexer.rest()),
            href_spec(source, lexer.rest(), state.line, state.byte, flags, link@) == out,
            out == href_spec(
                source,
                old(lexer).rest(),
                old(state).line,
                old(state).byte,
                EscapeFlags::none(),
                old(link)@,
            ),
        decreases lexer.rest().len(),
    {
        proof {
            lexer.lemma_wf();
            link.lemma_views();
        }
        let ghost ts = lexer.rest();
        let next = lexer.next();
        proof {
            if ts.len() > 0 {
                lexer::lemma_suffix_drop_first(ts);
                lexer::lemma_suffix_trans(lexer.rest(), ts, old(lexer).rest());
            }
        }
        let token = match next {
            Some(t) => t,
            None => {
                return Ok(());
            },
        };
        assert(token == ts[0]);
        assert(lexer::token_ok(source, ts[0]));
        assert(link@.open.end <= tspan(ts[0]).start);
        match token {
            Token::Link(lex, span) => {
                state.byte = span.end - 1;
                match lex {
                    lexer::Link::Newline => {
                        state.line = state.line + 1;
                        // NOTE: newlines are not allowed in links
                        // NOTE: by returning early the link will
                        // NOTE: never be closed and we should generate
                        // NOTE: an unclosed link error.
                        return Ok(());
                    },
                    lexer::Link::Text => {
                        link.href_end(span.end);
                    },
                    lexer::Link::Pipe => {
                        if flags.has_escape_sequences() {
                            let text = slice_span(source, link.open_span().end, span.start);
                            let value = flags.into_owned(text);
                            link.set_href(value);
                        }
                        link.label_start(span.end);
                        assert forall|i: int| 0 <= i < lexer.rest().len() implies span.end <= tspan(
                            #[trigger] lexer.rest()[i],
                        ).start by {
                            assert(lexer.rest()[i] == ts[i + 1]);
                        }
                        let ghost mid = lexer.rest();
                        let r = value(source, lexer, state, link, ValueType::Label);
                        proof {
                            lexer::lemma_suffix_trans(lexer.rest(), mid, old(lexer).rest());
                        }
                        return r;
                    },
                    lexer::Link::EscapedNewline => {
                        flags.newline = true;
                    },
                    lexer::Link::EscapedPipe => {
                        flags.pipe = true;
                    },
                    lexer::Link::Escaped => {
                        flags.bracket = true;
                    },
                    lexer::Link::End => {
                        if flags.has_escape_sequences() {
                            let text = slice_span(source, link.open_span().end, span.start);
                            let value = flags.into_owned(text);
                            link.set_href(value);
                        }
                        link.exit(span);
                        return Ok(());
                    },
                    lexer::Link::Error => {
                        return Err(state.error(SyntaxErrorKind::TokenLink));
                    },
                }
            },
            _ => {
                return Err(state.error(SyntaxErrorKind::TokenLink));
            },
        }
    }
}

/// The link a parse starts from.
pub open spec fn initial_link<'s>(source: &'s str, open: Range<usize>, line: usize) -> LinkV<'s> {
    LinkV {
        source,
        open,
        close: None,
        line: line..(line + 1) as usize,
        href_span: open.end..open.end,
        label_span: open.end..open.end,
        title_span: open.end..open.end,
        href: None,
        label: None,
        title: None,
    }
}

/// Outcome of parsing a link from its open tag: the link read by
/// `href_spec`, which must be closed, with its line range ending at the
/// line reached.
pub open spec fn parse_spec<'s>(
    source: &'s str,
    ts: Seq<Token>,
    line: usize,
    open: Range<usize>,
) -> (Result<LinkV<'s>, ErrorV>, Seq<Token>, usize, usize) {
    let out = href_spec(source, ts, line, open.end, EscapeFlags::none(), initial_link(source, open, line));
    match out.res {
        Err(e) => (Err(e), out.rest, out.line, out.byte),
        Ok(_) => if out.link.close is None {
            (Err(err_at(SyntaxErrorKind::LinkNotTerminated, out.line, out.byte)), out.rest, out.line, out.byte)
        } else {
            (
                Ok(LinkV { line: out.link.line.start..(out.line + 1) as usize, ..out.link }),
                out.rest,
                out.line,
                out.byte,
            )
        },
    }
}

/// Parse a link whose open tag has the span `open`.
pub fn parse<'source>(
    source: &'source str,
    lexer: &mut Lexer<'source>,
    state: &mut ParseState,
    open: Range<usize>,
) -> (res: SyntaxResult<Link<'source>>)
    requires
        stream_ok(source, *old(lexer), *old(state)),
        old(state).line + old(lexer).rest().len() + 1 < usize::MAX,
        valid_span(source, open.end as int, open.end as int),
        precedes(open, old(lexer).rest()),
    ensures
        final(lexer).wf(),
        final(lexer).src() == source,
        is_suffix(final(lexer).rest(), old(lexer).rest()),
        final(state).file_name == old(state).file_name,
        ({
            let (r, rest, line, byte) = parse_spec(source, old(lexer).rest(), old(state).line, open);
            &&& final(lexer).rest() == rest
            &&& final(state).line == line
            &&& final(state).byte == byte
            &&& match res {
                Ok(link) => r == Ok::<LinkV<'source>, ErrorV>(link@),
                Err(e) => r == Err::<LinkV<'source>, ErrorV>(e@) && e.info.file_name == old(state).file_name,
            }
        }),
{
    state.byte = open.end;
    let mut link = Link::new(source, open, state.line_range());
    href(source, lexer, state, &mut link)?;
    if !link.is_closed() {
        proof {
            link.lemma_views();
        }
        Err(state.error(SyntaxErrorKind::LinkNotTerminated))
    } else {
        proof {
            link.lemma_views();
        }
        link.lines_end(state.line());
        Ok(link)
    }
}

} // verus!
