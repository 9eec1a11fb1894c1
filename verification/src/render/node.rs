//! Decide what rendering a node writes.
use vstd::prelude::*;
use vstd::string::{StrSliceExecFns, StringSliceAdditionalSpecFns};
use vstd::utf8::decode_utf8;

use crate::parser::ast::{Node, NodeV, Slice};
use crate::render::dispatch::{trim_end, trim_end_spec, trim_start, trim_start_spec};
use crate::text::{span_bytes, valid_span};
use crate::trim::{TrimHint, TrimState};

verus! {

/// The trim state a node is rendered with: the state given, and a leading
/// trim when the end tag of the block rendered before it trims after
/// itself.
pub open spec fn node_trim_spec(trim: TrimState, end_hint: Option<TrimHint>) -> TrimState {
    TrimState { start: trim.start || (end_hint matches Some(h) && h.after), end: trim.end }
}

/// The text a node writes before trimming, and whether it is escaped: a
/// text node and a link write their source text, a raw statement its
/// source text without the leading backslash, a statement the text of its
/// value (when it has one) escaped unless its tag is `{{{`; comments,
/// documents and blocks write nothing themselves.
pub open spec fn node_text_spec(n: NodeV, value_text: Option<Seq<char>>) -> Option<(Seq<char>, bool)> {
    match n {
        NodeV::Text(t) => Some((decode_utf8(span_bytes(t.source, t.span.start as int, t.span.end as int)), false)),
        NodeV::RawStatement(t) => Some(
            (decode_utf8(span_bytes(t.source, t.open.start + 1, t.close.end as int)), false),
        ),
        NodeV::Link(l) => Some((decode_utf8(n.own_bytes()), false)),
        NodeV::Statement(c) => match value_text {
            Some(v) => Some((v, c.is_escaped())),
            None => None,
        },
        _ => None,
    }
}

/// Text trimmed at the start and at the end as a trim state asks.
pub open spec fn trimmed_spec(s: Seq<char>, trim: TrimState) -> Seq<char> {
    let a = if trim.start {
        trim_start_spec(s)
    } else {
        s
    };
    if trim.end {
        trim_end_spec(a)
    } else {
        a
    }
}

/// What rendering a node writes can be sliced from the source, and a
/// statement's tags can be read.
pub open spec fn node_output_ok(n: NodeV) -> bool {
    match n {
        NodeV::Text(t) => valid_span(t.source, t.span.start as int, t.span.end as int),
        NodeV::RawStatement(t) => valid_span(t.source, t.open.start + 1, t.close.end as int),
        NodeV::Link(_) => n.own_text_ok(),
        NodeV::Statement(c) => c.tags_ok(),
        _ => true,
    }
}

/// Decide what rendering `node` writes, given the trim state for it, the
/// trim hint of the end tag of the block rendered before it, and, for a
/// statement, the text of the value it evaluated to (when it has one).
/// The result is the trim state in effect, the text to write (none when
/// the node writes nothing or the trimmed text is empty) and whether that
/// text is escaped. Blocks are decided by `block_action`; a link is written
/// as its text unless a link helper is registered.
pub fn node_output<'s>(
    node: &Node<'s>,
    trim: TrimState,
    end_hint: Option<TrimHint>,
    value_text: Option<&'s str>,
) -> (res: (TrimState, Option<&'s str>, bool))
    requires
        node_output_ok(node@),
    ensures
        res.0 == node_trim_spec(trim, end_hint),
        match node_text_spec(
            node@,
            match value_text {
                Some(v) => Some(v@),
                None => None,
            },
        ) {
            Some((s, esc)) => {
                let t = trimmed_spec(s, res.0);
                if t.len() == 0 {
                    res.1 is None && !res.2
                } else {
                    res.1 matches Some(o) && o@ == t && res.2 == esc
                }
            },
            None => res.1 is None && !res.2,
        },
{
    let mut state = trim;
    if let Some(hint) = end_hint {
        if hint.after {
            state.start = true;
        }
    }
    proof {
        crate::parser::ast::lemma_node_view(*node);
    }
    let (text, escape): (Option<&'s str>, bool) = match node {
        Node::Text(n) => {
            proof {
                n.lemma_slice();
            }
            let s = n.as_str();
            proof {
                crate::text::lemma_text_of_bytes(s);
            }
            (Some(s), false)
        },
        Node::RawStatement(n) => {
            let s = n.tail_str();
            proof {
                crate::text::lemma_text_of_bytes(s);
            }
            (Some(s), false)
        },
        Node::Link(n) => {
            proof {
                n.lemma_views();
            }
            let s = n.as_str();
            proof {
                crate::text::lemma_text_of_bytes(s);
            }
            (Some(s), false)
        },
        Node::Statement(call) => match value_text {
            Some(v) => {
                proof {
                    call.lemma_views();
                }
                (Some(v), call.is_escaped())
            },
            None => (None, false),
        },
        _ => (None, false),
    };
    match text {
        Some(s) => {
            let a = if state.start {
                trim_start(s)
            } else {
                s
            };
            let b = if state.end {
                trim_end(a)
            } else {
                a
            };
            if b.unicode_len() == 0 {
                (state, None, false)
            } else {
                (state, Some(b), escape)
            }
        },
        None => (state, None, false),
    }
}

} // verus!
