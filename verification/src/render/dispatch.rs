//! Decide how a block node is rendered.
use vstd::prelude::*;
use vstd::string::StringSliceAdditionalSpecFns;

use crate::parser::ast::{empty_str, BlockV, Block, Call, CallTarget, CallV, Element, Node, NodeV, Slice, TargetV};
use crate::text::{span_bytes, valid_span};
use crate::trim::TrimHint;
use vstd::utf8::decode_utf8;

verus! {

/// Whether a character has the Unicode `White_Space` property.
pub open spec fn is_white_space(c: char) -> bool {
    let u = c as u32;
    ||| 0x9 <= u <= 0xd
    ||| u == 0x20
    ||| u == 0x85
    ||| u == 0xa0
    ||| u == 0x1680
    ||| 0x2000 <= u <= 0x200a
    ||| u == 0x2028
    ||| u == 0x2029
    ||| u == 0x202f
    ||| u == 0x205f
    ||| u == 0x3000
}

/// Text with its leading whitespace removed.
pub open spec fn trim_start_spec(s: Seq<char>) -> Seq<char>
    decreases s.len(),
{
    if s.len() > 0 && is_white_space(s[0]) {
        trim_start_spec(s.drop_first())
    } else {
        s
    }
}

/// Text with its trailing whitespace removed.
pub open spec fn trim_end_spec(s: Seq<char>) -> Seq<char>
    decreases s.len(),
{
    if s.len() > 0 && is_white_space(s.last()) {
        trim_end_spec(s.drop_last())
    } else {
        s
    }
}

/// Remove leading whitespace (std's `str::trim_start`, whose documentation
/// defines whitespace as the Unicode `White_Space` property).
#[verifier::external_body]
pub(crate) fn trim_start<'a>(s: &'a str) -> (res: &'a str)
    ensures
        res@ == trim_start_spec(s@),
{
    s.trim_start()
}

/// Remove trailing whitespace (std's `str::trim_end`, whose documentation
/// defines whitespace as the Unicode `White_Space` property).
#[verifier::external_body]
pub(crate) fn trim_end<'a>(s: &'a str) -> (res: &'a str)
    ensures
        res@ == trim_end_spec(s@),
{
    s.trim_end()
}

/// What rendering a block node does.
#[derive(Debug, PartialEq, Eq)]
pub enum BlockAction<'s> {
    /// Render the partial that the block's call names.
    Partial,
    /// Invoke the block helper `name`, handing it the raw text of a raw
    /// block and the trim hint of its end tag.
    Helper { name: &'s str, text: Option<&'s str>, end_hint: Option<TrimHint> },
    /// No helper is registered under `name`: the missing-helper handling
    /// takes over, with the same text and hint.
    Missing { name: &'s str, text: Option<&'s str>, end_hint: Option<TrimHint> },
    /// The block is named by a path that is not a simple identifier (an
    /// error carrying the path's text).
    NotIdentifier(&'s str),
    /// The block is named by a sub-expression (an error).
    SubExprTarget,
}

/// The view of a block action: names and texts as bytes and characters.
pub enum ActionV {
    Partial,
    Helper(Seq<u8>, Option<Seq<char>>, Option<TrimHint>),
    Missing(Seq<u8>, Option<Seq<char>>, Option<TrimHint>),
    NotIdentifier(Seq<u8>),
    SubExprTarget,
}

/// A block action seen as a value.
pub open spec fn action_view(a: BlockAction) -> ActionV {
    match a {
        BlockAction::Partial => ActionV::Partial,
        BlockAction::Helper { name, text, end_hint } => ActionV::Helper(
            name.spec_bytes(),
            match text {
                Some(t) => Some(t@),
                None => None,
            },
            end_hint,
        ),
        BlockAction::Missing { name, text, end_hint } => ActionV::Missing(
            name.spec_bytes(),
            match text {
                Some(t) => Some(t@),
                None => None,
            },
            end_hint,
        ),
        BlockAction::NotIdentifier(p) => ActionV::NotIdentifier(p.spec_bytes()),
        BlockAction::SubExprTarget => ActionV::SubExprTarget,
    }
}

/// The raw text of a raw block: its first child's text, or the empty text
/// when it has no children.
pub open spec fn raw_text_spec(b: BlockV) -> Seq<char> {
    if b.nodes.len() > 0 {
        match b.nodes[0] {
            NodeV::Text(t) => decode_utf8(span_bytes(t.source, t.span.start as int, t.span.end as int)),
            _ => Seq::empty(),
        }
    } else {
        Seq::empty()
    }
}

/// The text handed to the helper of a raw block: the raw text, trimmed at
/// the start when the open tag trims after itself and at the end when the
/// end tag trims before itself; none for other blocks.
pub open spec fn block_text_spec(b: BlockV) -> Option<Seq<char>> {
    if b.raw {
        let t = raw_text_spec(b);
        let t1 = if b.call.trim_after() {
            trim_start_spec(t)
        } else {
            t
        };
        Some(
            if b.trim_before_close() {
                trim_end_spec(t1)
            } else {
                t1
            },
        )
    } else {
        None
    }
}

/// The trim hint of a raw block's end tag; none for other blocks.
pub open spec fn end_hint_spec(b: BlockV) -> Option<TrimHint> {
    if b.raw {
        Some(TrimHint { before: b.trim_before_close(), after: b.trim_after_close() })
    } else {
        None
    }
}

/// What rendering a block does: a partial call renders a partial; a block
/// named by a simple identifier invokes its helper (or, when none is
/// registered, the missing-helper handling); any other path, or a
/// sub-expression, is an error.
pub open spec fn block_action_spec(b: BlockV, has_helper: bool) -> ActionV {
    if b.call.partial {
        ActionV::Partial
    } else {
        match b.call.target {
            TargetV::Path(p) => if p.is_simple() {
                if has_helper {
                    ActionV::Helper(p.bytes(), block_text_spec(b), end_hint_spec(b))
                } else {
                    ActionV::Missing(p.bytes(), block_text_spec(b), end_hint_spec(b))
                }
            } else {
                ActionV::NotIdentifier(p.bytes())
            },
            TargetV::SubExpr(_) => ActionV::SubExprTarget,
        }
    }
}

/// Every character of the text is whitespace.
pub open spec fn all_white(s: Seq<char>) -> bool {
    forall|i: int| 0 <= i < s.len() ==> is_white_space(#[trigger] s[i])
}

/// `t` is `raw` with whitespace removed from its ends: all of the leading
/// whitespace when `strip_start` (none otherwise), all of the trailing
/// whitespace when `strip_end` (none otherwise).
pub open spec fn stripped(raw: Seq<char>, t: Seq<char>, strip_start: bool, strip_end: bool) -> bool {
    exists|a: int, z: int|
        {
            &&& 0 <= a <= z <= raw.len()
            &&& t == #[trigger] raw.subrange(a, z)
            &&& all_white(raw.subrange(0, a))
            &&& all_white(raw.subrange(z, raw.len() as int))
            &&& if strip_start {
                a == z || !is_white_space(raw[a])
            } else {
                a == 0
            }
            &&& if strip_end {
                z == a || !is_white_space(raw[z - 1])
            } else {
                z == raw.len()
            }
        }
}

/// Removing leading whitespace drops a prefix of whitespace and stops at
/// the first other character.
proof fn lemma_trim_start(s: Seq<char>) -> (a: int)
    ensures
        0 <= a <= s.len(),
        trim_start_spec(s) == s.subrange(a, s.len() as int),
        all_white(s.subrange(0, a)),
        a == s.len() || !is_white_space(s[a]),
    decreases s.len(),
{
    if s.len() > 0 && is_white_space(s[0]) {
        let r = s.drop_first();
        let a1 = lemma_trim_start(r);
        assert(r.subrange(a1, r.len() as int) =~= s.subrange(a1 + 1, s.len() as int));
        assert forall|i: int| 0 <= i < a1 + 1 implies is_white_space(#[trigger] s.subrange(0, a1 + 1)[i]) by {
            if i > 0 {
                assert(s.subrange(0, a1 + 1)[i] == r.subrange(0, a1)[i - 1]);
            }
        }
        a1 + 1
    } else {
        assert(s.subrange(0, s.len() as int) =~= s);
        0
    }
}

/// Removing trailing whitespace drops a suffix of whitespace and stops at
/// the last other character.
proof fn lemma_trim_end(s: Seq<char>) -> (z: int)
    ensures
        0 <= z <= s.len(),
        trim_end_spec(s) == s.subrange(0, z),
        all_white(s.subrange(z, s.len() as int)),
        z == 0 || !is_white_space(s[z - 1]),
    decreases s.len(),
{
    if s.len() > 0 && is_white_space(s.last()) {
        let r = s.drop_last();
        let z1 = lemma_trim_end(r);
        assert(r.subrange(0, z1) =~= s.subrange(0, z1));
        assert forall|i: int| 0 <= i < s.len() - z1 implies is_white_space(
            #[trigger] s.subrange(z1, s.len() as int)[i],
        ) by {
            if i < r.len() - z1 {
                assert(s.subrange(z1, s.len() as int)[i] == r.subrange(z1, r.len() as int)[i]);
            }
        }
        z1
    } else {
        assert(s.subrange(0, s.len() as int) =~= s);
        s.len() as int
    }
}

/// The text that a block action hands on: that of a helper or of the
/// missing-helper handling.
pub open spec fn action_text(a: ActionV) -> Option<Seq<char>> {
    match a {
        ActionV::Helper(_, t, _) => t,
        ActionV::Missing(_, t, _) => t,
        _ => None,
    }
}

/// A raw block named by a simple identifier hands its helper (or the
/// missing-helper handling) its raw text, stripped of all leading whitespace
/// when the open tag trims after itself (`{{{{name~}}}}`) and of all trailing
/// whitespace when the end tag trims before itself (`{{{{~/name}}}}`), and
/// of nothing else: so the text then neither starts nor ends with
/// whitespace.
pub proof fn lemma_raw_text_trimmed(b: BlockV, has_helper: bool)
    requires
        b.raw,
        !b.call.partial,
        b.call.target matches TargetV::Path(p) && p.is_simple(),
    ensures
        ({
            let act = block_action_spec(b, has_helper);
            let raw = raw_text_spec(b);
            &&& if has_helper {
                act is Helper
            } else {
                act is Missing
            }
            &&& action_text(act) matches Some(t) && stripped(raw, t, b.call.trim_after(), b.trim_before_close())
                && (b.trim_before_close() ==> t.len() == 0 || !is_white_space(t.last())) && (
            b.call.trim_after() ==> t.len() == 0 || !is_white_space(t[0]))
        }),
{
    let raw = raw_text_spec(b);
    let (a, t1) = if b.call.trim_after() {
        let a = lemma_trim_start(raw);
        (a, raw.subrange(a, raw.len() as int))
    } else {
        assert(raw.subrange(0, raw.len() as int) =~= raw);
        assert(raw.subrange(0, 0) =~= Seq::<char>::empty());
        (0int, raw)
    };
    assert(t1 == raw.subrange(a, raw.len() as int));
    let (z, t) = if b.trim_before_close() {
        let zz = lemma_trim_end(t1);
        assert(t1.subrange(0, zz) =~= raw.subrange(a, a + zz));
        assert(t1.subrange(zz, t1.len() as int) =~= raw.subrange(a + zz, raw.len() as int));
        if zz > 0 {
            assert(t1[zz - 1] == raw[a + zz - 1]);
        }
        (a + zz, t1.subrange(0, zz))
    } else {
        assert(raw.subrange(raw.len() as int, raw.len() as int) =~= Seq::<char>::empty());
        (raw.len() as int, t1)
    };
    assert(block_text_spec(b) == Some(t));
    assert(t == raw.subrange(a, z));
    if t.len() > 0 {
        assert(t[0] == raw[a]);
        assert(t.last() == raw[z - 1]);
    }
    assert(stripped(raw, t, b.call.trim_after(), b.trim_before_close()));
}

/// What deciding a block's action slices from the source can be sliced: the
/// path that names it, and for a raw block its tags and its text child.
pub open spec fn action_ok(b: BlockV) -> bool {
    !b.call.partial ==> match b.call.target {
        TargetV::Path(p) => p.slice_ok() && (p.is_simple() && b.raw ==> {
            &&& b.trim_ok()
            &&& b.nodes.len() > 0 ==> (b.nodes[0] matches NodeV::Text(t) && valid_span(
                t.source,
                t.span.start as int,
                t.span.end as int,
            ))
        }),
        TargetV::SubExpr(_) => true,
    }
}

/// Decide how to render `block`; `has_helper` tells whether a block helper
/// is registered under the block's name.
pub fn block_action<'s>(block: &Block<'s>, has_helper: bool) -> (res: BlockAction<'s>)
    requires
        action_ok(block@),
    ensures
        action_view(res) == block_action_spec(block@, has_helper),
        block@.raw && !block@.call.partial && (block@.call.target matches TargetV::Path(p) && p.is_simple())
            ==> (action_text(action_view(res)) matches Some(t) && stripped(
            raw_text_spec(block@),
            t,
            block@.call.trim_after(),
            block@.trim_before_close(),
        )),
{
    proof {
        if block@.raw && !block@.call.partial && (block@.call.target matches TargetV::Path(p)
            && p.is_simple()) {
            lemma_raw_text_trimmed(block@, has_helper);
        }
    }
    let call = block.call();
    if call.is_partial() {
        return BlockAction::Partial;
    }
    let target = call.target();
    proof {
        crate::parser::ast::lemma_target_view(*target);
    }
    match target {
        CallTarget::Path(path) => {
            proof {
                path.lemma_slice();
            }
            if path.is_simple() {
                let mut text: Option<&'s str> = None;
                let mut end_hint: Option<TrimHint> = None;
                if block.is_raw() {
                    let nodes = block.nodes();
                    proof {
                        crate::parser::ast::lemma_nodes_view(nodes@);
                    }
                    let mut content = if nodes.len() > 0 {
                        proof {
                            crate::parser::ast::lemma_node_view(nodes@[0]);
                        }
                        match &nodes[0] {
                            Node::Text(t) => {
                                proof {
                                    t.lemma_slice();
                                }
                                let s = t.as_str();
                                proof {
                                    crate::text::lemma_text_of_bytes(s);
                                }
                                s
                            },
                            _ => empty_str(),
                        }
                    } else {
                        empty_str()
                    };
                    let hint = block.trim_close();
                    proof {
                        call.lemma_views();
                    }
                    if call.trim_after() {
                        content = trim_start(content);
                    }
                    if hint.before {
                        content = trim_end(content);
                    }
                    text = Some(content);
                    end_hint = Some(hint);
                }
                let name = path.as_str();
                if has_helper {
                    BlockAction::Helper { name, text, end_hint }
                } else {
                    BlockAction::Missing { name, text, end_hint }
                }
            } else {
                BlockAction::NotIdentifier(path.as_str())
            }
        },
        CallTarget::SubExpr(_) => BlockAction::SubExprTarget,
    }
}

/// The bytes of `@partial-block`, the name of the block a partial is
/// rendered with.
pub open spec fn partial_block_bytes() -> Seq<u8> {
    seq![64u8, 112u8, 97u8, 114u8, 116u8, 105u8, 97u8, 108u8, 45u8, 98u8, 108u8, 111u8, 99u8, 107u8]
}

/// Whether a name is `@partial-block`.
fn is_partial_block_name(name: &str) -> (res: bool)
    ensures
        res == (name.spec_bytes() == partial_block_bytes()),
{
    let b = name.as_bytes();
    let expected: [u8; 14] = [64, 112, 97, 114, 116, 105, 97, 108, 45, 98, 108, 111, 99, 107];
    if b.len() != 14 {
        return false;
    }
    let mut i: usize = 0;
    while i < 14
        invariant
            b@.len() == 14,
            b@ == name.spec_bytes(),
            i <= 14,
            expected@ == partial_block_bytes(),
            forall|j: int| 0 <= j < i ==> b@[j] == partial_block_bytes()[j],
        decreases 14 - i,
    {
        if b[i] != expected[i] {
            return false;
        }
        i = i + 1;
    }
    assert(b@ =~= partial_block_bytes());
    true
}

/// How a partial call names its partial.
#[derive(Debug, PartialEq, Eq)]
pub enum PartialName<'s> {
    /// The partial block (`@partial-block`) or a simple identifier.
    Name(&'s str),
    /// A path that is neither (an error carrying the path's text).
    NotIdentifier(&'s str),
    /// A sub-expression, whose value names the partial.
    SubExpr,
}

/// The name of the partial that a call renders: `@partial-block` and simple
/// identifiers name it directly, other paths are an error, and a
/// sub-expression is evaluated to find it.
pub fn partial_name<'s>(call: &Call<'s>) -> (res: PartialName<'s>)
    requires
        call@.target matches TargetV::Path(p) ==> p.slice_ok(),
    ensures
        match call@.target {
            TargetV::Path(p) => if p.bytes() == partial_block_bytes() || p.is_simple() {
                res matches PartialName::Name(n) && n.spec_bytes() == p.bytes()
            } else {
                res matches PartialName::NotIdentifier(n) && n.spec_bytes() == p.bytes()
            },
            TargetV::SubExpr(_) => res is SubExpr,
        },
{
    let target = call.target();
    proof {
        crate::parser::ast::lemma_target_view(*target);
    }
    match target {
        CallTarget::Path(path) => {
            proof {
                path.lemma_slice();
            }
            let name = path.as_str();
            let is_partial_block = is_partial_block_name(name);
            if is_partial_block || path.is_simple() {
                PartialName::Name(name)
            } else {
                PartialName::NotIdentifier(name)
            }
        },
        CallTarget::SubExpr(_) => PartialName::SubExpr,
    }
}

} // verus!
