//! Abstract syntax tree node types.
use std::ops::Range;
use vstd::prelude::*;
use vstd::string::StringSliceAdditionalSpecFns;

use crate::text::{push_str, slice, slice_span, span_bytes, span_text, valid_span};
use vstd::utf8::decode_utf8;
use crate::trim::TrimHint;

verus! {

/// The bytes of `@root`, the name of the root scope.
pub open spec fn root_bytes() -> Seq<u8> {
    seq![64u8, 114u8, 111u8, 111u8, 116u8]
}

/// Trait for nodes that reference a slice of the
/// source template.
pub trait Slice<'source> {
    /// Whether slicing the source for this node succeeds.
    spec fn slice_ok(&self) -> bool;

    /// The bytes of the full span of this node.
    spec fn slice_bytes(&self) -> Seq<u8>;

    /// The underlying template source.
    spec fn spec_source(&self) -> &'source str;

    /// Get a string slice of the full span for this node.
    fn as_str(&self) -> (res: &'source str)
        requires
            self.slice_ok(),
        ensures
            res.spec_bytes() == self.slice_bytes(),
    ;

    /// Get the underlying template source.
    fn source(&self) -> (res: &'source str)
        ensures
            res == self.spec_source(),
    ;
}

/// Trait for nodes that track line numbers.
///
/// Line numbers begin at index zero.
pub trait Lines {
    /// The line range of this node.
    spec fn spec_lines(&self) -> Range<usize>;

    /// Reference to the line range for the node.
    fn lines(&self) -> (res: &Range<usize>)
        ensures
            *res == self.spec_lines(),
    ;

    /// Mutable reference to the line range for the node.
    fn lines_mut(&mut self) -> (res: &mut Range<usize>)
        ensures
            *res == old(self).spec_lines(),
            final(self).spec_lines() == *final(res),
    ;

    /// Set the end of the lines range to follow `line`.
    fn lines_end(&mut self, line: &usize)
        requires
            *line < usize::MAX,
        ensures
            final(self).spec_lines().start == old(self).spec_lines().start,
            final(self).spec_lines().end == *line + 1,
    ;
}

/// Trait for elements that expect to be closed.
pub trait Element<'source>: Slice<'source> {
    /// The span of the open tag.
    spec fn spec_open_span(&self) -> Range<usize>;

    /// The span of the close tag, if any.
    spec fn spec_close_span(&self) -> Option<Range<usize>>;

    /// Get the string for the open tag.
    fn open(&self) -> (res: &'source str)
        requires
            valid_span(
                self.spec_source(),
                self.spec_open_span().start as int,
                self.spec_open_span().end as int,
            ),
        ensures
            res.spec_bytes() == span_bytes(
                self.spec_source(),
                self.spec_open_span().start as int,
                self.spec_open_span().end as int,
            ),
    ;

    /// Get the string for the close tag.
    ///
    /// If no close span has been set which can happen if the
    /// element has no end tag this is the empty string.
    fn close(&self) -> (res: &'source str)
        requires
            self.spec_close_span() matches Some(c) ==> valid_span(
                self.spec_source(),
                c.start as int,
                c.end as int,
            ),
        ensures
            res.spec_bytes() == match self.spec_close_span() {
                Some(c) => span_bytes(self.spec_source(), c.start as int, c.end as int),
                None => Seq::<u8>::empty(),
            },
    ;

    /// Get the span for the open tag.
    fn open_span(&self) -> (res: &Range<usize>)
        ensures
            *res == self.spec_open_span(),
    ;

    /// Get the span for the close tag.
    fn close_span(&self) -> (res: &Option<Range<usize>>)
        ensures
            *res == self.spec_close_span(),
    ;

    /// Determine if this element has been closed.
    fn is_closed(&self) -> (res: bool)
        ensures
            res == self.spec_close_span() is Some,
    ;

    /// Mark this element as correctly terminated.
    fn exit(&mut self, close: Range<usize>)
        ensures
            final(self).spec_close_span() == Some(close),
            final(self).spec_open_span() == old(self).spec_open_span(),
    ;

    /// The full byte range for this element; if the element is not closed
    /// only the open span is returned.
    fn span(&self) -> (res: Range<usize>)
        ensures
            res == match self.spec_close_span() {
                Some(c) => self.spec_open_span().start..c.end,
                None => self.spec_open_span(),
            },
    {
        let open = self.open_span();
        if let Some(close) = self.close_span() {
            open.start..close.end
        } else {
            open.start..open.end
        }
    }
}

/// The empty string; its bytes are empty.
pub fn empty_str() -> (res: &'static str)
    ensures
        res.spec_bytes() == Seq::<u8>::empty(),
        res@ == Seq::<char>::empty(),
{
    let e = "";
    proof {
        reveal_strlit("");
        assert(e@ =~= Seq::<char>::empty());
        assert(e.spec_bytes() =~= Seq::<u8>::empty()) by {
            reveal_with_fuel(vstd::utf8::encode_utf8, 1);
        }
    }
    e
}

// ---------------------------------------------------------------------
// Text
// ---------------------------------------------------------------------

/// Text nodes refer to a consecutive range of bytes.
#[derive(Debug, PartialEq, Eq)]
pub struct Text<'source> {
    source: &'source str,
    span: Range<usize>,
    line: Range<usize>,
}

/// Abstract view of a text node.
pub struct TextV<'source> {
    pub source: &'source str,
    pub span: Range<usize>,
    pub line: Range<usize>,
}

impl<'source> View for Text<'source> {
    type V = TextV<'source>;

    closed spec fn view(&self) -> TextV<'source> {
        TextV { source: self.source, span: self.span, line: self.line }
    }
}

impl<'source> Text<'source> {
    /// Create a new text node.
    pub fn new(source: &'source str, span: Range<usize>, line: Range<usize>) -> (res: Self)
        ensures
            res@ == (TextV { source, span, line }),
    {
        Self { source, span, line }
    }

    /// The byte span of this text.
    pub fn span(&self) -> (res: &Range<usize>)
        ensures
            *res == self@.span,
    {
        &self.span
    }
}

impl<'source> Slice<'source> for Text<'source> {
    closed spec fn slice_ok(&self) -> bool {
        valid_span(self.source, self.span.start as int, self.span.end as int)
    }

    closed spec fn slice_bytes(&self) -> Seq<u8> {
        span_bytes(self.source, self.span.start as int, self.span.end as int)
    }

    closed spec fn spec_source(&self) -> &'source str {
        self.source
    }

    fn as_str(&self) -> (res: &'source str) {
        slice(self.source, self.span.start, self.span.end)
    }

    fn source(&self) -> (res: &'source str) {
        self.source
    }
}

impl<'source> Text<'source> {
    /// What slicing a text node needs and gives, stated over its view.
    pub proof fn lemma_slice(&self)
        ensures
            self.slice_ok() == valid_span(self@.source, self@.span.start as int, self@.span.end as int),
            self.slice_bytes() == span_bytes(self@.source, self@.span.start as int, self@.span.end as int),
            self.spec_source() == self@.source,
            self.spec_lines() == self@.line,
    {
    }
}

impl<'source> Lines for Text<'source> {
    closed spec fn spec_lines(&self) -> Range<usize> {
        self.line
    }

    fn lines(&self) -> (res: &Range<usize>) {
        &self.line
    }

    fn lines_mut(&mut self) -> (res: &mut Range<usize>)
        ensures
            final(self)@ == (TextV { line: *final(res), ..old(self)@ }),
    {
        &mut self.line
    }

    fn lines_end(&mut self, line: &usize)
        ensures
            final(self)@ == (TextV { line: old(self)@.line.start..(*line + 1) as usize, ..old(self)@ }),
    {
        self.line.end = *line + 1;
    }
}

// ---------------------------------------------------------------------
// TextBlock
// ---------------------------------------------------------------------

/// Text blocks encapsulate a text node with start and end
/// ranges; used primarily for comments.
#[derive(Debug, PartialEq, Eq)]
pub struct TextBlock<'source> {
    source: &'source str,
    text: Text<'source>,
    open: Range<usize>,
    close: Range<usize>,
}

/// Abstract view of a text block.
pub struct TextBlockV<'source> {
    pub source: &'source str,
    pub text: TextV<'source>,
    pub open: Range<usize>,
    pub close: Range<usize>,
}

impl<'source> View for TextBlock<'source> {
    type V = TextBlockV<'source>;

    closed spec fn view(&self) -> TextBlockV<'source> {
        TextBlockV { source: self.source, text: self.text@, open: self.open, close: self.close }
    }
}

impl<'source> TextBlock<'source> {
    /// Create a new text block.
    pub fn new(
        source: &'source str,
        text: Text<'source>,
        open: Range<usize>,
        close: Range<usize>,
    ) -> (res: Self)
        ensures
            res@ == (TextBlockV { source, text: text@, open, close }),
    {
        Self { source, text, open, close }
    }

    /// The inner text node.
    pub fn into_text(self) -> (res: Text<'source>)
        ensures
            res@ == self@.text,
    {
        self.text
    }

    /// Reference to the inner text node.
    pub fn text(&self) -> (res: &Text<'source>)
        ensures
            res@ == self@.text,
    {
        &self.text
    }

    /// The text of the block without its first byte (the backslash that
    /// escapes a raw statement).
    pub fn tail_str(&self) -> (res: &'source str)
        requires
            valid_span(self@.source, self@.open.start + 1, self@.close.end as int),
        ensures
            res.spec_bytes() == span_bytes(self@.source, self@.open.start + 1, self@.close.end as int),
    {
        slice(self.source, self.open.start + 1, self.close.end)
    }
}

impl<'source> Slice<'source> for TextBlock<'source> {
    closed spec fn slice_ok(&self) -> bool {
        valid_span(self.source, self.open.start as int, self.close.end as int)
    }

    closed spec fn slice_bytes(&self) -> Seq<u8> {
        span_bytes(self.source, self.open.start as int, self.close.end as int)
    }

    closed spec fn spec_source(&self) -> &'source str {
        self.source
    }

    fn as_str(&self) -> (res: &'source str) {
        slice(self.source, self.open.start, self.close.end)
    }

    fn source(&self) -> (res: &'source str) {
        self.source
    }
}

impl<'source> TextBlock<'source> {
    /// What slicing a text block needs and gives, stated over its view.
    pub proof fn lemma_slice(&self)
        ensures
            self.slice_ok() == valid_span(self@.source, self@.open.start as int, self@.close.end as int),
            self.slice_bytes() == span_bytes(self@.source, self@.open.start as int, self@.close.end as int),
            self.spec_source() == self@.source,
            self.spec_lines() == self@.text.line,
    {
    }
}

impl<'source> Lines for TextBlock<'source> {
    closed spec fn spec_lines(&self) -> Range<usize> {
        self.text.line
    }

    fn lines(&self) -> (res: &Range<usize>) {
        self.text.lines()
    }

    fn lines_mut(&mut self) -> (res: &mut Range<usize>) {
        self.text.lines_mut()
    }

    fn lines_end(&mut self, line: &usize) {
        self.text.lines_end(line);
    }
}

// ---------------------------------------------------------------------
// Components and paths
// ---------------------------------------------------------------------

/// Indicates the kind of escaping using for raw
/// identifiers.
#[derive(Clone, Copy, Debug, PartialEq, Eq, Structural)]
pub enum RawIdType {
    /// Raw identifier in single quotes.
    Single,
    /// Raw identifier in double quotes.
    Double,
    /// Raw identifier in square brackets.
    Array,
}

/// Indicates the kind of path component.
#[derive(Clone, Copy, Debug, PartialEq, Eq, Structural)]
pub enum ComponentType {
    /// Parent reference type.
    Parent,
    /// Explicit this keyword type.
    ThisKeyword,
    /// Explicit this using dot slash notation.
    ThisDotSlash,
    /// Identifier path component.
    Identifier,
    /// Local identifier path component.
    LocalIdentifier,
    /// Raw identifier path component.
    RawIdentifier(RawIdType),
    /// Path delimiter.
    Delimiter,
}

/// Components form part of a path.
#[derive(Debug, PartialEq, Eq)]
pub struct Component<'source> {
    source: &'source str,
    kind: ComponentType,
    span: Range<usize>,
    value: Option<String>,
}

/// Abstract view of a path component.
pub struct ComponentV<'source> {
    pub source: &'source str,
    pub kind: ComponentType,
    pub span: Range<usize>,
    pub value: Option<Seq<char>>,
}

/// The view of an optional owned string.
pub open spec fn opt_string_view(v: Option<String>) -> Option<Seq<char>> {
    match v {
        Some(s) => Some(s@),
        None => None,
    }
}

impl<'source> View for Component<'source> {
    type V = ComponentV<'source>;

    closed spec fn view(&self) -> ComponentV<'source> {
        ComponentV {
            source: self.source,
            kind: self.kind,
            span: self.span,
            value: opt_string_view(self.value),
        }
    }
}

impl<'source> ComponentV<'source> {
    /// Whether slicing the source at this component's span succeeds.
    pub open spec fn slice_ok(self) -> bool {
        valid_span(self.source, self.span.start as int, self.span.end as int)
    }

    /// The bytes of this component's span.
    pub open spec fn bytes(self) -> Seq<u8> {
        span_bytes(self.source, self.span.start as int, self.span.end as int)
    }

    /// The value of this component: the owned value if there is one,
    /// otherwise the characters of its span.
    pub open spec fn value_text(self) -> Seq<char> {
        match self.value {
            Some(v) => v,
            None => span_text(self.source, self.span.start as int, self.span.end as int),
        }
    }

    /// Whether this component is a local identifier.
    pub open spec fn is_local(self) -> bool {
        self.kind == ComponentType::LocalIdentifier
    }

    /// Whether this component is an explicit `this` reference.
    pub open spec fn is_explicit(self) -> bool {
        self.kind == ComponentType::ThisKeyword || self.kind == ComponentType::ThisDotSlash
    }
}

impl<'source> Component<'source> {
    /// Create a new component path.
    ///
    /// If a component path contains escape sequences an
    /// owned value should be given otherwise the component
    /// path will use the supplied span.
    pub fn new(
        source: &'source str,
        kind: ComponentType,
        span: Range<usize>,
        value: Option<String>,
    ) -> (res: Self)
        ensures
            res@ == (ComponentV { source, kind, span, value: opt_string_view(value) }),
    {
        Self { source, kind, span, value }
    }

    /// Determine if this is the special `@root` component.
    pub fn is_root(&self) -> (res: bool)
        requires
            self@.slice_ok(),
        ensures
            res == (self@.bytes() == root_bytes()),
    {
        let b = self.as_str().as_bytes();
        let res = b.len() == 5 && b[0] == 64u8 && b[1] == 114u8 && b[2] == 111u8 && b[3] == 111u8
            && b[4] == 116u8;
        proof {
            if res {
                assert(b@ =~= root_bytes());
            }
        }
        res
    }

    /// Get the kind of this component.
    pub fn kind(&self) -> (res: &ComponentType)
        ensures
            *res == self@.kind,
    {
        &self.kind
    }

    /// The span for this component.
    pub fn span(&self) -> (res: &Range<usize>)
        ensures
            *res == self@.span,
    {
        &self.span
    }

    /// Determine if this component is a local identifier; begins
    /// with an `@` symbol.
    pub fn is_local(&self) -> (res: bool)
        ensures
            res == self@.is_local(),
    {
        ComponentType::LocalIdentifier == self.kind
    }

    /// Determine if this component is an identifier.
    pub fn is_identifier(&self) -> (res: bool)
        ensures
            res == (self@.kind == ComponentType::Identifier),
    {
        ComponentType::Identifier == self.kind
    }

    /// Determine if this component uses an explicit this reference;
    /// the reference may be the keyword `this` or `./`.
    pub fn is_explicit(&self) -> (res: bool)
        ensures
            res == self@.is_explicit(),
    {
        ComponentType::ThisKeyword == self.kind || self.is_explicit_dot_slash()
    }

    /// Determine if this component uses and explicit dot slash (`./`)
    /// reference.
    pub fn is_explicit_dot_slash(&self) -> (res: bool)
        ensures
            res == (self@.kind == ComponentType::ThisDotSlash),
    {
        ComponentType::ThisDotSlash == self.kind
    }

    /// Get the underlying value for the path component.
    ///
    /// If an owned value has been given to this path component
    /// (which is necessary when the path component includes escape sequences)
    /// then a reference to the owned value is returned otherwise
    /// a string slice into the original template for the span
    /// assigned to this component path is returned.
    pub fn as_value(&self) -> (res: &str)
        requires
            self@.value is None ==> self@.slice_ok(),
        ensures
            res@ == self@.value_text(),
    {
        if let Some(value) = &self.value {
            return value.as_str();
        }
        slice_span(self.source, self.span.start, self.span.end)
    }
}

impl<'source> Slice<'source> for Component<'source> {
    closed spec fn slice_ok(&self) -> bool {
        self@.slice_ok()
    }

    closed spec fn slice_bytes(&self) -> Seq<u8> {
        self@.bytes()
    }

    closed spec fn spec_source(&self) -> &'source str {
        self.source
    }

    fn as_str(&self) -> (res: &'source str) {
        slice(self.source, self.span.start, self.span.end)
    }

    fn source(&self) -> (res: &'source str) {
        self.source
    }
}

impl<'source> Component<'source> {
    /// What slicing a component needs and gives, stated over its view.
    pub proof fn lemma_slice(&self)
        ensures
            self.slice_ok() == self@.slice_ok(),
            self.slice_bytes() == self@.bytes(),
            self.spec_source() == self@.source,
    {
    }
}

/// Path to a variable.
#[derive(Debug, PartialEq, Eq)]
pub struct Path<'source> {
    source: &'source str,
    components: Vec<Component<'source>>,
    parents: u8,
    explicit: bool,
    root: bool,
    open: Range<usize>,
    line: Range<usize>,
}

/// Abstract view of a path.
pub struct PathV<'source> {
    pub source: &'source str,
    pub components: Seq<ComponentV<'source>>,
    pub parents: u8,
    pub explicit: bool,
    pub root: bool,
    pub open: Range<usize>,
    pub line: Range<usize>,
}

impl<'source> View for Path<'source> {
    type V = PathV<'source>;

    closed spec fn view(&self) -> PathV<'source> {
        PathV {
            source: self.source,
            components: self.components@.map_values(|c: Component<'source>| c@),
            parents: self.parents,
            explicit: self.explicit,
            root: self.root,
            open: self.open,
            line: self.line,
        }
    }
}

impl<'source> PathV<'source> {
    /// A new, empty path.
    pub open spec fn empty(source: &'source str, open: Range<usize>, line: Range<usize>) -> Self {
        PathV {
            source,
            components: Seq::empty(),
            parents: 0,
            explicit: false,
            root: false,
            open,
            line,
        }
    }

    /// Whether the path is a single identifier.
    pub open spec fn is_simple(self) -> bool {
        self.components.len() == 1 && self.components[0].kind == ComponentType::Identifier
    }

    /// Whether the first component is a local identifier.
    pub open spec fn is_local(self) -> bool {
        self.components.len() > 0 && self.components[0].is_local()
    }

    /// Where the text of the path starts: at its first parent reference
    /// (its open span) when it has one, else at its first component.
    pub open spec fn start(self) -> int {
        if self.parents > 0 {
            self.open.start as int
        } else {
            self.components[0].span.start as int
        }
    }

    /// A path with parent references starts with the parent reference that
    /// opens it, which fits the source and comes before the components.
    pub open spec fn open_ok(self) -> bool {
        self.parents > 0 ==> {
            &&& valid_span(self.source, self.open.start as int, self.open.end as int)
            &&& (self.components.len() > 0 ==> self.open.end <= self.components[0].span.start)
        }
    }

    /// Whether slicing the source for the whole path succeeds.
    pub open spec fn slice_ok(self) -> bool {
        self.components.len() > 0 ==> valid_span(
            self.source,
            self.start(),
            self.components.last().span.end as int,
        )
    }

    /// The bytes of the whole path: from its first parent reference (or
    /// first component) to its last component.
    pub open spec fn bytes(self) -> Seq<u8> {
        if self.components.len() > 0 {
            span_bytes(self.source, self.start(), self.components.last().span.end as int)
        } else {
            Seq::empty()
        }
    }
}

/// Every component span can be sliced from the source and the components
/// come in order, each ending before the next begins.
pub open spec fn comps_ok(source: &str, cs: Seq<ComponentV>) -> bool {
    &&& forall|i: int| 0 <= i < cs.len() ==> (#[trigger] cs[i]).source == source
    &&& forall|i: int|
        0 <= i < cs.len() ==> valid_span(source, (#[trigger] cs[i]).span.start as int, cs[i].span.end as int)
    &&& forall|i: int, j: int|
        0 <= i < j < cs.len() ==> (#[trigger] cs[i]).span.end <= (#[trigger] cs[j]).span.start
}

/// A path whose components fit and come in order, after the parent
/// reference that opens it, can be sliced as a whole.
pub proof fn lemma_comps_slice(p: PathV)
    requires
        comps_ok(p.source, p.components),
        p.open_ok(),
    ensures
        p.slice_ok(),
        p.components.len() > 0 ==> p.components[0].slice_ok(),
{
    if p.components.len() > 1 {
        assert(p.components[0].span.end <= p.components[p.components.len() - 1].span.start);
    }
}

/// A target whose spans fit can be sliced.
pub proof fn lemma_target_spans(t: TargetV)
    requires
        t.spans_ok(),
    ensures
        t.slice_ok(),
{
    if let TargetV::Path(p) = t {
        lemma_comps_slice(p);
    }
}

impl<'source> Path<'source> {
    /// Create a new path.
    pub fn new(source: &'source str, open: Range<usize>, line: Range<usize>) -> (res: Self)
        ensures
            res@ == PathV::empty(source, open, line),
    {
        let res = Self {
            source,
            components: Vec::new(),
            parents: 0,
            explicit: false,
            root: false,
            open,
            line,
        };
        assert(res@.components =~= Seq::<ComponentV<'source>>::empty());
        res
    }

    /// Get the open span for the path.
    pub fn open_span(&self) -> (res: &Range<usize>)
        ensures
            *res == self@.open,
    {
        &self.open
    }

    /// Add a component to this path.
    pub fn add_component(&mut self, part: Component<'source>)
        ensures
            final(self)@ == (PathV { components: old(self)@.components.push(part@), ..old(self)@ }),
    {
        self.components.push(part);
        assert(self@.components =~= old(self)@.components.push(part@));
    }

    /// Get the path components.
    pub fn components(&self) -> (res: &Vec<Component<'source>>)
        ensures
            res@.map_values(|c: Component<'source>| c@) == self@.components,
    {
        &self.components
    }

    /// Get the number of parent references.
    pub fn parents(&self) -> (res: u8)
        ensures
            res == self@.parents,
    {
        self.parents
    }

    /// Set the number of parent references.
    pub fn set_parents(&mut self, parents: u8)
        ensures
            final(self)@ == (PathV { parents, ..old(self)@ }),
    {
        self.parents = parents;
    }

    /// Flag this path as resolved relative to the root value.
    pub fn is_root(&self) -> (res: bool)
        ensures
            res == self@.root,
    {
        self.root
    }

    /// Set whether to resolve relative to a root value.
    pub fn set_root(&mut self, root: bool)
        ensures
            final(self)@ == (PathV { root, ..old(self)@ }),
    {
        self.root = root;
    }

    /// Flag this path as an explicit scope reference (eg: `this` or `./`).
    pub fn is_explicit(&self) -> (res: bool)
        ensures
            res == self@.explicit,
    {
        self.explicit
    }

    /// Set whether this path is an explicit reference.
    pub fn set_explicit(&mut self, explicit: bool)
        ensures
            final(self)@ == (PathV { explicit, ..old(self)@ }),
    {
        self.explicit = explicit;
    }

    /// Determine if the path components are empty.
    pub fn is_empty(&self) -> (res: bool)
        ensures
            res == (self@.components.len() == 0),
    {
        self.components.len() == 0
    }

    /// Determine if the first component is a local identifier.
    pub fn is_local(&self) -> (res: bool)
        ensures
            res == self@.is_local(),
    {
        self.components.len() > 0 && self.components[0].is_local()
    }

    /// Determine if this path is a simple identifier.
    pub fn is_simple(&self) -> (res: bool)
        ensures
            res == self@.is_simple(),
    {
        self.components.len() == 1 && self.components[0].kind == ComponentType::Identifier
    }
}

impl<'source> Slice<'source> for Path<'source> {
    closed spec fn slice_ok(&self) -> bool {
        self@.slice_ok()
    }

    closed spec fn slice_bytes(&self) -> Seq<u8> {
        self@.bytes()
    }

    closed spec fn spec_source(&self) -> &'source str {
        self.source
    }

    fn as_str(&self) -> (res: &'source str) {
        if self.components.len() > 0 {
            let first = &self.components[0];
            let last = &self.components[self.components.len() - 1];
            let start = if self.parents > 0 {
                self.open.start
            } else {
                first.span.start
            };
            slice(self.source, start, last.span.end)
        } else {
            empty_str()
        }
    }

    fn source(&self) -> (res: &'source str) {
        self.source
    }
}

impl<'source> Path<'source> {
    /// What slicing a path needs and gives, stated over its view.
    pub proof fn lemma_slice(&self)
        ensures
            self.slice_ok() == self@.slice_ok(),
            self.slice_bytes() == self@.bytes(),
            self.spec_source() == self@.source,
            self.spec_lines() == self@.line,
    {
    }
}

impl<'source> Lines for Path<'source> {
    closed spec fn spec_lines(&self) -> Range<usize> {
        self.line
    }

    fn lines(&self) -> (res: &Range<usize>) {
        &self.line
    }

    fn lines_mut(&mut self) -> (res: &mut Range<usize>)
        ensures
            final(self)@ == (PathV { line: *final(res), ..old(self)@ }),
    {
        &mut self.line
    }

    fn lines_end(&mut self, line: &usize)
        ensures
            final(self)@ == (PathV { line: old(self)@.line.start..(*line + 1) as usize, ..old(self)@ }),
    {
        self.line.end = *line + 1;
    }
}

// ---------------------------------------------------------------------
// Links
// ---------------------------------------------------------------------

/// Link node for wiki-style links.
#[derive(Debug, PartialEq, Eq)]
pub struct Link<'source> {
    source: &'source str,
    open: Range<usize>,
    close: Option<Range<usize>>,
    line: Range<usize>,
    href_span: Range<usize>,
    label_span: Range<usize>,
    title_span: Range<usize>,
    // Owned value when escape sequences are detected
    href: Option<String>,
    label: Option<String>,
    title: Option<String>,
}

/// Abstract view of a link.
pub struct LinkV<'source> {
    pub source: &'source str,
    pub open: Range<usize>,
    pub close: Option<Range<usize>>,
    pub line: Range<usize>,
    pub href_span: Range<usize>,
    pub label_span: Range<usize>,
    pub title_span: Range<usize>,
    pub href: Option<Seq<char>>,
    pub label: Option<Seq<char>>,
    pub title: Option<Seq<char>>,
}

impl<'source> View for Link<'source> {
    type V = LinkV<'source>;

    closed spec fn view(&self) -> LinkV<'source> {
        LinkV {
            source: self.source,
            open: self.open,
            close: self.close,
            line: self.line,
            href_span: self.href_span,
            label_span: self.label_span,
            title_span: self.title_span,
            href: opt_string_view(self.href),
            label: opt_string_view(self.label),
            title: opt_string_view(self.title),
        }
    }
}

/// Whether slicing `source` at `span` succeeds.
pub open spec fn span_ok(source: &str, span: Range<usize>) -> bool {
    valid_span(source, span.start as int, span.end as int)
}

/// The characters of `source` at `span`.
pub open spec fn span_chars(source: &str, span: Range<usize>) -> Seq<char> {
    span_text(source, span.start as int, span.end as int)
}

impl<'source> LinkV<'source> {
    /// The link href: the owned value if set, otherwise the text of its span.
    pub open spec fn href_text(self) -> Seq<char> {
        match self.href {
            Some(v) => v,
            None => span_chars(self.source, self.href_span),
        }
    }

    /// The link label: the owned value if set, otherwise the text of its
    /// span, or the href when that text is empty.
    pub open spec fn label_text(self) -> Seq<char> {
        match self.label {
            Some(v) => v,
            None => if span_chars(self.source, self.label_span).len() == 0 {
                self.href_text()
            } else {
                span_chars(self.source, self.label_span)
            },
        }
    }

    /// The link title: the owned value if set, otherwise the text of its
    /// span, or the label when that text is empty.
    pub open spec fn title_text(self) -> Seq<char> {
        match self.title {
            Some(v) => v,
            None => if span_chars(self.source, self.title_span).len() == 0 {
                self.label_text()
            } else {
                span_chars(self.source, self.title_span)
            },
        }
    }

    /// Slicing needed to read the href.
    pub open spec fn href_ok(self) -> bool {
        self.href is None ==> span_ok(self.source, self.href_span)
    }

    /// Slicing needed to read the label.
    pub open spec fn label_ok(self) -> bool {
        self.label is None ==> span_ok(self.source, self.label_span) && (span_chars(
            self.source,
            self.label_span,
        ).len() == 0 ==> self.href_ok())
    }

    /// Slicing needed to read the title.
    pub open spec fn title_ok(self) -> bool {
        self.title is None ==> span_ok(self.source, self.title_span) && (span_chars(
            self.source,
            self.title_span,
        ).len() == 0 ==> self.label_ok())
    }

    /// The end of the full span: the close tag's end, or (for an unclosed
    /// link) the length of the open span.
    pub open spec fn as_str_end(self) -> int {
        match self.close {
            Some(c) => c.end as int,
            None => self.open.end - self.open.start,
        }
    }
}

impl<'source> Link<'source> {
    /// Create a new link.
    pub fn new(source: &'source str, open: Range<usize>, line: Range<usize>) -> (res: Self)
        ensures
            res@ == (LinkV {
                source,
                open,
                close: None,
                line,
                href_span: open.end..open.end,
                label_span: open.end..open.end,
                title_span: open.end..open.end,
                href: None,
                label: None,
                title: None,
            }),
    {
        Self {
            source,
            href_span: open.end..open.end,
            label_span: open.end..open.end,
            title_span: open.end..open.end,
            open,
            line,
            close: None,
            href: None,
            label: None,
            title: None,
        }
    }

    /// Get the link href.
    ///
    /// If an owned value has been set it is preferred.
    pub fn href(&self) -> (res: &str)
        requires
            self@.href_ok(),
        ensures
            res@ == self@.href_text(),
    {
        if let Some(href) = &self.href {
            return href.as_str();
        }
        slice_span(self.source, self.href_span.start, self.href_span.end)
    }

    /// Get the link label.
    ///
    /// If the label is the empty string the href will be used instead.
    ///
    /// If an owned value has been set it is preferred.
    pub fn label(&self) -> (res: &str)
        requires
            self@.label_ok(),
        ensures
            res@ == self@.label_text(),
    {
        let lbl = if let Some(label) = &self.label {
            return label.as_str();
        } else {
            slice_span(self.source, self.label_span.start, self.label_span.end)
        };
        if lbl.is_empty() {
            self.href()
        } else {
            lbl
        }
    }

    /// Get the link title.
    ///
    /// If the title is the empty string the label will be used instead.
    ///
    /// If an owned value has been set it is preferred.
    pub fn title(&self) -> (res: &str)
        requires
            self@.title_ok(),
        ensures
            res@ == self@.title_text(),
    {
        let title = if let Some(title) = &self.title {
            return title.as_str();
        } else {
            slice_span(self.source, self.title_span.start, self.title_span.end)
        };
        if title.is_empty() {
            self.label()
        } else {
            title
        }
    }

    /// Get the span for the href.
    pub fn href_span(&self) -> (res: &Range<usize>)
        ensures
            *res == self@.href_span,
    {
        &self.href_span
    }

    /// Get the span for the label.
    pub fn label_span(&self) -> (res: &Range<usize>)
        ensures
            *res == self@.label_span,
    {
        &self.label_span
    }

    /// Get the span for the title.
    pub fn title_span(&self) -> (res: &Range<usize>)
        ensures
            *res == self@.title_span,
    {
        &self.title_span
    }

    /// Update the end of the href span.
    pub fn href_end(&mut self, end: usize)
        ensures
            final(self)@ == (LinkV { href_span: old(self)@.href_span.start..end, ..old(self)@ }),
    {
        self.href_span.end = end;
    }

    /// Update the start of the label span.
    pub fn label_start(&mut self, start: usize)
        ensures
            final(self)@ == (LinkV { label_span: start..old(self)@.label_span.end, ..old(self)@ }),
    {
        self.label_span.start = start;
    }

    /// Update the end of the label span.
    pub fn label_end(&mut self, end: usize)
        ensures
            final(self)@ == (LinkV { label_span: old(self)@.label_span.start..end, ..old(self)@ }),
    {
        self.label_span.end = end;
    }

    /// Update the start of the title span.
    pub fn title_start(&mut self, start: usize)
        ensures
            final(self)@ == (LinkV { title_span: start..old(self)@.title_span.end, ..old(self)@ }),
    {
        self.title_span.start = start;
    }

    /// Update the end of the title span.
    pub fn title_end(&mut self, end: usize)
        ensures
            final(self)@ == (LinkV { title_span: old(self)@.title_span.start..end, ..old(self)@ }),
    {
        self.title_span.end = end;
    }

    /// Set an owned value for the href.
    ///
    /// Only available when the parser detects escape sequences
    /// in the input.
    pub fn set_href(&mut self, value: String)
        ensures
            final(self)@ == (LinkV { href: Some(value@), ..old(self)@ }),
    {
        self.href = Some(value);
    }

    /// Set an owned value for the label.
    ///
    /// Only available when the parser detects escape sequences
    /// in the input.
    pub fn set_label(&mut self, value: String)
        ensures
            final(self)@ == (LinkV { label: Some(value@), ..old(self)@ }),
    {
        self.label = Some(value);
    }

    /// Set an owned value for the title.
    ///
    /// Only available when the parser detects escape sequences
    /// in the input.
    pub fn set_title(&mut self, value: String)
        ensures
            final(self)@ == (LinkV { title: Some(value@), ..old(self)@ }),
    {
        self.title = Some(value);
    }
}

impl<'source> Slice<'source> for Link<'source> {
    closed spec fn slice_ok(&self) -> bool {
        self.open.start <= self.open.end && valid_span(
            self.source,
            self.open.start as int,
            self@.as_str_end(),
        )
    }

    closed spec fn slice_bytes(&self) -> Seq<u8> {
        span_bytes(self.source, self.open.start as int, self@.as_str_end())
    }

    closed spec fn spec_source(&self) -> &'source str {
        self.source
    }

    fn as_str(&self) -> (res: &'source str) {
        let end = match &self.close {
            Some(close) => close.end,
            None => self.open.end - self.open.start,
        };
        slice(self.source, self.open.start, end)
    }

    fn source(&self) -> (res: &'source str) {
        self.source
    }
}

impl<'source> Lines for Link<'source> {
    closed spec fn spec_lines(&self) -> Range<usize> {
        self.line
    }

    fn lines(&self) -> (res: &Range<usize>) {
        &self.line
    }

    fn lines_mut(&mut self) -> (res: &mut Range<usize>)
        ensures
            final(self)@ == (LinkV { line: *final(res), ..old(self)@ }),
    {
        &mut self.line
    }

    fn lines_end(&mut self, line: &usize)
        ensures
            final(self)@ == (LinkV { line: old(self)@.line.start..(*line + 1) as usize, ..old(self)@ }),
    {
        self.line.end = *line + 1;
    }
}

impl<'source> Element<'source> for Link<'source> {
    closed spec fn spec_open_span(&self) -> Range<usize> {
        self.open
    }

    closed spec fn spec_close_span(&self) -> Option<Range<usize>> {
        self.close
    }

    fn open(&self) -> (res: &'source str) {
        slice(self.source, self.open.start, self.open.end)
    }

    fn close(&self) -> (res: &'source str) {
        if let Some(close) = &self.close {
            slice(self.source, close.start, close.end)
        } else {
            empty_str()
        }
    }

    fn open_span(&self) -> (res: &Range<usize>) {
        &self.open
    }

    fn close_span(&self) -> (res: &Option<Range<usize>>) {
        &self.close
    }

    fn is_closed(&self) -> (res: bool) {
        self.close.is_some()
    }

    fn exit(&mut self, close: Range<usize>)
        ensures
            final(self)@ == (LinkV { close: Some(close), ..old(self)@ }),
    {
        self.close = Some(close);
    }
}

impl<'source> Link<'source> {
    /// What the trait-level views of a link are, stated over its view.
    pub proof fn lemma_views(&self)
        ensures
            self.spec_source() == self@.source,
            self.spec_open_span() == self@.open,
            self.spec_close_span() == self@.close,
            self.spec_lines() == self@.line,
            self.slice_ok() == (self@.open.start <= self@.open.end && valid_span(
                self@.source,
                self@.open.start as int,
                self@.as_str_end(),
            )),
            self.slice_bytes() == span_bytes(self@.source, self@.open.start as int, self@.as_str_end()),
    {
    }
}

// ---------------------------------------------------------------------
// JSON literal values
// ---------------------------------------------------------------------

/// A literal JSON value written in a template: `null`, `true`, `false`, a
/// number (kept as its source text, which `serde_json` accepts as a number)
/// or a string.
#[derive(Debug, PartialEq, Eq)]
pub enum Json {
    Null,
    Bool(bool),
    Number(String),
    String(String),
}

/// Abstract view of a JSON literal.
pub enum JsonV {
    Null,
    Bool(bool),
    Number(Seq<char>),
    String(Seq<char>),
}

impl View for Json {
    type V = JsonV;

    open spec fn view(&self) -> JsonV {
        match self {
            Json::Null => JsonV::Null,
            Json::Bool(b) => JsonV::Bool(*b),
            Json::Number(n) => JsonV::Number(n@),
            Json::String(s) => JsonV::String(s@),
        }
    }
}

// ---------------------------------------------------------------------
// Parameters, call targets and calls
// ---------------------------------------------------------------------

/// Parameter values can be used as arguments or hash values.
#[derive(Debug, PartialEq, Eq)]
pub enum ParameterValue<'source> {
    /// A parameter that should resolve to a runtime variable.
    Path(Path<'source>),
    /// A literal JSON value.
    Json {
        /// The literal JSON value.
        value: Json,
        /// The byte span for the value.
        span: Range<usize>,
        /// The line range for the value.
        line: Range<usize>,
    },
    /// A sub-expression to be invoked at runtime to determine the value.
    SubExpr(Call<'source>),
}

/// Call targets represent either a helper call, partial render or variable path.
///
/// To support dynamic partials call targets may also be sub-expressions.
#[derive(Debug, PartialEq, Eq)]
pub enum CallTarget<'source> {
    /// Path call target.
    Path(Path<'source>),
    /// Sub expression call target.
    SubExpr(Box<Call<'source>>),
}

/// Call is a variable interpolation, helper invocation or partial
/// render.
///
/// A call has zero or more arguments and optional hash parameters.
///
/// The partial flag is used to indicate that this call should be
/// rendered as a partial.
#[derive(Debug, PartialEq, Eq)]
pub struct Call<'source> {
    source: &'source str,
    partial: bool,
    conditional: bool,
    open: Range<usize>,
    close: Option<Range<usize>>,
    target: CallTarget<'source>,
    arguments: Vec<ParameterValue<'source>>,
    parameters: Vec<(&'source str, ParameterValue<'source>)>,
    line: Range<usize>,
}

/// Abstract view of a parameter value.
pub enum ParamV<'source> {
    Path(PathV<'source>),
    Json { value: JsonV, span: Range<usize>, line: Range<usize> },
    SubExpr(CallV<'source>),
}

/// Abstract view of a call target.
pub enum TargetV<'source> {
    Path(PathV<'source>),
    SubExpr(Box<CallV<'source>>),
}

/// Abstract view of a call. Hash parameters are kept as (key bytes, value)
/// pairs, one per key, in the order the keys were first added.
pub struct CallV<'source> {
    pub source: &'source str,
    pub partial: bool,
    pub conditional: bool,
    pub open: Range<usize>,
    pub close: Option<Range<usize>>,
    pub target: TargetV<'source>,
    pub arguments: Seq<ParamV<'source>>,
    pub parameters: Seq<(Seq<u8>, ParamV<'source>)>,
    pub line: Range<usize>,
}

/// The view of a call.
pub closed spec fn call_view<'s>(c: Call<'s>) -> CallV<'s>
    decreases c, 1nat,
{
    CallV {
        source: c.source,
        partial: c.partial,
        conditional: c.conditional,
        open: c.open,
        close: c.close,
        target: target_view(c.target),
        arguments: params_view(c.arguments@),
        parameters: hash_view(c.parameters@),
        line: c.line,
    }
}

/// The view of a call target.
pub closed spec fn target_view<'s>(t: CallTarget<'s>) -> TargetV<'s>
    decreases t, 0nat,
{
    match t {
        CallTarget::Path(p) => TargetV::Path(p@),
        CallTarget::SubExpr(c) => TargetV::SubExpr(Box::new(call_view(*c))),
    }
}

/// The view of a parameter value.
pub closed spec fn param_view<'s>(p: ParameterValue<'s>) -> ParamV<'s>
    decreases p, 0nat,
{
    match p {
        ParameterValue::Path(path) => ParamV::Path(path@),
        ParameterValue::Json { value, span, line } => ParamV::Json { value: value@, span, line },
        ParameterValue::SubExpr(c) => ParamV::SubExpr(call_view(c)),
    }
}

/// The views of a sequence of parameter values.
pub closed spec fn params_view<'s>(ps: Seq<ParameterValue<'s>>) -> Seq<ParamV<'s>>
    decreases ps, 0nat,
{
    if ps.len() == 0 {
        Seq::empty()
    } else {
        params_view(ps.drop_last()).push(param_view(ps.last()))
    }
}

/// The views of hash parameters.
pub closed spec fn hash_view<'s>(ps: Seq<(&'s str, ParameterValue<'s>)>) -> Seq<(Seq<u8>, ParamV<'s>)>
    decreases ps, 0nat,
{
    if ps.len() == 0 {
        Seq::empty()
    } else {
        hash_view(ps.drop_last()).push((ps.last().0.spec_bytes(), param_view(ps.last().1)))
    }
}

impl<'source> View for Call<'source> {
    type V = CallV<'source>;

    open spec fn view(&self) -> CallV<'source> {
        call_view(*self)
    }
}

impl<'source> View for CallTarget<'source> {
    type V = TargetV<'source>;

    open spec fn view(&self) -> TargetV<'source> {
        target_view(*self)
    }
}

impl<'source> View for ParameterValue<'source> {
    type V = ParamV<'source>;

    open spec fn view(&self) -> ParamV<'source> {
        param_view(*self)
    }
}

/// The views of a sequence of parameters, element by element.
pub proof fn lemma_params_view<'s>(ps: Seq<ParameterValue<'s>>)
    ensures
        params_view(ps).len() == ps.len(),
        forall|i: int| 0 <= i < ps.len() ==> #[trigger] params_view(ps)[i] == param_view(ps[i]),
    decreases ps.len(),
{
    if ps.len() > 0 {
        lemma_params_view(ps.drop_last());
    }
}

/// The views of hash parameters, element by element.
pub proof fn lemma_hash_view<'s>(ps: Seq<(&'s str, ParameterValue<'s>)>)
    ensures
        hash_view(ps).len() == ps.len(),
        forall|i: int|
            0 <= i < ps.len() ==> #[trigger] hash_view(ps)[i] == (ps[i].0.spec_bytes(), param_view(
                ps[i].1,
            )),
    decreases ps.len(),
{
    if ps.len() > 0 {
        lemma_hash_view(ps.drop_last());
    }
}

/// The view of a parameter value, case by case.
pub proof fn lemma_param_view<'s>(p: ParameterValue<'s>)
    ensures
        match p {
            ParameterValue::Path(x) => p@ == ParamV::Path(x@),
            ParameterValue::Json { value, span, line } => p@ == (ParamV::Json {
                value: value@,
                span,
                line,
            }),
            ParameterValue::SubExpr(c) => p@ == ParamV::SubExpr(c@),
        },
{
}

/// The view of a call target, case by case.
pub proof fn lemma_target_view<'s>(t: CallTarget<'s>)
    ensures
        match t {
            CallTarget::Path(x) => t@ == TargetV::Path(x@),
            CallTarget::SubExpr(c) => t@ == TargetV::SubExpr(Box::new((*c)@)),
        },
{
}

/// The index of the first hash parameter at or after `i` whose key is `k`,
/// or -1 if there is none.
pub open spec fn first_key<'s>(hs: Seq<(Seq<u8>, ParamV<'s>)>, k: Seq<u8>, i: int) -> int
    decreases hs.len() - i,
{
    if i < 0 || i >= hs.len() {
        -1
    } else if hs[i].0 == k {
        i
    } else {
        first_key(hs, k, i + 1)
    }
}

/// Insert a hash parameter: the value replaces that of an equal key,
/// otherwise the pair is added at the end.
pub open spec fn hash_insert<'s>(hs: Seq<(Seq<u8>, ParamV<'s>)>, k: Seq<u8>, v: ParamV<'s>) -> Seq<
    (Seq<u8>, ParamV<'s>),
> {
    let j = first_key(hs, k, 0);
    if j >= 0 {
        hs.update(j, (k, v))
    } else {
        hs.push((k, v))
    }
}

/// No key occurs twice among the hash parameters.
pub open spec fn keys_unique(hs: Seq<(Seq<u8>, ParamV)>) -> bool {
    forall|i: int, j: int| 0 <= i < j < hs.len() ==> (#[trigger] hs[i]).0 != (#[trigger] hs[j]).0
}

/// `first_key` finds the first index at or after `i` holding the key, or
/// reports that none does.
pub proof fn lemma_first_key(hs: Seq<(Seq<u8>, ParamV)>, k: Seq<u8>, i: int)
    requires
        0 <= i,
    ensures
        first_key(hs, k, i) >= 0 ==> i <= first_key(hs, k, i) < hs.len() && hs[first_key(hs, k, i)].0 == k,
        first_key(hs, k, i) < 0 ==> forall|j: int| i <= j < hs.len() ==> (#[trigger] hs[j]).0 != k,
    decreases hs.len() - i,
{
    if i < hs.len() && hs[i].0 != k {
        lemma_first_key(hs, k, i + 1);
    }
}

/// Adding a hash parameter keeps each key once: the value of a key that is
/// present is replaced in place, a new key is added at the end, and the key
/// then holds the new value.
pub proof fn lemma_hash_insert(hs: Seq<(Seq<u8>, ParamV)>, k: Seq<u8>, v: ParamV)
    requires
        keys_unique(hs),
    ensures
        keys_unique(hash_insert(hs, k, v)),
        exists|i: int| 0 <= i < hash_insert(hs, k, v).len() && hash_insert(hs, k, v)[i] == (k, v),
        forall|i: int|
            0 <= i < hs.len() && hs[i].0 != k ==> hash_insert(hs, k, v).contains(#[trigger] hs[i]),
        hash_insert(hs, k, v).len() == hs.len() || hash_insert(hs, k, v).len() == hs.len() + 1,
{
    lemma_first_key(hs, k, 0);
    let r = hash_insert(hs, k, v);
    let j = first_key(hs, k, 0);
    if j >= 0 {
        assert(r[j] == (k, v));
        assert forall|i: int| 0 <= i < hs.len() && hs[i].0 != k implies r.contains(#[trigger] hs[i]) by {
            assert(r[i] == hs[i]);
        }
    } else {
        assert(r[hs.len() as int] == (k, v));
        assert forall|i: int| 0 <= i < hs.len() && hs[i].0 != k implies r.contains(#[trigger] hs[i]) by {
            assert(r[i] == hs[i]);
        }
    }
}

impl<'source> ParamV<'source> {
    /// The line range of a parameter value.
    pub open spec fn lines(self) -> Range<usize> {
        match self {
            ParamV::Path(p) => p.line,
            ParamV::Json { line, .. } => line,
            ParamV::SubExpr(c) => c.line,
        }
    }
}

impl<'source> ParameterValue<'source> {
    /// Create a literal JSON parameter from a value, span and line range.
    pub fn from(value: (Json, Range<usize>, Range<usize>)) -> (res: Self)
        ensures
            res@ == (ParamV::Json { value: value.0@, span: value.1, line: value.2 }),
    {
        ParameterValue::Json { value: value.0, span: value.1, line: value.2 }
    }
}

impl<'source> Lines for ParameterValue<'source> {
    closed spec fn spec_lines(&self) -> Range<usize> {
        param_view(*self).lines()
    }

    fn lines(&self) -> (res: &Range<usize>) {
        match self {
            ParameterValue::Path(path) => path.lines(),
            ParameterValue::Json { line, .. } => line,
            ParameterValue::SubExpr(call) => call.lines(),
        }
    }

    fn lines_mut(&mut self) -> (res: &mut Range<usize>) {
        match self {
            ParameterValue::Path(path) => path.lines_mut(),
            ParameterValue::Json { line, .. } => line,
            ParameterValue::SubExpr(call) => call.lines_mut(),
        }
    }

    fn lines_end(&mut self, line: &usize) {
        match self {
            ParameterValue::Path(path) => path.lines_end(line),
            ParameterValue::Json { line: l, .. } => {
                l.end = *line + 1;
            },
            ParameterValue::SubExpr(call) => call.lines_end(line),
        }
    }
}


impl<'source> TargetV<'source> {
    /// Whether the target is empty: a path without components, or a
    /// sub-expression whose own target is empty.
    pub open spec fn is_empty(self) -> bool
        decreases self,
    {
        match self {
            TargetV::Path(p) => p.components.len() == 0,
            TargetV::SubExpr(c) => c.target.is_empty(),
        }
    }

    /// The spans of the target can be sliced: a path's components fit and
    /// come in order; a sub-expression's whole span fits.
    pub open spec fn spans_ok(self) -> bool {
        match self {
            TargetV::Path(p) => comps_ok(p.source, p.components) && p.open_ok(),
            TargetV::SubExpr(c) => c.slice_ok(),
        }
    }

    /// The open span of the target.
    pub open spec fn open_span(self) -> Range<usize> {
        match self {
            TargetV::Path(p) => p.open,
            TargetV::SubExpr(c) => c.open,
        }
    }

    /// Whether slicing the source for the target succeeds.
    pub open spec fn slice_ok(self) -> bool {
        match self {
            TargetV::Path(p) => p.slice_ok(),
            TargetV::SubExpr(c) => c.slice_ok(),
        }
    }

    /// The bytes of the target.
    pub open spec fn bytes(self) -> Seq<u8> {
        match self {
            TargetV::Path(p) => p.bytes(),
            TargetV::SubExpr(c) => c.bytes(),
        }
    }

    /// The source of the target.
    pub open spec fn source(self) -> &'source str {
        match self {
            TargetV::Path(p) => p.source,
            TargetV::SubExpr(c) => c.source,
        }
    }

    /// The line range of the target.
    pub open spec fn lines(self) -> Range<usize> {
        match self {
            TargetV::Path(p) => p.line,
            TargetV::SubExpr(c) => c.line,
        }
    }
}

impl<'source> CallV<'source> {
    /// A new call with an empty path target and no arguments.
    pub open spec fn empty(source: &'source str, open: Range<usize>, line: Range<usize>) -> Self {
        CallV {
            source,
            partial: false,
            conditional: false,
            open,
            close: None,
            target: TargetV::Path(PathV::empty(source, 0..0, 0..0)),
            arguments: Seq::empty(),
            parameters: Seq::empty(),
            line,
        }
    }

    /// The end of the full span: the close tag's end, or the open tag's end.
    pub open spec fn end(self) -> usize {
        match self.close {
            Some(c) => c.end,
            None => self.open.end,
        }
    }

    /// Whether slicing the source for the whole call succeeds.
    pub open spec fn slice_ok(self) -> bool {
        valid_span(self.source, self.open.start as int, self.end() as int)
    }

    /// The bytes of the whole call, from its open tag to its close tag.
    pub open spec fn bytes(self) -> Seq<u8> {
        span_bytes(self.source, self.open.start as int, self.end() as int)
    }

    /// The bytes of the open tag.
    pub open spec fn open_bytes(self) -> Seq<u8> {
        span_bytes(self.source, self.open.start as int, self.open.end as int)
    }

    /// The bytes of the close tag (empty when not closed).
    pub open spec fn close_bytes(self) -> Seq<u8> {
        match self.close {
            Some(c) => span_bytes(self.source, c.start as int, c.end as int),
            None => Seq::empty(),
        }
    }

    /// Whether the open and close tags can be sliced.
    pub open spec fn tags_ok(self) -> bool {
        &&& valid_span(self.source, self.open.start as int, self.open.end as int)
        &&& (self.close matches Some(c) ==> valid_span(self.source, c.start as int, c.end as int))
    }

    /// The content is escaped unless the open tag starts with `{{{`.
    pub open spec fn is_escaped(self) -> bool {
        !(self.open_bytes().len() >= 3 && self.open_bytes()[0] == 123u8 && self.open_bytes()[1]
            == 123u8 && self.open_bytes()[2] == 123u8)
    }

    /// Whitespace before is trimmed when the open tag ends with `~`.
    pub open spec fn trim_before(self) -> bool {
        self.open_bytes().len() > 0 && self.open_bytes().last() == 126u8
    }

    /// Whitespace after is trimmed when the close tag starts with `~`.
    pub open spec fn trim_after(self) -> bool {
        self.close_bytes().len() > 0 && self.close_bytes()[0] == 126u8
    }
}

impl<'source> CallTarget<'source> {
    /// Determine if this call target is empty.
    pub fn is_empty(&self) -> (res: bool)
        ensures
            res == self@.is_empty(),
        decreases self,
    {
        match self {
            CallTarget::Path(path) => path.is_empty(),
            CallTarget::SubExpr(call) => call.target.is_empty(),
        }
    }

    /// Get the open span for the call target.
    pub fn open_span(&self) -> (res: &Range<usize>)
        ensures
            *res == self@.open_span(),
    {
        match self {
            CallTarget::Path(path) => path.open_span(),
            CallTarget::SubExpr(call) => &call.open,
        }
    }
}

impl<'source> Default for CallTarget<'source> {
    /// The default target: an empty path over the empty string.
    fn default() -> (res: Self)
        ensures
            res@ == TargetV::Path(PathV::empty(res@.source(), 0..0, 0..0)),
            res@.source().spec_bytes().len() == 0,
    {
        let res = CallTarget::Path(Path::new(empty_str(), 0..0, 0..0));
        proof {
            lemma_target_view(res);
        }
        res
    }
}

impl<'source> Slice<'source> for CallTarget<'source> {
    closed spec fn slice_ok(&self) -> bool {
        self@.slice_ok()
    }

    closed spec fn slice_bytes(&self) -> Seq<u8> {
        self@.bytes()
    }

    closed spec fn spec_source(&self) -> &'source str {
        self@.source()
    }

    fn as_str(&self) -> (res: &'source str) {
        match self {
            CallTarget::Path(path) => {
                proof {
                    path.lemma_slice();
                }
                path.as_str()
            },
            CallTarget::SubExpr(call) => call.as_str(),
        }
    }

    fn source(&self) -> (res: &'source str) {
        match self {
            CallTarget::Path(path) => {
                proof {
                    path.lemma_slice();
                }
                path.source()
            },
            CallTarget::SubExpr(call) => call.source,
        }
    }
}

impl<'source> CallTarget<'source> {
    /// What slicing a target needs and gives, stated over its view.
    pub proof fn lemma_slice(&self)
        ensures
            self.slice_ok() == self@.slice_ok(),
            self.slice_bytes() == self@.bytes(),
            self.spec_source() == self@.source(),
            self.spec_lines() == self@.lines(),
    {
    }
}

impl<'source> Lines for CallTarget<'source> {
    closed spec fn spec_lines(&self) -> Range<usize> {
        self@.lines()
    }

    fn lines(&self) -> (res: &Range<usize>) {
        match self {
            CallTarget::Path(path) => path.lines(),
            CallTarget::SubExpr(call) => &call.line,
        }
    }

    fn lines_mut(&mut self) -> (res: &mut Range<usize>) {
        match self {
            CallTarget::Path(path) => path.lines_mut(),
            CallTarget::SubExpr(call) => call.lines_mut(),
        }
    }

    fn lines_end(&mut self, line: &usize) {
        match self {
            CallTarget::Path(path) => path.lines_end(line),
            CallTarget::SubExpr(call) => call.lines_end(line),
        }
    }
}

impl<'source> Call<'source> {
    /// Create an open call.
    ///
    /// If it is correctly terminated the parser will call `exit()` to terminate
    /// the call statement.
    pub fn new(source: &'source str, open: Range<usize>, line: Range<usize>) -> (res: Self)
        ensures
            res@ == CallV::empty(source, open, line),
    {
        let res = Self {
            source,
            partial: false,
            conditional: false,
            open,
            close: None,
            target: CallTarget::Path(Path::new(source, 0..0, 0..0)),
            arguments: Vec::new(),
            parameters: Vec::new(),
            line,
        };
        assert(res@.arguments =~= Seq::<ParamV<'source>>::empty());
        assert(res@.parameters =~= Seq::<(Seq<u8>, ParamV<'source>)>::empty());
        res
    }

    /// Determine if the target for this call is empty.
    pub fn is_empty(&self) -> (res: bool)
        ensures
            res == self@.target.is_empty(),
    {
        self.target.is_empty()
    }

    /// Get the call target.
    pub fn target(&self) -> (res: &CallTarget<'source>)
        ensures
            res@ == self@.target,
    {
        &self.target
    }

    /// Determine if a call target is available: its text is not empty.
    pub fn has_target(&self) -> (res: bool)
        requires
            self@.target.slice_ok(),
        ensures
            res == (self@.target.bytes().len() != 0),
    {
        proof {
            self.target.lemma_slice();
        }
        self.target.as_str().len() != 0
    }

    /// Set the call target.
    pub fn set_target(&mut self, target: CallTarget<'source>)
        ensures
            final(self)@ == (CallV { target: target@, ..old(self)@ }),
    {
        self.target = target;
    }

    /// Add an argument to this call.
    pub fn add_argument(&mut self, arg: ParameterValue<'source>)
        ensures
            final(self)@ == (CallV { arguments: old(self)@.arguments.push(arg@), ..old(self)@ }),
    {
        let ghost a = self.arguments@;
        self.arguments.push(arg);
        assert(self.arguments@.drop_last() =~= a);
    }

    /// Get the list of arguments.
    pub fn arguments(&self) -> (res: &Vec<ParameterValue<'source>>)
        ensures
            params_view(res@) == self@.arguments,
    {
        &self.arguments
    }

    /// Add a hash parameter to this call; a parameter with an equal key is
    /// replaced.
    pub fn add_parameter(&mut self, key: &'source str, val: ParameterValue<'source>)
        ensures
            final(self)@ == (CallV {
                parameters: hash_insert(old(self)@.parameters, key.spec_bytes(), val@),
                ..old(self)@
            }),
    {
        let ghost hs = self@.parameters;
        proof {
            lemma_hash_view(self.parameters@);
        }
        let mut i: usize = 0;
        while i < self.parameters.len()
            invariant
                i <= self.parameters@.len(),
                self@ == old(self)@,
                hs == self@.parameters,
                hash_view(self.parameters@).len() == self.parameters@.len(),
                forall|j: int|
                    0 <= j < self.parameters@.len() ==> #[trigger] hash_view(self.parameters@)[j]
                        == (self.parameters@[j].0.spec_bytes(), param_view(self.parameters@[j].1)),
                first_key(hs, key.spec_bytes(), 0) == first_key(hs, key.spec_bytes(), i as int),
            decreases self.parameters@.len() - i,
        {
            if crate::text::str_eq(self.parameters[i].0, key) {
                let ghost old_ps = self.parameters@;
                self.parameters.set(i, (key, val));
                proof {
                    lemma_hash_view(self.parameters@);
                    assert(hash_view(self.parameters@) =~= hs.update(
                        i as int,
                        (key.spec_bytes(), param_view(val)),
                    ));
                }
                return;
            }
            i = i + 1;
        }
        let ghost old_ps = self.parameters@;
        self.parameters.push((key, val));
        proof {
            assert(self.parameters@.drop_last() =~= old_ps);
        }
    }

    /// Get the hash parameters as (key, value) pairs.
    pub fn parameters(&self) -> (res: &Vec<(&'source str, ParameterValue<'source>)>)
        ensures
            hash_view(res@) == self@.parameters,
    {
        &self.parameters
    }

    /// Determine if this call has the partial flag.
    pub fn is_partial(&self) -> (res: bool)
        ensures
            res == self@.partial,
    {
        self.partial
    }

    /// Set the partial flag.
    pub fn set_partial(&mut self, partial: bool)
        ensures
            final(self)@ == (CallV { partial, ..old(self)@ }),
    {
        self.partial = partial;
    }

    /// Determine if this call has a conditional flag (the `else` keyword).
    pub fn is_conditional(&self) -> (res: bool)
        ensures
            res == self@.conditional,
    {
        self.conditional
    }

    /// Set the conditional flag.
    pub fn set_conditional(&mut self, conditional: bool)
        ensures
            final(self)@ == (CallV { conditional, ..old(self)@ }),
    {
        self.conditional = conditional;
    }

    /// Determine if the content of this call should be escaped: the open
    /// tag does not start with `{{{`.
    pub fn is_escaped(&self) -> (res: bool)
        requires
            self@.tags_ok(),
        ensures
            res == self@.is_escaped(),
    {
        let b = slice(self.source, self.open.start, self.open.end).as_bytes();
        !(b.len() >= 3 && b[0] == 123u8 && b[1] == 123u8 && b[2] == 123u8)
    }

    /// Whitespace before this call is trimmed: the open tag ends with `~`.
    pub fn trim_before(&self) -> (res: bool)
        requires
            self@.tags_ok(),
        ensures
            res == self@.trim_before(),
    {
        let b = slice(self.source, self.open.start, self.open.end).as_bytes();
        b.len() > 0 && b[b.len() - 1] == 126u8
    }

    /// Whitespace after this call is trimmed: the close tag starts with `~`.
    pub fn trim_after(&self) -> (res: bool)
        requires
            self@.tags_ok(),
        ensures
            res == self@.trim_after(),
    {
        let b = match &self.close {
            Some(close) => slice(self.source, close.start, close.end).as_bytes(),
            None => empty_str().as_bytes(),
        };
        b.len() > 0 && b[0] == 126u8
    }
}

impl<'source> Slice<'source> for Call<'source> {
    closed spec fn slice_ok(&self) -> bool {
        self@.slice_ok()
    }

    closed spec fn slice_bytes(&self) -> Seq<u8> {
        self@.bytes()
    }

    closed spec fn spec_source(&self) -> &'source str {
        self.source
    }

    fn as_str(&self) -> (res: &'source str) {
        if let Some(close) = &self.close {
            return slice(self.source, self.open.start, close.end);
        }
        slice(self.source, self.open.start, self.open.end)
    }

    fn source(&self) -> (res: &'source str) {
        self.source
    }
}

impl<'source> Lines for Call<'source> {
    closed spec fn spec_lines(&self) -> Range<usize> {
        self.line
    }

    fn lines(&self) -> (res: &Range<usize>) {
        &self.line
    }

    fn lines_mut(&mut self) -> (res: &mut Range<usize>)
        ensures
            final(self)@ == (CallV { line: *final(res), ..old(self)@ }),
    {
        &mut self.line
    }

    fn lines_end(&mut self, line: &usize)
        ensures
            final(self)@ == (CallV { line: old(self)@.line.start..(*line + 1) as usize, ..old(self)@ }),
    {
        self.line.end = *line + 1;
    }
}

impl<'source> Element<'source> for Call<'source> {
    closed spec fn spec_open_span(&self) -> Range<usize> {
        self.open
    }

    closed spec fn spec_close_span(&self) -> Option<Range<usize>> {
        self.close
    }

    fn open(&self) -> (res: &'source str) {
        slice(self.source, self.open.start, self.open.end)
    }

    fn close(&self) -> (res: &'source str) {
        if let Some(close) = &self.close {
            return slice(self.source, close.start, close.end);
        }
        empty_str()
    }

    fn open_span(&self) -> (res: &Range<usize>) {
        &self.open
    }

    fn close_span(&self) -> (res: &Option<Range<usize>>) {
        &self.close
    }

    fn is_closed(&self) -> (res: bool) {
        self.close.is_some()
    }

    fn exit(&mut self, close: Range<usize>)
        ensures
            final(self)@ == (CallV { close: Some(close), ..old(self)@ }),
    {
        self.close = Some(close);
    }
}

impl<'source> Call<'source> {
    /// What the trait-level views of a call are, stated over its view.
    pub proof fn lemma_views(&self)
        ensures
            self.spec_source() == self@.source,
            self.spec_open_span() == self@.open,
            self.spec_close_span() == self@.close,
            self.spec_lines() == self@.line,
            self.slice_ok() == self@.slice_ok(),
            self.slice_bytes() == self@.bytes(),
    {
    }
}

// ---------------------------------------------------------------------
// Documents, blocks and nodes
// ---------------------------------------------------------------------

/// Nodes form the abstract syntax tree.
///
/// Every node provides access to a [TrimHint](crate::trim::TrimHint) used
/// by the renderer to determine how whitespace should be handled.
#[derive(Debug, PartialEq, Eq)]
pub enum Node<'source> {
    /// Document nodes encapsulate a collection of children.
    Document(Document<'source>),
    /// Text nodes are a byte range.
    Text(Text<'source>),
    /// Statement is a variable interpolation, partial render or helper call.
    Statement(Call<'source>),
    /// Blocks encapsulate an inner template.
    ///
    /// Blocks have a `raw` flag which indicates that the content
    /// should not be interpreted. When the `raw` flag is set a block
    /// must only have a single `Text` child node.
    Block(Block<'source>),
    /// Raw statement is a statement preceeded by a backslash
    /// that should not be interpreted.
    RawStatement(TextBlock<'source>),
    /// Raw comments may contain nested templates (`{{!-- comment --}}`).
    RawComment(TextBlock<'source>),
    /// Comments may **not** contain nested templates (`{{! comment }}`).
    Comment(TextBlock<'source>),
    /// Link nodes are parsed from wiki-style links.
    Link(Link<'source>),
}

/// Documents are abstract nodes that encapsulate a collection of child
/// nodes.
///
/// They are used as the root node of a compiled template.
#[derive(Debug, PartialEq, Eq)]
pub struct Document<'source>(pub &'source str, pub Vec<Node<'source>>);

/// Block encapsulates an inner template.
///
/// These nodes are rendered indirectly via registered helpers
/// that should call back in to the renderer.
///
/// When a block has the raw flag set it should only contain a
/// single `Text` child node.
#[derive(Debug, PartialEq, Eq)]
pub struct Block<'source> {
    source: &'source str,
    nodes: Vec<Node<'source>>,
    raw: bool,
    open: Range<usize>,
    close: Option<Range<usize>>,
    call: Call<'source>,
    conditionals: Vec<Node<'source>>,
    line: Range<usize>,
}

/// Abstract view of a node.
pub enum NodeV<'source> {
    Document(DocumentV<'source>),
    Text(TextV<'source>),
    Statement(CallV<'source>),
    Block(BlockV<'source>),
    RawStatement(TextBlockV<'source>),
    RawComment(TextBlockV<'source>),
    Comment(TextBlockV<'source>),
    Link(LinkV<'source>),
}

/// Abstract view of a document.
pub struct DocumentV<'source> {
    pub source: &'source str,
    pub nodes: Seq<NodeV<'source>>,
}

/// Abstract view of a block.
pub struct BlockV<'source> {
    pub source: &'source str,
    pub nodes: Seq<NodeV<'source>>,
    pub raw: bool,
    pub open: Range<usize>,
    pub close: Option<Range<usize>>,
    pub call: CallV<'source>,
    pub conditionals: Seq<NodeV<'source>>,
    pub line: Range<usize>,
}

/// The view of a node.
pub closed spec fn node_view<'s>(n: Node<'s>) -> NodeV<'s>
    decreases n, 1nat,
{
    match n {
        Node::Document(d) => NodeV::Document(DocumentV { source: d.0, nodes: nodes_view(d.1@) }),
        Node::Text(t) => NodeV::Text(t@),
        Node::Statement(c) => NodeV::Statement(c@),
        Node::Block(b) => NodeV::Block(block_view(b)),
        Node::RawStatement(t) => NodeV::RawStatement(t@),
        Node::RawComment(t) => NodeV::RawComment(t@),
        Node::Comment(t) => NodeV::Comment(t@),
        Node::Link(l) => NodeV::Link(l@),
    }
}

/// The view of a block.
pub closed spec fn block_view<'s>(b: Block<'s>) -> BlockV<'s>
    decreases b, 0nat,
{
    BlockV {
        source: b.source,
        nodes: nodes_view(b.nodes@),
        raw: b.raw,
        open: b.open,
        close: b.close,
        call: b.call@,
        conditionals: nodes_view(b.conditionals@),
        line: b.line,
    }
}

/// The views of a sequence of nodes.
pub closed spec fn nodes_view<'s>(ns: Seq<Node<'s>>) -> Seq<NodeV<'s>>
    decreases ns, 0nat,
{
    if ns.len() == 0 {
        Seq::empty()
    } else {
        nodes_view(ns.drop_last()).push(node_view(ns.last()))
    }
}

/// The views of a sequence of nodes, element by element.
pub proof fn lemma_nodes_view<'s>(ns: Seq<Node<'s>>)
    ensures
        nodes_view(ns).len() == ns.len(),
        forall|i: int| 0 <= i < ns.len() ==> #[trigger] nodes_view(ns)[i] == node_view(ns[i]),
    decreases ns.len(),
{
    if ns.len() > 0 {
        lemma_nodes_view(ns.drop_last());
    }
}

/// The view of a node, case by case.
pub proof fn lemma_node_view<'s>(n: Node<'s>)
    ensures
        match n {
            Node::Document(d) => n@ == NodeV::Document(DocumentV { source: d.0, nodes: nodes_view(d.1@) }),
            Node::Text(t) => n@ == NodeV::Text(t@),
            Node::Statement(c) => n@ == NodeV::Statement(c@),
            Node::Block(b) => n@ == NodeV::Block(b@),
            Node::RawStatement(t) => n@ == NodeV::RawStatement(t@),
            Node::RawComment(t) => n@ == NodeV::RawComment(t@),
            Node::Comment(t) => n@ == NodeV::Comment(t@),
            Node::Link(l) => n@ == NodeV::Link(l@),
        },
{
}

/// The view of a sequence with one more node at the end.
pub proof fn lemma_nodes_view_push<'s>(ns: Seq<Node<'s>>, n: Node<'s>)
    ensures
        nodes_view(ns.push(n)) == nodes_view(ns).push(node_view(n)),
{
    assert(ns.push(n).drop_last() =~= ns);
}

impl<'source> View for Node<'source> {
    type V = NodeV<'source>;

    open spec fn view(&self) -> NodeV<'source> {
        node_view(*self)
    }
}

impl<'source> View for Block<'source> {
    type V = BlockV<'source>;

    open spec fn view(&self) -> BlockV<'source> {
        block_view(*self)
    }
}

impl<'source> View for Document<'source> {
    type V = DocumentV<'source>;

    open spec fn view(&self) -> DocumentV<'source> {
        DocumentV { source: self.0, nodes: nodes_view(self.1@) }
    }
}

/// A tilde (`~`) at index `k`.
pub open spec fn tilde_at(bs: Seq<u8>, k: int) -> bool {
    0 <= k < bs.len() && bs[k] == 126u8
}

/// The byte at index `k`, if there is one, is ASCII (so a one-byte slice
/// there falls on character boundaries).
pub open spec fn ascii_at(bs: Seq<u8>, k: int) -> bool {
    0 <= k < bs.len() ==> bs[k] < 128u8
}

impl<'source> BlockV<'source> {
    /// A new block with no children, no close tag and an empty call.
    pub open spec fn fresh(
        source: &'source str,
        open: Range<usize>,
        raw: bool,
        line: Range<usize>,
        call: CallV<'source>,
    ) -> Self {
        BlockV {
            source,
            nodes: Seq::empty(),
            raw,
            open,
            close: None,
            call,
            conditionals: Seq::empty(),
            line,
        }
    }

    /// The bytes of the open tag.
    pub open spec fn open_bytes(self) -> Seq<u8> {
        span_bytes(self.source, self.open.start as int, self.open.end as int)
    }

    /// The bytes of the close tag (empty when not closed).
    pub open spec fn close_bytes(self) -> Seq<u8> {
        match self.close {
            Some(c) => span_bytes(self.source, c.start as int, c.end as int),
            None => Seq::empty(),
        }
    }

    /// Index in a tag of the `~` that trims whitespace before it.
    pub open spec fn lead_index(self) -> int {
        if self.raw {
            4
        } else {
            2
        }
    }

    /// Index in the close tag of the `~` that trims whitespace after it.
    pub open spec fn trail_index(self) -> int {
        if self.raw {
            self.close_bytes().len() - 5
        } else {
            self.close_bytes().len() - 3
        }
    }

    /// Whitespace before the block is trimmed.
    pub open spec fn trim_before(self) -> bool {
        tilde_at(self.open_bytes(), self.lead_index())
    }

    /// Whitespace inside the close tag is trimmed before it.
    pub open spec fn trim_before_close(self) -> bool {
        tilde_at(self.close_bytes(), self.lead_index())
    }

    /// Whitespace after the close tag is trimmed.
    pub open spec fn trim_after_close(self) -> bool {
        self.close_bytes().len() > self.lead_index() + 1 && tilde_at(
            self.close_bytes(),
            self.trail_index(),
        )
    }

    /// The tags can be sliced and the bytes that the trim tests look at are
    /// ASCII.
    pub open spec fn trim_ok(self) -> bool {
        &&& valid_span(self.source, self.open.start as int, self.open.end as int)
        &&& (self.close matches Some(c) ==> valid_span(self.source, c.start as int, c.end as int))
        &&& ascii_at(self.open_bytes(), self.lead_index())
        &&& ascii_at(self.close_bytes(), self.lead_index())
        &&& (self.close_bytes().len() > self.lead_index() + 1 ==> ascii_at(
            self.close_bytes(),
            self.trail_index(),
        ))
        &&& self.call.tags_ok()
    }

    /// The end of the full span: the close tag's end, or the end of the
    /// source.
    pub open spec fn end(self) -> int {
        match self.close {
            Some(c) => c.end as int,
            None => self.source.spec_bytes().len() as int,
        }
    }

    /// The name of the block: the text of its call target when that is a
    /// simple identifier.
    pub open spec fn name(self) -> Option<Seq<u8>> {
        match self.call.target {
            TargetV::Path(p) => if p.is_simple() {
                Some(p.components[0].bytes())
            } else {
                None
            },
            TargetV::SubExpr(_) => None,
        }
    }

    /// Whether the name (if any) can be sliced.
    pub open spec fn name_ok(self) -> bool {
        match self.call.target {
            TargetV::Path(p) => p.is_simple() ==> p.components[0].slice_ok(),
            TargetV::SubExpr(_) => true,
        }
    }
}

impl<'source> NodeV<'source> {
    /// Whitespace before the node is trimmed.
    pub open spec fn trim_before(self) -> bool {
        match self {
            NodeV::Statement(c) => c.trim_before(),
            NodeV::Block(b) => b.trim_before(),
            _ => false,
        }
    }

    /// Whitespace after the node is trimmed.
    pub open spec fn trim_after(self) -> bool {
        match self {
            NodeV::Statement(c) => c.trim_after(),
            NodeV::Block(b) => b.call.trim_after(),
            _ => false,
        }
    }

    /// The trim tests for this node can run without panicking.
    pub open spec fn trim_ok(self) -> bool {
        match self {
            NodeV::Statement(c) => c.tags_ok(),
            NodeV::Block(b) => b.trim_ok(),
            _ => true,
        }
    }

    /// The children iterated for a document or block: the document's nodes,
    /// the block's nodes (not its conditionals), otherwise none.
    pub open spec fn children(self) -> Seq<NodeV<'source>> {
        match self {
            NodeV::Document(d) => d.nodes,
            NodeV::Block(b) => b.nodes,
            _ => Seq::empty(),
        }
    }
}

impl<'source> Document<'source> {
    /// List of child nodes.
    pub fn nodes(&self) -> (res: &Vec<Node<'source>>)
        ensures
            nodes_view(res@) == self@.nodes,
    {
        &self.1
    }

    /// Mutable list of child nodes.
    pub fn nodes_mut(&mut self) -> (res: &mut Vec<Node<'source>>)
        ensures
            nodes_view(res@) == old(self)@.nodes,
            final(self)@ == (DocumentV { nodes: nodes_view(final(res)@), ..old(self)@ }),
    {
        &mut self.1
    }

    /// Add a node at the end of the document.
    pub fn push(&mut self, node: Node<'source>)
        ensures
            final(self)@ == (DocumentV { nodes: old(self)@.nodes.push(node@), ..old(self)@ }),
    {
        let ghost ns = self.1@;
        self.1.push(node);
        proof {
            lemma_nodes_view_push(ns, node);
        }
    }
}

impl<'source> Slice<'source> for Document<'source> {
    closed spec fn slice_ok(&self) -> bool {
        true
    }

    closed spec fn slice_bytes(&self) -> Seq<u8> {
        self.0.spec_bytes()
    }

    closed spec fn spec_source(&self) -> &'source str {
        self.0
    }

    fn as_str(&self) -> (res: &'source str) {
        self.0
    }

    fn source(&self) -> (res: &'source str) {
        self.0
    }
}

impl<'source> Block<'source> {
    /// Create a new block.
    pub fn new(source: &'source str, open: Range<usize>, raw: bool, line: Range<usize>) -> (res: Self)
        ensures
            res@ == BlockV::fresh(source, open, raw, line, res@.call),
            res@.call == CallV::empty(res@.call.source, 0..0, 0..0),
            res@.call.source.spec_bytes() == Seq::<u8>::empty(),
    {
        let res = Self {
            source,
            nodes: Vec::new(),
            raw,
            open,
            close: None,
            call: Call::new(empty_str(), 0..0, 0..0),
            conditionals: Vec::new(),
            line,
        };
        assert(res@.nodes =~= Seq::<NodeV<'source>>::empty());
        assert(res@.conditionals =~= Seq::<NodeV<'source>>::empty());
        res
    }

    /// Get the call for the block.
    pub fn call(&self) -> (res: &Call<'source>)
        ensures
            res@ == self@.call,
    {
        &self.call
    }

    /// Set the call for the block.
    pub fn set_call(&mut self, call: Call<'source>)
        ensures
            final(self)@ == (BlockV { call: call@, ..old(self)@ }),
    {
        self.call = call;
    }

    /// The name of this block extracted from the call target.
    ///
    /// This will only be available if the call target is a path
    /// and the path is a simple identifier.
    pub fn name(&self) -> (res: Option<&'source str>)
        requires
            self@.name_ok(),
        ensures
            match self@.name() {
                Some(n) => res matches Some(s) && s.spec_bytes() == n,
                None => res is None,
            },
    {
        match &self.call.target {
            CallTarget::Path(path) => {
                if path.is_simple() {
                    let id = &path.components[0];
                    proof {
                        id.lemma_slice();
                    }
                    Some(id.as_str())
                } else {
                    None
                }
            },
            CallTarget::SubExpr(_) => None,
        }
    }

    /// Determine if this block has the raw flag.
    pub fn is_raw(&self) -> (res: bool)
        ensures
            res == self@.raw,
    {
        self.raw
    }

    /// Add a condition to this block; the last condition (if any) is closed
    /// just before the new one opens.
    pub fn add_condition(&mut self, condition: Block<'source>)
        ensures
            final(self)@ == (BlockV {
                conditionals: close_last(old(self)@.conditionals, condition@.call.open).push(
                    NodeV::Block(condition@),
                ),
                ..old(self)@
            }),
    {
        self.close_condition(condition.call.open.start..condition.call.open.end);
        let ghost cs = self.conditionals@;
        self.conditionals.push(Node::Block(condition));
        proof {
            lemma_nodes_view_push(cs, Node::Block(condition));
        }
    }

    /// Get the list of conditional blocks.
    pub fn conditions(&self) -> (res: &Vec<Node<'source>>)
        ensures
            nodes_view(res@) == self@.conditionals,
    {
        &self.conditionals
    }

    /// Add a node to this block; if this block has
    /// conditionals then the node is added to the last conditional.
    pub fn push(&mut self, node: Node<'source>)
        ensures
            final(self)@ == push_spec(old(self)@, node@),
    {
        if self.conditionals.len() > 0 {
            let ghost cs = self.conditionals@;
            proof {
                lemma_nodes_view(cs);
            }
            let last = self.conditionals.pop().unwrap();
            proof {
                assert(cs.drop_last() =~= self.conditionals@);
            }
            match last {
                Node::Block(condition) => {
                    let mut condition = condition;
                    let ghost ns = condition.nodes@;
                    condition.nodes.push(node);
                    proof {
                        lemma_nodes_view_push(ns, node);
                    }
                    let ghost cs1 = self.conditionals@;
                    self.conditionals.push(Node::Block(condition));
                    proof {
                        lemma_nodes_view_push(cs1, Node::Block(condition));
                        assert(nodes_view(self.conditionals@) =~= nodes_view(cs).update(
                            cs.len() - 1,
                            node_view(Node::Block(condition)),
                        ));
                    }
                },
                other => {
                    let ghost cs1 = self.conditionals@;
                    self.conditionals.push(other);
                    proof {
                        assert(self.conditionals@ =~= cs);
                    }
                },
            }
        } else {
            let ghost ns = self.nodes@;
            self.nodes.push(node);
            proof {
                lemma_nodes_view_push(ns, node);
            }
        }
    }

    /// The collection of nodes for this block.
    ///
    /// For raw blocks this should always be a single `Text` node.
    pub fn nodes(&self) -> (res: &Vec<Node<'source>>)
        ensures
            nodes_view(res@) == self@.nodes,
    {
        &self.nodes
    }

    /// The trim hint for the close tag.
    pub fn trim_close(&self) -> (res: TrimHint)
        requires
            self@.trim_ok(),
        ensures
            res.before == self@.trim_before_close(),
            res.after == self@.trim_after_close(),
    {
        TrimHint { before: self.trim_before_close(), after: self.trim_after_close() }
    }

    fn close_condition(&mut self, span: Range<usize>)
        ensures
            final(self)@ == (BlockV {
                conditionals: close_last(old(self)@.conditionals, span),
                ..old(self)@
            }),
    {
        if self.conditionals.len() > 0 && span.start > 0 {
            let close = span.start - 1..span.start;
            self.set_last_close(close);
        }
    }

    /// Give the last conditional (if it is a block) a close span.
    fn set_last_close(&mut self, close: Range<usize>)
        requires
            old(self).conditionals@.len() > 0,
        ensures
            final(self)@ == (BlockV {
                conditionals: match old(self)@.conditionals.last() {
                    NodeV::Block(c) => old(self)@.conditionals.update(
                        old(self)@.conditionals.len() - 1,
                        NodeV::Block(BlockV { close: Some(close), ..c }),
                    ),
                    _ => old(self)@.conditionals,
                },
                ..old(self)@
            }),
    {
        let ghost cs = self.conditionals@;
        proof {
            lemma_nodes_view(cs);
        }
        let last = self.conditionals.pop().unwrap();
        proof {
            assert(cs.drop_last() =~= self.conditionals@);
        }
        match last {
            Node::Block(condition) => {
                let mut condition = condition;
                condition.close = Some(close);
                let ghost cs1 = self.conditionals@;
                self.conditionals.push(Node::Block(condition));
                proof {
                    lemma_nodes_view_push(cs1, Node::Block(condition));
                    assert(nodes_view(self.conditionals@) =~= nodes_view(cs).update(
                        cs.len() - 1,
                        node_view(Node::Block(condition)),
                    ));
                }
            },
            other => {
                self.conditionals.push(other);
                proof {
                    assert(self.conditionals@ =~= cs);
                }
            },
        }
    }

    /// The bytes of a tag of this block.
    fn tag_bytes(&self, span: &Range<usize>) -> (res: &'source [u8])
        requires
            valid_span(self.source, span.start as int, span.end as int),
        ensures
            res@ == span_bytes(self.source, span.start as int, span.end as int),
    {
        slice(self.source, span.start, span.end).as_bytes()
    }

    fn trim_before(&self) -> (res: bool)
        requires
            self@.trim_ok(),
        ensures
            res == self@.trim_before(),
    {
        let b = self.tag_bytes(&self.open);
        let k: usize = if self.raw {
            4
        } else {
            2
        };
        b.len() > k && b[k] == 126u8
    }

    fn trim_after(&self) -> (res: bool)
        requires
            self@.trim_ok(),
        ensures
            res == self@.call.trim_after(),
    {
        self.call.trim_after()
    }

    fn close_bytes_exec(&self) -> (res: &'source [u8])
        requires
            self@.trim_ok(),
        ensures
            res@ == self@.close_bytes(),
    {
        match &self.close {
            Some(close) => self.tag_bytes(close),
            None => empty_str().as_bytes(),
        }
    }

    fn trim_before_close(&self) -> (res: bool)
        requires
            self@.trim_ok(),
        ensures
            res == self@.trim_before_close(),
    {
        let b = self.close_bytes_exec();
        let k: usize = if self.raw {
            4
        } else {
            2
        };
        b.len() > k && b[k] == 126u8
    }

    fn trim_after_close(&self) -> (res: bool)
        requires
            self@.trim_ok(),
        ensures
            res == self@.trim_after_close(),
    {
        let b = self.close_bytes_exec();
        if self.raw {
            if b.len() > 5 {
                let index = b.len() - 5;
                b.len() > 4 && b[index] == 126u8
            } else {
                false
            }
        } else {
            if b.len() > 3 {
                let index = b.len() - 3;
                b.len() > 2 && b[index] == 126u8
            } else {
                false
            }
        }
    }
}

/// Close the last conditional (when it is a block and `span` does not start
/// at zero) with the byte just before `span`.
pub open spec fn close_last<'s>(cs: Seq<NodeV<'s>>, span: Range<usize>) -> Seq<NodeV<'s>> {
    if cs.len() > 0 && span.start > 0 {
        match cs.last() {
            NodeV::Block(c) => cs.update(
                cs.len() - 1,
                NodeV::Block(BlockV { close: Some((span.start - 1) as usize..span.start), ..c }),
            ),
            _ => cs,
        }
    } else {
        cs
    }
}

/// Add a node to a block: to the last conditional when there are
/// conditionals (if it is a block), otherwise to the block's own nodes.
pub open spec fn push_spec<'s>(b: BlockV<'s>, n: NodeV<'s>) -> BlockV<'s> {
    if b.conditionals.len() > 0 {
        match b.conditionals.last() {
            NodeV::Block(c) => BlockV {
                conditionals: b.conditionals.update(
                    b.conditionals.len() - 1,
                    NodeV::Block(BlockV { nodes: c.nodes.push(n), ..c }),
                ),
                ..b
            },
            _ => b,
        }
    } else {
        BlockV { nodes: b.nodes.push(n), ..b }
    }
}

/// Close a block: its last conditional (if a block) gets the same close.
pub open spec fn exit_spec<'s>(b: BlockV<'s>, span: Range<usize>) -> BlockV<'s> {
    let cs = if b.conditionals.len() > 0 {
        match b.conditionals.last() {
            NodeV::Block(c) => b.conditionals.update(
                b.conditionals.len() - 1,
                NodeV::Block(BlockV { close: Some(span), ..c }),
            ),
            _ => b.conditionals,
        }
    } else {
        b.conditionals
    };
    BlockV { close: Some(span), conditionals: cs, ..b }
}

impl<'source> Slice<'source> for Block<'source> {
    closed spec fn slice_ok(&self) -> bool {
        valid_span(self.source, self.open.start as int, self@.end()) && self.source.spec_bytes().len()
            <= usize::MAX
    }

    closed spec fn slice_bytes(&self) -> Seq<u8> {
        span_bytes(self.source, self.open.start as int, self@.end())
    }

    closed spec fn spec_source(&self) -> &'source str {
        self.source
    }

    fn as_str(&self) -> (res: &'source str) {
        let end = match &self.close {
            Some(close) => close.end,
            None => self.source.len(),
        };
        slice(self.source, self.open.start, end)
    }

    fn source(&self) -> (res: &'source str) {
        self.source
    }
}

impl<'source> Lines for Block<'source> {
    closed spec fn spec_lines(&self) -> Range<usize> {
        self.line
    }

    fn lines(&self) -> (res: &Range<usize>) {
        &self.line
    }

    fn lines_mut(&mut self) -> (res: &mut Range<usize>)
        ensures
            final(self)@ == (BlockV { line: *final(res), ..old(self)@ }),
    {
        &mut self.line
    }

    fn lines_end(&mut self, line: &usize)
        ensures
            final(self)@ == (BlockV { line: old(self)@.line.start..(*line + 1) as usize, ..old(self)@ }),
    {
        self.line.end = *line + 1;
    }
}

impl<'source> Element<'source> for Block<'source> {
    closed spec fn spec_open_span(&self) -> Range<usize> {
        self.open
    }

    closed spec fn spec_close_span(&self) -> Option<Range<usize>> {
        self.close
    }

    fn open(&self) -> (res: &'source str) {
        slice(self.source, self.open.start, self.open.end)
    }

    fn close(&self) -> (res: &'source str) {
        if let Some(close) = &self.close {
            slice(self.source, close.start, close.end)
        } else {
            empty_str()
        }
    }

    fn open_span(&self) -> (res: &Range<usize>) {
        &self.open
    }

    fn close_span(&self) -> (res: &Option<Range<usize>>) {
        &self.close
    }

    fn is_closed(&self) -> (res: bool) {
        self.close.is_some()
    }

    fn exit(&mut self, span: Range<usize>)
        ensures
            final(self)@ == exit_spec(old(self)@, span),
    {
        // NOTE: close_condition() sets the span up until the next
        // NOTE: block but when we exit a block node the last conditional
        // NOTE: needs a close matching the end tag so that whitespace
        // NOTE: trim logic is correct.
        if self.conditionals.len() > 0 {
            self.set_last_close(span.start..span.end);
        }
        self.close = Some(span);
    }
}

impl<'source> Block<'source> {
    /// What the trait-level views of a block are, stated over its view.
    pub proof fn lemma_views(&self)
        ensures
            self.spec_source() == self@.source,
            self.spec_open_span() == self@.open,
            self.spec_close_span() == self@.close,
            self.spec_lines() == self@.line,
            self.slice_ok() == (valid_span(self@.source, self@.open.start as int, self@.end())
                && self@.source.spec_bytes().len() <= usize::MAX),
            self.slice_bytes() == span_bytes(self@.source, self@.open.start as int, self@.end()),
    {
    }
}

impl<'source> Slice<'source> for Node<'source> {
    closed spec fn slice_ok(&self) -> bool {
        match self {
            Node::Document(n) => n.slice_ok(),
            Node::Text(n) => n.slice_ok(),
            Node::Statement(n) => n.slice_ok(),
            Node::Block(n) => n.slice_ok(),
            Node::Link(n) => n.slice_ok(),
            Node::RawStatement(n) => n.slice_ok(),
            Node::RawComment(n) => n.slice_ok(),
            Node::Comment(n) => n.slice_ok(),
        }
    }

    closed spec fn slice_bytes(&self) -> Seq<u8> {
        match self {
            Node::Document(n) => n.slice_bytes(),
            Node::Text(n) => n.slice_bytes(),
            Node::Statement(n) => n.slice_bytes(),
            Node::Block(n) => n.slice_bytes(),
            Node::Link(n) => n.slice_bytes(),
            Node::RawStatement(n) => n.slice_bytes(),
            Node::RawComment(n) => n.slice_bytes(),
            Node::Comment(n) => n.slice_bytes(),
        }
    }

    closed spec fn spec_source(&self) -> &'source str {
        match self {
            Node::Document(n) => n.spec_source(),
            Node::Text(n) => n.spec_source(),
            Node::Statement(n) => n.spec_source(),
            Node::Block(n) => n.spec_source(),
            Node::Link(n) => n.spec_source(),
            Node::RawStatement(n) => n.spec_source(),
            Node::RawComment(n) => n.spec_source(),
            Node::Comment(n) => n.spec_source(),
        }
    }

    fn as_str(&self) -> (res: &'source str) {
        match self {
            Node::Document(n) => n.as_str(),
            Node::Text(n) => n.as_str(),
            Node::Statement(n) => n.as_str(),
            Node::Block(n) => n.as_str(),
            Node::Link(n) => n.as_str(),
            Node::RawStatement(n) | Node::RawComment(n) | Node::Comment(n) => n.as_str(),
        }
    }

    fn source(&self) -> (res: &'source str) {
        match self {
            Node::Document(n) => n.source(),
            Node::Text(n) => n.source(),
            Node::RawStatement(n) => n.source(),
            Node::RawComment(n) => n.source(),
            Node::Comment(n) => n.source(),
            Node::Statement(n) => n.source(),
            Node::Block(n) => n.source(),
            Node::Link(n) => n.source(),
        }
    }
}

impl<'source> Node<'source> {
    /// Iterate descendants of documents and blocks.
    pub fn into_iter<'a>(&'a self) -> (res: crate::parser::iter::BranchIter<'a>)
        ensures
            res.spec_node() == self,
    {
        crate::parser::iter::BranchIter::new(self)
    }

    /// Get the trim hint for this node.
    pub fn trim(&self) -> (res: TrimHint)
        requires
            self@.trim_ok(),
        ensures
            res.before == self@.trim_before(),
            res.after == self@.trim_after(),
    {
        TrimHint { before: self.trim_before(), after: self.trim_after() }
    }

    fn trim_before(&self) -> (res: bool)
        requires
            self@.trim_ok(),
        ensures
            res == self@.trim_before(),
    {
        match self {
            Node::Statement(n) => n.trim_before(),
            Node::Block(n) => n.trim_before(),
            _ => false,
        }
    }

    fn trim_after(&self) -> (res: bool)
        requires
            self@.trim_ok(),
        ensures
            res == self@.trim_after(),
    {
        match self {
            Node::Statement(n) => n.trim_after(),
            Node::Block(n) => n.trim_after(),
            _ => false,
        }
    }
}


// ---------------------------------------------------------------------
// Display text
// ---------------------------------------------------------------------

impl<'source> NodeV<'source> {
    /// Slicing the source text of this node succeeds; a block is shown by its
    /// children, so nothing is asked of it here.
    pub open spec fn own_text_ok(self) -> bool {
        match self {
            NodeV::Document(_) => true,
            NodeV::Text(t) => valid_span(t.source, t.span.start as int, t.span.end as int),
            NodeV::Statement(c) => c.slice_ok(),
            NodeV::Block(_) => true,
            NodeV::Link(l) => l.open.start <= l.open.end && valid_span(
                l.source,
                l.open.start as int,
                l.as_str_end(),
            ),
            NodeV::RawStatement(t) => valid_span(t.source, t.open.start as int, t.close.end as int),
            NodeV::RawComment(t) => valid_span(t.source, t.open.start as int, t.close.end as int),
            NodeV::Comment(t) => valid_span(t.source, t.open.start as int, t.close.end as int),
        }
    }

    /// The source bytes that this node spans: the whole template for a
    /// document, nothing for a block.
    pub open spec fn own_bytes(self) -> Seq<u8> {
        match self {
            NodeV::Document(d) => d.source.spec_bytes(),
            NodeV::Text(t) => span_bytes(t.source, t.span.start as int, t.span.end as int),
            NodeV::Statement(c) => c.bytes(),
            NodeV::Block(_) => Seq::empty(),
            NodeV::Link(l) => span_bytes(l.source, l.open.start as int, l.as_str_end()),
            NodeV::RawStatement(t) => span_bytes(t.source, t.open.start as int, t.close.end as int),
            NodeV::RawComment(t) => span_bytes(t.source, t.open.start as int, t.close.end as int),
            NodeV::Comment(t) => span_bytes(t.source, t.open.start as int, t.close.end as int),
        }
    }
}

/// The text a node displays: a block shows its child nodes one after the
/// other (neither its tags nor its conditionals); every other node shows the
/// source text it spans.
pub open spec fn display_text<'s>(n: NodeV<'s>) -> Seq<char>
    decreases n, 1nat,
{
    match n {
        NodeV::Block(b) => nodes_display_text(b.nodes),
        _ => decode_utf8(n.own_bytes()),
    }
}

/// The texts of a sequence of nodes, one after the other.
pub open spec fn nodes_display_text<'s>(ns: Seq<NodeV<'s>>) -> Seq<char>
    decreases ns, 0nat,
{
    if ns.len() == 0 {
        Seq::empty()
    } else {
        nodes_display_text(ns.drop_last()) + display_text(ns.last())
    }
}

/// The node, and every node under it (a block's children and its
/// conditionals), can be displayed: each slices the source only where it is
/// valid to do so.
pub open spec fn display_ok<'s>(n: NodeV<'s>) -> bool
    decreases n, 1nat,
{
    match n {
        NodeV::Block(b) => nodes_display_ok(b.nodes) && nodes_display_ok(b.conditionals),
        _ => n.own_text_ok(),
    }
}

/// Every node of a sequence can be displayed.
pub open spec fn nodes_display_ok<'s>(ns: Seq<NodeV<'s>>) -> bool
    decreases ns, 0nat,
{
    ns.len() == 0 || (nodes_display_ok(ns.drop_last()) && display_ok(ns.last()))
}

/// Every node of a sequence can be displayed exactly when each can.
pub proof fn lemma_nodes_display_ok<'s>(ns: Seq<NodeV<'s>>)
    ensures
        nodes_display_ok(ns) <==> forall|i: int| 0 <= i < ns.len() ==> display_ok(#[trigger] ns[i]),
    decreases ns.len(),
{
    if ns.len() > 0 {
        lemma_nodes_display_ok(ns.drop_last());
        assert forall|i: int| 0 <= i < ns.len() - 1 implies ns.drop_last()[i] == ns[i] by {}
        if forall|i: int| 0 <= i < ns.len() ==> display_ok(#[trigger] ns[i]) {
            assert forall|i: int| 0 <= i < ns.drop_last().len() implies display_ok(#[trigger] ns.drop_last()[i]) by {
                assert(display_ok(ns[i]));
            }
        }
    }
}

/// Appending a node that can be displayed keeps every node displayable.
pub proof fn lemma_nodes_push_ok<'s>(ns: Seq<NodeV<'s>>, n: NodeV<'s>)
    requires
        nodes_display_ok(ns),
        display_ok(n),
    ensures
        nodes_display_ok(ns.push(n)),
{
    assert(ns.push(n).drop_last() =~= ns);
}

/// Replacing a node by one that can be displayed keeps every node
/// displayable.
pub proof fn lemma_nodes_update_ok<'s>(ns: Seq<NodeV<'s>>, i: int, n: NodeV<'s>)
    requires
        nodes_display_ok(ns),
        0 <= i < ns.len(),
        display_ok(n),
    ensures
        nodes_display_ok(ns.update(i, n)),
{
    lemma_nodes_display_ok(ns);
    lemma_nodes_display_ok(ns.update(i, n));
}

/// Setting the close span of the last conditional keeps the conditionals
/// displayable.
pub proof fn lemma_close_last_ok<'s>(cs: Seq<NodeV<'s>>, span: Range<usize>)
    requires
        nodes_display_ok(cs),
    ensures
        nodes_display_ok(close_last(cs, span)),
{
    if cs.len() > 0 && span.start > 0 {
        if let NodeV::Block(c) = cs.last() {
            lemma_nodes_display_ok(cs);
            assert(display_ok(cs[cs.len() - 1]));
            lemma_nodes_update_ok(
                cs,
                cs.len() - 1,
                NodeV::Block(BlockV { close: Some((span.start - 1) as usize..span.start), ..c }),
            );
        }
    }
}

/// Closing a block keeps it displayable.
pub proof fn lemma_exit_ok<'s>(b: BlockV<'s>, span: Range<usize>)
    requires
        display_ok(NodeV::Block(b)),
    ensures
        display_ok(NodeV::Block(exit_spec(b, span))),
{
    if b.conditionals.len() > 0 {
        if let NodeV::Block(c) = b.conditionals.last() {
            lemma_nodes_display_ok(b.conditionals);
            assert(display_ok(b.conditionals[b.conditionals.len() - 1]));
            lemma_nodes_update_ok(
                b.conditionals,
                b.conditionals.len() - 1,
                NodeV::Block(BlockV { close: Some(span), ..c }),
            );
        }
    }
}

/// Adding a displayable node to a block keeps it displayable.
pub proof fn lemma_push_spec_ok<'s>(b: BlockV<'s>, n: NodeV<'s>)
    requires
        display_ok(NodeV::Block(b)),
        display_ok(n),
    ensures
        display_ok(NodeV::Block(push_spec(b, n))),
{
    if b.conditionals.len() > 0 {
        if let NodeV::Block(c) = b.conditionals.last() {
            lemma_nodes_display_ok(b.conditionals);
            assert(display_ok(b.conditionals[b.conditionals.len() - 1]));
            lemma_nodes_push_ok(c.nodes, n);
            lemma_nodes_update_ok(
                b.conditionals,
                b.conditionals.len() - 1,
                NodeV::Block(BlockV { nodes: c.nodes.push(n), ..c }),
            );
        }
    } else {
        lemma_nodes_push_ok(b.nodes, n);
    }
}

/// The display of the first `i + 1` nodes extends that of the first `i`.
proof fn lemma_display_take<'s>(ns: Seq<NodeV<'s>>, i: int)
    requires
        0 <= i < ns.len(),
        nodes_display_ok(ns),
    ensures
        nodes_display_text(ns.take(i + 1)) == nodes_display_text(ns.take(i)) + display_text(ns[i]),
        display_ok(ns[i]),
    decreases ns.len(),
{
    assert(ns.take(i + 1).drop_last() =~= ns.take(i));
    if i < ns.len() - 1 {
        assert(ns.drop_last().take(i + 1) =~= ns.take(i + 1));
        assert(ns.drop_last().take(i) =~= ns.take(i));
        lemma_display_take(ns.drop_last(), i);
    }
}

impl<'source> Node<'source> {
    /// The text this node displays.
    pub fn to_string(&self) -> (res: String)
        requires
            display_ok(self@),
        ensures
            res@ == display_text(self@),
        decreases self,
    {
        proof {
            lemma_node_view(*self);
        }
        match self {
            Node::Block(b) => b.to_string(),
            _ => {
                proof {
                    match self {
                        Node::Text(t) => t.lemma_slice(),
                        Node::Statement(c) => c.lemma_views(),
                        Node::Link(l) => l.lemma_views(),
                        Node::RawStatement(t) => t.lemma_slice(),
                        Node::RawComment(t) => t.lemma_slice(),
                        Node::Comment(t) => t.lemma_slice(),
                        _ => {},
                    }
                }
                let s = self.as_str();
                proof {
                    crate::text::lemma_text_of_bytes(s);
                }
                s.to_owned()
            },
        }
    }
}

impl<'source> Block<'source> {
    /// The text this block displays: its child nodes one after the other.
    pub fn to_string(&self) -> (res: String)
        requires
            nodes_display_ok(self@.nodes),
        ensures
            res@ == nodes_display_text(self@.nodes),
        decreases self,
    {
        let ghost ns = self@.nodes;
        proof {
            lemma_nodes_view(self.nodes@);
        }
        let mut out = String::new();
        let n = self.nodes.len();
        let mut i: usize = 0;
        assert(ns.take(0) =~= Seq::<NodeV<'source>>::empty());
        while i < n
            invariant
                n == self.nodes@.len(),
                ns == self@.nodes,
                ns.len() == n,
                forall|k: int| 0 <= k < n ==> #[trigger] ns[k] == self.nodes@[k]@,
                nodes_display_ok(ns),
                i <= n,
                out@ == nodes_display_text(ns.take(i as int)),
            decreases n - i,
        {
            proof {
                lemma_display_take(ns, i as int);
            }
            let child = &self.nodes[i];
            let s = child.to_string();
            push_str(&mut out, s.as_str());
            i = i + 1;
        }
        assert(ns.take(n as int) =~= ns);
        out
    }
}

} // verus!
