//! Walk the children of a node together with their whitespace trim state.
use vstd::prelude::*;

use crate::parser::ast::{lemma_nodes_view, nodes_view, Node, NodeV};
use crate::trim::{TrimHint, TrimState};

verus! {

/// Event that encapsulates a node and whitespace trim state.
#[derive(Debug)]
pub struct NodeEvent<'a> {
    /// The node being emitted.
    pub node: &'a Node<'a>,
    /// The trim state for the node.
    pub trim: TrimState,
    /// Whether this is the first event in the current iteration.
    pub first: bool,
    /// Whether this is the last event in the current iteration.
    pub last: bool,
}

impl<'a> NodeEvent<'a> {
    /// Create a node event.
    pub fn new(node: &'a Node<'a>, trim: TrimState, first: bool, last: bool) -> (res: Self)
        ensures
            res.node == node,
            res.trim == trim,
            res.first == first,
            res.last == last,
    {
        Self { node, trim, first, last }
    }
}

/// The child nodes of a document or block (a block's own nodes, not its
/// conditionals); other nodes have none.
pub fn children<'a>(node: &'a Node<'a>) -> (res: Option<&'a Vec<Node<'a>>>)
    ensures
        match res {
            Some(v) => nodes_view(v@) == node@.children(),
            None => node@.children().len() == 0,
        },
{
    proof {
        crate::parser::ast::lemma_node_view(*node);
    }
    match node {
        Node::Document(doc) => Some(doc.nodes()),
        Node::Block(block) => Some(block.nodes()),
        _ => None,
    }
}

/// Iterator for branch nodes.
///
/// Descends into document and block nodes and yields the child
/// nodes.
pub struct BranchIter<'source> {
    node: &'source Node<'source>,
    pos: usize,
}

/// One call of [`BranchIter::next`] went from `it0` to `it1` yielding `res`.
pub open spec fn branch_next<'s>(it0: BranchIter<'s>, it1: BranchIter<'s>, res: Option<&'s Node<'s>>) -> bool {
    let ns = it0.spec_node()@.children();
    let p = it0.spec_pos();
    &&& it1.spec_node() == it0.spec_node()
    &&& if p < ns.len() {
        &&& res matches Some(n) && n@ == ns[p as int]
        &&& it1.spec_pos() == p + 1
    } else {
        &&& res is None
        &&& it1.spec_pos() == 0
    }
}

/// A walk with a branch iterator that starts at the first child yields the
/// children of a document or block in order (a block's conditions not
/// included) and then nothing; a node of any other kind yields nothing
/// first. `its` are the iterator's states and `rs` what each call yielded.
pub proof fn lemma_branch_walk<'s>(its: Seq<BranchIter<'s>>, rs: Seq<Option<&'s Node<'s>>>)
    requires
        its.len() == rs.len() + 1,
        its[0].spec_pos() == 0,
        forall|i: int| 0 <= i < rs.len() ==> branch_next(#[trigger] its[i], its[i + 1], rs[i]),
    ensures
        ({
            let ns = its[0].spec_node()@.children();
            forall|i: int|
                0 <= i < rs.len() && i <= ns.len() ==> if i < ns.len() {
                    #[trigger] rs[i] matches Some(n) && n@ == ns[i]
                } else {
                    rs[i] is None
                }
        }),
{
    let ns = its[0].spec_node()@.children();
    assert forall|i: int| 0 <= i <= rs.len() && i <= ns.len() implies its[i].spec_pos() == i
        && its[i].spec_node() == its[0].spec_node() by {
        lemma_branch_prefix(its, rs, i);
    }
    assert forall|i: int| 0 <= i < rs.len() && i <= ns.len() implies if i < ns.len() {
        #[trigger] rs[i] matches Some(n) && n@ == ns[i]
    } else {
        rs[i] is None
    } by {
        assert(its[i].spec_pos() == i && its[i].spec_node() == its[0].spec_node());
        assert(branch_next(its[i], its[i + 1], rs[i]));
    }
}

proof fn lemma_branch_prefix<'s>(its: Seq<BranchIter<'s>>, rs: Seq<Option<&'s Node<'s>>>, i: int)
    requires
        its.len() == rs.len() + 1,
        its[0].spec_pos() == 0,
        forall|j: int| 0 <= j < rs.len() ==> branch_next(#[trigger] its[j], its[j + 1], rs[j]),
        0 <= i <= rs.len(),
        i <= its[0].spec_node()@.children().len(),
    ensures
        its[i].spec_pos() == i,
        its[i].spec_node() == its[0].spec_node(),
    decreases i,
{
    if i > 0 {
        lemma_branch_prefix(its, rs, i - 1);
        assert(branch_next(its[i - 1], its[i], rs[i - 1]));
    }
}

impl<'source> BranchIter<'source> {
    /// Create a new branch iterator.
    pub fn new(node: &'source Node<'source>) -> (res: Self)
        ensures
            res.spec_node() == node,
            res.spec_pos() == 0,
    {
        Self { node, pos: 0 }
    }

    /// The node whose children are walked.
    pub closed spec fn spec_node(&self) -> &'source Node<'source> {
        self.node
    }

    /// The index of the child that the next call yields.
    pub closed spec fn spec_pos(&self) -> usize {
        self.pos
    }

    /// Yield the next child; after the last one, yield nothing once and
    /// start again from the first.
    pub fn next(&mut self) -> (res: Option<&'source Node<'source>>)
        ensures
            branch_next(*old(self), *final(self), res),
    {
        match children(self.node) {
            Some(nodes) => {
                proof {
                    lemma_nodes_view(nodes@);
                }
                if self.pos < nodes.len() {
                    let n = &nodes[self.pos];
                    self.pos = self.pos + 1;
                    Some(n)
                } else {
                    self.pos = 0;
                    None
                }
            },
            None => {
                self.pos = 0;
                None
            },
        }
    }

    /// The child nodes, in order.
    pub fn nodes(&self) -> (res: Vec<&'source Node<'source>>)
        ensures
            res@.len() == self.spec_node()@.children().len(),
            forall|i: int| 0 <= i < res@.len() ==> (#[trigger] res@[i])@ == self.spec_node()@.children()[i],
    {
        let mut res: Vec<&'source Node<'source>> = Vec::new();
        if let Some(nodes) = children(self.node) {
            proof {
                lemma_nodes_view(nodes@);
            }
            let mut i: usize = 0;
            while i < nodes.len()
                invariant
                    i <= nodes@.len(),
                    nodes_view(nodes@) == self.spec_node()@.children(),
                    nodes_view(nodes@).len() == nodes@.len(),
                    forall|j: int| 0 <= j < nodes@.len() ==> #[trigger] nodes_view(nodes@)[j] == nodes@[j]@,
                    res@.len() == i,
                    forall|j: int| 0 <= j < i ==> (#[trigger] res@[j])@ == self.spec_node()@.children()[j],
                decreases nodes@.len() - i,
            {
                res.push(&nodes[i]);
                i = i + 1;
            }
        }
        res
    }

    /// Create an iterator that adds trim state information
    /// to each node.
    ///
    /// The input hint will be used to determine the trim state
    /// of the first node.
    pub fn event(self, hint: Option<TrimHint>) -> (res: EventIter<'source>)
        ensures
            res.spec_node() == self.spec_node(),
            res.spec_hint() == hint,
            res.spec_pos() == self.spec_pos(),
            res.spec_prev() is None,
    {
        EventIter::new(self, hint)
    }
}

/// Iterator that yields node events.
///
/// Node events contain the underlying node and a trim state that indicates
/// whether the current node should have leading and trailing
/// whitespace removed.
///
/// They may also be seeded with a [TrimHint](crate::trim::TrimHint) from a
/// previous iteration.
pub struct EventIter<'source> {
    nodes: BranchIter<'source>,
    prev_trim_after: Option<bool>,
    hint: Option<TrimHint>,
}

/// The trim state of the `i`-th of the nodes `ns`: its start is trimmed
/// when the node before it trims after itself (for the first node, when
/// the hint says so); its end is trimmed when the node after it trims
/// before itself.
pub open spec fn event_trim(ns: Seq<NodeV>, i: int, hint: Option<TrimHint>) -> TrimState {
    TrimState {
        start: if i == 0 {
            match hint {
                Some(h) => h.after,
                None => false,
            }
        } else {
            ns[i - 1].trim_after()
        },
        end: i + 1 < ns.len() && ns[i + 1].trim_before(),
    }
}

/// One call of [`EventIter::next`] went from `it0` to `it1` yielding `res`.
pub open spec fn event_next<'s>(it0: EventIter<'s>, it1: EventIter<'s>, res: Option<NodeEvent<'s>>) -> bool {
    let ns = it0.spec_node()@.children();
    let p = it0.spec_pos();
    &&& it1.spec_node() == it0.spec_node()
    &&& it1.spec_hint() == (if it0.spec_prev() is Some {
        it0.spec_hint()
    } else {
        None
    })
    &&& if p < ns.len() {
        &&& res matches Some(ev) && {
            &&& ev.node@ == ns[p as int]
            &&& ev.first == (it0.spec_prev() is None)
            &&& ev.last == (p + 1 == ns.len())
            &&& ev.trim.start == match it0.spec_prev() {
                Some(b) => b,
                None => match it0.spec_hint() {
                    Some(h) => h.after,
                    None => false,
                },
            }
            &&& ev.trim.end == (p + 1 < ns.len() && ns[p + 1].trim_before())
        }
        &&& it1.spec_prev() == Some(ns[p as int].trim_after())
        &&& it1.spec_pos() == p + 1
    } else {
        &&& res is None
        &&& it1.spec_prev() is None
        &&& it1.spec_pos() == 0
    }
}

/// An event iterator that has yielded the first `pos` events of a walk
/// started with the hint `hint`.
pub open spec fn event_walk<'s>(it: EventIter<'s>, hint: Option<TrimHint>) -> bool {
    let ns = it.spec_node()@.children();
    &&& it.spec_pos() <= ns.len()
    &&& if it.spec_pos() == 0 {
        it.spec_prev() is None && it.spec_hint() == hint
    } else {
        it.spec_prev() == Some(ns[it.spec_pos() - 1].trim_after())
    }
}

/// Walking events from the first child yields, for the `i`-th child, the
/// child itself, the trim state `event_trim` gives (the hint counts for the
/// first child only), and whether it is the first and the last; the walk
/// ends with nothing once every child was yielded.
pub proof fn lemma_event_walk<'s>(
    it0: EventIter<'s>,
    it1: EventIter<'s>,
    res: Option<NodeEvent<'s>>,
    hint: Option<TrimHint>,
)
    requires
        event_walk(it0, hint),
        event_next(it0, it1, res),
    ensures
        ({
            let ns = it0.spec_node()@.children();
            let p = it0.spec_pos() as int;
            if p < ns.len() {
                &&& res matches Some(ev) && ev.node@ == ns[p] && ev.trim == event_trim(ns, p, hint)
                    && ev.first == (p == 0) && ev.last == (p == ns.len() - 1)
                &&& event_walk(it1, hint)
            } else {
                res is None
            }
        }),
{
}

/// A walk with an event iterator that starts at the first child with the
/// hint `hint` yields one event per child, in order, and then nothing: the
/// `i`-th event holds the `i`-th child, the trim state `event_trim` gives,
/// and whether it is the first and the last. `its` are the iterator's
/// states and `rs` what each call yielded.
pub proof fn lemma_event_walk_all<'s>(its: Seq<EventIter<'s>>, rs: Seq<Option<NodeEvent<'s>>>, hint: Option<TrimHint>)
    requires
        its.len() == rs.len() + 1,
        its[0].spec_pos() == 0,
        its[0].spec_prev() is None,
        its[0].spec_hint() == hint,
        forall|i: int| 0 <= i < rs.len() ==> event_next(#[trigger] its[i], its[i + 1], rs[i]),
    ensures
        ({
            let ns = its[0].spec_node()@.children();
            forall|i: int|
                0 <= i < rs.len() && i <= ns.len() ==> if i < ns.len() {
                    #[trigger] rs[i] matches Some(ev) && ev.node@ == ns[i] && ev.trim == event_trim(ns, i, hint)
                        && ev.first == (i == 0) && ev.last == (i == ns.len() - 1)
                } else {
                    rs[i] is None
                }
        }),
{
    let ns = its[0].spec_node()@.children();
    assert forall|i: int| 0 <= i < rs.len() && i <= ns.len() implies if i < ns.len() {
        #[trigger] rs[i] matches Some(ev) && ev.node@ == ns[i] && ev.trim == event_trim(ns, i, hint)
            && ev.first == (i == 0) && ev.last == (i == ns.len() - 1)
    } else {
        rs[i] is None
    } by {
        lemma_event_prefix(its, rs, hint, i);
        lemma_event_walk(its[i], its[i + 1], rs[i], hint);
    }
}

proof fn lemma_event_prefix<'s>(its: Seq<EventIter<'s>>, rs: Seq<Option<NodeEvent<'s>>>, hint: Option<TrimHint>, i: int)
    requires
        its.len() == rs.len() + 1,
        its[0].spec_pos() == 0,
        its[0].spec_prev() is None,
        its[0].spec_hint() == hint,
        forall|j: int| 0 <= j < rs.len() ==> event_next(#[trigger] its[j], its[j + 1], rs[j]),
        0 <= i <= rs.len(),
        i <= its[0].spec_node()@.children().len(),
    ensures
        its[i].spec_pos() == i,
        its[i].spec_node() == its[0].spec_node(),
        event_walk(its[i], hint),
    decreases i,
{
    if i > 0 {
        lemma_event_prefix(its, rs, hint, i - 1);
        assert(event_next(its[i - 1], its[i], rs[i - 1]));
        lemma_event_walk(its[i - 1], its[i], rs[i - 1], hint);
    }
}

impl<'source> EventIter<'source> {
    /// Create a new event iterator.
    pub fn new(nodes: BranchIter<'source>, hint: Option<TrimHint>) -> (res: Self)
        ensures
            res.spec_node() == nodes.spec_node(),
            res.spec_hint() == hint,
            res.spec_pos() == nodes.spec_pos(),
            res.spec_prev() is None,
    {
        Self { nodes, prev_trim_after: None, hint }
    }

    /// The index of the child that the next call yields.
    pub closed spec fn spec_pos(&self) -> usize {
        self.nodes.pos
    }

    /// Whether the node yielded last trims after itself (none before the
    /// first event).
    pub closed spec fn spec_prev(&self) -> Option<bool> {
        self.prev_trim_after
    }

    /// Yield the event for the next child: its start is trimmed as the
    /// node before it asks (for the first event, as the hint asks, which is
    /// then used up), its end as the node after it asks. After the last
    /// event, yield nothing once and start again from the first child.
    pub fn next(&mut self) -> (res: Option<NodeEvent<'source>>)
        requires
            forall|i: int|
                0 <= i < old(self).spec_node()@.children().len() ==> (#[trigger] old(self).spec_node()@.children()[i]).trim_ok(),
        ensures
            event_next(*old(self), *final(self), res),
    {
        let ghost ns = self.nodes.node@.children();
        let first = self.prev_trim_after.is_none();
        let start = match self.prev_trim_after.take() {
            Some(trim_after) => trim_after,
            None => match self.hint.take() {
                Some(hint) => hint.after,
                None => false,
            },
        };
        match children(self.nodes.node) {
            Some(nodes) => {
                proof {
                    lemma_nodes_view(nodes@);
                }
                let p = self.nodes.pos;
                if p < nodes.len() {
                    let node = &nodes[p];
                    assert(node@ == ns[p as int]);
                    let mut end = false;
                    if p + 1 < nodes.len() {
                        let next = &nodes[p + 1];
                        assert(next@ == ns[p + 1]);
                        if next.trim().before {
                            end = true;
                        }
                    }
                    self.prev_trim_after = Some(node.trim().after);
                    self.nodes.pos = p + 1;
                    let state = TrimState::from_pair((start, end));
                    Some(NodeEvent::new(node, state, first, p + 1 == nodes.len()))
                } else {
                    self.nodes.pos = 0;
                    None
                }
            },
            None => {
                self.nodes.pos = 0;
                None
            },
        }
    }

    /// The node whose children are walked.
    pub closed spec fn spec_node(&self) -> &'source Node<'source> {
        self.nodes.node
    }

    /// The hint for the first node.
    pub closed spec fn spec_hint(&self) -> Option<TrimHint> {
        self.hint
    }

    /// The events for the children, in order: each with the child, its
    /// trim state, and whether it is the first and the last.
    pub fn events(&self) -> (res: Vec<NodeEvent<'source>>)
        requires
            forall|i: int|
                0 <= i < self.spec_node()@.children().len() ==> (#[trigger] self.spec_node()@.children()[i]).trim_ok(),
        ensures
            res@.len() == self.spec_node()@.children().len(),
            forall|i: int|
                0 <= i < res@.len() ==> {
                    let ev = #[trigger] res@[i];
                    let ns = self.spec_node()@.children();
                    &&& ev.node@ == ns[i]
                    &&& ev.trim == event_trim(ns, i, self.spec_hint())
                    &&& ev.first == (i == 0)
                    &&& ev.last == (i == ns.len() - 1)
                },
    {
        let nodes = self.nodes.nodes();
        let ghost ns = self.spec_node()@.children();
        let mut events: Vec<NodeEvent<'source>> = Vec::new();
        let mut prev_trim_after: Option<bool> = None;
        let n = nodes.len();
        let mut i: usize = 0;
        while i < n
            invariant
                n == nodes@.len(),
                n == ns.len(),
                i <= n,
                forall|j: int| 0 <= j < nodes@.len() ==> (#[trigger] nodes@[j])@ == ns[j],
                forall|j: int| 0 <= j < ns.len() ==> (#[trigger] ns[j]).trim_ok(),
                ns == self.spec_node()@.children(),
                events@.len() == i,
                i == 0 <==> prev_trim_after is None,
                i > 0 ==> prev_trim_after == Some(ns[i - 1].trim_after()),
                forall|j: int|
                    0 <= j < i ==> {
                        let ev = #[trigger] events@[j];
                        &&& ev.node@ == ns[j]
                        &&& ev.trim == event_trim(ns, j, self.spec_hint())
                        &&& ev.first == (j == 0)
                        &&& ev.last == (j == ns.len() - 1)
                    },
            decreases n - i,
        {
            let node = nodes[i];
            let first = prev_trim_after.is_none();
            // Trim the start of the current node.
            let start = if let Some(trim_after) = prev_trim_after {
                trim_after
            } else {
                if let Some(hint) = &self.hint {
                    hint.after
                } else {
                    false
                }
            };
            // Trim the end of the current node.
            let mut end = false;
            if i + 1 < n {
                let next = nodes[i + 1];
                assert(next@ == ns[i + 1]);
                if next.trim().before {
                    end = true;
                }
            }
            assert(node@ == ns[i as int]);
            prev_trim_after = Some(node.trim().after);
            let state = TrimState::from_pair((start, end));
            events.push(NodeEvent::new(node, state, first, i + 1 == n));
            i = i + 1;
        }
        events
    }
}

} // verus!
