//! Type for block helpers.
use vstd::prelude::*;

use crate::parser::ast::{lemma_node_view, lemma_nodes_view, Node, NodeV};

verus! {

/// Encapsulates the templates passed to a block helper.
#[derive(Debug)]
pub struct BlockTemplate<'source> {
    template: &'source Node<'source>,
}

/// The conditional blocks of a node: a block's `else` clauses, in order;
/// none for other nodes.
pub open spec fn conditions_of<'s>(n: NodeV<'s>) -> Seq<NodeV<'s>> {
    match n {
        NodeV::Block(b) => b.conditionals,
        _ => Seq::empty(),
    }
}

/// The clause to render, scanning the conditions from `k` with `alt` the
/// last plain `else` seen so far: the first clause with a condition that is
/// truthy wins; failing that, the last plain `else`.
pub open spec fn inverse_from<'s>(cs: Seq<NodeV<'s>>, truthy: Seq<bool>, k: int, alt: Option<int>) -> Option<int>
    decreases cs.len() - k,
{
    if k < 0 || k >= cs.len() {
        alt
    } else {
        match cs[k] {
            NodeV::Block(c) => if c.call.target.is_empty() {
                inverse_from(cs, truthy, k + 1, Some(k))
            } else if truthy[k] {
                Some(k)
            } else {
                inverse_from(cs, truthy, k + 1, alt)
            },
            _ => inverse_from(cs, truthy, k + 1, alt),
        }
    }
}

/// A clause has a condition: an `else if` (or other conditional) block,
/// not a plain `else`.
pub open spec fn has_condition<'s>(n: NodeV<'s>) -> bool {
    n matches NodeV::Block(c) && !c.call.target.is_empty()
}

/// A clause is a plain `else`.
pub open spec fn is_plain_else<'s>(n: NodeV<'s>) -> bool {
    n matches NodeV::Block(c) && c.call.target.is_empty()
}

/// The clause chosen (by its index) is a conditional clause whose condition
/// is truthy while every earlier conditional clause is falsy, or the last
/// plain `else` when no conditional clause is truthy; none is chosen only
/// when there is no plain `else` and no truthy condition.
pub open spec fn chosen_ok<'s>(cs: Seq<NodeV<'s>>, truthy: Seq<bool>, r: Option<int>) -> bool {
    match r {
        Some(i) => {
            &&& 0 <= i < cs.len()
            &&& has_condition(cs[i]) || is_plain_else(cs[i])
            &&& has_condition(cs[i]) ==> truthy[i] && forall|j: int|
                0 <= j < i && #[trigger] has_condition(cs[j]) ==> !truthy[j]
            &&& is_plain_else(cs[i]) ==> (forall|j: int|
                0 <= j < cs.len() && #[trigger] has_condition(cs[j]) ==> !truthy[j]) && (forall|j: int|
                i < j < cs.len() ==> !is_plain_else(#[trigger] cs[j]))
        },
        None => forall|j: int|
            0 <= j < cs.len() ==> !is_plain_else(#[trigger] cs[j]) && !(has_condition(cs[j]) && truthy[j]),
    }
}

/// What the clause chosen from `k` on satisfies, given that `alt` (if any)
/// is a plain `else` before `k` and no conditional clause before `k` is
/// truthy.
proof fn lemma_inverse_from<'s>(cs: Seq<NodeV<'s>>, truthy: Seq<bool>, k: int, alt: Option<int>)
    requires
        truthy.len() == cs.len(),
        0 <= k <= cs.len(),
        alt matches Some(a) ==> 0 <= a < k && is_plain_else(cs[a]) && (forall|j: int|
            a < j < k ==> !is_plain_else(#[trigger] cs[j])),
        alt is None ==> forall|j: int| 0 <= j < k ==> !is_plain_else(#[trigger] cs[j]),
        forall|j: int| 0 <= j < k && #[trigger] has_condition(cs[j]) ==> !truthy[j],
    ensures
        chosen_ok(cs, truthy, inverse_from(cs, truthy, k, alt)),
    decreases cs.len() - k,
{
    if k < cs.len() {
        match cs[k] {
            NodeV::Block(c) => if c.call.target.is_empty() {
                assert(is_plain_else(cs[k]) && !has_condition(cs[k]));
                lemma_inverse_from(cs, truthy, k + 1, Some(k));
            } else if truthy[k] {
                assert(has_condition(cs[k]) && !is_plain_else(cs[k]));
            } else {
                assert(has_condition(cs[k]) && !is_plain_else(cs[k]));
                lemma_inverse_from(cs, truthy, k + 1, alt);
            },
            _ => {
                assert(!has_condition(cs[k]) && !is_plain_else(cs[k]));
                lemma_inverse_from(cs, truthy, k + 1, alt);
            },
        }
    } else {
        if let Some(a) = alt {
            assert(!(has_condition(cs[a])));
        }
    }
}

/// The clause chosen to render is the first clause with a truthy
/// condition; only when no clause's condition is truthy is it a plain
/// `else` (the last one); with neither, nothing is rendered. So a chosen
/// clause with a condition has a truthy condition and every earlier
/// conditional clause is falsy.
pub proof fn lemma_inverse_choice<'s>(cs: Seq<NodeV<'s>>, truthy: Seq<bool>)
    requires
        truthy.len() == cs.len(),
    ensures
        chosen_ok(cs, truthy, inverse_from(cs, truthy, 0, None)),
        forall|j: int|
            0 <= j < cs.len() && #[trigger] has_condition(cs[j]) && truthy[j] && (forall|l: int|
                0 <= l < j && #[trigger] has_condition(cs[l]) ==> !truthy[l]) ==> inverse_from(cs, truthy, 0, None)
                == Some(j),
{
    lemma_inverse_from(cs, truthy, 0, None);
    let r = inverse_from(cs, truthy, 0, None);
    assert forall|j: int|
        0 <= j < cs.len() && #[trigger] has_condition(cs[j]) && truthy[j] && (forall|l: int|
            0 <= l < j && #[trigger] has_condition(cs[l]) ==> !truthy[l]) implies r == Some(j) by {
        if let Some(i) = r {
            if has_condition(cs[i]) {
                if i < j {
                } else if i > j {
                    assert(!truthy[j]);
                }
            } else {
                assert(!truthy[j]);
            }
        } else {
            assert(!(has_condition(cs[j]) && truthy[j]));
        }
    }
}

impl<'source> BlockTemplate<'source> {
    /// Create a block template.
    pub fn new(template: &'source Node<'source>) -> (res: Self)
        ensures
            res.spec_template() == template,
    {
        Self { template }
    }

    /// The primary template node.
    pub closed spec fn spec_template(&self) -> &'source Node<'source> {
        self.template
    }

    /// Get the primary template node for the block.
    pub fn template(&self) -> (res: &'source Node<'source>)
        ensures
            res == self.spec_template(),
    {
        self.template
    }

    /// Find the conditional clause that should be rendered, given for each
    /// clause whether evaluating its condition gave a truthy value
    /// (`truthy[i]`; it is read only for clauses with a condition, and
    /// only up to the first truthy one).
    pub fn inverse(&self, truthy: &Vec<bool>) -> (res: Option<&'source Node<'source>>)
        requires
            truthy@.len() == conditions_of(self.spec_template()@).len(),
        ensures
            ({
                let cs = conditions_of(self.spec_template()@);
                match inverse_from(cs, truthy@, 0, None) {
                    Some(i) => res matches Some(n) && 0 <= i < cs.len() && n@ == cs[i],
                    None => res is None,
                }
            }),
            ({
                let cs = conditions_of(self.spec_template()@);
                &&& chosen_ok(cs, truthy@, inverse_from(cs, truthy@, 0, None))
                &&& forall|j: int|
                    0 <= j < cs.len() && #[trigger] has_condition(cs[j]) && truthy@[j] && (forall|l: int|
                        0 <= l < j && #[trigger] has_condition(cs[l]) ==> !truthy@[l]) ==> (res matches Some(n)
                        && n@ == cs[j])
            }),
    {
        proof {
            lemma_node_view(*self.template);
            lemma_inverse_choice(conditions_of(self.template@), truthy@);
        }
        let ghost cs = conditions_of(self.template@);
        match self.template {
            Node::Block(block) => {
                let conds = block.conditions();
                proof {
                    lemma_nodes_view(conds@);
                }
                let mut alt: Option<usize> = None;
                let mut k: usize = 0;
                while k < conds.len()
                    invariant
                        cs == conditions_of(self.template@),
                        conds@.len() == cs.len(),
                        truthy@.len() == cs.len(),
                        forall|j: int| 0 <= j < cs.len() ==> #[trigger] cs[j] == conds@[j]@,
                        k <= cs.len(),
                        alt matches Some(a) ==> a < k,
                        inverse_from(cs, truthy@, 0, None) == inverse_from(
                            cs,
                            truthy@,
                            k as int,
                            match alt {
                                Some(a) => Some(a as int),
                                None => None,
                            },
                        ),
                    decreases cs.len() - k,
                {
                    let node = &conds[k];
                    proof {
                        lemma_node_view(*node);
                    }
                    if let Node::Block(clause) = node {
                        if clause.call().is_empty() {
                            alt = Some(k);
                        } else if truthy[k] {
                            proof {
                                lemma_inverse_choice(cs, truthy@);
                            }
                            return Some(node);
                        }
                    }
                    k = k + 1;
                }
                proof {
                    lemma_inverse_choice(cs, truthy@);
                }
                match alt {
                    Some(a) => Some(&conds[a]),
                    None => None,
                }
            },
            _ => None,
        }
    }
}

} // verus!
