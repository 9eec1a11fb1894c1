//! Types that control how whitespace is trimmed.
use vstd::prelude::*;

verus! {

/// State that indicates how whitespace should be trimmed
/// from the node being rendered.
#[derive(Clone, Copy, Default, Debug, PartialEq, Eq, Structural)]
pub struct TrimState {
    /// Whether the leading whitespace should be removed
    /// from the current output.
    pub start: bool,
    /// Whether the trailing whitespace should be removed
    /// from the current output.
    pub end: bool,
}

impl TrimState {
    /// Build a trim state from a `(start, end)` pair.
    pub fn from_pair(values: (bool, bool)) -> (res: Self)
        ensures
            res.start == values.0,
            res.end == values.1,
    {
        TrimState { start: values.0, end: values.1 }
    }
}

/// Hint that indicates how whitespace should be trimmed
/// for nodes before and after the current node.
#[derive(Clone, Copy, Default, Debug, PartialEq, Eq, Structural)]
pub struct TrimHint {
    /// Whether the previous node should have trailing whitespace removed.
    pub before: bool,
    /// Whether the next node should have leading whitespace removed.
    pub after: bool,
}

} // verus!
