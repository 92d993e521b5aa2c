use vstd::prelude::*;

verus! {

/// An inclusive range of chunk ids to show. `start` may lie at or below 0
/// (before recording began) and `end` beyond the last id pushed.
#[derive(Clone, Copy, Debug, PartialEq, Eq, Structural)]
pub struct View {
    pub start: isize,
    pub end: isize,
}

} // verus!
