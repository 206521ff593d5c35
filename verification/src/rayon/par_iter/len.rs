//! How much work a parallel iterator has left, and how a split divides it.

use vstd::prelude::*;

verus! {

/// Work estimated to cost less than this is not worth splitting.
pub const THRESHOLD: usize = 10240;

/// An estimate of the work left in a parallel iterator.
pub struct ParallelLen {
    /// Upper bound on the number of items.
    pub max_len: usize,
    /// Estimated cost of processing them.
    pub cost: usize,
    /// Whether fewer items than `max_len` may turn up.
    pub sparse: bool,
}

impl ParallelLen {
    /// The estimate for the left part after splitting at `mid`: `mid`
    /// items at half the cost.
    pub fn let_cost(&self, mid: usize) -> (left: ParallelLen)
        ensures
            left.max_len == mid,
            left.cost == self.cost / 2,
            left.sparse == self.sparse,
    {
        ParallelLen { max_len: mid, cost: self.cost / 2, sparse: self.sparse }
    }

    /// The estimate for the right part after splitting at `mid`: the
    /// remaining items at half the cost.
    pub fn right_cost(&self, mid: usize) -> (right: ParallelLen)
        requires
            mid <= self.max_len,
        ensures
            right.max_len == self.max_len - mid,
            right.cost == self.cost / 2,
            right.sparse == self.sparse,
    {
        ParallelLen { max_len: self.max_len - mid, cost: self.cost / 2, sparse: self.sparse }
    }
}

} // verus!
