use core::cmp::Ordering;
use vstd::prelude::*;

verus! {

/// A half-open address range `[start, end)`.
#[derive(Debug, Clone, Copy, PartialEq, Eq, Structural, Ord)]
pub struct Range {
    pub start: usize,
    pub end: usize,
}

impl Range {
    /// A range is well formed when it does not run backwards.
    pub open spec fn wf(&self) -> bool {
        self.start <= self.end
    }

    /// Number of addresses the range covers.
    pub open spec fn len(&self) -> int {
        self.end - self.start
    }

    /// The range that starts at `start` and covers `size` addresses.
    pub fn new(start: usize, size: usize) -> (r: Self)
        requires
            start + size <= usize::MAX,
        ensures
            r.start == start,
            r.end == start + size,
            r.wf(),
            r.len() == size,
    {
        Self { start, end: start + size }
    }

    /// Number of addresses the range covers.
    pub fn length(&self) -> (n: usize)
        requires
            self.wf(),
        ensures
            n == self.len(),
    {
        self.end - self.start
    }
}

/// Lexicographic order on `(start, end)`: by start address first, then by end address.
pub open spec fn range_order(a: Range, b: Range) -> Ordering {
    if a.start < b.start {
        Ordering::Less
    } else if b.start < a.start {
        Ordering::Greater
    } else if a.end < b.end {
        Ordering::Less
    } else if a.end > b.end {
        Ordering::Greater
    } else {
        Ordering::Equal
    }
}

impl PartialOrd for Range {
    fn partial_cmp(&self, other: &Self) -> (r: Option<Ordering>) {
        if self.start < other.start {
            Some(Ordering::Less)
        } else if other.start < self.start {
            Some(Ordering::Greater)
        } else if self.end < other.end {
            Some(Ordering::Less)
        } else if self.end > other.end {
            Some(Ordering::Greater)
        } else {
            Some(Ordering::Equal)
        }
    }
}

impl vstd::std_specs::cmp::PartialOrdSpecImpl for Range {
    open spec fn obeys_partial_cmp_spec() -> bool {
        true
    }

    open spec fn partial_cmp_spec(&self, other: &Self) -> Option<Ordering> {
        Some(range_order(*self, *other))
    }
}

/// The order on ranges is antisymmetric: swapping the operands reverses the outcome,
/// and two ranges compare equal exactly when their bounds agree.
pub proof fn lemma_range_order_antisymmetric(a: Range, b: Range)
    ensures
        range_order(a, b) == Ordering::Less <==> range_order(b, a) == Ordering::Greater,
        range_order(a, b) == Ordering::Equal <==> a == b,
{
}

/// The order on ranges is transitive.
pub proof fn lemma_range_order_transitive(a: Range, b: Range, c: Range)
    requires
        range_order(a, b) == Ordering::Less,
        range_order(b, c) == Ordering::Less,
    ensures
        range_order(a, c) == Ordering::Less,
{
}

} // verus!
