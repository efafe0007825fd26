//! Counting cells.

use vstd::prelude::*;

verus! {

/// A count `n` capped at the largest value a `Bin` can hold.
///
/// Incrementing saturates at `u32::MAX` instead of wrapping or failing, so
/// that the counting path has no failure case.
pub open spec fn capped(n: int) -> int {
    if n <= u32::MAX {
        n
    } else {
        u32::MAX as int
    }
}

/// A single counting cell: one non-negative count, mutated only by
/// increment.
#[derive(Clone, Copy)]
pub struct Bin {
    pub count: u32,
}

impl Bin {
    /// A bin with count zero.
    pub fn empty() -> (r: Bin)
        ensures
            r.count == 0,
    {
        Bin { count: 0 }
    }

    /// A bin holding the given count.
    pub fn new(count: u32) -> (r: Bin)
        ensures
            r.count == count,
    {
        Bin { count }
    }

    /// Adds one to the count, saturating at `u32::MAX`.
    pub fn increment(&mut self)
        ensures
            final(self).count == capped(old(self).count + 1),
    {
        if self.count < u32::MAX {
            self.count = self.count + 1;
        }
    }
}

/// Increments one bin directly.
pub fn increment(bin: &mut Bin)
    ensures
        final(bin).count == capped(old(bin).count + 1),
{
    bin.increment();
}

/// Increments every bin in the sequence by one.
pub fn increment_all(bins: &mut Vec<Bin>)
    ensures
        final(bins)@.len() == old(bins)@.len(),
        forall|i: int|
            0 <= i < old(bins)@.len() ==> final(bins)@[i].count == capped(
                old(bins)@[i].count + 1,
            ),
{
    let n = bins.len();
    let mut j: usize = 0;
    while j < n
        invariant
            j <= n,
            n == bins@.len(),
            n == old(bins)@.len(),
            forall|i: int| 0 <= i < j ==> bins@[i].count == capped(old(bins)@[i].count + 1),
            forall|i: int| j <= i < n ==> bins@[i] == old(bins)@[i],
        decreases n - j,
    {
        let mut b = bins[j];
        b.increment();
        bins.set(j, b);
        j = j + 1;
    }
}

} // verus!
