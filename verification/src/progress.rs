//! Byte-weighted progress: a counter that only grows.

use vstd::prelude::*;

verus! {

/// The sum of `sizes`.
pub open spec fn total_of(sizes: Seq<u64>) -> nat
    decreases sizes.len(),
{
    if sizes.len() == 0 {
        0
    } else {
        total_of(sizes.drop_last()) + sizes.last() as nat
    }
}

/// `value + amount`, held at the largest `u64` where the sum exceeds it.
pub open spec fn advanced(value: u64, amount: u64) -> u64 {
    if value + amount > u64::MAX {
        u64::MAX
    } else {
        (value + amount) as u64
    }
}

/// The reading after a tracker that showed `start` was advanced by each
/// of `sizes` in turn.
pub open spec fn credited(start: u64, sizes: Seq<u64>) -> u64
    decreases sizes.len(),
{
    if sizes.len() == 0 {
        start
    } else {
        advanced(credited(start, sizes.drop_last()), sizes.last())
    }
}

/// Advancing by each size in turn never lowers the reading, and it ends
/// at the starting value plus the sum of the sizes, or at the largest
/// `u64` where that sum exceeds it.
pub proof fn lemma_credited_total(start: u64, sizes: Seq<u64>)
    ensures
        credited(start, sizes) >= start,
        sizes.len() > 0 ==> credited(start, sizes) >= credited(start, sizes.drop_last()),
        start + total_of(sizes) <= u64::MAX ==> credited(start, sizes) == start + total_of(sizes),
        start + total_of(sizes) > u64::MAX ==> credited(start, sizes) == u64::MAX,
    decreases sizes.len(),
{
    if sizes.len() > 0 {
        lemma_credited_total(start, sizes.drop_last());
    }
}

/// The progress counter of one run.
pub struct ProgressTracker {
    value: u64,
}

impl ProgressTracker {
    /// The bytes credited so far.
    pub closed spec fn reading(&self) -> u64 {
        self.value
    }

    /// A tracker that shows zero.
    pub fn new() -> (p: ProgressTracker)
        ensures
            p.reading() == 0,
    {
        ProgressTracker { value: 0 }
    }

    /// Credits `amount` bytes. The reading never goes down.
    pub fn advance(&mut self, amount: u64)
        ensures
            final(self).reading() == advanced(old(self).reading(), amount),
            final(self).reading() >= old(self).reading(),
    {
        self.value = if amount > u64::MAX - self.value {
            u64::MAX
        } else {
            self.value + amount
        };
    }

    /// The bytes credited so far.
    pub fn value(&self) -> (v: u64)
        ensures
            v == self.reading(),
    {
        self.value
    }
}

} // verus!
