//! The counter that event ids are taken from.

use core::ops::Range;
use vstd::prelude::*;

verus! {

/// Hands out event ids: each one exactly once, in increasing order,
/// whichever slot asks.
pub struct SequenceAllocator {
    next: u64,
}

impl View for SequenceAllocator {
    type V = nat;

    /// The id that will be handed out next, which is also the number of ids
    /// handed out so far.
    closed spec fn view(&self) -> nat {
        self.next as nat
    }
}

impl SequenceAllocator {
    /// A counter that starts at zero.
    pub fn new() -> (r: Self)
        ensures
            r@ == 0,
    {
        SequenceAllocator { next: 0 }
    }

    /// The id that the next call of [`next`](Self::next) will return.
    pub fn current(&self) -> (id: u64)
        ensures
            id == self@,
    {
        self.next
    }

    /// Hands out one id.
    pub fn next(&mut self) -> (id: u64)
        requires
            old(self)@ < u64::MAX,
        ensures
            id == old(self)@,
            final(self)@ == old(self)@ + 1,
    {
        let id = self.next;
        self.next = id + 1;
        id
    }

    /// Reserves `n` consecutive ids and returns them as a range.
    pub fn next_batch(&mut self, n: u64) -> (ids: Range<u64>)
        requires
            old(self)@ + n <= u64::MAX,
        ensures
            ids.start == old(self)@,
            ids.end == old(self)@ + n,
            final(self)@ == old(self)@ + n,
    {
        let start = self.next;
        self.next = start + n;
        start..self.next
    }
}

} // verus!
