//! Identifiers for the entities of one run: each kind of entity draws its
//! numbers from an allocator of its own, which counts up from zero. The
//! numbers are not stored; a later run starts again.

use vstd::prelude::*;

verus! {

/// Hands out the numbers `0, 1, 2, ..`, each once.
pub struct IdAllocator {
    next: u64,
}

impl View for IdAllocator {
    type V = nat;

    /// The number that is handed out next; all below it have been.
    closed spec fn view(&self) -> nat {
        self.next as nat
    }
}

impl IdAllocator {
    /// An allocator that has handed out nothing.
    pub fn new() -> (ids: Self)
        ensures
            ids@ == 0,
    {
        IdAllocator { next: 0 }
    }

    /// How many numbers are left to hand out.
    pub open spec fn left(self) -> nat {
        (u64::MAX - self@) as nat
    }

    /// The view is a number that fits.
    pub proof fn lemma_bounded(self)
        ensures
            self@ <= u64::MAX,
    {
    }

    /// How many numbers are left to hand out.
    pub fn remaining(&self) -> (n: u64)
        ensures
            n == self.left(),
            n == u64::MAX - self@,
    {
        u64::MAX - self.next
    }

    /// The next number. It is above every number handed out before.
    pub fn allocate(&mut self) -> (id: u64)
        requires
            old(self).left() > 0,
        ensures
            id == old(self)@,
            final(self)@ == old(self)@ + 1,
    {
        let id = self.next;
        self.next = id + 1;
        id
    }
}

} // verus!
