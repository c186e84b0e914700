//! Connection identifiers.

use vstd::prelude::*;

verus! {

/// Issues connection identifiers: positive, strictly increasing, never reused.
///
/// Exclusive access (`&mut self`) serialises concurrent callers.
pub struct IdAllocator {
    next: usize,
}

impl IdAllocator {
    #[verifier::type_invariant]
    spec fn positive(self) -> bool {
        self.next >= 1
    }

    /// The identifier that the next successful call of `next` returns.
    pub closed spec fn view(&self) -> nat {
        self.next as nat
    }

    /// No identifier is left once the counter has reached the largest `usize`.
    pub open spec fn exhausted(&self) -> bool {
        self@ >= usize::MAX
    }

    /// A fresh allocator, whose first identifier is 1.
    pub fn new() -> (alloc: Self)
        ensures
            alloc@ == 1,
    {
        IdAllocator { next: 1 }
    }

    /// Takes the next identifier and advances the counter by one. Returns
    /// `None`, and changes nothing, when the identifiers are used up.
    pub fn next(&mut self) -> (id: Option<usize>)
        ensures
            old(self)@ >= 1,
            !old(self).exhausted() ==> id == Some(old(self)@ as usize) && final(self)@ == old(self)@
                + 1,
            old(self).exhausted() ==> id is None && final(self)@ == old(self)@,
    {
        proof {
            use_type_invariant(&*self);
        }
        if self.next == usize::MAX {
            None
        } else {
            let id = self.next;
            self.next = id + 1;
            Some(id)
        }
    }
}

} // verus!
