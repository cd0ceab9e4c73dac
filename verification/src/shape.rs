//! Shape identity.
//!
//! Every shape in a scene owns a unique, monotonically increasing identifier.
//! Instead of a hidden process-wide counter, an explicit allocator is
//! threaded through scene construction, which keeps identifier assignment
//! deterministic and testable in isolation.

use vstd::prelude::*;

verus! {

/// Hands out shape identifiers, counting up from one.
#[derive(Clone, Copy, Debug, PartialEq, Eq, Structural)]
pub struct ShapeIdAllocator {
    /// The identifier the next call of `fresh` returns.
    pub next: usize,
}

impl ShapeIdAllocator {
    pub fn new() -> (a: ShapeIdAllocator)
        ensures
            a.next == 1,
    {
        ShapeIdAllocator { next: 1 }
    }

    /// The next identifier; no later call on this allocator returns it again.
    pub fn fresh(&mut self) -> (id: usize)
        requires
            old(self).next < usize::MAX,
        ensures
            id == old(self).next,
            final(self).next == old(self).next + 1,
    {
        let id = self.next;
        self.next = self.next + 1;
        id
    }
}

} // verus!
