//! Monotonic identifier allocation for node and channel IDs.

use vstd::prelude::*;

verus! {

/// Hands out dense identifiers starting at 1; an identifier is never
/// reused within the lifetime of the manager.
pub struct IDManager {
    next_id: u64,
}

impl View for IDManager {
    type V = u64;

    closed spec fn view(&self) -> u64 {
        self.next_id
    }
}

impl IDManager {
    pub fn new() -> (r: Self)
        ensures
            r@ == 1,
    {
        IDManager { next_id: 1 }
    }

    /// The identifier the next allocation will hand out.
    pub fn next_id(&self) -> (r: u64)
        ensures
            r == self@,
    {
        self.next_id
    }

    pub fn get_new_id(&mut self) -> (id: u64)
        requires
            old(self)@ < u64::MAX,
        ensures
            id == old(self)@,
            final(self)@ == old(self)@ + 1,
    {
        let id = self.next_id;
        self.next_id = self.next_id + 1;
        id
    }
}

} // verus!
