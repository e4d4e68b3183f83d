use vstd::prelude::*;

verus! {

/// Hands out fresh ids in increasing order. Once the counter reaches
/// `u64::MAX` it stays there.
pub struct IdAllocator {
    nonce: u64,
}

impl IdAllocator {
    /// The id that the next allocation returns.
    pub closed spec fn current(&self) -> u64 {
        self.nonce
    }

    pub fn new() -> (r: Self)
        ensures
            r.current() == 0,
    {
        IdAllocator { nonce: 0 }
    }

    /// The id that the next allocation returns.
    pub fn peek(&self) -> (r: u64)
        ensures
            r == self.current(),
    {
        self.nonce
    }

    /// Returns the current id and advances the counter by one, stopping at
    /// `u64::MAX`.
    pub fn next_id(&mut self) -> (r: u64)
        ensures
            r == old(self).current(),
            final(self).current() == old(self).current().saturating_add(1),
    {
        let id = self.nonce;
        self.nonce = id.saturating_add(1);
        id
    }
}

} // verus!
