use vstd::prelude::*;

use crate::error::Error;

verus! {

/// Issues strictly increasing, never reused identifiers.
///
/// `next_id` is the last identifier handed out (zero before the first
/// allocation); the allocator refuses to wrap around instead of reusing
/// identifier values.
#[derive(Clone, Copy, Debug, PartialEq, Eq)]
pub struct IdAllocator {
    pub next_id: u32,
}

impl IdAllocator {
    /// A fresh allocator; the first identifier it issues is 1.
    pub fn new() -> (r: IdAllocator)
        ensures
            r.next_id == 0,
    {
        IdAllocator { next_id: 0 }
    }

    /// Issues the next identifier, or signals `Overflow` — leaving the
    /// allocator unchanged — once the largest representable identifier has
    /// been handed out.
    pub fn allocate(&mut self) -> (r: Result<u32, Error>)
        ensures
            old(self).next_id < u32::MAX ==> {
                &&& r == Ok::<u32, Error>((old(self).next_id + 1) as u32)
                &&& final(self).next_id == old(self).next_id + 1
            },
            old(self).next_id == u32::MAX ==> {
                &&& r == Err::<u32, Error>(Error::Overflow)
                &&& final(self).next_id == old(self).next_id
            },
    {
        if self.next_id == u32::MAX {
            Err(Error::Overflow)
        } else {
            self.next_id = self.next_id + 1;
            Ok(self.next_id)
        }
    }
}

} // verus!
