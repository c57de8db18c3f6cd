//! The deserializer capability: an allocation budget for rebuilding owned
//! values out of an archive.
//!
//! Restoring archived data is the one path that re-introduces ordinary
//! ownership, and allocating can fail on resource exhaustion.  The capability
//! therefore tracks a byte budget: every allocation draws from it, and an
//! allocation past the budget is reported as an error, never a panic.

use vstd::prelude::*;

use crate::Fallible;

verus! {

/// The error of [`AllocDeserializer`]: the allocation budget is exhausted.
#[derive(Clone, Copy, PartialEq, Eq, Structural, Debug)]
pub enum AllocError {
    /// The requested allocation exceeds the remaining budget.
    OutOfMemory,
}

/// A deserializer that grants allocations out of a fixed byte budget.
pub struct AllocDeserializer {
    /// How many more bytes may be allocated.
    pub remaining: usize,
}

impl Fallible for AllocDeserializer {
    type Error = AllocError;
}

impl AllocDeserializer {
    /// Creates a deserializer that may allocate up to `budget` bytes.
    pub fn new(budget: usize) -> (r: Self)
        ensures
            r.remaining == budget,
    {
        AllocDeserializer { remaining: budget }
    }

    /// Draws `size` bytes from the budget, failing without effect if fewer
    /// remain.
    pub fn allocate(&mut self, size: usize) -> (r: Result<(), AllocError>)
        ensures
            match r {
                Ok(()) => {
                    &&& size <= old(self).remaining
                    &&& final(self).remaining == old(self).remaining - size
                },
                Err(AllocError::OutOfMemory) => {
                    &&& size > old(self).remaining
                    &&& *final(self) == *old(self)
                },
            },
    {
        if size <= self.remaining {
            self.remaining = self.remaining - size;
            Ok(())
        } else {
            Err(AllocError::OutOfMemory)
        }
    }
}

} // verus!
