//! Fixed instance pool.
//!
//! Shell instances are never destroyed, so the pool is a cap and a counter:
//! each successful initialization hands out the next instance number, and
//! once the cap is reached every further request is refused. The caller owns
//! the pool and passes it to each initialization; there is no hidden global.

use vstd::prelude::*;

verus! {

/// Allocation state for a fixed number of shell instances.
pub struct EshPool {
    /// Maximum number of instances that may ever be handed out.
    pub capacity: usize,
    /// Number of instances handed out so far; instances are never returned.
    pub used: usize,
}

impl EshPool {
    pub open spec fn wf(&self) -> bool {
        self.used <= self.capacity
    }

    /// A pool that will hand out at most `capacity` instances.
    pub fn new(capacity: usize) -> (r: EshPool)
        ensures
            r.wf(),
            r.capacity == capacity,
            r.used == 0,
    {
        EshPool { capacity, used: 0 }
    }

    /// Takes the next instance number, or nothing once the cap is reached.
    pub fn take_slot(&mut self) -> (r: Option<usize>)
        requires
            old(self).wf(),
        ensures
            final(self).wf(),
            final(self).capacity == old(self).capacity,
            old(self).used < old(self).capacity ==> r == Some(old(self).used) && final(self).used
                == old(self).used + 1,
            old(self).used >= old(self).capacity ==> r is None && final(self).used == old(
                self,
            ).used,
    {
        if self.used < self.capacity {
            let id = self.used;
            self.used = self.used + 1;
            Some(id)
        } else {
            None
        }
    }
}

/// Instance numbers are never reissued: a slot taken from any later pool
/// state differs from every slot taken earlier.
pub proof fn lemma_slots_distinct(earlier: EshPool, later: EshPool, id0: usize, id1: usize)
    requires
        id0 == earlier.used,
        later.used > earlier.used,
        id1 == later.used,
    ensures
        id0 != id1,
{
}

} // verus!
