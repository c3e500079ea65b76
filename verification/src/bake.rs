//! The cap on section bakes that are queued or running.
//!
//! A fast-moving player can offer sections faster than they are baked; past the cap a bake is
//! refused, and Minecraft offers the section again. Every slot that was taken has to be given back,
//! or baking stops for the rest of the run.

use vstd::prelude::*;

verus! {

/// How many bakes may be queued or running at once.
pub const MAX_QUEUED_BAKES: usize = 256;

/// How many bakes are queued or running, and whether a refusal has been reported.
#[derive(Debug, PartialEq, Eq, Structural)]
pub struct BakeQueue {
    pub queued: usize,
    /// Set by the first refusal, which is the one that is reported.
    pub warned: bool,
}

/// The queue after a bake asked for a slot: one more bake when there is room, else the same bakes
/// and a refusal to report.
pub open spec fn reserved(q: BakeQueue) -> BakeQueue {
    if q.queued < MAX_QUEUED_BAKES {
        BakeQueue { queued: (q.queued + 1) as usize, warned: q.warned }
    } else {
        BakeQueue { queued: q.queued, warned: true }
    }
}

/// The queue after a bake gave its slot back.
pub open spec fn released(q: BakeQueue) -> BakeQueue {
    BakeQueue { queued: q.queued.wrapping_sub(1), warned: q.warned }
}

impl BakeQueue {
    /// Whether no more bakes are queued than the cap allows.
    pub open spec fn wf(&self) -> bool {
        self.queued <= MAX_QUEUED_BAKES
    }

    /// Nothing queued.
    pub fn new() -> (q: BakeQueue)
        ensures
            q.wf(),
            q.queued == 0,
            !q.warned,
    {
        BakeQueue { queued: 0, warned: false }
    }

    /// Takes a slot for a bake, or refuses when the cap is reached. The first refusal sets
    /// `warned`, so it can be reported once.
    pub fn reserve_bake_slot(&mut self) -> (taken: bool)
        ensures
            taken == (old(self).queued < MAX_QUEUED_BAKES),
            *final(self) == reserved(*old(self)),
    {
        let queued = self.queued;
        self.queued = queued.wrapping_add(1);
        if queued >= MAX_QUEUED_BAKES {
            self.queued = self.queued.wrapping_sub(1);
            self.warned = true;
            return false;
        }
        true
    }

    /// Gives a slot back.
    pub fn release_bake_slot(&mut self)
        ensures
            *final(self) == released(*old(self)),
    {
        self.queued = self.queued.wrapping_sub(1);
    }
}

/// Reserving never takes the queue past its cap, and a slot that was taken and given back leaves
/// the queue as it was.
pub proof fn lemma_reserve_release(q: BakeQueue)
    requires
        q.wf(),
    ensures
        reserved(q).wf(),
        q.queued < MAX_QUEUED_BAKES ==> released(reserved(q)) == q,
        q.queued == MAX_QUEUED_BAKES ==> reserved(q).queued == q.queued,
{
}

} // verus!
