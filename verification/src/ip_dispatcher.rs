//! A plain sequential walk over a fixed address range, handing out one
//! batch at a time: the client's stand-alone source of work when it runs
//! without a dispatcher.

use vstd::prelude::*;
use crate::ip::spec_ip_from_octets;

verus! {

/// Addresses per batch.
pub const JOB_SIZE: usize = 256;

/// First address of the walk.
pub const RANGE_START: u32 = 0x01000600;

/// One past the last address of the walk, as a wide count so the walk can
/// cover the whole space up to the broadcast address inclusively.
pub const RANGE_END: u64 = 0x1_0000_0000;

/// The sequential batch source.
pub struct IpDispatcher {
    next: u64,
}

impl IpDispatcher {
    /// The next address to hand out.
    pub closed spec fn spec_next(&self) -> u64 {
        self.next
    }

    /// The cursor never runs past the end of the space.
    pub closed spec fn wf(&self) -> bool {
        self.next <= RANGE_END
    }

    /// Starts the walk at the fixed first address.
    pub fn new() -> (r: IpDispatcher)
        ensures
            r.wf(),
            r.spec_next() == RANGE_START,
    {
        IpDispatcher { next: RANGE_START as u64 }
    }

    /// Hands out the next batch: the following `JOB_SIZE` addresses in
    /// order, fewer when the range ends first, and advances past them.
    pub fn get_job(&mut self) -> (r: Vec<u32>)
        requires
            old(self).wf(),
        ensures
            final(self).wf(),
            r@.len() == (if RANGE_END - old(self).spec_next() < JOB_SIZE {
                RANGE_END - old(self).spec_next()
            } else {
                JOB_SIZE as int
            }),
            forall|i: int| 0 <= i < r@.len() ==> r@[i] == (old(self).spec_next() + i) as u32,
            final(self).spec_next() == old(self).spec_next() + r@.len(),
    {
        let mut out: Vec<u32> = Vec::new();
        let mut k: usize = 0;
        while k < JOB_SIZE && self.next < RANGE_END
            invariant
                out@.len() == k,
                k <= JOB_SIZE,
                self.next == old(self).spec_next() + k,
                self.next <= RANGE_END,
                forall|i: int| 0 <= i < k ==> out@[i] == (old(self).spec_next() + i) as u32,
            decreases JOB_SIZE - k,
        {
            out.push(#[verifier::truncate] (self.next as u32));
            self.next = self.next + 1;
            k = k + 1;
        }
        out
    }
}

} // verus!
