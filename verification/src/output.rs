//! The discard half of the output sink: the child's standard output is
//! drained in fixed-size chunks until a chunk moves no bytes. The chunk size
//! never depends on how much has been drained, so the working set stays
//! bounded however much output the child writes; the caller performs the raw
//! transfers and feeds each chunk's byte count back.

use vstd::prelude::*;

verus! {

/// Bytes requested per drain chunk: 64 KiB.
pub const DISCARD_CHUNK_SIZE: usize = 64 * 1024;

/// Tracks one drain of a child's standard output.
pub struct DiscardPump {
    /// How many bytes have been drained so far, saturating at `u64::MAX`.
    pub drained: u64,
}

impl DiscardPump {
    /// A drain that has consumed nothing yet.
    pub fn new() -> (r: DiscardPump)
        ensures
            r.drained == 0,
    {
        DiscardPump { drained: 0 }
    }

    /// How many bytes the next transfer should request: always one fixed
    /// chunk, whatever has been drained before, so memory use never grows
    /// with the child's output.
    pub fn chunk_request(&self) -> (r: usize)
        ensures
            r == DISCARD_CHUNK_SIZE,
    {
        DISCARD_CHUNK_SIZE
    }

    /// Record that one transfer moved `transferred` bytes; the drain goes on
    /// exactly until a transfer moves none.
    pub fn observe(&mut self, transferred: usize) -> (more: bool)
        ensures
            more == (transferred != 0),
            final(self).drained == if old(self).drained + transferred <= u64::MAX {
                old(self).drained + transferred
            } else {
                u64::MAX as int
            },
    {
        let add: u64 = transferred as u64;
        self.drained = match self.drained.checked_add(add) {
            Some(total) => total,
            None => u64::MAX,
        };
        transferred != 0
    }
}

} // verus!
