//! The observational side of the lifecycle callbacks. Completion and
//! lookahead handling live on the queue itself; playback errors are only
//! recorded, never acted on: recovery is left to the completion path when
//! the failing entry eventually ends.

use vstd::prelude::*;

verus! {

/// Observes playback errors without mutating any queue: it records the
/// identity of each entry reported as failing, in the order the reports
/// arrived. What the player said about the failure stays with the caller's
/// log.
#[derive(Debug)]
pub struct TrackErrorHandler {
    observed: Vec<u64>,
}

impl TrackErrorHandler {
    /// The identities recorded so far, oldest first.
    pub closed spec fn observed(&self) -> Seq<u64> {
        self.observed@
    }

    /// A handler that has seen no errors yet.
    pub fn new() -> (r: Self)
        ensures
            r.observed() == Seq::<u64>::empty(),
    {
        TrackErrorHandler { observed: Vec::new() }
    }

    /// Record that the entry with identity `uuid` reported an error.
    pub fn observe(&mut self, uuid: u64)
        ensures
            final(self).observed() == old(self).observed().push(uuid),
    {
        self.observed.push(uuid);
    }

    /// A copy of the recorded identities, oldest first.
    pub fn observed_list(&self) -> (r: Vec<u64>)
        ensures
            r@ == self.observed(),
    {
        let mut out: Vec<u64> = Vec::new();
        let mut i: usize = 0;
        while i < self.observed.len()
            invariant
                i <= self.observed@.len(),
                out@ == self.observed@.take(i as int),
            decreases self.observed@.len() - i,
        {
            out.push(self.observed[i]);
            proof {
                assert(out@ =~= self.observed@.take(i + 1));
            }
            i = i + 1;
        }
        proof {
            assert(self.observed@.take(self.observed@.len() as int) =~= self.observed@);
        }
        out
    }
}

} // verus!
