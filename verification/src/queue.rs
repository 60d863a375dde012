//! The centralized work queue.
//!
//! An ordered collection of disjoint chunks covering the search space.
//! Workers withdraw one chunk at a time from the front; in the running
//! program the queue sits behind a mutual-exclusion lock and a withdrawal is
//! one short critical section, with no hashing done while the lock is held.

use vstd::prelude::*;

verus! {

use crate::chunk::{is_partition, make_initial_work, Work};

/// The chunks still to be searched, front first.
pub struct WorkQueue {
    chunks: Vec<Work>,
}

impl View for WorkQueue {
    type V = Seq<Work>;

    closed spec fn view(&self) -> Seq<Work> {
        self.chunks@
    }
}

impl WorkQueue {
    /// Partition `[search_start, search_end)` into chunks of exactly
    /// `chunk_size` (the last possibly shorter) and queue them in ascending
    /// order of `start`.
    pub fn new(search_start: u64, search_end: u64, chunk_size: u64) -> (q: WorkQueue)
        requires
            chunk_size >= 1,
        ensures
            is_partition(q@, search_start, search_end),
            forall|i: int| 0 <= i < q@.len() ==> (#[trigger] q@[i]).len <= chunk_size,
            forall|i: int| 0 <= i < q@.len() - 1 ==> (#[trigger] q@[i]).len == chunk_size,
    {
        WorkQueue { chunks: make_initial_work(search_start, search_end, chunk_size) }
    }

    pub fn len(&self) -> (n: usize)
        ensures
            n == self@.len(),
    {
        self.chunks.len()
    }

    pub fn is_empty(&self) -> (r: bool)
        ensures
            r == (self@.len() == 0),
    {
        self.chunks.len() == 0
    }

    /// Remove and return the chunk at the front of the queue, or `None` if
    /// none remain.
    pub fn withdraw(&mut self) -> (r: Option<Work>)
        ensures
            match r {
                None => old(self)@.len() == 0 && final(self)@ == old(self)@,
                Some(w) => {
                    &&& old(self)@.len() > 0
                    &&& w == old(self)@[0]
                    &&& final(self)@ == old(self)@.drop_first()
                },
            },
    {
        if self.chunks.len() == 0 {
            None
        } else {
            let w = self.chunks.remove(0);
            proof {
                assert(self.chunks@ =~= old(self)@.drop_first());
            }
            Some(w)
        }
    }
}

} // verus!
