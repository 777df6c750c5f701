//! Frames on their way back: the owner thread's go to `pending`, those of other threads through
//! `remote`. `recv` drains both into FILL at the top of each batch.

use crate::mpsc::MpscQueue;
use vstd::prelude::*;

verus! {

pub struct Reclaimer {
    pub owner: u64,
    /// Frames given back on the owner thread.
    pub pending: Vec<u64>,
    /// Frames given back on other threads. Sized to in-flight buffer count.
    pub remote: MpscQueue<u64>,
}

impl Reclaimer {
    pub open spec fn wf(&self) -> bool {
        self.remote.wf()
    }

    /// A reclaimer owned by thread `owner`.
    pub fn new(owner: u64, remote_capacity: usize) -> (reclaimer: Reclaimer)
        requires
            0 < remote_capacity,
            remote_capacity * 16 <= isize::MAX,
        ensures
            reclaimer.wf(),
            reclaimer.owner == owner,
            reclaimer.remote.capacity() == remote_capacity,
            reclaimer.pending@ == Seq::<u64>::empty(),
            reclaimer.remote@ == Seq::<u64>::empty(),
    {
        Reclaimer {
            owner,
            pending: Vec::with_capacity(remote_capacity),
            remote: MpscQueue::new(remote_capacity),
        }
    }

    /// Whether thread `thread` owns the frames.
    pub fn current_thread_owns(&self, thread: u64) -> (owns: bool)
        ensures
            owns == (thread == self.owner),
    {
        thread == self.owner
    }

    /// Takes a frame back that thread `thread` gives up. The queue from other threads has to
    /// have room; it has where it is as large as the number of frames.
    pub fn give_back(&mut self, addr: u64, thread: u64)
        requires
            old(self).wf(),
            thread != old(self).owner ==> old(self).remote@.len() < old(self).remote.capacity(),
        ensures
            final(self).wf(),
            frame_given_back(*old(self), *final(self), addr, thread),
    {
        if self.current_thread_owns(thread) {
            self.pending.push(addr);
        } else {
            let _ = self.remote.push(addr);
        }
    }
}

/// How giving a frame back changes the reclaimer.
pub open spec fn frame_given_back(
    before: Reclaimer,
    after: Reclaimer,
    addr: u64,
    thread: u64,
) -> bool {
    &&& after.owner == before.owner
    &&& after.remote.capacity() == before.remote.capacity()
    &&& thread == before.owner ==> after.pending@ == before.pending@.push(addr) && after.remote@
        == before.remote@
    &&& thread != before.owner ==> after.pending@ == before.pending@ && after.remote@
        == before.remote@.push(addr)
}

/// A frame that is given back waits once more than before, whichever thread gives it back, and
/// the owner's own wait on the owner's side.
pub proof fn law_frame_waits_once_more(
    before: Reclaimer,
    after: Reclaimer,
    addr: u64,
    thread: u64,
)
    requires
        frame_given_back(before, after, addr, thread),
    ensures
        (after.pending@ + after.remote@).to_multiset() == (before.pending@
            + before.remote@).to_multiset().insert(addr),
        thread == before.owner ==> after.pending@.last() == addr && after.remote@ == before.remote@,
        thread != before.owner ==> after.remote@.last() == addr && after.pending@
            == before.pending@,
{
    broadcast use vstd::seq_lib::group_to_multiset_ensures;

    vstd::seq_lib::lemma_multiset_commutative(before.pending@, before.remote@);
    vstd::seq_lib::lemma_multiset_commutative(after.pending@, after.remote@);
    assert((after.pending@ + after.remote@).to_multiset() =~= (before.pending@
        + before.remote@).to_multiset().insert(addr));
}

} // verus!
