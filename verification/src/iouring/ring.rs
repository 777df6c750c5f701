//! The provided-buffer ring: which receive slots the kernel may fill, and how slots come back.

use crate::mpsc::MpscQueue;
use vstd::prelude::*;

verus! {

/// Slots of a buffer ring and the index behind the last one handed to the kernel.
#[verifier::ext_equal]
pub struct RingState {
    pub entries: Seq<u16>,
    pub tail: u16,
}

/// The ring after slot `bid` is handed to the kernel.
pub open spec fn ring_push(ring: RingState, bid: u16) -> RingState {
    RingState {
        entries: ring.entries.update(
            (ring.tail & ((ring.entries.len() - 1) as u16)) as int,
            bid,
        ),
        tail: ring.tail.wrapping_add(1),
    }
}

/// The ring after slots are handed to the kernel, in order.
pub open spec fn ring_push_all(ring: RingState, bids: Seq<u16>) -> RingState
    decreases bids.len(),
{
    if bids.len() == 0 {
        ring
    } else {
        ring_push(ring_push_all(ring, bids.drop_last()), bids.last())
    }
}

/// The numbers below `n`.
pub open spec fn all_bids(n: nat) -> Seq<u16> {
    Seq::new(n, |i: int| i as u16)
}

pub proof fn lemma_push_all_add(ring: RingState, a: Seq<u16>, b: Seq<u16>)
    ensures
        ring_push_all(ring, a + b) == ring_push_all(ring_push_all(ring, a), b),
    decreases b.len(),
{
    if b.len() == 0 {
        assert(a + b =~= a);
    } else {
        lemma_push_all_add(ring, a, b.drop_last());
        assert((a + b).drop_last() =~= a + b.drop_last());
        assert((a + b).last() == b.last());
    }
}

/// Kernel-visible ring of buffer descriptors: entry `i` names the slot that the kernel uses
/// when it gets there.
pub struct ProvidedBufRing {
    entries: Vec<u16>,
    count: u16,
    tail: u16,
}

impl View for ProvidedBufRing {
    type V = RingState;

    closed spec fn view(&self) -> RingState {
        RingState { entries: self.entries@, tail: self.tail }
    }
}

impl ProvidedBufRing {
    /// Number of slots.
    pub closed spec fn spec_count(&self) -> u16 {
        self.count
    }

    pub closed spec fn wf(&self) -> bool {
        &&& self.entries@.len() == self.count
        &&& 0 < self.count <= 32768
        &&& crate::xdp::ring::is_power_of_two(self.count as u32)
    }

    /// A ring of `n` slots, none of them with the kernel; `n` must be a power of 2 and at most
    /// 32768.
    pub fn new(n: usize) -> (ring: ProvidedBufRing)
        requires
            0 < n <= 32768,
            crate::xdp::ring::is_power_of_two(n as u32),
        ensures
            ring.wf(),
            ring.spec_count() == n,
            ring@ == (RingState { entries: Seq::new(n as nat, |i: int| 0u16), tail: 0 }),
    {
        let mut entries: Vec<u16> = Vec::with_capacity(n);
        entries.resize(n, 0);
        let ring = ProvidedBufRing { entries, count: n as u16, tail: 0 };
        assert(ring@.entries =~= Seq::new(n as nat, |i: int| 0u16));
        ring
    }

    pub fn count(&self) -> (n: u16)
        ensures
            n == self.spec_count(),
    {
        self.count
    }

    /// The slot that an entry names.
    pub fn entry(&self, i: u16) -> (bid: u16)
        requires
            self.wf(),
            i < self.spec_count(),
        ensures
            bid == self@.entries[i as int],
    {
        self.entries[i as usize]
    }

    /// Fill all descriptor slots and advance the tail.
    pub fn fill_all(&mut self) -> (tail: u16)
        requires
            old(self).wf(),
        ensures
            final(self).wf(),
            final(self).spec_count() == old(self).spec_count(),
            final(self)@ == ring_push_all(old(self)@, all_bids(old(self).spec_count() as nat)),
            tail == final(self)@.tail,
    {
        let ghost ring0 = self@;
        let mut bid: u16 = 0;
        assert(all_bids(0) =~= Seq::<u16>::empty());
        while bid < self.count
            invariant
                self.wf(),
                self.count == old(self).count,
                bid <= self.count,
                self@ == ring_push_all(ring0, all_bids(bid as nat)),
            decreases self.count - bid,
        {
            self.replenish_raw(bid);
            bid += 1;
            assert(all_bids(bid as nat).drop_last() =~= all_bids((bid - 1) as nat));
        }
        self.flush_tail()
    }

    /// Return slot `bid` to the ring at the current tail without publishing the tail. Publish
    /// [`flush_tail`](Self::flush_tail) after a batch to make all returned slots visible in one
    /// store.
    pub fn replenish_raw(&mut self, bid: u16)
        requires
            old(self).wf(),
        ensures
            final(self).wf(),
            final(self).spec_count() == old(self).spec_count(),
            final(self)@ == ring_push(old(self)@, bid),
    {
        let tail: u16 = self.tail;
        let mask: u16 = self.count - 1;
        assert(tail & mask <= mask) by (bit_vector);
        self.entries[(tail & mask) as usize] = bid;
        self.tail = self.tail.wrapping_add(1);
        assert(self@ =~= ring_push(old(self)@, bid));
    }

    /// The tail to publish to the kernel.
    pub fn flush_tail(&self) -> (tail: u16)
        ensures
            tail == self@.tail,
    {
        self.tail
    }
}

/// Once filled, a fresh ring has every slot with the kernel, each in the entry of its number.
pub proof fn law_filled_ring_holds_every_slot(n: u16)
    requires
        0 < n <= 32768,
        crate::xdp::ring::is_power_of_two(n as u32),
    ensures
        ring_push_all(
            RingState { entries: Seq::new(n as nat, |i: int| 0u16), tail: 0 },
            all_bids(n as nat),
        ) == (RingState { entries: all_bids(n as nat), tail: n }),
{
    let ring0 = RingState { entries: Seq::new(n as nat, |i: int| 0u16), tail: 0 };
    lemma_filled_prefix(ring0, n, n);
    assert(ring_push_all(ring0, all_bids(n as nat)).entries =~= all_bids(n as nat));
}

proof fn lemma_filled_prefix(ring0: RingState, n: u16, k: u16)
    requires
        k <= n <= 32768,
        0 < n,
        crate::xdp::ring::is_power_of_two(n as u32),
        ring0.entries.len() == n,
        ring0.tail == 0,
    ensures
        ring_push_all(ring0, all_bids(k as nat)).tail == k,
        ring_push_all(ring0, all_bids(k as nat)).entries.len() == n,
        forall|i: int|
            0 <= i < k ==> #[trigger] ring_push_all(ring0, all_bids(k as nat)).entries[i] == i,
    decreases k,
{
    if k > 0 {
        let m = (k - 1) as u16;
        lemma_filled_prefix(ring0, n, m);
        assert(all_bids(k as nat).drop_last() =~= all_bids(m as nat));
        assert(m & ((n - 1) as u16) == m) by (bit_vector)
            requires
                m < n,
                n <= 32768,
                (n as u32) & ((n as u32 - 1) as u32) == 0,
        ;
    }
}

/// Deferred return of ring slots. The owner thread's go to `pending`, those of other threads
/// to `remote`. Both are drained into the ring around each batch of completions.
pub struct RingReclaimer {
    pub owner: u64,
    pub pending: Vec<u16>,
    pub remote: MpscQueue<u16>,
}

impl RingReclaimer {
    pub open spec fn wf(&self) -> bool {
        self.remote.wf()
    }

    /// The slots that are to go back to the ring, in order.
    pub open spec fn waiting(&self) -> Seq<u16> {
        self.pending@ + self.remote@
    }

    /// A reclaimer owned by thread `owner`. The capacity must be at least the number of slots,
    /// so that a slot never gets lost on its way back from another thread.
    pub fn new(owner: u64, capacity: usize) -> (reclaimer: RingReclaimer)
        requires
            0 < capacity,
            capacity * 16 <= isize::MAX,
        ensures
            reclaimer.wf(),
            reclaimer.owner == owner,
            reclaimer.remote.capacity() == capacity,
            reclaimer.pending@ == Seq::<u16>::empty(),
            reclaimer.remote@ == Seq::<u16>::empty(),
    {
        RingReclaimer {
            owner,
            pending: Vec::with_capacity(capacity),
            remote: MpscQueue::new(capacity),
        }
    }

    /// Takes slot `bid` back that thread `thread` gives up. The queue from other threads has to
    /// have room; it has where it is as large as the ring.
    pub fn give_back(&mut self, bid: u16, thread: u64)
        requires
            old(self).wf(),
            thread != old(self).owner ==> old(self).remote@.len() < old(self).remote.capacity(),
        ensures
            final(self).wf(),
            final(self).owner == old(self).owner,
            final(self).remote.capacity() == old(self).remote.capacity(),
            thread == old(self).owner ==> final(self).pending@ == old(self).pending@.push(bid)
                && final(self).remote@ == old(self).remote@,
            thread != old(self).owner ==> final(self).pending@ == old(self).pending@ && final(self).remote@ == old(self).remote@.push(bid),
    {
        if thread == self.owner {
            self.pending.push(bid);
        } else {
            let _ = self.remote.push(bid);
        }
    }

    /// Drain both return queues into the ring. Returns `true` if any slot went back (the tail
    /// is then to be published).
    pub fn drain_pending(&mut self, ring: &mut ProvidedBufRing) -> (any: bool)
        requires
            old(self).wf(),
            old(ring).wf(),
        ensures
            final(self).wf(),
            final(self).owner == old(self).owner,
            final(self).remote.capacity() == old(self).remote.capacity(),
            final(self).waiting() == Seq::<u16>::empty(),
            final(self).pending@ == Seq::<u16>::empty(),
            final(self).remote@ == Seq::<u16>::empty(),
            final(ring).wf(),
            final(ring).spec_count() == old(ring).spec_count(),
            final(ring)@ == ring_push_all(old(ring)@, old(self).waiting()),
            any == (old(self).waiting().len() > 0),
    {
        let ghost ring0 = ring@;
        self.remote.drain_into(&mut self.pending);
        let ghost all = self.pending@;
        if self.pending.len() == 0 {
            assert(self.waiting() =~= Seq::<u16>::empty());
            return false;
        }
        let mut i: usize = 0;
        assert(all.take(0) =~= Seq::<u16>::empty());
        while i < self.pending.len()
            invariant
                self.wf(),
                self.pending@ == all,
                i <= all.len(),
                ring.wf(),
                ring.spec_count() == old(ring).spec_count(),
                ring@ == ring_push_all(ring0, all.take(i as int)),
            decreases all.len() - i,
        {
            ring.replenish_raw(self.pending[i]);
            i += 1;
            assert(all.take(i as int).drop_last() =~= all.take(i - 1));
        }
        assert(all.take(i as int) =~= all);
        self.pending.clear();
        assert(self.waiting() =~= Seq::<u16>::empty());
        true
    }
}

/// Slots are handed to the kernel in order from the tail on, round the ring's end; all other
/// entries are as before, and the tail is that many further.
pub proof fn law_slots_are_returned_in_order(ring: RingState, bids: Seq<u16>, s: int)
    requires
        0 < ring.entries.len() <= 32768,
        crate::xdp::ring::is_power_of_two(ring.entries.len() as u32),
        bids.len() <= ring.entries.len(),
        0 <= s < ring.entries.len(),
    ensures
        ({
            let n = ring.entries.len() as int;
            let after = ring_push_all(ring, bids);
            &&& after.entries.len() == n
            &&& after.tail == (ring.tail + bids.len()) % 0x1_0000
            &&& after.entries[s] == (if (s - ring.tail) % n < bids.len() {
                bids[(s - ring.tail) % n]
            } else {
                ring.entries[s]
            })
        }),
    decreases bids.len(),
{
    let n = ring.entries.len() as int;
    if bids.len() > 0 {
        let fewer = bids.drop_last();
        law_slots_are_returned_in_order(ring, fewer, s);
        let before = ring_push_all(ring, fewer);
        let m = fewer.len() as int;
        lemma_tail_slot(before.tail, n);
        let rest = 0x1_0000int / n;
        lemma_ring_divides(n);
        vstd::arithmetic::div_mod::lemma_mod_mod(ring.tail + m, n, rest);
        let at = (ring.tail + m) % n;
        assert(before.tail as int % n == at);
        lemma_distance(ring.tail as int, m, n, s);
        vstd::arithmetic::div_mod::lemma_mod_bound(s - ring.tail, n);
    } else {
        vstd::arithmetic::div_mod::lemma_mod_bound(s - ring.tail, n);
    }
}

/// The tail's slot is the tail modulo the ring's size.
proof fn lemma_tail_slot(tail: u16, n: int)
    requires
        0 < n <= 32768,
        crate::xdp::ring::is_power_of_two(n as u32),
    ensures
        (tail & ((n - 1) as u16)) == tail as int % n,
{
    crate::xdp::ring::law_slots_go_round(tail as u32, 0, n as u32);
    let wide = tail as u32;
    let size = n as u16;
    let mask = (n - 1) as u16;
    assert(wide & (mask as u32) == (tail & mask) as u32) by (bit_vector)
        requires
            wide == tail as u32,
    ;
    assert(crate::xdp::ring::ring_slot(wide, 0, n as u32) == (wide & (mask as u32)));
}

proof fn lemma_ring_divides(n: int)
    requires
        0 < n <= 32768,
        crate::xdp::ring::is_power_of_two(n as u32),
    ensures
        0 < 0x1_0000int / n,
        n * (0x1_0000int / n) == 0x1_0000,
{
    crate::xdp::ring::law_powers_of_two(n as u32);
    let k = choose|k: nat| k < 32 && n == #[trigger] vstd::arithmetic::power2::pow2(k);
    vstd::arithmetic::power2::lemma2_to64();
    if k > 15 {
        vstd::arithmetic::power2::lemma_pow2_strictly_increases(15, k);
    }
    let rest = vstd::arithmetic::power2::pow2((16 - k) as nat) as int;
    vstd::arithmetic::power2::lemma_pow2_pos((16 - k) as nat);
    vstd::arithmetic::power2::lemma_pow2_adds(k, (16 - k) as nat);
    assert(n * rest == 0x1_0000);
    vstd::arithmetic::div_mod::lemma_div_by_multiple(rest, n);
    assert(rest * n == n * rest) by (nonlinear_arith);
}

/// A slot is `m` further than the tail exactly where the tail, `m` further, comes to it.
proof fn lemma_distance(tail: int, m: int, n: int, s: int)
    requires
        0 <= m < n,
        0 <= s < n,
    ensures
        (tail + m) % n == s <==> (s - tail) % n == m,
{
    if (tail + m) % n == s {
        vstd::arithmetic::div_mod::lemma_fundamental_div_mod(tail + m, n);
        let q = (tail + m) / n;
        assert(s - tail == n * (-q) + m) by (nonlinear_arith)
            requires
                tail + m == n * q + s,
        ;
        vstd::arithmetic::div_mod::lemma_mod_multiples_vanish(-q, m, n);
        vstd::arithmetic::div_mod::lemma_small_mod(m as nat, n as nat);
    }
    if (s - tail) % n == m {
        vstd::arithmetic::div_mod::lemma_fundamental_div_mod(s - tail, n);
        let q = (s - tail) / n;
        assert(tail + m == n * (-q) + s) by (nonlinear_arith)
            requires
                s - tail == n * q + m,
        ;
        vstd::arithmetic::div_mod::lemma_mod_multiples_vanish(-q, s, n);
        vstd::arithmetic::div_mod::lemma_small_mod(s as nat, n as nat);
    }
}

/// The tail after slots were handed to the kernel.
pub proof fn lemma_tail_after(ring: RingState, bids: Seq<u16>)
    ensures
        ring_push_all(ring, bids).tail == (ring.tail + bids.len()) % 0x1_0000,
    decreases bids.len(),
{
    if bids.len() > 0 {
        lemma_tail_after(ring, bids.drop_last());
    }
}

/// What waits to go back is what either side gave back.
pub proof fn law_both_sides_wait(reclaimer: RingReclaimer)
    ensures
        reclaimer.waiting().len() == reclaimer.pending@.len() + reclaimer.remote@.len(),
        reclaimer.waiting().take(reclaimer.pending@.len() as int) == reclaimer.pending@,
        reclaimer.waiting().skip(reclaimer.pending@.len() as int) == reclaimer.remote@,
{
    let n = reclaimer.pending@.len() as int;
    assert(reclaimer.waiting().take(n) =~= reclaimer.pending@);
    assert(reclaimer.waiting().skip(n) =~= reclaimer.remote@);
}

} // verus!
