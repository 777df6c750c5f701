//! Bounded queues with a compile-time wait strategy.
//!
//! A consumer that finds its queues empty announces that it is about to sleep, checks once more,
//! and only then sleeps; a producer that pushes to a queue whose consumer is asleep wakes it.
//! Sleeping and waking themselves are the caller's: the strategy says how to wait and whom to
//! wake.

use crate::mpsc::MpscQueue;
use crate::tile::sealed::Sealed;
use vstd::prelude::*;

verus! {

/// How a consumer waits.
#[derive(Debug, Clone, Copy, PartialEq, Eq, Structural)]
pub enum Wait {
    /// Hint the CPU that this is a spin loop.
    Spin,
    /// Sleep until woken.
    Park,
    /// Sleep until woken, or until a number of microseconds has passed.
    ParkTimeout { micros: u64 },
}

/// Compile-time wait strategy for tile queues.
pub trait WaitStrategy: Sealed + Sized {
    /// Per-queue state. `()` for `Spin`; `ParkState` for `Park`.
    type State;

    /// Whether the consumer sleeps at all.
    spec fn parks() -> bool;

    /// Whether the consumer announced that it is about to sleep.
    spec fn sleeping(s: Self::State) -> bool;

    /// The consumer's thread.
    spec fn registered(s: Self::State) -> Option<u64>;

    /// The state of a new queue.
    fn initial() -> (s: Self::State)
        ensures
            !Self::sleeping(s),
            Self::registered(s) is None,
    ;

    /// Called by the producer immediately after a successful push. Returns the thread to wake.
    fn on_push(s: &Self::State) -> (wake: Option<u64>)
        ensures
            wake == (if Self::parks() && Self::sleeping(*s) {
                Self::registered(*s)
            } else {
                None
            }),
    ;

    /// Called once by the consumer thread before entering its loop. The first one stays.
    fn register_consumer(s: &mut Self::State, thread: u64)
        ensures
            Self::sleeping(*final(s)) == Self::sleeping(*old(s)),
            Self::registered(*final(s)) == (if Self::parks() && Self::registered(
                *old(s),
            ) is None {
                Some(thread)
            } else {
                Self::registered(*old(s))
            }),
    ;

    /// Announce that the consumer is about to check emptiness and sleep.
    fn set_sleeping(s: &mut Self::State)
        ensures
            Self::sleeping(*final(s)) == Self::parks(),
            Self::registered(*final(s)) == Self::registered(*old(s)),
    ;

    /// Clear the sleeping flag after waking.
    fn clear_sleeping(s: &mut Self::State)
        ensures
            !Self::sleeping(*final(s)),
            Self::registered(*final(s)) == Self::registered(*old(s)),
    ;

    /// The actual sleep primitive. Used only when the queue was empty after
    /// `set_sleeping`. Spurious wakeups are harmless; callers re-poll.
    fn do_wait() -> (wait: Wait)
        ensures
            wait == (if Self::parks() {
                Wait::Park
            } else {
                Wait::Spin
            }),
    ;

    /// Sleep hint for the combined Rx+Tx thread. Unlike `do_wait`, this must
    /// return promptly even without a wakeup, because the thread also polls
    /// the socket.
    fn do_wait_combined() -> (wait: Wait)
        ensures
            wait == (if Self::parks() {
                Wait::ParkTimeout { micros: 50 }
            } else {
                Wait::Spin
            }),
    ;
}

/// The thread that a push wakes: a consumer that announced that it is about to sleep.
pub open spec fn woken<W: WaitStrategy>(s: W::State) -> Option<u64> {
    if W::parks() && W::sleeping(s) {
        W::registered(s)
    } else {
        None
    }
}

/// Busy-spin wait strategy. Lowest latency; dedicates a full CPU core.
#[derive(Debug, Clone, Copy)]
pub struct Spin;

impl Sealed for Spin {

}

impl WaitStrategy for Spin {
    type State = ();

    open spec fn parks() -> bool {
        false
    }

    open spec fn sleeping(s: ()) -> bool {
        false
    }

    open spec fn registered(s: ()) -> Option<u64> {
        None
    }

    fn initial() -> (s: ()) {
    }

    fn on_push(_s: &()) -> (wake: Option<u64>) {
        None
    }

    fn register_consumer(_s: &mut (), _thread: u64) {
    }

    fn set_sleeping(_s: &mut ()) {
    }

    fn clear_sleeping(_s: &mut ()) {
    }

    fn do_wait() -> (wait: Wait) {
        Wait::Spin
    }

    fn do_wait_combined() -> (wait: Wait) {
        Wait::Spin
    }
}

/// Park/unpark wait strategy. Near-zero idle CPU; small wakeup latency added.
#[derive(Debug, Clone, Copy)]
pub struct Park;

impl Sealed for Park {

}

/// State of a queue whose consumer parks.
#[derive(Debug, Clone, Copy, PartialEq, Eq, Structural)]
pub struct ParkState {
    pub sleeping: bool,
    pub consumer: Option<u64>,
}

impl WaitStrategy for Park {
    type State = ParkState;

    open spec fn parks() -> bool {
        true
    }

    open spec fn sleeping(s: ParkState) -> bool {
        s.sleeping
    }

    open spec fn registered(s: ParkState) -> Option<u64> {
        s.consumer
    }

    fn initial() -> (s: ParkState) {
        ParkState { sleeping: false, consumer: None }
    }

    fn on_push(s: &ParkState) -> (wake: Option<u64>) {
        if s.sleeping {
            s.consumer
        } else {
            None
        }
    }

    fn register_consumer(s: &mut ParkState, thread: u64) {
        if s.consumer.is_none() {
            s.consumer = Some(thread);
        }
    }

    fn set_sleeping(s: &mut ParkState) {
        s.sleeping = true;
    }

    fn clear_sleeping(s: &mut ParkState) {
        s.sleeping = false;
    }

    fn do_wait() -> (wait: Wait) {
        Wait::Park
    }

    fn do_wait_combined() -> (wait: Wait) {
        Wait::ParkTimeout { micros: 50 }
    }
}

/// A bounded queue with a compile-time wait strategy.
pub struct Queue<T, W: WaitStrategy> {
    inner: MpscQueue<T>,
    state: W::State,
}

impl<T, W: WaitStrategy> View for Queue<T, W> {
    type V = Seq<T>;

    closed spec fn view(&self) -> Seq<T> {
        self.inner@
    }
}

impl<T, W: WaitStrategy> Queue<T, W> {
    pub closed spec fn wf(&self) -> bool {
        self.inner.wf()
    }

    pub closed spec fn capacity(&self) -> nat {
        self.inner.capacity()
    }

    /// The wait strategy's state.
    pub closed spec fn spec_state(&self) -> W::State {
        self.state
    }

    pub fn new(capacity: usize) -> (queue: Queue<T, W>)
        requires
            0 < capacity,
            capacity * 16 <= isize::MAX,
        ensures
            queue.wf(),
            queue.capacity() == capacity,
            queue@ == Seq::<T>::empty(),
            !W::sleeping(queue.spec_state()),
            W::registered(queue.spec_state()) is None,
    {
        Queue { inner: MpscQueue::new(capacity), state: W::initial() }
    }

    /// Push an item. Returns the thread to wake, if any, or hands the item back if the queue is
    /// full.
    pub fn push(&mut self, item: T) -> (result: Result<Option<u64>, T>)
        requires
            old(self).wf(),
        ensures
            final(self).wf(),
            final(self).capacity() == old(self).capacity(),
            final(self).spec_state() == old(self).spec_state(),
            result is Err <==> old(self)@.len() >= old(self).capacity(),
            result matches Err(back) ==> back == item && final(self)@ == old(self)@,
            result matches Ok(wake) ==> final(self)@ == old(self)@.push(item) && wake
                == woken::<W>(old(self).spec_state()),
    {
        match self.inner.push(item) {
            Err(back) => Err(back),
            Ok(_) => Ok(W::on_push(&self.state)),
        }
    }

    pub fn pop(&mut self) -> (item: Option<T>)
        requires
            old(self).wf(),
        ensures
            final(self).wf(),
            final(self).capacity() == old(self).capacity(),
            final(self).spec_state() == old(self).spec_state(),
            old(self)@.len() == 0 ==> item is None && final(self)@ == old(self)@,
            old(self)@.len() > 0 ==> item == Some(old(self)@[0]) && final(self)@
                == old(self)@.drop_first(),
    {
        self.inner.pop()
    }

    pub fn len(&self) -> (n: usize)
        requires
            self.wf(),
        ensures
            n == self@.len(),
    {
        self.inner.len()
    }

    pub fn is_empty(&self) -> (empty: bool)
        requires
            self.wf(),
        ensures
            empty == (self@.len() == 0),
    {
        self.inner.is_empty()
    }

    /// Register a thread as this queue's consumer.
    /// No-op for `Spin`; records the thread for `Park`.
    pub fn register_consumer(&mut self, thread: u64)
        requires
            old(self).wf(),
        ensures
            final(self).wf(),
            final(self)@ == old(self)@,
            final(self).capacity() == old(self).capacity(),
            W::sleeping(final(self).spec_state()) == W::sleeping(old(self).spec_state()),
            W::registered(final(self).spec_state()) == (if W::parks() && W::registered(
                old(self).spec_state(),
            ) is None {
                Some(thread)
            } else {
                W::registered(old(self).spec_state())
            }),
    {
        W::register_consumer(&mut self.state, thread);
    }

    /// Announce that the calling thread (consumer) is about to sleep.
    /// Must be paired with a matching [`Queue::clear_sleeping`].
    pub fn set_sleeping(&mut self)
        requires
            old(self).wf(),
        ensures
            final(self).wf(),
            final(self)@ == old(self)@,
            final(self).capacity() == old(self).capacity(),
            W::sleeping(final(self).spec_state()) == W::parks(),
            W::registered(final(self).spec_state()) == W::registered(old(self).spec_state()),
    {
        W::set_sleeping(&mut self.state);
    }

    /// Clear the sleeping flag after waking.
    pub fn clear_sleeping(&mut self)
        requires
            old(self).wf(),
        ensures
            final(self).wf(),
            final(self)@ == old(self)@,
            final(self).capacity() == old(self).capacity(),
            !W::sleeping(final(self).spec_state()),
            W::registered(final(self).spec_state()) == W::registered(old(self).spec_state()),
    {
        W::clear_sleeping(&mut self.state);
    }

    /// Wait until the queue is non-empty: announces sleeping, checks once more (an item may have
    /// come between the last pop and the announcement), and says how to wait if there is
    /// nothing. Then [`clear_sleeping`](Queue::clear_sleeping).
    pub fn wait_if_empty(&mut self) -> (wait: Option<Wait>)
        requires
            old(self).wf(),
        ensures
            final(self).wf(),
            final(self)@ == old(self)@,
            final(self).capacity() == old(self).capacity(),
            W::sleeping(final(self).spec_state()) == W::parks(),
            W::registered(final(self).spec_state()) == W::registered(old(self).spec_state()),
            wait is Some <==> old(self)@.len() == 0,
            wait matches Some(w) ==> w == (if W::parks() {
                Wait::Park
            } else {
                Wait::Spin
            }),
    {
        self.set_sleeping();
        if self.is_empty() {
            Some(W::do_wait())
        } else {
            None
        }
    }
}

/// Whether all queues are usable.
pub open spec fn all_wf<T, W: WaitStrategy>(queues: Seq<Queue<T, W>>) -> bool {
    forall|i: int| 0 <= i < queues.len() ==> (#[trigger] queues[i]).wf()
}

/// Whether queues hold the same items for the same consumers as before.
pub open spec fn same_items<T, W: WaitStrategy>(
    before: Seq<Queue<T, W>>,
    after: Seq<Queue<T, W>>,
) -> bool {
    &&& after.len() == before.len()
    &&& forall|i: int|
        0 <= i < before.len() ==> {
            &&& (#[trigger] after[i])@ == before[i]@
            &&& after[i].capacity() == before[i].capacity()
            &&& W::registered(after[i].spec_state()) == W::registered(before[i].spec_state())
        }
}

/// Whether no queue holds an item.
pub open spec fn all_empty<T, W: WaitStrategy>(queues: Seq<Queue<T, W>>) -> bool {
    forall|i: int| 0 <= i < queues.len() ==> (#[trigger] queues[i])@.len() == 0
}

/// Sets the sleeping flag on all queues, then checks whether all are empty.
fn announce_all<T, W: WaitStrategy>(queues: &mut Vec<Queue<T, W>>) -> (empty: bool)
    requires
        all_wf(old(queues)@),
    ensures
        all_wf(final(queues)@),
        same_items(old(queues)@, final(queues)@),
        forall|i: int|
            0 <= i < final(queues)@.len() ==> W::sleeping(
                (#[trigger] final(queues)@[i]).spec_state(),
            ) == W::parks(),
        empty == all_empty(old(queues)@),
{
    let ghost before = queues@;
    let mut i: usize = 0;
    while i < queues.len()
        invariant
            i <= queues@.len(),
            all_wf(queues@),
            same_items(before, queues@),
            forall|j: int|
                0 <= j < i ==> W::sleeping((#[trigger] queues@[j]).spec_state()) == W::parks(),
        decreases queues@.len() - i,
    {
        queues[i].set_sleeping();
        i += 1;
    }
    let mut k: usize = 0;
    while k < queues.len()
        invariant
            k <= queues@.len(),
            before == old(queues)@,
            all_wf(queues@),
            same_items(before, queues@),
            forall|j: int|
                0 <= j < queues@.len() ==> W::sleeping((#[trigger] queues@[j]).spec_state())
                    == W::parks(),
            forall|j: int| 0 <= j < k ==> (#[trigger] before[j])@.len() == 0,
        decreases queues@.len() - k,
    {
        assert(queues@[k as int]@ == before[k as int]@);
        if !queues[k].is_empty() {
            assert(before[k as int]@.len() > 0);
            return false;
        }
        k += 1;
    }
    true
}

/// Wait until at least one queue is non-empty.
///
/// Sets the sleeping flag on **all** queues before the emptiness check so
/// that a push to *any* of them wakes this consumer. Then
/// [`clear_all_sleeping`].
pub fn wait_any_non_empty<T, W: WaitStrategy>(queues: &mut Vec<Queue<T, W>>) -> (wait: Option<Wait>)
    requires
        all_wf(old(queues)@),
    ensures
        all_wf(final(queues)@),
        same_items(old(queues)@, final(queues)@),
        forall|i: int|
            0 <= i < final(queues)@.len() ==> W::sleeping(
                (#[trigger] final(queues)@[i]).spec_state(),
            ) == W::parks(),
        wait is Some <==> all_empty(old(queues)@),
        wait matches Some(w) ==> w == (if W::parks() {
            Wait::Park
        } else {
            Wait::Spin
        }),
{
    if announce_all(queues) {
        Some(W::do_wait())
    } else {
        None
    }
}

/// Like [`wait_any_non_empty`], but the wait is bounded, so the caller can re-poll
/// the socket.
pub fn wait_any_non_empty_combined<T, W: WaitStrategy>(queues: &mut Vec<Queue<T, W>>) -> (wait: Option<
    Wait,
>)
    requires
        all_wf(old(queues)@),
    ensures
        all_wf(final(queues)@),
        same_items(old(queues)@, final(queues)@),
        forall|i: int|
            0 <= i < final(queues)@.len() ==> W::sleeping(
                (#[trigger] final(queues)@[i]).spec_state(),
            ) == W::parks(),
        wait is Some <==> all_empty(old(queues)@),
        wait matches Some(w) ==> w == (if W::parks() {
            Wait::ParkTimeout { micros: 50 }
        } else {
            Wait::Spin
        }),
{
    if announce_all(queues) {
        Some(W::do_wait_combined())
    } else {
        None
    }
}

/// Clears the sleeping flag on all queues, after waiting.
pub fn clear_all_sleeping<T, W: WaitStrategy>(queues: &mut Vec<Queue<T, W>>)
    requires
        all_wf(old(queues)@),
    ensures
        all_wf(final(queues)@),
        same_items(old(queues)@, final(queues)@),
        forall|i: int|
            0 <= i < final(queues)@.len() ==> !W::sleeping(
                (#[trigger] final(queues)@[i]).spec_state(),
            ),
{
    let ghost before = queues@;
    let mut i: usize = 0;
    while i < queues.len()
        invariant
            i <= queues@.len(),
            all_wf(queues@),
            same_items(before, queues@),
            forall|j: int| 0 <= j < i ==> !W::sleeping((#[trigger] queues@[j]).spec_state()),
        decreases queues@.len() - i,
    {
        queues[i].clear_sleeping();
        i += 1;
    }
}

/// No wake-up is lost: once a parking consumer has announced that it is about to sleep, a push
/// to any of its queues wakes it, and so it sleeps only while all of them stay empty.
pub proof fn law_no_lost_wakeup<T, W: WaitStrategy>(queues: Seq<Queue<T, W>>, i: int, thread: u64)
    requires
        W::parks(),
        0 <= i < queues.len(),
        forall|j: int|
            0 <= j < queues.len() ==> W::sleeping((#[trigger] queues[j]).spec_state())
                && W::registered(queues[j].spec_state()) == Some(thread),
    ensures
        woken::<W>(queues[i].spec_state()) == Some(thread),
{
    assert(W::sleeping(queues[i].spec_state()));
}

/// A consumer that parks is woken by a push exactly where it announced that it is about to sleep;
/// one that spins never has to be.
pub proof fn law_sleepers_are_woken(state: ParkState)
    ensures
        state.sleeping ==> woken::<Park>(state) == state.consumer,
        !state.sleeping ==> woken::<Park>(state) is None,
        woken::<Spin>(()) is None,
{
}

/// Queues are empty together where each of them is, and are unchanged where each of them is.
pub proof fn law_queues_are_empty_together<T, W: WaitStrategy>(
    queues: Seq<Queue<T, W>>,
    queue: Queue<T, W>,
)
    ensures
        all_empty(Seq::<Queue<T, W>>::empty()),
        all_empty(queues.push(queue)) <==> all_empty(queues) && queue@.len() == 0,
        all_wf(queues.push(queue)) <==> all_wf(queues) && queue.wf(),
{
    let all = queues.push(queue);
    assert(all[queues.len() as int] == queue);
    assert(forall|i: int| 0 <= i < queues.len() ==> #[trigger] all[i] == queues[i]);
    if all_empty(all) {
        assert forall|i: int| 0 <= i < queues.len() implies (#[trigger] queues[i])@.len() == 0 by {
            assert(all[i]@.len() == 0);
        }
    }
    if all_wf(all) {
        assert forall|i: int| 0 <= i < queues.len() implies (#[trigger] queues[i]).wf() by {
            assert(all[i].wf());
        }
    }
}

/// Waiting takes no item out of a queue and puts none in, and forgets no consumer.
pub proof fn law_waiting_keeps_items<T, W: WaitStrategy>(
    before: Seq<Queue<T, W>>,
    after: Seq<Queue<T, W>>,
    i: int,
)
    requires
        same_items(before, after),
        0 <= i < before.len(),
    ensures
        after.len() == before.len(),
        after[i]@ == before[i]@,
        after[i].capacity() == before[i].capacity(),
        W::registered(after[i].spec_state()) == W::registered(before[i].spec_state()),
{
    assert(after[i]@ == before[i]@);
}

} // verus!
