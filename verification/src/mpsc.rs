//! Bounded multi-producer single-consumer queue.

use crossbeam_queue::ArrayQueue;
use vstd::prelude::*;

verus! {

/// The bounded queue of the `crossbeam_queue` crate.
#[verifier::external_type_specification]
#[verifier::external_body]
#[verifier::reject_recursive_types(T)]
pub struct ExArrayQueue<T>(ArrayQueue<T>);

/// The keys that an `ArrayQueue` holds, oldest first.
pub uninterp spec fn array_queue_items(q: ArrayQueue<u64>) -> Seq<u64>;

/// The capacity that an `ArrayQueue` was made with.
pub uninterp spec fn array_queue_capacity(q: ArrayQueue<u64>) -> nat;

/// `ArrayQueue::new`: an empty queue with the given capacity. A slot takes 16 bytes, and all of
/// them have to fit an allocation.
#[verifier::external_body]
fn array_queue_new(capacity: usize) -> (q: ArrayQueue<u64>)
    requires
        0 < capacity,
        capacity * 16 <= isize::MAX,
    ensures
        array_queue_items(q) == Seq::<u64>::empty(),
        array_queue_capacity(q) == capacity,
{
    ArrayQueue::new(capacity)
}

/// `ArrayQueue::push` with no other thread at the queue: appends the key where there is room,
/// and leaves the queue as it is where there is none.
#[verifier::external_body]
fn array_queue_push(q: &mut ArrayQueue<u64>, key: u64) -> (pushed: bool)
    ensures
        array_queue_capacity(*final(q)) == array_queue_capacity(*old(q)),
        pushed <==> array_queue_items(*old(q)).len() < array_queue_capacity(*old(q)),
        pushed ==> array_queue_items(*final(q)) == array_queue_items(*old(q)).push(key),
        !pushed ==> array_queue_items(*final(q)) == array_queue_items(*old(q)),
{
    q.push(key).is_ok()
}

/// `ArrayQueue::pop` with no other thread at the queue: takes the oldest key.
#[verifier::external_body]
fn array_queue_pop(q: &mut ArrayQueue<u64>) -> (key: Option<u64>)
    ensures
        array_queue_capacity(*final(q)) == array_queue_capacity(*old(q)),
        array_queue_items(*old(q)).len() == 0 ==> key is None && array_queue_items(*final(q))
            == array_queue_items(*old(q)),
        array_queue_items(*old(q)).len() > 0 ==> key == Some(array_queue_items(*old(q))[0])
            && array_queue_items(*final(q)) == array_queue_items(*old(q)).drop_first(),
{
    q.pop()
}

/// `ArrayQueue::len` with no other thread at the queue: the number of keys.
#[verifier::external_body]
fn array_queue_len(q: &ArrayQueue<u64>) -> (n: usize)
    ensures
        n == array_queue_items(*q).len(),
{
    q.len()
}

/// A bounded first-in first-out queue: any thread pushes, one thread pops. The items lie in
/// slots, and their slots' keys go through the queue. A queue that several threads use is
/// shared behind a lock.
pub struct MpscQueue<T> {
    keys: ArrayQueue<u64>,
    slots: Vec<Option<T>>,
    free: Vec<u64>,
}

impl<T> View for MpscQueue<T> {
    type V = Seq<T>;

    closed spec fn view(&self) -> Seq<T> {
        let keys = array_queue_items(self.keys);
        Seq::new(keys.len(), |i: int| self.slots@[keys[i] as int]->Some_0)
    }
}

impl<T> MpscQueue<T> {
    /// How many items the queue holds at most.
    pub closed spec fn capacity(&self) -> nat {
        array_queue_capacity(self.keys)
    }

    /// Queued keys lead to filled slots, free keys to empty ones, and every slot's key is
    /// either queued or free.
    pub closed spec fn wf(&self) -> bool {
        let keys = array_queue_items(self.keys);
        &&& self.slots@.len() == self.capacity()
        &&& keys.len() + self.free@.len() == self.capacity()
        &&& forall|i: int|
            0 <= i < keys.len() ==> #[trigger] keys[i] < self.slots@.len()
                && self.slots@[keys[i] as int] is Some
        &&& forall|i: int|
            0 <= i < self.free@.len() ==> #[trigger] self.free@[i] < self.slots@.len()
                && self.slots@[self.free@[i] as int] is None
        &&& forall|i: int, j: int|
            0 <= i < j < keys.len() ==> #[trigger] keys[i] != #[trigger] keys[j]
        &&& forall|i: int, j: int|
            0 <= i < j < self.free@.len() ==> #[trigger] self.free@[i] != #[trigger] self.free@[j]
    }

    /// An empty queue of the given capacity.
    pub fn new(capacity: usize) -> (queue: MpscQueue<T>)
        requires
            0 < capacity,
            capacity * 16 <= isize::MAX,
        ensures
            queue.wf(),
            queue.capacity() == capacity,
            queue@ == Seq::<T>::empty(),
    {
        let keys = array_queue_new(capacity);
        let mut slots: Vec<Option<T>> = Vec::with_capacity(capacity);
        let mut free: Vec<u64> = Vec::with_capacity(capacity);
        let mut i: usize = 0;
        while i < capacity
            invariant
                i <= capacity,
                slots@.len() == i,
                free@.len() == i,
                forall|j: int| 0 <= j < i ==> (#[trigger] slots@[j]) is None,
                forall|j: int| 0 <= j < i ==> #[trigger] free@[j] == j,
            decreases capacity - i,
        {
            slots.push(None);
            free.push(i as u64);
            i += 1;
        }
        let queue = MpscQueue { keys, slots, free };
        assert(queue@ =~= Seq::<T>::empty());
        queue
    }

    /// Appends an item, or hands it back when the queue is full.
    pub fn push(&mut self, item: T) -> (result: Result<(), T>)
        requires
            old(self).wf(),
        ensures
            final(self).wf(),
            final(self).capacity() == old(self).capacity(),
            old(self)@.len() < old(self).capacity() <==> result is Ok,
            result is Ok ==> final(self)@ == old(self)@.push(item),
            result matches Err(back) ==> back == item && final(self)@ == old(self)@,
    {
        let ghost keys0 = array_queue_items(self.keys);
        let ghost slots0 = self.slots@;
        let ghost free0 = self.free@;
        match self.free.pop() {
            None => Err(item),
            Some(key) => {
                assert(free0[free0.len() - 1] == key);
                assert(key < self.slots.len());
                let pushed: bool = array_queue_push(&mut self.keys, key);
                assert(pushed);
                self.slots[key as usize] = Some(item);
                proof {
                    assert forall|i: int| 0 <= i < keys0.len() implies keys0[i] != key by {
                        assert(slots0[keys0[i] as int] is Some);
                    }
                    assert(self@ =~= old(self)@.push(item));
                }
                Ok(())
            },
        }
    }

    /// Takes the oldest item.
    pub fn pop(&mut self) -> (item: Option<T>)
        requires
            old(self).wf(),
        ensures
            final(self).wf(),
            final(self).capacity() == old(self).capacity(),
            old(self)@.len() == 0 ==> item is None && final(self)@ == old(self)@,
            old(self)@.len() > 0 ==> item == Some(old(self)@[0]) && final(self)@
                == old(self)@.drop_first(),
    {
        let ghost keys0 = array_queue_items(self.keys);
        let ghost slots0 = self.slots@;
        let ghost free0 = self.free@;
        match array_queue_pop(&mut self.keys) {
            None => None,
            Some(key) => {
                assert(keys0[0] == key);
                assert(key < self.slots.len());
                let item: Option<T> = self.slots[key as usize].take();
                self.free.push(key);
                proof {
                    let keys1 = array_queue_items(self.keys);
                    assert forall|i: int| 0 <= i < keys1.len() implies #[trigger] keys1[i] != key by {
                        assert(keys1[i] == keys0[i + 1]);
                    }
                    assert forall|i: int| 0 <= i < free0.len() implies #[trigger] free0[i] != key by {
                        assert(slots0[free0[i] as int] is None);
                    }
                    assert(self@ =~= old(self)@.drop_first());
                }
                item
            },
        }
    }

    /// Number of items.
    pub fn len(&self) -> (n: usize)
        requires
            self.wf(),
        ensures
            n == self@.len(),
    {
        array_queue_len(&self.keys)
    }

    /// Whether there is no item.
    pub fn is_empty(&self) -> (empty: bool)
        requires
            self.wf(),
        ensures
            empty == (self@.len() == 0),
    {
        self.len() == 0
    }

    /// Moves all items to the end of `out`, oldest first.
    pub fn drain_into(&mut self, out: &mut Vec<T>)
        requires
            old(self).wf(),
        ensures
            final(self).wf(),
            final(self).capacity() == old(self).capacity(),
            final(self)@ == Seq::<T>::empty(),
            final(out)@ == old(out)@ + old(self)@,
    {
        let ghost all = self@;
        let ghost out0 = out@;
        let ghost mut n: int = 0;
        assert(all.take(0) =~= Seq::<T>::empty());
        assert(out@ =~= out0 + all.take(0));
        loop
            invariant
                self.wf(),
                self.capacity() == old(self).capacity(),
                0 <= n <= all.len(),
                self@ == all.skip(n),
                out@ == out0 + all.take(n),
            ensures
                self@.len() == 0,
                n == all.len(),
            decreases self@.len(),
        {
            match self.pop() {
                None => {
                    break ;
                },
                Some(item) => {
                    out.push(item);
                    proof {
                        assert(all.skip(n).drop_first() =~= all.skip(n + 1));
                        assert(all.take(n + 1) =~= all.take(n).push(all[n]));
                        n = n + 1;
                        assert(out@ =~= out0 + all.take(n));
                    }
                },
            }
        }
        assert(all.take(n) =~= all);
        assert(self@ =~= Seq::<T>::empty());
    }
}

/// Items leave a queue in the order in which they came: pushing `item` and popping once more
/// than the queue held before gives all of it and then `item`.
pub proof fn law_first_in_first_out<T>(before: Seq<T>, item: T)
    ensures
        before.push(item).len() > 0,
        before.len() > 0 ==> before.push(item)[0] == before[0] && before.push(item).drop_first()
            == before.drop_first().push(item),
        before.len() == 0 ==> before.push(item)[0] == item && before.push(item).drop_first()
            == Seq::<T>::empty(),
{
    if before.len() > 0 {
        assert(before.push(item).drop_first() =~= before.drop_first().push(item));
    } else {
        assert(before.push(item).drop_first() =~= Seq::<T>::empty());
    }
}

} // verus!
