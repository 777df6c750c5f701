//! Buffers of the io_uring socket: receive buffers are slots of the provided-buffer ring,
//! transmit buffers come from a heap pool.

use crate::interface::{PacketBuf, PacketBufMut};
use crate::mpsc::MpscQueue;
use crate::net::IPV6_MAX_UDP_PAYLOAD;
use vstd::prelude::*;

verus! {

/// Capacity of the queue of buffers that come back from other threads. If it ever fills, the
/// buffer is dropped and the pool grows on the next allocation.
pub const REMOTE_CAP: usize = 4096;

/// Marker pool for the receive side.
///
/// Holds no memory of its own: ring slots belong to the provided-buffer ring.
/// [`allocate`](IoRxPool::allocate) returns zero-cost placeholders that `recv` swaps for
/// ring-backed buffers as completions arrive.
pub struct IoRxPool {
    pub max_payload: usize,
}

impl IoRxPool {
    pub fn max_payload_size(&self) -> (n: usize)
        ensures
            n == self.max_payload,
    {
        self.max_payload
    }

    /// Appends `count` placeholders.
    pub fn allocate(&self, _capacity: usize, count: usize, bufs: &mut Vec<IoRxBufMut>) -> (n: usize)
        ensures
            n == count,
            final(bufs)@ == old(bufs)@ + Seq::new(
                count as nat,
                |i: int| IoRxBufMut { repr: IoRxBufMutRepr::Empty },
            ),
    {
        let ghost bufs0 = bufs@;
        let mut i: usize = 0;
        assert(bufs@ =~= bufs0 + Seq::new(0, |j: int| IoRxBufMut { repr: IoRxBufMutRepr::Empty }));
        while i < count
            invariant
                i <= count,
                bufs@ == bufs0 + Seq::new(
                    i as nat,
                    |j: int| IoRxBufMut { repr: IoRxBufMutRepr::Empty },
                ),
            decreases count - i,
        {
            bufs.push(IoRxBufMut { repr: IoRxBufMutRepr::Empty });
            i += 1;
            assert(bufs@ =~= bufs0 + Seq::new(
                i as nat,
                |j: int| IoRxBufMut { repr: IoRxBufMutRepr::Empty },
            ));
        }
        count
    }
}

/// What is behind a receive buffer.
#[derive(Debug, Clone, Copy, PartialEq, Eq, Structural)]
pub enum IoRxBufMutRepr {
    /// Placeholder; `recv` swaps it for a slot when a packet arrives.
    Empty,
    /// The payload area of ring slot `bid`: `len` bytes of a packet, `cap` of them usable.
    Ring { bid: u16, len: usize, cap: usize },
}

/// Mutable receive buffer. Either a zero-cost placeholder or a kernel-filled ring slot, which
/// goes back to the ring by way of the reclaimer.
pub struct IoRxBufMut {
    pub repr: IoRxBufMutRepr,
}

impl IoRxBufMut {
    /// Wrap a provided-buffer ring slot.
    pub fn from_ring_slot(len: usize, cap: usize, bid: u16) -> (buf: IoRxBufMut)
        ensures
            buf.repr == (IoRxBufMutRepr::Ring { bid, len, cap }),
    {
        IoRxBufMut { repr: IoRxBufMutRepr::Ring { bid, len, cap } }
    }

    pub fn capacity(&self) -> (n: usize)
        ensures
            n == (match self.repr {
                IoRxBufMutRepr::Empty => 0,
                IoRxBufMutRepr::Ring { bid, len, cap } => cap,
            }),
    {
        match self.repr {
            IoRxBufMutRepr::Empty => 0,
            IoRxBufMutRepr::Ring { bid, len, cap } => cap,
        }
    }

    /// Number of bytes filled.
    pub fn filled_len(&self) -> (n: usize)
        ensures
            n == filled_count(*self),
    {
        match self.repr {
            IoRxBufMutRepr::Empty => 0,
            IoRxBufMutRepr::Ring { bid, len, cap } => len,
        }
    }

    /// The packet's bytes. `payload` is the payload area of the slot that the buffer holds.
    pub fn filled<'a>(&self, payload: &'a [u8]) -> (data: &'a [u8])
        requires
            filled_count(*self) <= payload@.len(),
        ensures
            data@ == payload@.take(filled_count(*self) as int),
    {
        let n: usize = self.filled_len();
        vstd::slice::slice_subrange(payload, 0, n)
    }

    /// The packet's bytes, for writing.
    pub fn filled_mut<'a>(&self, payload: &'a mut [u8]) -> (data: &'a mut [u8])
        requires
            filled_count(*self) <= old(payload)@.len(),
        ensures
            data@ == old(payload)@.take(filled_count(*self) as int),
            final(payload)@ == final(data)@ + old(payload)@.skip(filled_count(*self) as int),
    {
        let n: usize = self.filled_len();
        let (data, _) = payload.split_at_mut(n);
        data
    }

    /// Spare capacity behind the packet's bytes; a placeholder has none.
    pub fn uninit_mut<'a>(&self, payload: &'a mut [u8]) -> (spare: &'a mut [u8])
        requires
            self.repr matches IoRxBufMutRepr::Ring { bid, len, cap } ==> len <= cap
                <= old(payload)@.len(),
        ensures
            ({
                let (start, end) = spare_range(*self);
                &&& spare@ == old(payload)@.subrange(start, end)
                &&& final(payload)@ == old(payload)@.take(start) + final(spare)@ + old(
                    payload,
                )@.skip(end)
            }),
    {
        let (start, end): (usize, usize) = match self.repr {
            IoRxBufMutRepr::Empty => (0, 0),
            IoRxBufMutRepr::Ring { bid, len, cap } => (len, cap),
        };
        let (_, tail) = payload.split_at_mut(start);
        let (spare, _) = tail.split_at_mut(end - start);
        spare
    }

    /// Sets the number of bytes filled; a placeholder stays as it is.
    pub fn set_filled(&mut self, new_len: usize)
        requires
            old(self).repr matches IoRxBufMutRepr::Ring { bid, len, cap } ==> new_len <= cap,
        ensures
            final(self).repr == (match old(self).repr {
                IoRxBufMutRepr::Empty => IoRxBufMutRepr::Empty,
                IoRxBufMutRepr::Ring { bid, len, cap } => IoRxBufMutRepr::Ring {
                    bid,
                    len: new_len,
                    cap,
                },
            }),
    {
        match self.repr {
            IoRxBufMutRepr::Empty => {},
            IoRxBufMutRepr::Ring { bid, len, cap } => {
                self.repr = IoRxBufMutRepr::Ring { bid, len: new_len, cap };
            },
        }
    }

    /// The slot that the buffer holds.
    pub fn bid(&self) -> (bid: Option<u16>)
        ensures
            bid == held_bid(*self),
    {
        match self.repr {
            IoRxBufMutRepr::Empty => None,
            IoRxBufMutRepr::Ring { bid, len, cap } => Some(bid),
        }
    }

    /// Freezes a slot; there is nothing to freeze in a placeholder.
    pub fn freeze(self) -> (frozen: IoRxBuf)
        requires
            self.repr is Ring,
        ensures
            self.repr == (IoRxBufMutRepr::Ring {
                bid: frozen.bid,
                len: frozen.len,
                cap: self.repr->cap,
            }),
    {
        match self.repr {
            IoRxBufMutRepr::Ring { bid, len, cap } => IoRxBuf { bid, len },
            IoRxBufMutRepr::Empty => IoRxBuf { bid: 0, len: 0 },
        }
    }
}

/// Number of bytes filled of a receive buffer.
pub open spec fn filled_count(buf: IoRxBufMut) -> usize {
    match buf.repr {
        IoRxBufMutRepr::Empty => 0,
        IoRxBufMutRepr::Ring { bid, len, cap } => len,
    }
}

/// Where the spare bytes of a receive buffer lie in its slot's payload area; a placeholder has
/// none.
pub open spec fn spare_range(buf: IoRxBufMut) -> (int, int) {
    match buf.repr {
        IoRxBufMutRepr::Empty => (0, 0),
        IoRxBufMutRepr::Ring { bid, len, cap } => (len as int, cap as int),
    }
}

/// The slot that a receive buffer holds.
pub open spec fn held_bid(buf: IoRxBufMut) -> Option<u16> {
    match buf.repr {
        IoRxBufMutRepr::Empty => None,
        IoRxBufMutRepr::Ring { bid, len, cap } => Some(bid),
    }
}

/// Frozen receive buffer: `len` bytes in ring slot `bid`.
pub struct IoRxBuf {
    pub bid: u16,
    pub len: usize,
}

impl IoRxBuf {
    /// The packet's bytes. `payload` is the payload area of slot `bid`.
    pub fn as_ref<'a>(&self, payload: &'a [u8]) -> (data: &'a [u8])
        requires
            self.len <= payload@.len(),
        ensures
            data@ == payload@.take(self.len as int),
    {
        vstd::slice::slice_subrange(payload, 0, self.len)
    }
}

/// Mutable transmit buffer of the [`IoTxPool`] with the name `pool`.
pub struct IoTxBufMut {
    pub pool: u64,
    pub data: Vec<u8>,
    pub data_len: usize,
}

/// Frozen transmit buffer. Recycled by [`IoTxPool::reclaim`] if it came from a pool.
pub struct IoTxBuf {
    pub pool: u64,
    pub data: Vec<u8>,
    pub data_len: usize,
    pub pooled: bool,
}

impl IoTxBuf {
    /// Create a pool-less buffer from a byte slice.
    pub fn from_slice(data: &[u8]) -> (buf: IoTxBuf)
        ensures
            buf.wf(),
            !buf.pooled,
            buf.bytes() == data@,
    {
        let copy: Vec<u8> = vstd::slice::slice_to_vec(data);
        let data_len: usize = copy.len();
        let buf = IoTxBuf { pool: 0, data: copy, data_len, pooled: false };
        assert(buf.bytes() =~= data@);
        buf
    }
}

impl PacketBuf for IoTxBuf {
    open spec fn bytes(&self) -> Seq<u8> {
        self.data@.take(self.data_len as int)
    }

    open spec fn wf(&self) -> bool {
        self.data_len <= self.data@.len()
    }

    fn as_ref(&self) -> (data: &[u8]) {
        vstd::slice::slice_subrange(self.data.as_slice(), 0, self.data_len)
    }
}

impl PacketBufMut for IoTxBufMut {
    type Frozen = IoTxBuf;

    open spec fn bytes(&self) -> Seq<u8> {
        self.data@.take(self.data_len as int)
    }

    open spec fn wf(&self) -> bool {
        self.data_len <= self.data@.len()
    }

    open spec fn spec_capacity(&self) -> nat {
        self.data@.len()
    }

    /// A memory has no name: besides the bytes, its pool shows, its length, and what lies behind
    /// them.
    open spec fn same_buffer(&self, other: IoTxBufMut) -> bool {
        self.pool == other.pool && self.data@.len() == other.data@.len() && forall|i: int|
            self.data_len <= i < self.data@.len() && other.data_len <= i ==> #[trigger] self.data@[i]
                == other.data@[i]
    }

    fn capacity(&self) -> (n: usize) {
        self.data.len()
    }

    fn filled(&self) -> (data: &[u8]) {
        vstd::slice::slice_subrange(self.data.as_slice(), 0, self.data_len)
    }

    fn append(&mut self, data: &[u8]) {
        let ghost before = self.data@;
        let start: usize = self.data_len;
        let total: usize = self.data.len();
        let mut i: usize = 0;
        while i < data.len()
            invariant
                start + data@.len() <= total,
                total == before.len(),
                self.data_len == start,
                self.data@.len() == before.len(),
                self.pool == old(self).pool,
                i <= data@.len(),
                forall|j: int| 0 <= j < start ==> self.data@[j] == before[j],
                forall|j: int| start + i <= j < total ==> #[trigger] self.data@[j] == before[j],
                forall|j: int| 0 <= j < i ==> self.data@[start + j] == data@[j],
            decreases data@.len() - i,
        {
            self.data[start + i] = data[i];
            i += 1;
        }
        self.data_len = start + data.len();
        assert(self.bytes() =~= old(self).bytes() + data@);
    }

    open spec fn spec_freeze(&self) -> IoTxBuf {
        IoTxBuf { pool: self.pool, data: self.data, data_len: self.data_len, pooled: true }
    }

    fn freeze(self) -> (frozen: IoTxBuf) {
        IoTxBuf { pool: self.pool, data: self.data, data_len: self.data_len, pooled: true }
    }
}

impl IoTxBufMut {
    /// The filled part, for writing.
    pub fn filled_mut(&mut self) -> (data: &mut [u8])
        requires
            old(self).wf(),
        ensures
            data@ == old(self).bytes(),
            final(self).data@ == final(data)@ + old(self).data@.skip(old(self).data_len as int),
            final(self).data_len == old(self).data_len,
            final(self).pool == old(self).pool,
    {
        let n: usize = self.data_len;
        let (data, _) = self.data.as_mut_slice().split_at_mut(n);
        data
    }

    /// The part behind the filled bytes.
    pub fn uninit_mut(&mut self) -> (spare: &mut [u8])
        requires
            old(self).wf(),
        ensures
            spare@ == old(self).data@.skip(old(self).data_len as int),
            final(self).data@ == old(self).data@.take(old(self).data_len as int) + final(spare)@,
            final(self).data_len == old(self).data_len,
            final(self).pool == old(self).pool,
    {
        let n: usize = self.data_len;
        let (_, spare) = self.data.as_mut_slice().split_at_mut(n);
        spare
    }

    /// Declares the first `new_len` bytes of the memory to be the filled part.
    pub fn set_filled(&mut self, new_len: usize)
        requires
            new_len <= old(self).spec_capacity(),
        ensures
            final(self).wf(),
            final(self).data == old(self).data,
            final(self).pool == old(self).pool,
            final(self).data_len == new_len,
    {
        self.data_len = new_len;
    }
}

/// Heap allocator for transmit-side buffers.
///
/// Backed by two free lists:
/// - `local`: drained and filled only by the network tile thread.
/// - `remote`: fed by app threads giving up an [`IoTxBuf`]; the network thread
///   batch-drains it into `local` at the start of each allocation.
///
/// Memories go back to the pool that they came from, whichever socket sent them: pools whose
/// packets meet have different names.
pub struct IoTxPool {
    name: u64,
    max_payload: usize,
    owner: u64,
    local: Vec<Vec<u8>>,
    remote: MpscQueue<Vec<u8>>,
}

/// Memory of at least `capacity` bytes: `memory`, with zeros appended where it is too short.
pub open spec fn padded(memory: Seq<u8>, capacity: int) -> Seq<u8> {
    if memory.len() < capacity {
        memory + Seq::new((capacity - memory.len()) as nat, |i: int| 0u8)
    } else {
        memory
    }
}

/// The `i`-th buffer of an allocation out of the free memories: the one given back last first,
/// and fresh memory when none is left.
pub open spec fn nth_memory(free: Seq<Vec<u8>>, i: int, capacity: int) -> Seq<u8> {
    if i < free.len() {
        padded(free[free.len() - 1 - i]@, capacity)
    } else {
        padded(Seq::empty(), capacity)
    }
}

impl IoTxPool {
    pub closed spec fn spec_max_payload(&self) -> usize {
        self.max_payload
    }

    /// The owner thread.
    pub closed spec fn spec_owner(&self) -> u64 {
        self.owner
    }

    /// The pool's name.
    pub closed spec fn spec_name(&self) -> u64 {
        self.name
    }

    pub closed spec fn wf(&self) -> bool {
        self.remote.wf() && self.remote.capacity() == REMOTE_CAP
    }

    /// The owner thread's free memories.
    pub closed spec fn local(&self) -> Seq<Vec<u8>> {
        self.local@
    }

    /// The memories that other threads gave back and nobody has collected.
    pub closed spec fn remote(&self) -> Seq<Vec<u8>> {
        self.remote@
    }

    pub fn new(owner: u64) -> (pool: IoTxPool)
        ensures
            pool.wf(),
            pool.spec_max_payload() == IPV6_MAX_UDP_PAYLOAD,
            pool.spec_owner() == owner,
            pool.spec_name() == 0,
            pool.local() == Seq::<Vec<u8>>::empty(),
            pool.remote() == Seq::<Vec<u8>>::empty(),
    {
        IoTxPool::with_max_payload(IPV6_MAX_UDP_PAYLOAD, owner)
    }

    pub fn with_max_payload(max_payload: usize, owner: u64) -> (pool: IoTxPool)
        ensures
            pool.wf(),
            pool.spec_max_payload() == max_payload,
            pool.spec_owner() == owner,
            pool.spec_name() == 0,
            pool.local() == Seq::<Vec<u8>>::empty(),
            pool.remote() == Seq::<Vec<u8>>::empty(),
    {
        IoTxPool {
            name: 0,
            max_payload,
            owner,
            local: Vec::new(),
            remote: MpscQueue::new(REMOTE_CAP),
        }
    }

    /// The owner thread.
    pub fn owner(&self) -> (thread: u64)
        ensures
            thread == self.spec_owner(),
    {
        self.owner
    }

    /// Names the pool. Buffers that are out keep the name under which they were made.
    pub fn set_name(&mut self, name: u64)
        requires
            old(self).wf(),
        ensures
            final(self).wf(),
            final(self).spec_name() == name,
            final(self).local() == old(self).local(),
            final(self).remote() == old(self).remote(),
            final(self).spec_max_payload() == old(self).spec_max_payload(),
            final(self).spec_owner() == old(self).spec_owner(),
    {
        self.name = name;
    }

    pub fn max_payload_size(&self) -> (n: usize)
        ensures
            n == self.spec_max_payload(),
    {
        self.max_payload
    }

    pub fn zerocopy_threshold(&self) -> (n: usize)
        ensures
            n == 0,
    {
        0
    }

    /// Appends `count` empty buffers of at least `capacity` bytes (at most the largest payload)
    /// to `bufs`.
    pub fn allocate(&mut self, capacity: usize, count: usize, bufs: &mut Vec<IoTxBufMut>) -> (n: usize)
        requires
            old(self).wf(),
        ensures
            final(self).wf(),
            n == count,
            final(self).spec_max_payload() == old(self).spec_max_payload(),
            final(self).spec_owner() == old(self).spec_owner(),
            final(self).spec_name() == old(self).spec_name(),
            final(self).remote() == Seq::<Vec<u8>>::empty(),
            ({
                let free = old(self).local() + old(self).remote();
                &&& final(self).local() == free.take(
                    vstd::math::max(free.len() - count, 0),
                )
                &&& final(bufs)@.len() == old(bufs)@.len() + count
                &&& final(bufs)@.take(old(bufs)@.len() as int) == old(bufs)@
                &&& forall|i: int|
                    old(bufs)@.len() <= i < final(bufs)@.len() ==> {
                        let buf = #[trigger] final(bufs)@[i];
                        &&& buf.pool == old(self).spec_name()
                        &&& buf.data_len == 0
                        &&& buf.data@ == nth_memory(
                            free,
                            i - old(bufs)@.len(),
                            vstd::math::min(capacity as int, old(self).spec_max_payload() as int),
                        )
                    }
            }),
    {
        let capacity: usize = if capacity < self.max_payload {
            capacity
        } else {
            self.max_payload
        };
        let ghost free = self.local() + self.remote();
        let ghost bufs0 = bufs@;
        self.remote.drain_into(&mut self.local);
        assert(self.local@ =~= free);
        assert(free.take(free.len() as int) =~= free);
        assert(bufs@.take(bufs0.len() as int) =~= bufs0);
        let mut i: usize = 0;
        while i < count
            invariant
                i <= count,
                self.wf(),
                self.remote@ == Seq::<Vec<u8>>::empty(),
                self.max_payload == old(self).max_payload,
                self.owner == old(self).owner,
                self.name == old(self).name,
                self.local@ == free.take(vstd::math::max(free.len() - i, 0)),
                bufs@.len() == bufs0.len() + i,
                bufs@.take(bufs0.len() as int) == bufs0,
                forall|j: int|
                    bufs0.len() <= j < bufs@.len() ==> {
                        let buf = #[trigger] bufs@[j];
                        &&& buf.pool == self.name
                        &&& buf.data_len == 0
                        &&& buf.data@ == nth_memory(free, j - bufs0.len(), capacity as int)
                    },
            decreases count - i,
        {
            let ghost pushed = bufs@;
            let ghost local0 = self.local@;
            let mut memory: Vec<u8> = match self.local.pop() {
                Some(memory) => memory,
                None => Vec::new(),
            };
            proof {
                if i < free.len() {
                    assert(memory == free[free.len() - 1 - i]);
                    assert(self.local@ =~= free.take(vstd::math::max(free.len() - (i + 1), 0)));
                } else {
                    assert(memory@ =~= Seq::<u8>::empty());
                    assert(self.local@ =~= free.take(vstd::math::max(free.len() - (i + 1), 0)));
                }
            }
            let ghost memory0 = memory@;
            if memory.len() < capacity {
                memory.resize(capacity, 0);
            }
            assert(memory@ =~= padded(memory0, capacity as int)) by {
                if memory0.len() < capacity {
                    assert(memory@.subrange(0, memory0.len() as int) =~= memory0);
                    assert forall|k: int| 0 <= k < memory0.len() implies memory@[k] == memory0[k] by {
                        assert(memory@.subrange(0, memory0.len() as int)[k] == memory@[k]);
                    }
                }
            }
            bufs.push(IoTxBufMut { pool: self.name, data: memory, data_len: 0 });
            proof {
                assert(bufs@.take(bufs0.len() as int) =~= pushed.take(bufs0.len() as int));
                assert forall|j: int| bufs0.len() <= j < bufs@.len() implies {
                    let buf = #[trigger] bufs@[j];
                    &&& buf.pool == self.name
                    &&& buf.data_len == 0
                    &&& buf.data@ == nth_memory(free, j - bufs0.len(), capacity as int)
                } by {
                    if j < pushed.len() {
                        assert(bufs@[j] == pushed[j]);
                    }
                }
            }
            i += 1;
        }
        count
    }

    /// Number of free buffers. Collects those that other threads gave back.
    pub fn available(&mut self) -> (n: usize)
        requires
            old(self).wf(),
        ensures
            final(self).wf(),
            n == old(self).local().len() + old(self).remote().len(),
            final(self).spec_max_payload() == old(self).spec_max_payload(),
            final(self).spec_owner() == old(self).spec_owner(),
            final(self).spec_name() == old(self).spec_name(),
            final(self).local() == old(self).local() + old(self).remote(),
            final(self).remote() == Seq::<Vec<u8>>::empty(),
    {
        self.remote.drain_into(&mut self.local);
        self.local.len()
    }

    /// Takes memory back that thread `thread` gives up: the owner's goes to the local list, that
    /// of other threads through the queue, which drops it when it is full.
    fn return_memory(&mut self, memory: Vec<u8>, thread: u64)
        requires
            old(self).wf(),
        ensures
            final(self).wf(),
            final(self).spec_max_payload() == old(self).spec_max_payload(),
            final(self).spec_owner() == old(self).spec_owner(),
            final(self).spec_name() == old(self).spec_name(),
            memory_returned(*old(self), *final(self), memory, thread),
    {
        if thread == self.owner {
            self.local.push(memory);
        } else {
            let _ = self.remote.push(memory);
        }
    }

    /// Takes a frozen buffer back; one that came from no pool is just freed, and one of another
    /// pool is handed back.
    pub fn reclaim(&mut self, buf: IoTxBuf, thread: u64) -> (back: Option<IoTxBuf>)
        requires
            old(self).wf(),
        ensures
            final(self).wf(),
            final(self).spec_max_payload() == old(self).spec_max_payload(),
            final(self).spec_owner() == old(self).spec_owner(),
            final(self).spec_name() == old(self).spec_name(),
            buf.pooled && buf.pool == old(self).spec_name() ==> back is None && memory_returned(
                *old(self),
                *final(self),
                buf.data,
                thread,
            ),
            buf.pooled && buf.pool != old(self).spec_name() ==> back == Some(buf) && *final(self)
                == *old(self),
            !buf.pooled ==> back is None && *final(self) == *old(self),
    {
        if !buf.pooled {
            None
        } else if buf.pool == self.name {
            self.return_memory(buf.data, thread);
            None
        } else {
            Some(buf)
        }
    }

    /// Takes a mutable buffer back; one of another pool is handed back.
    pub fn reclaim_mut(&mut self, buf: IoTxBufMut, thread: u64) -> (back: Option<IoTxBufMut>)
        requires
            old(self).wf(),
        ensures
            final(self).wf(),
            final(self).spec_max_payload() == old(self).spec_max_payload(),
            final(self).spec_owner() == old(self).spec_owner(),
            final(self).spec_name() == old(self).spec_name(),
            buf.pool == old(self).spec_name() ==> back is None && memory_returned(
                *old(self),
                *final(self),
                buf.data,
                thread,
            ),
            buf.pool != old(self).spec_name() ==> back == Some(buf) && *final(self) == *old(self),
    {
        if buf.pool == self.name {
            self.return_memory(buf.data, thread);
            None
        } else {
            Some(buf)
        }
    }

    /// Copies a received packet to a transmit buffer. `payload` is the payload area of the slot
    /// that `rx` holds. The slot goes back to the ring when the caller gives `rx` up.
    pub fn from_rx(&mut self, rx: &IoRxBufMut, payload: &[u8]) -> (tx: IoTxBufMut)
        requires
            old(self).wf(),
            rx.repr is Ring,
            rx.repr->len <= payload@.len(),
            rx.repr->len <= old(self).spec_max_payload(),
        ensures
            final(self).wf(),
            final(self).spec_max_payload() == old(self).spec_max_payload(),
            final(self).spec_owner() == old(self).spec_owner(),
            final(self).spec_name() == old(self).spec_name(),
            final(self).remote() == Seq::<Vec<u8>>::empty(),
            ({
                let free = old(self).local() + old(self).remote();
                final(self).local() == free.take(vstd::math::max(free.len() - 1, 0))
            }),
            tx.wf(),
            tx.pool == old(self).spec_name(),
            tx.spec_capacity() >= old(self).spec_max_payload(),
            tx.bytes() == payload@.take(rx.repr->len as int),
    {
        let max_payload: usize = self.max_payload;
        let len: usize = rx.filled_len();
        let mut one: Vec<IoTxBufMut> = Vec::new();
        self.allocate(max_payload, 1, &mut one);
        assert(one@[0].data_len == 0);
        let mut tx = one.swap_remove(0);
        let head: &[u8] = vstd::slice::slice_subrange(payload, 0, len);
        assert(tx.bytes() =~= Seq::<u8>::empty());
        tx.append(head);
        assert(tx.bytes() =~= payload@.take(len as int));
        tx
    }
}

/// How giving memory back changes the free lists.
pub open spec fn memory_returned(
    before: IoTxPool,
    after: IoTxPool,
    memory: Vec<u8>,
    thread: u64,
) -> bool {
    if thread == before.spec_owner() {
        after.local() == before.local().push(memory) && after.remote() == before.remote()
    } else {
        &&& after.local() == before.local()
        &&& after.remote() == (if before.remote().len() < REMOTE_CAP {
            before.remote().push(memory)
        } else {
            before.remote()
        })
    }
}

/// Memory for a number of bytes is what there is, and zeros behind it as far as they are needed.
pub proof fn law_memory_is_padded_with_zeros(memory: Seq<u8>, capacity: int, i: int)
    requires
        0 <= capacity,
        0 <= i < padded(memory, capacity).len(),
    ensures
        padded(memory, capacity).len() == vstd::math::max(memory.len() as int, capacity),
        padded(memory, capacity)[i] == (if i < memory.len() {
            memory[i]
        } else {
            0u8
        }),
{
}

/// Free memories are used again, the one given back last first, and fresh ones only when none is
/// left.
pub proof fn law_memories_are_used_again(free: Seq<Vec<u8>>, memory: Vec<u8>, i: int, capacity: int)
    requires
        0 <= i <= free.len(),
    ensures
        nth_memory(free.push(memory), 0, capacity) == padded(memory@, capacity),
        nth_memory(free.push(memory), i + 1, capacity) == nth_memory(free, i, capacity),
        nth_memory(free, free.len() as int, capacity) == padded(Seq::empty(), capacity),
{
}

/// What a buffer holds of a slot: its number, the bytes that are filled, and those that are not.
pub proof fn law_buffer_holds_its_slot(bid: u16, len: usize, cap: usize)
    ensures
        ({
            let buf = IoRxBufMut { repr: IoRxBufMutRepr::Ring { bid, len, cap } };
            &&& held_bid(buf) == Some(bid)
            &&& filled_count(buf) == len
            &&& spare_range(buf) == (len as int, cap as int)
        }),
        ({
            let none = IoRxBufMut { repr: IoRxBufMutRepr::Empty };
            &&& held_bid(none) is None
            &&& filled_count(none) == 0
            &&& spare_range(none) == (0int, 0int)
        }),
{
}

/// Memory that is given back is free once more than before: on the owner's side for the owner, and
/// through the queue for others as long as it has room.
pub proof fn law_memory_is_free_once_more(
    before: IoTxPool,
    after: IoTxPool,
    memory: Vec<u8>,
    thread: u64,
)
    requires
        memory_returned(before, after, memory, thread),
        thread == before.spec_owner() || before.remote().len() < 4096,
    ensures
        (after.local() + after.remote()).len() == (before.local() + before.remote()).len() + 1,
        (after.local() + after.remote()).contains(memory),
        thread == before.spec_owner() ==> after.local().last() == memory,
{
    let all = after.local() + after.remote();
    if thread == before.spec_owner() {
        assert(all[before.local().len() as int] == memory);
    } else {
        assert(all[all.len() - 1] == memory);
    }
}

} // verus!
