//! Buffers of the OS socket and their pool.

use crate::interface::{PacketBuf, PacketBufMut};
use crate::mpsc::MpscQueue;
use crate::net::{IPV6_MAX_UDP_PAYLOAD, MAX_BUF_SIZE};
use vstd::prelude::*;

verus! {

/// Slab size; matches `OsSocket::MAX_BATCH` so a recv batch fits one slab.
pub const SLAB_SIZE: usize = 64;

/// Capacity of the queue of buffers that come back from other threads. Sized for the queue of
/// Tx buffers + engine caches + rx working set + in-flight, with headroom. Overflow drops the
/// node.
pub const REMOTE_CAP: usize = 4096;

/// Heap node holding a UDP payload; `pool` is the name of the pool that made it, and `id` tells
/// the nodes of a pool apart.
pub struct OsBufNode {
    pub pool: u64,
    pub id: u64,
    pub data: Vec<u8>,
}

/// Frozen (Tx) buffer; goes back to the pool by [`OsPool::reclaim`]. Without a node of a pool,
/// its memory is just freed.
pub struct OsBuf {
    pub node: OsBufNode,
    pub pooled: bool,
    pub data_len: usize,
}

/// Mutable (Rx) buffer.
pub struct OsBufMut {
    pub node: OsBufNode,
    pub data_len: usize,
}

impl OsBuf {
    /// Create a pool-less buffer from a byte slice. It is not recycled.
    pub fn from_slice(data: &[u8]) -> (buf: OsBuf)
        ensures
            buf.wf(),
            !buf.pooled,
            buf.bytes() == data@,
    {
        let copy: Vec<u8> = vstd::slice::slice_to_vec(data);
        let data_len: usize = copy.len();
        let buf = OsBuf { node: OsBufNode { pool: 0, id: 0, data: copy }, pooled: false, data_len };
        assert(buf.bytes() =~= data@);
        buf
    }
}

impl PacketBuf for OsBuf {
    open spec fn bytes(&self) -> Seq<u8> {
        self.node.data@.take(self.data_len as int)
    }

    open spec fn wf(&self) -> bool {
        self.data_len <= self.node.data@.len()
    }

    fn as_ref(&self) -> (data: &[u8]) {
        vstd::slice::slice_subrange(self.node.data.as_slice(), 0, self.data_len)
    }
}

impl OsBufMut {
    /// The memory behind the buffer, filled part first. A received datagram is written to its
    /// start.
    pub fn memory_mut(&mut self) -> (memory: &mut [u8])
        ensures
            memory@ == old(self).node.data@,
            final(self).node.data@ == final(memory)@,
            final(self).node.id == old(self).node.id,
            final(self).node.pool == old(self).node.pool,
            final(self).data_len == old(self).data_len,
    {
        self.node.data.as_mut_slice()
    }

    /// The part behind the filled bytes.
    pub fn uninit_mut(&mut self) -> (spare: &mut [u8])
        requires
            old(self).wf(),
        ensures
            spare@ == old(self).node.data@.skip(old(self).data_len as int),
            final(self).node.data@ == old(self).node.data@.take(old(self).data_len as int) + final(spare)@,
            final(self).node.id == old(self).node.id,
            final(self).node.pool == old(self).node.pool,
            final(self).data_len == old(self).data_len,
    {
        let n: usize = self.data_len;
        let (_, spare) = self.node.data.as_mut_slice().split_at_mut(n);
        spare
    }

    /// The filled part, for writing.
    pub fn filled_mut(&mut self) -> (data: &mut [u8])
        requires
            old(self).wf(),
        ensures
            data@ == old(self).bytes(),
            final(self).node.data@ == final(data)@ + old(self).node.data@.skip(
                old(self).data_len as int,
            ),
            final(self).node.id == old(self).node.id,
            final(self).node.pool == old(self).node.pool,
            final(self).data_len == old(self).data_len,
    {
        let n: usize = self.data_len;
        let (data, _) = self.node.data.as_mut_slice().split_at_mut(n);
        data
    }

    /// Declares the first `new_len` bytes of the memory to be the filled part.
    pub fn set_filled(&mut self, new_len: usize)
        requires
            new_len <= old(self).spec_capacity(),
        ensures
            final(self).wf(),
            final(self).node == old(self).node,
            final(self).data_len == new_len,
            final(self).bytes() == old(self).node.data@.take(new_len as int),
    {
        self.data_len = new_len;
    }
}

impl PacketBufMut for OsBufMut {
    type Frozen = OsBuf;

    open spec fn bytes(&self) -> Seq<u8> {
        self.node.data@.take(self.data_len as int)
    }

    open spec fn wf(&self) -> bool {
        self.data_len <= self.node.data@.len()
    }

    open spec fn spec_capacity(&self) -> nat {
        self.node.data@.len()
    }

    open spec fn same_buffer(&self, other: OsBufMut) -> bool {
        self.node.id == other.node.id && self.node.pool == other.node.pool
    }

    fn capacity(&self) -> (n: usize) {
        self.node.data.len()
    }

    fn filled(&self) -> (data: &[u8]) {
        vstd::slice::slice_subrange(self.node.data.as_slice(), 0, self.data_len)
    }

    fn append(&mut self, data: &[u8]) {
        let ghost before = self.node.data@;
        let start: usize = self.data_len;
        let total: usize = self.node.data.len();
        let mut i: usize = 0;
        while i < data.len()
            invariant
                start + data@.len() <= total,
                total == before.len(),
                self.data_len == start,
                self.node.id == old(self).node.id,
                self.node.pool == old(self).node.pool,
                self.node.data@.len() == before.len(),
                i <= data@.len(),
                forall|j: int| 0 <= j < start ==> self.node.data@[j] == before[j],
                forall|j: int| 0 <= j < i ==> self.node.data@[start + j] == data@[j],
            decreases data@.len() - i,
        {
            self.node.data[start + i] = data[i];
            i += 1;
        }
        self.data_len = start + data.len();
        assert(self.bytes() =~= old(self).bytes() + data@);
    }

    open spec fn spec_freeze(&self) -> OsBuf {
        OsBuf { node: self.node, pooled: true, data_len: self.data_len }
    }

    fn freeze(self) -> (frozen: OsBuf) {
        OsBuf { node: self.node, pooled: true, data_len: self.data_len }
    }
}

/// Per-socket buffer pool. Two free lists: `local` (owner thread) and `remote` (buffers given
/// back on other threads). Nodes are made in slabs of [`SLAB_SIZE`]. They go back to the pool
/// that made them, whichever socket sent them: pools whose packets meet have different names.
pub struct OsPool {
    name: u64,
    max_payload: usize,
    owner: u64,
    local: Vec<OsBufNode>,
    remote: MpscQueue<OsBufNode>,
    next_id: u64,
}

/// The ids of nodes.
pub open spec fn node_ids(nodes: Seq<OsBufNode>) -> Seq<u64> {
    nodes.map_values(|n: OsBufNode| n.id)
}

/// Whether nodes are of the pool with a name.
pub open spec fn all_named(nodes: Seq<OsBufNode>, name: u64) -> bool {
    forall|i: int| 0 <= i < nodes.len() ==> (#[trigger] nodes[i]).pool == name
}

/// The ids of a new slab.
pub open spec fn slab_ids(next_id: u64) -> Seq<u64> {
    Seq::new(SLAB_SIZE as nat, |i: int| (next_id + i) as u64)
}

/// The free nodes and the next id, from which nodes are taken.
pub struct FreeNodes {
    pub ids: Seq<u64>,
    pub next_id: u64,
}

impl FreeNodes {
    /// Before a node is taken: with a new slab if none is free.
    pub open spec fn grown(self) -> FreeNodes {
        if self.ids.len() == 0 {
            FreeNodes {
                ids: slab_ids(self.next_id),
                next_id: (self.next_id + SLAB_SIZE) as u64,
            }
        } else {
            self
        }
    }

    /// After a node is taken: the last free one.
    pub open spec fn after_one(self) -> FreeNodes {
        FreeNodes { ids: self.grown().ids.drop_last(), next_id: self.grown().next_id }
    }

    /// After `n` nodes are taken.
    pub open spec fn after(self, n: nat) -> FreeNodes
        decreases n,
    {
        if n == 0 {
            self
        } else {
            self.after((n - 1) as nat).after_one()
        }
    }

    /// The ids of the `n` nodes that are taken, in order.
    pub open spec fn taken(self, n: nat) -> Seq<u64>
        decreases n,
    {
        if n == 0 {
            Seq::empty()
        } else {
            self.taken((n - 1) as nat).push(self.after((n - 1) as nat).grown().ids.last())
        }
    }

    /// No node is free twice, and none has an id still to be given out.
    pub open spec fn distinct(self) -> bool {
        &&& forall|i: int, j: int|
            0 <= i < j < self.ids.len() ==> #[trigger] self.ids[i] != #[trigger] self.ids[j]
        &&& forall|i: int| 0 <= i < self.ids.len() ==> #[trigger] self.ids[i] < self.next_id
    }
}

impl OsPool {
    pub closed spec fn spec_max_payload(&self) -> usize {
        self.max_payload
    }

    /// The owner thread.
    pub closed spec fn spec_owner(&self) -> u64 {
        self.owner
    }

    /// The pool's name.
    pub closed spec fn spec_name(&self) -> u64 {
        self.name
    }

    /// The free nodes are the pool's own.
    pub closed spec fn wf(&self) -> bool {
        &&& self.remote.wf()
        &&& self.remote.capacity() == REMOTE_CAP
        &&& all_named(self.local@, self.name)
        &&& all_named(self.remote@, self.name)
    }

    /// Ids of the nodes in the owner thread's list.
    pub closed spec fn local_ids(&self) -> Seq<u64> {
        node_ids(self.local@)
    }

    /// Ids of the nodes that other threads gave back and nobody has collected.
    pub closed spec fn remote_ids(&self) -> Seq<u64> {
        node_ids(self.remote@)
    }

    pub closed spec fn spec_next_id(&self) -> u64 {
        self.next_id
    }

    /// The nodes that the next allocation draws from.
    pub open spec fn free(&self) -> FreeNodes {
        FreeNodes { ids: self.local_ids() + self.remote_ids(), next_id: self.spec_next_id() }
    }

    /// Construct with IPv6-MTU default payload (1452 B), owned by thread `owner`.
    pub fn new(owner: u64) -> (pool: OsPool)
        ensures
            pool.wf(),
            pool.spec_max_payload() == IPV6_MAX_UDP_PAYLOAD,
            pool.spec_owner() == owner,
            pool.spec_name() == 0,
            pool.local_ids() == Seq::<u64>::empty(),
            pool.remote_ids() == Seq::<u64>::empty(),
            pool.spec_next_id() == 0,
    {
        OsPool::with_max_payload(IPV6_MAX_UDP_PAYLOAD, owner)
    }

    /// Construct with explicit max payload (1472 v4, 1452 v6).
    pub fn with_max_payload(max_payload: usize, owner: u64) -> (pool: OsPool)
        ensures
            pool.wf(),
            pool.spec_max_payload() == max_payload,
            pool.spec_owner() == owner,
            pool.spec_name() == 0,
            pool.local_ids() == Seq::<u64>::empty(),
            pool.remote_ids() == Seq::<u64>::empty(),
            pool.spec_next_id() == 0,
    {
        let pool = OsPool {
            name: 0,
            max_payload,
            owner,
            local: Vec::new(),
            remote: MpscQueue::new(REMOTE_CAP),
            next_id: 0,
        };
        assert(pool.local_ids() =~= Seq::<u64>::empty());
        assert(pool.remote_ids() =~= Seq::<u64>::empty());
        pool
    }

    /// Names the pool, before its first buffer is made.
    pub fn set_name(&mut self, name: u64)
        requires
            old(self).wf(),
            old(self).spec_next_id() == 0,
            old(self).free().ids.len() == 0,
        ensures
            final(self).wf(),
            final(self).spec_name() == name,
            final(self).free() == old(self).free(),
            final(self).spec_max_payload() == old(self).spec_max_payload(),
            final(self).spec_owner() == old(self).spec_owner(),
    {
        assert(self.local_ids().len() == 0 && self.remote_ids().len() == 0);
        self.name = name;
    }

    /// Whether the pool has made no buffer yet.
    pub fn is_fresh(&self) -> (fresh: bool)
        requires
            self.wf(),
        ensures
            fresh == (self.spec_next_id() == 0 && self.free().ids.len() == 0),
    {
        self.next_id == 0 && self.local.len() == 0 && self.remote.is_empty()
    }

    /// The owner thread.
    pub fn owner(&self) -> (thread: u64)
        ensures
            thread == self.spec_owner(),
    {
        self.owner
    }

    /// Whether that many more nodes, and a slab, can be told apart.
    pub fn has_names(&self, count: usize) -> (enough: bool)
        ensures
            enough == (self.spec_next_id() + count + SLAB_SIZE <= u64::MAX),
    {
        let left: u64 = u64::MAX - self.next_id;
        left >= SLAB_SIZE as u64 && left - SLAB_SIZE as u64 >= count as u64
    }

    /// Largest payload of a packet on this socket.
    pub fn max_payload_size(&self) -> (n: usize)
        ensures
            n == self.spec_max_payload(),
    {
        self.max_payload
    }

    /// sendmmsg passes iov directly; coalescing not needed.
    pub fn zerocopy_threshold(&self) -> (n: usize)
        ensures
            n == 0,
    {
        0
    }

    /// Moves what other threads gave back to the owner thread's list.
    fn collect_remote(&mut self)
        requires
            old(self).wf(),
        ensures
            final(self).wf(),
            final(self).local_ids() == old(self).local_ids() + old(self).remote_ids(),
            final(self).remote_ids() == Seq::<u64>::empty(),
            final(self).spec_next_id() == old(self).spec_next_id(),
            final(self).spec_max_payload() == old(self).spec_max_payload(),
            final(self).spec_owner() == old(self).spec_owner(),
            final(self).spec_name() == old(self).spec_name(),
    {
        self.remote.drain_into(&mut self.local);
        assert(self.local_ids() =~= old(self).local_ids() + old(self).remote_ids());
        assert(self.remote_ids() =~= Seq::<u64>::empty());
    }

    /// Makes a slab and adds its nodes to the owner thread's list.
    fn grow_slab(&mut self)
        requires
            old(self).wf(),
            old(self).spec_next_id() + SLAB_SIZE <= u64::MAX,
        ensures
            final(self).wf(),
            final(self).local_ids() == old(self).local_ids() + slab_ids(old(self).spec_next_id()),
            final(self).remote_ids() == old(self).remote_ids(),
            final(self).spec_next_id() == old(self).spec_next_id() + SLAB_SIZE,
            final(self).spec_max_payload() == old(self).spec_max_payload(),
            final(self).spec_owner() == old(self).spec_owner(),
            final(self).spec_name() == old(self).spec_name(),
    {
        let mut i: usize = 0;
        let ghost ids0 = self.local_ids();
        assert(slab_ids(self.next_id).take(0) =~= Seq::<u64>::empty());
        assert(self.local_ids() =~= ids0 + slab_ids(self.next_id).take(0));
        while i < SLAB_SIZE
            invariant
                i <= SLAB_SIZE,
                self.wf(),
                ids0 == old(self).local_ids(),
                self.local_ids() == ids0 + slab_ids(self.next_id).take(i as int),
                self.next_id == old(self).next_id,
                self.next_id + SLAB_SIZE <= u64::MAX,
                self.remote == old(self).remote,
                self.max_payload == old(self).max_payload,
                self.owner == old(self).owner,
                self.name == old(self).name,
            decreases SLAB_SIZE - i,
        {
            let ghost before = self.local_ids();
            let node = OsBufNode { pool: self.name, id: self.next_id + i as u64, data: Vec::new() };
            self.local.push(node);
            i += 1;
            assert(self.local_ids() =~= before.push((self.next_id + (i - 1)) as u64));
            assert(slab_ids(self.next_id).take(i as int) =~= slab_ids(self.next_id).take(
                i - 1,
            ).push((self.next_id + (i - 1)) as u64));
            assert(self.local_ids() =~= ids0 + slab_ids(self.next_id).take(i as int));
        }
        assert(slab_ids(self.next_id).take(i as int) =~= slab_ids(self.next_id));
        self.next_id = self.next_id + SLAB_SIZE as u64;
    }

    /// Appends `count` empty buffers of at least `capacity` bytes (at most [`MAX_BUF_SIZE`]) to
    /// `bufs`. Free nodes are used again, the one given back last first; where none is left, a
    /// slab is added.
    pub fn allocate(&mut self, capacity: usize, count: usize, bufs: &mut Vec<OsBufMut>) -> (n: usize)
        requires
            old(self).wf(),
            old(self).spec_next_id() + count + SLAB_SIZE <= u64::MAX,
        ensures
            final(self).wf(),
            n == count,
            final(self).free() == old(self).free().after(count as nat),
            final(self).remote_ids() == Seq::<u64>::empty(),
            final(self).spec_max_payload() == old(self).spec_max_payload(),
            final(self).spec_owner() == old(self).spec_owner(),
            final(self).spec_name() == old(self).spec_name(),
            final(bufs)@.len() == old(bufs)@.len() + count,
            final(bufs)@.take(old(bufs)@.len() as int) == old(bufs)@,
            forall|i: int|
                old(bufs)@.len() <= i < final(bufs)@.len() ==> {
                    let buf = #[trigger] final(bufs)@[i];
                    &&& buf.wf()
                    &&& buf.data_len == 0
                    &&& buf.node.pool == old(self).spec_name()
                    &&& buf.node.id == old(self).free().taken(count as nat)[i - old(bufs)@.len()]
                    &&& buf.spec_capacity() >= vstd::math::min(capacity as int, MAX_BUF_SIZE as int)
                },
    {
        let capacity: usize = if capacity < MAX_BUF_SIZE {
            capacity
        } else {
            MAX_BUF_SIZE
        };
        let ghost free0 = self.free();
        let ghost bufs0 = bufs@;
        self.collect_remote();
        assert(self.free().ids =~= free0.ids);
        let mut i: usize = 0;
        assert(bufs@.take(bufs0.len() as int) =~= bufs0);
        while i < count
            invariant
                i <= count,
                capacity <= MAX_BUF_SIZE,
                self.wf(),
                self.remote_ids() == Seq::<u64>::empty(),
                self.free() == free0.after(i as nat),
                self.spec_max_payload() == old(self).spec_max_payload(),
                self.spec_owner() == old(self).spec_owner(),
                self.spec_name() == old(self).spec_name(),
                free0.next_id + count + SLAB_SIZE <= u64::MAX,
                self.spec_next_id() <= free0.next_id + i + self.local_ids().len(),
                bufs@.len() == bufs0.len() + i,
                bufs@.take(bufs0.len() as int) == bufs0,
                forall|j: int|
                    bufs0.len() <= j < bufs@.len() ==> {
                        let buf = #[trigger] bufs@[j];
                        &&& buf.wf()
                        &&& buf.data_len == 0
                        &&& buf.node.pool == self.spec_name()
                        &&& buf.node.id == free0.taken(i as nat)[j - bufs0.len()]
                        &&& buf.spec_capacity() >= capacity
                    },
            decreases count - i,
        {
            let ghost before = self.free();
            assert(before.ids =~= self.local_ids());
            if self.local.len() == 0 {
                self.grow_slab();
                assert(self.local_ids() =~= before.grown().ids);
            }
            let ghost ids1 = self.local_ids();
            match self.local.pop() {
                Some(mut node) => {
                    assert(ids1.last() == node.id);
                    assert(self.local_ids() =~= ids1.drop_last());
                    if node.data.len() < capacity {
                        node.data.resize(capacity, 0);
                    }
                    let ghost pushed = bufs@;
                    bufs.push(OsBufMut { node, data_len: 0 });
                    proof {
                        assert(self.free().ids =~= before.after_one().ids);
                        assert(bufs@.take(bufs0.len() as int) =~= pushed.take(bufs0.len() as int));
                        let taken = free0.taken((i + 1) as nat);
                        assert forall|j: int| bufs0.len() <= j < bufs@.len() implies {
                            let buf = #[trigger] bufs@[j];
                            &&& buf.wf()
                            &&& buf.data_len == 0
                            &&& buf.node.pool == self.spec_name()
                            &&& buf.node.id == taken[j - bufs0.len()]
                            &&& buf.spec_capacity() >= capacity
                        } by {
                            lemma_taken_len(free0, i as nat);
                            if j < pushed.len() {
                                assert(bufs@[j] == pushed[j]);
                            }
                        }
                    }
                },
                None => {
                    assert(false);
                },
            }
            i += 1;
        }
        count
    }

    /// Number of free buffers.
    pub fn available(&mut self) -> (n: usize)
        requires
            old(self).wf(),
        ensures
            final(self).wf(),
            n == old(self).free().ids.len(),
            final(self).free() == old(self).free(),
            final(self).remote_ids() == Seq::<u64>::empty(),
            final(self).spec_max_payload() == old(self).spec_max_payload(),
            final(self).spec_owner() == old(self).spec_owner(),
            final(self).spec_name() == old(self).spec_name(),
    {
        self.collect_remote();
        assert(self.free().ids =~= old(self).free().ids);
        assert(self.local_ids().len() == self.local@.len());
        self.local.len()
    }

    /// Takes a node back that thread `thread` gives up: the owner's go to the local list, those
    /// of other threads through the queue, which drops them when it is full.
    fn return_node(&mut self, node: OsBufNode, thread: u64)
        requires
            old(self).wf(),
            node.pool == old(self).spec_name(),
        ensures
            final(self).wf(),
            final(self).spec_next_id() == old(self).spec_next_id(),
            final(self).spec_max_payload() == old(self).spec_max_payload(),
            final(self).spec_owner() == old(self).spec_owner(),
            final(self).spec_name() == old(self).spec_name(),
            node_returned(*old(self), *final(self), node.id, thread),
    {
        if thread == self.owner {
            self.local.push(node);
            assert(self.local_ids() =~= old(self).local_ids().push(node.id));
        } else {
            let _ = self.remote.push(node);
            assert(self.remote_ids() =~= old(self).remote_ids() || self.remote_ids() =~= old(
                self,
            ).remote_ids().push(node.id));
        }
    }

    /// Takes a frozen buffer back; one that came from no pool is just freed, and one of another
    /// pool is handed back.
    pub fn reclaim(&mut self, buf: OsBuf, thread: u64) -> (back: Option<OsBuf>)
        requires
            old(self).wf(),
        ensures
            final(self).wf(),
            final(self).spec_next_id() == old(self).spec_next_id(),
            final(self).spec_max_payload() == old(self).spec_max_payload(),
            final(self).spec_owner() == old(self).spec_owner(),
            final(self).spec_name() == old(self).spec_name(),
            buf.pooled && buf.node.pool == old(self).spec_name() ==> back is None && node_returned(
                *old(self),
                *final(self),
                buf.node.id,
                thread,
            ),
            buf.pooled && buf.node.pool != old(self).spec_name() ==> back == Some(buf)
                && *final(self) == *old(self),
            !buf.pooled ==> back is None && *final(self) == *old(self),
    {
        if !buf.pooled {
            None
        } else if buf.node.pool == self.name {
            self.return_node(buf.node, thread);
            None
        } else {
            Some(buf)
        }
    }

    /// Takes a mutable buffer back; one of another pool is handed back.
    pub fn reclaim_mut(&mut self, buf: OsBufMut, thread: u64) -> (back: Option<OsBufMut>)
        requires
            old(self).wf(),
        ensures
            final(self).wf(),
            final(self).spec_next_id() == old(self).spec_next_id(),
            final(self).spec_max_payload() == old(self).spec_max_payload(),
            final(self).spec_owner() == old(self).spec_owner(),
            final(self).spec_name() == old(self).spec_name(),
            buf.node.pool == old(self).spec_name() ==> back is None && node_returned(
                *old(self),
                *final(self),
                buf.node.id,
                thread,
            ),
            buf.node.pool != old(self).spec_name() ==> back == Some(buf) && *final(self) == *old(
                self,
            ),
    {
        if buf.node.pool == self.name {
            self.return_node(buf.node, thread);
            None
        } else {
            Some(buf)
        }
    }

    /// A received buffer for sending. Rx and Tx share the pool, so it is the buffer itself.
    pub fn from_rx(&self, rx: OsBufMut) -> (tx: Result<OsBufMut, OsBufMut>)
        ensures
            tx is Ok,
            tx->Ok_0 == rx,
    {
        Ok(rx)
    }
}

/// How giving a node back changes the free lists.
pub open spec fn node_returned(before: OsPool, after: OsPool, id: u64, thread: u64) -> bool {
    if thread == before.spec_owner() {
        after.local_ids() == before.local_ids().push(id) && after.remote_ids()
            == before.remote_ids()
    } else {
        &&& after.local_ids() == before.local_ids()
        &&& after.remote_ids() == (if before.remote_ids().len() < REMOTE_CAP {
            before.remote_ids().push(id)
        } else {
            before.remote_ids()
        })
    }
}

proof fn lemma_taken_len(free: FreeNodes, n: nat)
    ensures
        free.taken(n).len() == n,
    decreases n,
{
    if n > 0 {
        lemma_taken_len(free, (n - 1) as nat);
    }
}

proof fn lemma_after_one(free: FreeNodes)
    requires
        free.distinct(),
        free.next_id + SLAB_SIZE <= u64::MAX,
    ensures
        free.after_one().distinct(),
        !free.after_one().ids.contains(free.grown().ids.last()),
        free.grown().ids.last() < free.after_one().next_id,
        free.after_one().next_id <= free.next_id + SLAB_SIZE,
        free.next_id <= free.after_one().next_id,
        forall|id: u64| #[trigger]
            free.after_one().ids.contains(id) ==> free.ids.contains(id) || id >= free.next_id,
        free.ids.contains(free.grown().ids.last()) || free.grown().ids.last() >= free.next_id,
{
    let grown = free.grown();
    assert(grown.ids.len() > 0);
    assert(forall|i: int| 0 <= i < grown.ids.len() ==> #[trigger] grown.ids[i] < grown.next_id);
    assert forall|i: int, j: int| 0 <= i < j < grown.ids.len() implies #[trigger] grown.ids[i]
        != #[trigger] grown.ids[j] by {}
    let rest = grown.ids.drop_last();
    if rest.contains(grown.ids.last()) {
        let i = choose|i: int| 0 <= i < rest.len() && rest[i] == grown.ids.last();
        assert(grown.ids[i] == grown.ids[grown.ids.len() - 1]);
    }
    assert forall|id: u64| #[trigger] rest.contains(id) implies free.ids.contains(id) || id
        >= free.next_id by {
        let i = choose|i: int| 0 <= i < rest.len() && rest[i] == id;
        if free.ids.len() > 0 {
            assert(free.ids[i] == id);
        }
    }
    if free.ids.len() > 0 {
        assert(free.ids[free.ids.len() - 1] == grown.ids.last());
    }
}

/// A node is never handed out twice: of the nodes that an allocation takes, no two are the
/// same, none stays free, and each was free before or is new.
pub proof fn law_nodes_taken_once(free: FreeNodes, n: nat)
    requires
        free.distinct(),
        free.next_id + n * SLAB_SIZE <= u64::MAX,
    ensures
        free.after(n).distinct(),
        free.taken(n).len() == n,
        forall|i: int, j: int|
            0 <= i < j < n ==> #[trigger] free.taken(n)[i] != #[trigger] free.taken(n)[j],
        forall|i: int| 0 <= i < n ==> !free.after(n).ids.contains(#[trigger] free.taken(n)[i]),
        forall|i: int|
            0 <= i < n ==> free.ids.contains(#[trigger] free.taken(n)[i]) || free.taken(n)[i]
                >= free.next_id,
        forall|i: int| 0 <= i < n ==> #[trigger] free.taken(n)[i] < free.after(n).next_id,
        forall|id: u64| #[trigger]
            free.after(n).ids.contains(id) ==> free.ids.contains(id) || id >= free.next_id,
        free.next_id <= free.after(n).next_id <= free.next_id + n * SLAB_SIZE,
    decreases n,
{
    if n > 0 {
        let m = (n - 1) as nat;
        law_nodes_taken_once(free, m);
        let before = free.after(m);
        lemma_after_one(before);
        let last = before.grown().ids.last();
        let after = before.after_one();
        assert forall|i: int| 0 <= i < m implies free.taken(m)[i] != last && !after.ids.contains(
            #[trigger] free.taken(m)[i],
        ) by {
            assert(!before.ids.contains(free.taken(m)[i]));
            assert(free.taken(m)[i] < before.next_id);
        }
        assert(free.taken(n) == free.taken(m).push(last));
    }
}

/// Nodes that were given back are taken again, the last one first, before any slab is made.
pub proof fn law_returned_nodes_are_taken_again(kept: Seq<u64>, back: Seq<u64>, next_id: u64)
    ensures
        ({
            let free = FreeNodes { ids: kept + back, next_id };
            &&& free.taken(back.len()) == back.reverse()
            &&& free.after(back.len()) == (FreeNodes { ids: kept, next_id })
        }),
    decreases back.len(),
{
    let free = FreeNodes { ids: kept + back, next_id };
    if back.len() == 0 {
        assert(free.ids =~= kept);
        assert(free.taken(0) =~= back.reverse());
    } else {
        let m = (back.len() - 1) as nat;
        let rest = back.drop_first();
        law_returned_nodes_are_taken_again(kept.push(back[0]), rest, next_id);
        assert(kept.push(back[0]) + rest =~= kept + back);
        assert(kept.push(back[0]).drop_last() =~= kept);
        assert(rest.reverse().push(back[0]) =~= back.reverse());
    }
}

/// A node that is in use and given back is free, once; only a full queue from other threads lets
/// it go.
pub proof fn law_returned_node_is_free_once(before: OsPool, after: OsPool, id: u64, thread: u64)
    requires
        before.free().distinct(),
        !before.free().ids.contains(id),
        id < before.spec_next_id(),
        node_returned(before, after, id, thread),
        after.spec_next_id() == before.spec_next_id(),
    ensures
        after.free().distinct(),
        thread == before.spec_owner() || before.remote_ids().len() < REMOTE_CAP
            ==> after.free().ids.contains(id) && after.free().ids.len()
            == before.free().ids.len() + 1,
{
    let ids0 = before.free().ids;
    let ids1 = after.free().ids;
    let at = if thread == before.spec_owner() {
        before.local_ids().len() as int
    } else {
        ids0.len() as int
    };
    if thread == before.spec_owner() || before.remote_ids().len() < REMOTE_CAP {
        assert(ids1 =~= ids0.insert(at, id));
        assert(ids1[at] == id);
        assert forall|i: int, j: int| 0 <= i < j < ids1.len() implies #[trigger] ids1[i]
            != #[trigger] ids1[j] by {
            let i0 = if i < at {
                i
            } else {
                i - 1
            };
            let j0 = if j < at {
                j
            } else {
                j - 1
            };
            if i == at {
                assert(ids0.contains(ids0[j0]));
            } else if j == at {
                assert(ids0.contains(ids0[i0]));
            } else {
                assert(ids0[i0] != ids0[j0]);
            }
        }
    } else {
        assert(ids1 =~= ids0);
    }
}

/// Nodes are made 64 at a time, with the next numbers, and only when none is free.
pub proof fn law_slabs_are_made_when_needed(free: FreeNodes)
    requires
        free.next_id + 64 <= u64::MAX,
    ensures
        free.ids.len() > 0 ==> free.grown() == free,
        free.ids.len() == 0 ==> free.grown().ids.len() == 64 && free.grown().next_id == free.next_id
            + 64 && forall|i: int|
            0 <= i < 64 ==> #[trigger] free.grown().ids[i] == free.next_id + i,
        free.after_one().ids.len() == free.grown().ids.len() - 1,
{
}

/// The sizes of the pool: slabs of 64 nodes, 4096 nodes on their way back from other threads, and
/// at most 2048 bytes in each.
pub proof fn law_sizes_of_the_pool()
    ensures
        SLAB_SIZE == 64 && REMOTE_CAP == 4096 && MAX_BUF_SIZE == 2048,
{
}

} // verus!
