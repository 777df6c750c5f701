//! Pools of transmit buffers, as a tile sees them.

use crate::interface::PacketBufMut;
use crate::iouring::buffers::{IoTxBuf, IoTxBufMut, IoTxPool};
use crate::net::MAX_BUF_SIZE;
use crate::os::buffers::{FreeNodes, OsBuf, OsBufMut, OsPool, SLAB_SIZE};
use crate::xdp::buffers::{XdpTxBuf, XdpTxBufMut, XdpTxPool};
use vstd::prelude::*;

verus! {

/// A pool that packets are sent from.
pub trait TxPool: Sized {
    type Buf;

    type BufMut;

    /// The pool is usable.
    spec fn pool_wf(&self) -> bool;

    /// Number of free buffers.
    spec fn free_count(&self) -> nat;

    /// Number of free buffers after that many were asked for.
    spec fn free_after(&self, count: nat) -> nat;

    /// Whether the pool can tell that many more buffers apart.
    spec fn can_name(&self, count: nat) -> bool;

    /// Whether the pool makes buffers where it has too few free ones.
    spec fn grows(&self) -> bool;

    /// Largest payload of a packet.
    spec fn spec_max_payload(&self) -> usize;

    /// Whether a buffer is usable, empty, and can hold that many bytes.
    spec fn is_blank(buf: Self::BufMut, capacity: nat) -> bool;

    /// Whether a buffer has to be sent by the socket of this pool.
    spec fn spec_owns(&self, buf: Self::Buf) -> bool;

    /// Whether a buffer came from a pool.
    spec fn pooled(buf: Self::Buf) -> bool;

    /// Whether a buffer that came from a pool came from this one.
    spec fn is_home(&self, buf: Self::Buf) -> bool;

    /// Number of free buffers.
    fn available(&mut self) -> (n: usize)
        requires
            old(self).pool_wf(),
        ensures
            final(self).pool_wf(),
            n == old(self).free_count(),
            final(self).free_count() == old(self).free_count(),
            final(self).grows() == old(self).grows(),
            final(self).spec_max_payload() == old(self).spec_max_payload(),
            forall|c: nat| #[trigger] final(self).free_after(c) == old(self).free_after(c),
            forall|c: nat| #[trigger] final(self).can_name(c) == old(self).can_name(c),
            forall|buf: Self::Buf| #[trigger]
                final(self).spec_owns(buf) == old(self).spec_owns(buf),
            forall|buf: Self::Buf| #[trigger] final(self).is_home(buf) == old(self).is_home(buf),
    ;

    /// Whether the pool can tell that many more buffers apart.
    fn has_names(&self, count: usize) -> (enough: bool)
        requires
            self.pool_wf(),
        ensures
            enough == self.can_name(count as nat),
            enough ==> forall|c: nat| c <= count ==> #[trigger] self.can_name(c),
    ;

    /// Largest payload of a packet.
    fn max_payload_size(&self) -> (n: usize)
        ensures
            n == self.spec_max_payload(),
    ;

    /// Appends up to `count` empty buffers for `capacity` bytes each, or for a largest payload
    /// where that is less, and returns how many: all of them from a pool that makes more, and else
    /// as many as it has free.
    fn allocate(&mut self, capacity: usize, count: usize, bufs: &mut Vec<Self::BufMut>) -> (n: usize)
        requires
            old(self).pool_wf(),
            old(self).can_name(count as nat),
        ensures
            final(self).pool_wf(),
            n == (if old(self).grows() || count <= old(self).free_count() {
                count as int
            } else {
                old(self).free_count() as int
            }),
            final(self).grows() == old(self).grows(),
            final(self).spec_max_payload() == old(self).spec_max_payload(),
            final(bufs)@.len() == old(bufs)@.len() + n,
            final(bufs)@.take(old(bufs)@.len() as int) == old(bufs)@,
            forall|i: int|
                old(bufs)@.len() <= i < final(bufs)@.len() ==> Self::is_blank(
                    #[trigger] final(bufs)@[i],
                    vstd::math::min(capacity as int, old(self).spec_max_payload() as int) as nat,
                ),
            final(self).free_count() == old(self).free_after(count as nat),
            old(self).free_count() >= n ==> final(self).free_count() == old(self).free_count() - n,
            forall|buf: Self::Buf| #[trigger]
                final(self).spec_owns(buf) == old(self).spec_owns(buf),
            forall|buf: Self::Buf| #[trigger] final(self).is_home(buf) == old(self).is_home(buf),
    ;

    /// Takes a buffer back on the owner's thread. One that came from no pool is just freed, and
    /// one of another pool is handed back.
    fn take_back(&mut self, buf: Self::Buf) -> (back: Option<Self::Buf>)
        requires
            old(self).pool_wf(),
        ensures
            final(self).pool_wf(),
            back == (if Self::pooled(buf) && !old(self).is_home(buf) {
                Some(buf)
            } else {
                None
            }),
            final(self).free_count() == old(self).free_count() + (if Self::pooled(buf) && old(
                self,
            ).is_home(buf) {
                1nat
            } else {
                0nat
            }),
            final(self).grows() == old(self).grows(),
            final(self).spec_max_payload() == old(self).spec_max_payload(),
            forall|c: nat| #[trigger] final(self).can_name(c) == old(self).can_name(c),
            forall|other: Self::Buf| #[trigger]
                final(self).spec_owns(other) == old(self).spec_owns(other),
            forall|other: Self::Buf| #[trigger]
                final(self).is_home(other) == old(self).is_home(other),
    ;

    /// Whether a buffer has to be sent by the socket of this pool.
    fn owns(&self, buf: &Self::Buf) -> (owned: bool)
        ensures
            owned == self.spec_owns(*buf),
    ;
}

/// Taking nodes of which enough are free takes the last ones, and makes no slab.
proof fn lemma_after_enough(free: FreeNodes, n: nat)
    requires
        n <= free.ids.len(),
    ensures
        free.after(n).ids == free.ids.take(free.ids.len() - n),
        free.after(n).next_id == free.next_id,
    decreases n,
{
    if n == 0 {
        assert(free.ids.take(free.ids.len() as int) =~= free.ids);
    } else {
        lemma_after_enough(free, (n - 1) as nat);
        assert(free.ids.take(free.ids.len() - (n - 1)).drop_last() =~= free.ids.take(
            free.ids.len() - n,
        ));
    }
}

/// Any socket can send the buffers of this pool.
impl TxPool for OsPool {
    type Buf = OsBuf;

    type BufMut = OsBufMut;

    open spec fn pool_wf(&self) -> bool {
        self.wf() && OsPool::spec_max_payload(self) <= MAX_BUF_SIZE
    }

    open spec fn spec_max_payload(&self) -> usize {
        OsPool::spec_max_payload(self)
    }

    open spec fn is_blank(buf: OsBufMut, capacity: nat) -> bool {
        buf.wf() && buf.bytes().len() == 0 && buf.spec_capacity() >= capacity
    }

    open spec fn free_count(&self) -> nat {
        self.free().ids.len()
    }

    /// A slab is added whenever none is left.
    open spec fn free_after(&self, count: nat) -> nat {
        self.free().after(count).ids.len()
    }

    open spec fn can_name(&self, count: nat) -> bool {
        self.spec_next_id() + count + SLAB_SIZE <= u64::MAX
    }

    open spec fn grows(&self) -> bool {
        true
    }

    open spec fn spec_owns(&self, buf: OsBuf) -> bool {
        true
    }

    fn available(&mut self) -> (n: usize) {
        OsPool::available(self)
    }

    open spec fn pooled(buf: OsBuf) -> bool {
        buf.pooled
    }

    open spec fn is_home(&self, buf: OsBuf) -> bool {
        buf.node.pool == self.spec_name()
    }

    fn take_back(&mut self, buf: OsBuf) -> (back: Option<OsBuf>) {
        let owner: u64 = self.owner();
        self.reclaim(buf, owner)
    }

    fn has_names(&self, count: usize) -> (enough: bool) {
        OsPool::has_names(self, count)
    }

    fn max_payload_size(&self) -> (n: usize) {
        OsPool::max_payload_size(self)
    }

    fn allocate(&mut self, capacity: usize, count: usize, bufs: &mut Vec<OsBufMut>) -> (n: usize) {
        proof {
            if count <= self.free().ids.len() {
                lemma_after_enough(self.free(), count as nat);
            }
        }
        OsPool::allocate(self, capacity, count, bufs)
    }

    fn owns(&self, _buf: &OsBuf) -> (owned: bool) {
        true
    }
}

/// Any socket can send the buffers of this pool.
impl TxPool for IoTxPool {
    type Buf = IoTxBuf;

    type BufMut = IoTxBufMut;

    open spec fn pool_wf(&self) -> bool {
        self.wf()
    }

    open spec fn spec_max_payload(&self) -> usize {
        IoTxPool::spec_max_payload(self)
    }

    open spec fn is_blank(buf: IoTxBufMut, capacity: nat) -> bool {
        buf.wf() && buf.bytes().len() == 0 && buf.spec_capacity() >= capacity
    }

    open spec fn free_count(&self) -> nat {
        self.local().len() + self.remote().len()
    }

    open spec fn free_after(&self, count: nat) -> nat {
        vstd::math::max(self.local().len() + self.remote().len() - count, 0) as nat
    }

    open spec fn can_name(&self, count: nat) -> bool {
        true
    }

    open spec fn grows(&self) -> bool {
        true
    }

    open spec fn spec_owns(&self, buf: IoTxBuf) -> bool {
        true
    }

    fn available(&mut self) -> (n: usize) {
        IoTxPool::available(self)
    }

    open spec fn pooled(buf: IoTxBuf) -> bool {
        buf.pooled
    }

    open spec fn is_home(&self, buf: IoTxBuf) -> bool {
        buf.pool == self.spec_name()
    }

    fn take_back(&mut self, buf: IoTxBuf) -> (back: Option<IoTxBuf>) {
        let owner: u64 = self.owner();
        self.reclaim(buf, owner)
    }

    fn has_names(&self, _count: usize) -> (enough: bool) {
        true
    }

    fn max_payload_size(&self) -> (n: usize) {
        IoTxPool::max_payload_size(self)
    }

    fn allocate(&mut self, capacity: usize, count: usize, bufs: &mut Vec<IoTxBufMut>) -> (n: usize) {
        IoTxPool::allocate(self, capacity, count, bufs)
    }

    fn owns(&self, _buf: &IoTxBuf) -> (owned: bool) {
        true
    }
}

/// The kernel sends from a socket's own UMEM only.
impl TxPool for XdpTxPool {
    type Buf = XdpTxBuf;

    type BufMut = XdpTxBufMut;

    open spec fn pool_wf(&self) -> bool {
        self.wf() && self.shape().max_payload <= self.shape().frame_size.saturating_sub(
            self.shape().headroom,
        )
    }

    open spec fn spec_max_payload(&self) -> usize {
        self.shape().max_payload
    }

    open spec fn is_blank(buf: XdpTxBufMut, capacity: nat) -> bool {
        buf.payload_len == 0 && buf.cap >= capacity
    }

    open spec fn free_count(&self) -> nat {
        self.local().len() + self.remote().len()
    }

    open spec fn free_after(&self, count: nat) -> nat {
        vstd::math::max(self.local().len() + self.remote().len() - count, 0) as nat
    }

    open spec fn can_name(&self, count: nat) -> bool {
        true
    }

    open spec fn grows(&self) -> bool {
        false
    }

    open spec fn spec_owns(&self, buf: XdpTxBuf) -> bool {
        buf.umem_id == self.shape().umem_id
    }

    fn available(&mut self) -> (n: usize) {
        XdpTxPool::available(self)
    }

    open spec fn pooled(buf: XdpTxBuf) -> bool {
        true
    }

    open spec fn is_home(&self, buf: XdpTxBuf) -> bool {
        buf.umem_id == self.shape().umem_id
    }

    fn take_back(&mut self, buf: XdpTxBuf) -> (back: Option<XdpTxBuf>) {
        if XdpTxPool::owns(self, &buf) {
            self.reclaim_completed(buf.frame_addr);
            None
        } else {
            Some(buf)
        }
    }

    fn has_names(&self, _count: usize) -> (enough: bool) {
        true
    }

    fn max_payload_size(&self) -> (n: usize) {
        XdpTxPool::max_payload_size(self)
    }

    fn allocate(&mut self, capacity: usize, count: usize, bufs: &mut Vec<XdpTxBufMut>) -> (n: usize) {
        let ghost bufs0 = bufs@;
        let n: usize = XdpTxPool::allocate(self, capacity, count, bufs);
        assert(bufs@.take(bufs0.len() as int) =~= bufs0);
        n
    }

    fn owns(&self, buf: &XdpTxBuf) -> (owned: bool) {
        XdpTxPool::owns(self, buf)
    }
}

/// Which socket can send a buffer: any, where the kernel reads it from the heap, and only the one
/// of its memory, where it reads it from there. Pools on the heap make more buffers; one in that
/// memory has what it has.
pub proof fn law_what_pools_can_send(
    os: OsPool,
    io: IoTxPool,
    xdp: XdpTxPool,
    a: OsBuf,
    b: IoTxBuf,
    c: XdpTxBuf,
)
    ensures
        os.spec_owns(a) && io.spec_owns(b),
        xdp.spec_owns(c) <==> c.umem_id == xdp.shape().umem_id,
        xdp.is_home(c) <==> c.umem_id == xdp.shape().umem_id,
        OsPool::pooled(a) == a.pooled && IoTxPool::pooled(b) == b.pooled && XdpTxPool::pooled(c),
        os.is_home(a) <==> a.node.pool == os.spec_name(),
        io.is_home(b) <==> b.pool == io.spec_name(),
        os.grows() && io.grows() && !xdp.grows(),
        os.free_count() == os.local_ids().len() + os.remote_ids().len(),
        io.free_count() == io.local().len() + io.remote().len(),
        xdp.free_count() == xdp.local().len() + xdp.remote().len(),
{
}

/// A buffer that is handed out for sending is empty and has the room that was asked for.
pub proof fn law_blank_buffers_have_room(a: OsBufMut, b: IoTxBufMut, c: XdpTxBufMut, capacity: nat)
    ensures
        OsPool::is_blank(a, capacity) ==> a.data_len == 0 && a.node.data@.len() >= capacity,
        IoTxPool::is_blank(b, capacity) ==> b.data_len == 0 && b.data@.len() >= capacity,
        XdpTxPool::is_blank(c, capacity) ==> c.payload_len == 0 && c.cap >= capacity,
{
}

/// An allocation leaves as many free as there were, less what was asked for, and none where there
/// were too few.
pub proof fn law_free_after_allocation(io: IoTxPool, xdp: XdpTxPool, count: nat)
    ensures
        count <= io.free_count() ==> io.free_after(count) + count == io.free_count(),
        count > io.free_count() ==> io.free_after(count) == 0,
        count <= xdp.free_count() ==> xdp.free_after(count) + count == xdp.free_count(),
        count > xdp.free_count() ==> xdp.free_after(count) == 0,
{
}

} // verus!
