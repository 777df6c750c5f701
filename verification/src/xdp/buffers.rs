//! Buffer pools and wrappers for the AF_XDP backend. A buffer is a range of a UMEM frame.
//!
//! - `XdpRxPool` is a marker pool: `allocate` returns zero-cost `Empty`
//!   placeholders that `recv` swaps for `Ring` variants naming a UMEM
//!   frame. The frame goes back via [`Reclaimer`].
//! - `XdpTxPool` owns a free list of UMEM frame addresses; `allocate` hands
//!   out an `XdpTxBufMut` with the payload region after `HEADROOM` so
//!   `send` can write ETH/IP/UDP headers in place.
//! - `from_rx` copies the Rx payload into a fresh Tx frame.

use crate::mpsc::MpscQueue;
use crate::xdp::reclaimer::Reclaimer;
use crate::xdp::umem::Umem;
use vstd::prelude::*;

verus! {

/// Bytes at the start of every TX frame reserved for ETH+IPv4+UDP headers
/// that `send` writes in place. 14 + 20 + 8 = 42.
pub const HEADROOM: u32 = 42;

/// Marker pool. Holds no buffers; `allocate` returns `Empty` placeholders that
/// `recv` swaps for live `Ring` variants in a kernel-filled UMEM frame.
pub struct XdpRxPool {
    pub max_payload: usize,
}

impl XdpRxPool {
    pub fn new(max_payload: usize) -> (pool: XdpRxPool)
        ensures
            pool.max_payload == max_payload,
    {
        XdpRxPool { max_payload }
    }

    pub fn max_payload_size(&self) -> (n: usize)
        ensures
            n == self.max_payload,
    {
        self.max_payload
    }

    /// Appends `count` placeholders.
    pub fn allocate(&self, _capacity: usize, count: usize, bufs: &mut Vec<XdpRxBufMut>) -> (n:
        usize)
        ensures
            n == count,
            final(bufs)@ == old(bufs)@ + Seq::new(
                count as nat,
                |i: int| XdpRxBufMut { repr: XdpRxBufMutRepr::Empty },
            ),
    {
        let ghost bufs0 = bufs@;
        let mut i: usize = 0;
        assert(bufs@ =~= bufs0 + Seq::new(
            0,
            |j: int| XdpRxBufMut { repr: XdpRxBufMutRepr::Empty },
        ));
        while i < count
            invariant
                i <= count,
                bufs@ == bufs0 + Seq::new(
                    i as nat,
                    |j: int| XdpRxBufMut { repr: XdpRxBufMutRepr::Empty },
                ),
            decreases count - i,
        {
            bufs.push(XdpRxBufMut { repr: XdpRxBufMutRepr::Empty });
            i += 1;
            assert(bufs@ =~= bufs0 + Seq::new(
                i as nat,
                |j: int| XdpRxBufMut { repr: XdpRxBufMutRepr::Empty },
            ));
        }
        count
    }
}

/// Two-state Rx buffer. `Empty` is what `XdpRxPool::allocate` produces; `recv`
/// replaces it with a `Ring` variant in the kernel-filled UMEM frame.
#[derive(Debug, Clone, Copy, PartialEq, Eq, Structural)]
pub enum XdpRxBufMutRepr {
    Empty,
    Ring { frame_addr: u64, payload_offset: u32, payload_len: u32, cap: u32 },
}

pub struct XdpRxBufMut {
    pub repr: XdpRxBufMutRepr,
}

/// Whether a payload region lies in the memory.
pub open spec fn in_umem(umem: Umem, frame_addr: u64, payload_offset: u32, payload_len: u32) -> bool {
    frame_addr + payload_offset + payload_len <= umem@.len()
}

/// The bytes of a payload region.
pub open spec fn umem_payload(
    umem: Umem,
    frame_addr: u64,
    payload_offset: u32,
    payload_len: u32,
) -> Seq<u8> {
    umem@.subrange(
        frame_addr + payload_offset,
        frame_addr + payload_offset + payload_len,
    )
}

/// Reads a payload region.
fn payload_at(umem: &Umem, frame_addr: u64, payload_offset: u32, payload_len: u32) -> (data: &[u8])
    requires
        umem.wf(),
        in_umem(*umem, frame_addr, payload_offset, payload_len),
    ensures
        data@ == umem_payload(*umem, frame_addr, payload_offset, payload_len),
{
    let size: usize = umem.len();
    assert(frame_addr + payload_offset <= size);
    umem.slice_at(frame_addr + payload_offset as u64, payload_len as usize)
}

/// Whether a UMEM holds the bytes that were written to a region at `at`.
pub open spec fn region_written(before: Umem, after: Umem, at: int, written: Seq<u8>) -> bool {
    &&& after.wf()
    &&& after@ == crate::xdp::umem::overwritten(before@, at, written)
}

/// Opens a payload region for writing, `skip` bytes from its start.
fn payload_at_mut<'a>(
    umem: &'a mut Umem,
    frame_addr: u64,
    payload_offset: u32,
    skip: u32,
    len: u32,
) -> (data: &'a mut [u8])
    requires
        old(umem).wf(),
        frame_addr + payload_offset + skip + len <= old(umem)@.len(),
    ensures
        final(umem).spec_frame_size() == old(umem).spec_frame_size(),
        final(umem).spec_frame_count() == old(umem).spec_frame_count(),
        data@ == old(umem)@.subrange(
            frame_addr + payload_offset + skip,
            frame_addr + payload_offset + skip + len,
        ),
        final(data)@.len() == len ==> region_written(
            *old(umem),
            *final(umem),
            frame_addr + payload_offset + skip,
            final(data)@,
        ),
{
    let size: usize = umem.len();
    assert(frame_addr + payload_offset + skip <= size);
    umem.slice_at_mut(frame_addr + payload_offset as u64 + skip as u64, len as usize)
}

impl XdpRxBufMut {
    /// Wrap a kernel-filled UMEM frame as a `Ring` buffer.
    pub fn from_ring_frame(
        frame_addr: u64,
        payload_offset: u32,
        payload_len: u32,
        cap: u32,
    ) -> (buf: XdpRxBufMut)
        ensures
            buf.repr == (XdpRxBufMutRepr::Ring { frame_addr, payload_offset, payload_len, cap }),
    {
        XdpRxBufMut { repr: XdpRxBufMutRepr::Ring { frame_addr, payload_offset, payload_len, cap } }
    }

    pub fn capacity(&self) -> (n: usize)
        ensures
            n == (match self.repr {
                XdpRxBufMutRepr::Empty => 0u32,
                XdpRxBufMutRepr::Ring { frame_addr, payload_offset, payload_len, cap } => cap,
            }),
    {
        match self.repr {
            XdpRxBufMutRepr::Empty => 0,
            XdpRxBufMutRepr::Ring { frame_addr, payload_offset, payload_len, cap } => cap as usize,
        }
    }

    /// The packet's bytes.
    pub fn filled<'a>(&self, umem: &'a Umem) -> (data: &'a [u8])
        requires
            umem.wf(),
            self.repr matches XdpRxBufMutRepr::Ring {
                frame_addr,
                payload_offset,
                payload_len,
                cap,
            } ==> in_umem(*umem, frame_addr, payload_offset, payload_len),
        ensures
            match self.repr {
                XdpRxBufMutRepr::Empty => data@.len() == 0,
                XdpRxBufMutRepr::Ring { frame_addr, payload_offset, payload_len, cap } => data@
                    == umem_payload(*umem, frame_addr, payload_offset, payload_len),
            },
    {
        match self.repr {
            XdpRxBufMutRepr::Empty => umem.slice_at(0, 0),
            XdpRxBufMutRepr::Ring { frame_addr, payload_offset, payload_len, cap } => payload_at(
                umem,
                frame_addr,
                payload_offset,
                payload_len,
            ),
        }
    }

    /// The packet's bytes, for writing.
    pub fn filled_mut<'a>(&self, umem: &'a mut Umem) -> (data: &'a mut [u8])
        requires
            old(umem).wf(),
            self.repr matches XdpRxBufMutRepr::Ring {
                frame_addr,
                payload_offset,
                payload_len,
                cap,
            } ==> in_umem(*old(umem), frame_addr, payload_offset, payload_len),
        ensures
            final(umem).spec_frame_size() == old(umem).spec_frame_size(),
            final(umem).spec_frame_count() == old(umem).spec_frame_count(),
            match self.repr {
                XdpRxBufMutRepr::Empty => {
                    &&& data@.len() == 0
                    &&& final(data)@.len() == 0 ==> region_written(
                        *old(umem),
                        *final(umem),
                        0,
                        final(data)@,
                    )
                },
                XdpRxBufMutRepr::Ring { frame_addr, payload_offset, payload_len, cap } => {
                    &&& data@ == umem_payload(*old(umem), frame_addr, payload_offset, payload_len)
                    &&& final(data)@.len() == data@.len() ==> region_written(
                        *old(umem),
                        *final(umem),
                        frame_addr + payload_offset,
                        final(data)@,
                    )
                },
            },
    {
        match self.repr {
            XdpRxBufMutRepr::Empty => umem.slice_at_mut(0, 0),
            XdpRxBufMutRepr::Ring { frame_addr, payload_offset, payload_len, cap } => payload_at_mut(
                umem,
                frame_addr,
                payload_offset,
                0,
                payload_len,
            ),
        }
    }

    /// Spare capacity: it follows the filled bytes within the payload region.
    pub fn uninit_mut<'a>(&self, umem: &'a mut Umem) -> (spare: &'a mut [u8])
        requires
            old(umem).wf(),
            self.repr matches XdpRxBufMutRepr::Ring {
                frame_addr,
                payload_offset,
                payload_len,
                cap,
            } ==> in_umem(*old(umem), frame_addr, payload_offset, cap) && in_umem(
                *old(umem),
                frame_addr,
                payload_offset,
                payload_len,
            ),
        ensures
            final(umem).spec_frame_size() == old(umem).spec_frame_size(),
            final(umem).spec_frame_count() == old(umem).spec_frame_count(),
            match self.repr {
                XdpRxBufMutRepr::Empty => {
                    &&& spare@.len() == 0
                    &&& final(spare)@.len() == 0 ==> region_written(
                        *old(umem),
                        *final(umem),
                        0,
                        final(spare)@,
                    )
                },
                XdpRxBufMutRepr::Ring { frame_addr, payload_offset, payload_len, cap } => {
                    let start = frame_addr + payload_offset + payload_len;
                    &&& spare@ == old(umem)@.subrange(
                        start,
                        vstd::math::max(start, frame_addr + payload_offset + cap),
                    )
                    &&& final(spare)@.len() == spare@.len() ==> region_written(
                        *old(umem),
                        *final(umem),
                        start,
                        final(spare)@,
                    )
                },
            },
    {
        match self.repr {
            XdpRxBufMutRepr::Empty => umem.slice_at_mut(0, 0),
            XdpRxBufMutRepr::Ring { frame_addr, payload_offset, payload_len, cap } => payload_at_mut(
                umem,
                frame_addr,
                payload_offset,
                payload_len,
                cap.saturating_sub(payload_len),
            ),
        }
    }

    /// Sets the number of bytes filled; a placeholder stays as it is.
    pub fn set_filled(&mut self, new_len: u32)
        requires
            old(self).repr matches XdpRxBufMutRepr::Ring {
                frame_addr,
                payload_offset,
                payload_len,
                cap,
            } ==> new_len <= cap,
        ensures
            final(self).repr == (match old(self).repr {
                XdpRxBufMutRepr::Empty => XdpRxBufMutRepr::Empty,
                XdpRxBufMutRepr::Ring { frame_addr, payload_offset, payload_len, cap } =>
                XdpRxBufMutRepr::Ring { frame_addr, payload_offset, payload_len: new_len, cap },
            }),
    {
        match self.repr {
            XdpRxBufMutRepr::Empty => {},
            XdpRxBufMutRepr::Ring { frame_addr, payload_offset, payload_len, cap } => {
                self.repr =
                XdpRxBufMutRepr::Ring { frame_addr, payload_offset, payload_len: new_len, cap };
            },
        }
    }

    /// Frame address behind this buffer (or `None` for `Empty`).
    pub fn frame_addr(&self) -> (addr: Option<u64>)
        ensures
            addr == held_frame(*self),
    {
        match self.repr {
            XdpRxBufMutRepr::Empty => None,
            XdpRxBufMutRepr::Ring { frame_addr, payload_offset, payload_len, cap } => Some(
                frame_addr,
            ),
        }
    }

    /// Freezes a frame; there is nothing to freeze in a placeholder.
    pub fn freeze(self) -> (frozen: XdpRxBuf)
        requires
            self.repr is Ring,
        ensures
            self.repr == (XdpRxBufMutRepr::Ring {
                frame_addr: frozen.frame_addr,
                payload_offset: frozen.payload_offset,
                payload_len: frozen.payload_len,
                cap: self.repr->cap,
            }),
    {
        match self.repr {
            XdpRxBufMutRepr::Ring { frame_addr, payload_offset, payload_len, cap } => XdpRxBuf {
                frame_addr,
                payload_offset,
                payload_len,
            },
            XdpRxBufMutRepr::Empty => XdpRxBuf {
                frame_addr: 0,
                payload_offset: 0,
                payload_len: 0,
            },
        }
    }
}

/// The frame behind a receive buffer.
pub open spec fn held_frame(buf: XdpRxBufMut) -> Option<u64> {
    match buf.repr {
        XdpRxBufMutRepr::Empty => None,
        XdpRxBufMutRepr::Ring { frame_addr, payload_offset, payload_len, cap } => Some(frame_addr),
    }
}

/// Frozen Rx buffer. Its frame goes back to FILL by way of the reclaimer.
pub struct XdpRxBuf {
    pub frame_addr: u64,
    pub payload_offset: u32,
    pub payload_len: u32,
}

impl XdpRxBuf {
    /// The packet's bytes.
    pub fn as_ref<'a>(&self, umem: &'a Umem) -> (data: &'a [u8])
        requires
            umem.wf(),
            in_umem(*umem, self.frame_addr, self.payload_offset, self.payload_len),
        ensures
            data@ == umem_payload(*umem, self.frame_addr, self.payload_offset, self.payload_len),
    {
        payload_at(umem, self.frame_addr, self.payload_offset, self.payload_len)
    }
}

/// Mutable Tx buffer. `[0..payload_offset)` of the frame is reserved for ETH/IP/UDP
/// headers (filled by `send`); `[payload_offset..+cap)` is the user's.
pub struct XdpTxBufMut {
    /// Which UMEM the frame belongs to.
    pub umem_id: u64,
    pub frame_addr: u64,
    pub payload_offset: u32,
    pub payload_len: u32,
    pub cap: u32,
}

impl XdpTxBufMut {
    /// The payload fits the user's region, and that lies in the memory.
    pub open spec fn wf(&self, umem: Umem) -> bool {
        self.payload_len <= self.cap && in_umem(
            umem,
            self.frame_addr,
            self.payload_offset,
            self.cap,
        )
    }

    pub fn capacity(&self) -> (n: usize)
        ensures
            n == self.cap,
    {
        self.cap as usize
    }

    /// The payload's bytes.
    pub fn filled<'a>(&self, umem: &'a Umem) -> (data: &'a [u8])
        requires
            umem.wf(),
            self.wf(*umem),
        ensures
            data@ == umem_payload(*umem, self.frame_addr, self.payload_offset, self.payload_len),
    {
        payload_at(umem, self.frame_addr, self.payload_offset, self.payload_len)
    }

    /// Appends bytes to the payload.
    pub fn append(&mut self, umem: &mut Umem, data: &[u8])
        requires
            old(umem).wf(),
            old(self).wf(*old(umem)),
            old(self).payload_len + data@.len() <= old(self).cap,
        ensures
            final(umem).wf(),
            final(umem).spec_frame_size() == old(umem).spec_frame_size(),
            final(umem).spec_frame_count() == old(umem).spec_frame_count(),
            final(umem)@.len() == old(umem)@.len(),
            final(self).wf(*final(umem)),
            *final(self) == (XdpTxBufMut {
                payload_len: (old(self).payload_len + data@.len()) as u32,
                ..*old(self)
            }),
            umem_payload(
                *final(umem),
                final(self).frame_addr,
                final(self).payload_offset,
                final(self).payload_len,
            ) == umem_payload(
                *old(umem),
                old(self).frame_addr,
                old(self).payload_offset,
                old(self).payload_len,
            ) + data@,
            region_written(
                *old(umem),
                *final(umem),
                old(self).frame_addr + old(self).payload_offset + old(self).payload_len,
                data@,
            ),
    {
        let size: usize = umem.len();
        assert(self.frame_addr + self.payload_offset + self.cap <= size);
        let at: u64 = self.frame_addr + self.payload_offset as u64 + self.payload_len as u64;
        umem.write_at(at, data);
        self.payload_len = self.payload_len + data.len() as u32;
        assert(umem_payload(*umem, self.frame_addr, self.payload_offset, self.payload_len)
            =~= umem_payload(
            *old(umem),
            self.frame_addr,
            self.payload_offset,
            old(self).payload_len,
        ) + data@);
    }

    /// The payload's bytes, for writing.
    pub fn filled_mut<'a>(&self, umem: &'a mut Umem) -> (data: &'a mut [u8])
        requires
            old(umem).wf(),
            self.wf(*old(umem)),
        ensures
            final(umem).spec_frame_size() == old(umem).spec_frame_size(),
            final(umem).spec_frame_count() == old(umem).spec_frame_count(),
            data@ == umem_payload(
                *old(umem),
                self.frame_addr,
                self.payload_offset,
                self.payload_len,
            ),
            final(data)@.len() == data@.len() ==> region_written(
                *old(umem),
                *final(umem),
                self.frame_addr + self.payload_offset,
                final(data)@,
            ),
    {
        payload_at_mut(umem, self.frame_addr, self.payload_offset, 0, self.payload_len)
    }

    /// The part of the user's region behind the payload.
    pub fn uninit_mut<'a>(&self, umem: &'a mut Umem) -> (spare: &'a mut [u8])
        requires
            old(umem).wf(),
            self.wf(*old(umem)),
        ensures
            final(umem).spec_frame_size() == old(umem).spec_frame_size(),
            final(umem).spec_frame_count() == old(umem).spec_frame_count(),
            spare@ == old(umem)@.subrange(
                self.frame_addr + self.payload_offset + self.payload_len,
                self.frame_addr + self.payload_offset + self.cap,
            ),
            final(spare)@.len() == spare@.len() ==> region_written(
                *old(umem),
                *final(umem),
                self.frame_addr + self.payload_offset + self.payload_len,
                final(spare)@,
            ),
    {
        payload_at_mut(
            umem,
            self.frame_addr,
            self.payload_offset,
            self.payload_len,
            self.cap - self.payload_len,
        )
    }

    /// Declares the first `new_len` bytes of the user's region to be the payload.
    pub fn set_filled(&mut self, new_len: u32)
        requires
            new_len <= old(self).cap,
        ensures
            *final(self) == (XdpTxBufMut { payload_len: new_len, ..*old(self) }),
    {
        self.payload_len = new_len;
    }

    pub fn freeze(self) -> (frozen: XdpTxBuf)
        ensures
            frozen == (XdpTxBuf {
                umem_id: self.umem_id,
                frame_addr: self.frame_addr,
                payload_offset: self.payload_offset,
                payload_len: self.payload_len,
            }),
    {
        XdpTxBuf {
            umem_id: self.umem_id,
            frame_addr: self.frame_addr,
            payload_offset: self.payload_offset,
            payload_len: self.payload_len,
        }
    }
}

/// Frozen Tx buffer. Its frame goes back to the pool.
pub struct XdpTxBuf {
    pub umem_id: u64,
    pub frame_addr: u64,
    pub payload_offset: u32,
    pub payload_len: u32,
}

impl XdpTxBuf {
    /// The payload's bytes.
    pub fn as_ref<'a>(&self, umem: &'a Umem) -> (data: &'a [u8])
        requires
            umem.wf(),
            in_umem(*umem, self.frame_addr, self.payload_offset, self.payload_len),
        ensures
            data@ == umem_payload(*umem, self.frame_addr, self.payload_offset, self.payload_len),
    {
        payload_at(umem, self.frame_addr, self.payload_offset, self.payload_len)
    }
}

/// Free list of UMEM frame addresses for the TX side: `local` is the owner thread's, `remote`
/// takes the frames that other threads give back.
pub struct XdpTxPool {
    max_payload: usize,
    frame_size: u32,
    headroom: u32,
    umem_id: u64,
    owner: u64,
    local: Vec<u64>,
    remote: MpscQueue<u64>,
}

/// What does not change about a pool.
pub struct PoolShape {
    pub max_payload: usize,
    pub frame_size: u32,
    pub headroom: u32,
    pub umem_id: u64,
    pub owner: u64,
    pub remote_capacity: nat,
}

impl XdpTxPool {
    pub closed spec fn wf(&self) -> bool {
        self.remote.wf()
    }

    pub closed spec fn shape(&self) -> PoolShape {
        PoolShape {
            max_payload: self.max_payload,
            frame_size: self.frame_size,
            headroom: self.headroom,
            umem_id: self.umem_id,
            owner: self.owner,
            remote_capacity: self.remote.capacity(),
        }
    }

    /// The owner thread's free frames.
    pub closed spec fn local(&self) -> Seq<u64> {
        self.local@
    }

    /// The frames that other threads gave back and nobody has collected.
    pub closed spec fn remote(&self) -> Seq<u64> {
        self.remote@
    }

    /// The buffer in a frame, with `len` bytes of payload.
    pub open spec fn buffer(&self, frame_addr: u64, len: u32) -> XdpTxBufMut {
        XdpTxBufMut {
            umem_id: self.shape().umem_id,
            frame_addr,
            payload_offset: self.shape().headroom,
            payload_len: len,
            cap: self.shape().frame_size.saturating_sub(self.shape().headroom),
        }
    }

    /// Build with the initial set of frame addresses (the TX half of the
    /// UMEM split). `remote_capacity` should be at least the worst-case number
    /// of buffers in flight (= total frame count).
    pub fn new(
        umem_id: u64,
        owner: u64,
        frame_size: u32,
        headroom: u32,
        max_payload: usize,
        initial_frames: Vec<u64>,
        remote_capacity: usize,
    ) -> (pool: XdpTxPool)
        requires
            0 < remote_capacity,
            remote_capacity * 16 <= isize::MAX,
        ensures
            pool.wf(),
            pool.shape() == (PoolShape {
                max_payload,
                frame_size,
                headroom,
                umem_id,
                owner,
                remote_capacity: remote_capacity as nat,
            }),
            pool.local() == initial_frames@,
            pool.remote() == Seq::<u64>::empty(),
    {
        XdpTxPool {
            max_payload,
            frame_size,
            headroom,
            umem_id,
            owner,
            local: initial_frames,
            remote: MpscQueue::new(remote_capacity),
        }
    }

    pub fn max_payload_size(&self) -> (n: usize)
        ensures
            n == self.shape().max_payload,
    {
        self.max_payload
    }

    /// One segment per packet: there's no scatter-gather path to threshold.
    pub fn zerocopy_threshold(&self) -> (n: usize)
        ensures
            n == 0,
    {
        0
    }

    /// The kernel TX ring zero-copies from this socket's UMEM only;
    /// a buffer of a different UMEM must egress via its own socket.
    pub fn owns(&self, buf: &XdpTxBuf) -> (owned: bool)
        ensures
            owned == (buf.umem_id == self.shape().umem_id),
    {
        buf.umem_id == self.umem_id
    }

    /// Appends up to `count` empty buffers to `bufs` and returns how many. Frames given back on
    /// other threads are collected only when the owner's own do not suffice.
    pub fn allocate(&mut self, _capacity: usize, count: usize, bufs: &mut Vec<XdpTxBufMut>) -> (n:
        usize)
        requires
            old(self).wf(),
        ensures
            final(self).wf(),
            final(self).shape() == old(self).shape(),
            ({
                let enough = old(self).local().len() >= count;
                let free = if enough {
                    old(self).local()
                } else {
                    old(self).local() + old(self).remote()
                };
                &&& n == vstd::math::min(count as int, free.len() as int)
                &&& final(self).local() == free.take(free.len() - n)
                &&& final(self).remote() == (if enough {
                    old(self).remote()
                } else {
                    Seq::empty()
                })
                &&& final(bufs)@ == old(bufs)@ + Seq::new(
                    n as nat,
                    |i: int| old(self).buffer(frames_taken(free, n as nat)[i], 0),
                )
            }),
    {
        let ghost bufs0 = bufs@;
        let ghost pool0 = *self;
        let ghost enough = self.local@.len() >= count;
        if self.local.len() < count {
            self.remote.drain_into(&mut self.local);
        }
        let ghost free = self.local@;
        let cap: u32 = self.frame_size.saturating_sub(self.headroom);
        let mut n: usize = 0;
        assert(free.take(free.len() - 0) =~= free);
        assert(bufs@ =~= bufs0 + Seq::new(
            0,
            |i: int| pool0.buffer(free[free.len() - 1 - i], 0),
        ));
        while n < count
            invariant_except_break
                n <= count,
            invariant
                n <= count,
                n <= free.len(),
                self.wf(),
                self.shape() == pool0.shape(),
                self.remote@ == (if enough {
                    pool0.remote@
                } else {
                    Seq::empty()
                }),
                cap == self.frame_size.saturating_sub(self.headroom),
                self.local@ == free.take(free.len() - n),
                bufs@ == bufs0 + Seq::new(
                    n as nat,
                    |i: int| pool0.buffer(free[free.len() - 1 - i], 0),
                ),
            ensures
                n == vstd::math::min(count as int, free.len() as int),
            decreases count - n,
        {
            match self.local.pop() {
                None => {
                    break ;
                },
                Some(frame_addr) => {
                    bufs.push(
                        XdpTxBufMut {
                            umem_id: self.umem_id,
                            frame_addr,
                            payload_offset: self.headroom,
                            payload_len: 0,
                            cap,
                        },
                    );
                    n += 1;
                    assert(self.local@ =~= free.take(free.len() - n));
                    assert(bufs@ =~= bufs0 + Seq::new(
                        n as nat,
                        |i: int| pool0.buffer(free[free.len() - 1 - i], 0),
                    ));
                },
            }
        }
        n
    }

    /// Number of free frames.
    pub fn available(&mut self) -> (n: usize)
        requires
            old(self).wf(),
        ensures
            final(self).wf(),
            final(self).shape() == old(self).shape(),
            n == old(self).local().len() + old(self).remote().len(),
            final(self).local() == old(self).local() + old(self).remote(),
            final(self).remote() == Seq::<u64>::empty(),
    {
        self.remote.drain_into(&mut self.local);
        self.local.len()
    }

    /// Takes back a frame that the kernel is done with.
    pub fn reclaim_completed(&mut self, addr: u64)
        requires
            old(self).wf(),
        ensures
            final(self).wf(),
            final(self).shape() == old(self).shape(),
            final(self).local() == old(self).local().push(addr),
            final(self).remote() == old(self).remote(),
    {
        self.local.push(addr);
    }

    /// Takes back a frame that thread `thread` gives up: the owner's goes to the local list, that
    /// of another thread through the queue, which drops it when it is full.
    pub fn reclaim_frame(&mut self, addr: u64, thread: u64)
        requires
            old(self).wf(),
        ensures
            final(self).wf(),
            final(self).shape() == old(self).shape(),
            thread == old(self).shape().owner ==> final(self).local() == old(self).local().push(addr)
                && final(self).remote() == old(self).remote(),
            thread != old(self).shape().owner ==> {
                &&& final(self).local() == old(self).local()
                &&& final(self).remote() == (if old(self).remote().len() < old(
                    self,
                ).shape().remote_capacity {
                    old(self).remote().push(addr)
                } else {
                    old(self).remote()
                })
            },
    {
        if thread == self.owner {
            self.local.push(addr);
        } else {
            let _ = self.remote.push(addr);
        }
    }

    /// Copies a received packet to a free frame and gives the received frame back. Without a
    /// free frame the packet is handed back.
    pub fn from_rx(
        &mut self,
        rx: XdpRxBufMut,
        umem: &mut Umem,
        reclaimer: &mut Reclaimer,
    ) -> (tx: Result<XdpTxBufMut, XdpRxBufMut>)
        requires
            old(self).wf(),
            old(umem).wf(),
            old(reclaimer).wf(),
            rx.repr is Ring,
            in_umem(
                *old(umem),
                rx.repr->frame_addr,
                rx.repr->payload_offset,
                rx.repr->payload_len,
            ),
            forall|i: int|
                0 <= i < old(self).local().len() ==> in_umem(
                    *old(umem),
                    #[trigger] old(self).local()[i],
                    old(self).shape().headroom,
                    rx.repr->payload_len,
                ),
            forall|i: int|
                0 <= i < old(self).remote().len() ==> in_umem(
                    *old(umem),
                    #[trigger] old(self).remote()[i],
                    old(self).shape().headroom,
                    rx.repr->payload_len,
                ),
        ensures
            final(self).wf(),
            final(self).shape() == old(self).shape(),
            final(umem).wf(),
            final(reclaimer).wf(),
            ({
                let alone = old(self).local().len() > 0;
                let free = if alone {
                    old(self).local()
                } else {
                    old(self).remote()
                };
                &&& final(self).remote() == (if alone {
                    old(self).remote()
                } else {
                    Seq::empty()
                })
                &&& tx is Ok <==> free.len() > 0
                &&& tx matches Err(back) ==> {
                    &&& back == rx
                    &&& final(self).local() == old(self).local()
                    &&& *final(umem) == *old(umem)
                    &&& *final(reclaimer) == *old(reclaimer)
                }
                &&& tx matches Ok(buf) ==> {
                    &&& final(self).local() == free.drop_last()
                    &&& buf == old(self).buffer(free.last(), rx.repr->payload_len)
                    &&& final(umem).spec_frame_size() == old(umem).spec_frame_size()
                    &&& final(umem).spec_frame_count() == old(umem).spec_frame_count()
                    &&& final(umem)@ == crate::xdp::umem::overwritten(
                        old(umem)@,
                        free.last() + old(self).shape().headroom,
                        umem_payload(
                            *old(umem),
                            rx.repr->frame_addr,
                            rx.repr->payload_offset,
                            rx.repr->payload_len,
                        ),
                    )
                    &&& crate::xdp::reclaimer::frame_given_back(
                        *old(reclaimer),
                        *final(reclaimer),
                        rx.repr->frame_addr,
                        old(reclaimer).owner,
                    )
                }
            }),
    {
        let ghost local0 = self.local@;
        if self.local.len() == 0 {
            self.remote.drain_into(&mut self.local);
            assert(self.local@ =~= old(self).remote());
        }
        let ghost free = self.local@;
        let tx_addr: u64 = match self.local.pop() {
            Some(addr) => addr,
            None => {
                assert(free.len() == 0);
                assert(self.local@ =~= local0);
                return Err(rx);
            },
        };
        proof {
            if local0.len() > 0 {
                assert(old(self).local()[free.len() - 1] == tx_addr);
            } else {
                assert(old(self).remote()[free.len() - 1] == tx_addr);
            }
        }
        assert(self.local@ =~= free.drop_last());
        let cap: u32 = self.frame_size.saturating_sub(self.headroom);
        match rx.repr {
            XdpRxBufMutRepr::Ring { frame_addr, payload_offset, payload_len, cap: _ } => {
                let payload: Vec<u8> = vstd::slice::slice_to_vec(
                    payload_at(umem, frame_addr, payload_offset, payload_len),
                );
                let size: usize = umem.len();
                assert(tx_addr + self.headroom + payload_len <= size);
                umem.write_at(tx_addr + self.headroom as u64, payload.as_slice());
                let owner: u64 = reclaimer.owner;
                reclaimer.give_back(frame_addr, owner);
                Ok(
                    XdpTxBufMut {
                        umem_id: self.umem_id,
                        frame_addr: tx_addr,
                        payload_offset: self.headroom,
                        payload_len,
                        cap,
                    },
                )
            },
            XdpRxBufMutRepr::Empty => Err(rx),
        }
    }
}

/// The frames that an allocation of `n` buffers takes from the free ones.
pub open spec fn frames_taken(free: Seq<u64>, n: nat) -> Seq<u64> {
    Seq::new(n, |i: int| free[free.len() - 1 - i])
}

/// No frame gets lost or doubled: those that an allocation takes and those that stay free are
/// together the ones that were free. Giving the taken ones back restores them all.
pub proof fn law_no_tx_frame_lost(free: Seq<u64>, n: nat)
    requires
        n <= free.len(),
    ensures
        free.take(free.len() - n).to_multiset().add(frames_taken(free, n).to_multiset())
            == free.to_multiset(),
        (free.take(free.len() - n) + frames_taken(free, n)).to_multiset() == free.to_multiset(),
    decreases n,
{
    broadcast use vstd::seq_lib::group_to_multiset_ensures;

    let kept = free.take(free.len() - n);
    let taken = frames_taken(free, n);
    if n == 0 {
        assert(kept =~= free);
        assert(taken =~= Seq::<u64>::empty());
        assert(taken.to_multiset() =~= vstd::multiset::Multiset::<u64>::empty());
        assert(kept.to_multiset().add(taken.to_multiset()) =~= free.to_multiset());
    } else {
        let m = (n - 1) as nat;
        let frame = free[free.len() - n];
        law_no_tx_frame_lost(free, m);
        let kept0 = free.take(free.len() - m);
        let taken0 = frames_taken(free, m);
        assert(kept0 =~= kept.push(frame));
        assert(taken =~= taken0.push(frame));
        assert(kept.to_multiset().add(taken.to_multiset()) =~= kept0.to_multiset().add(
            taken0.to_multiset(),
        ));
    }
    vstd::seq_lib::lemma_multiset_commutative(kept, taken);
}

/// The payload of a frame is what its memory holds from the frame's start and the offset on.
pub proof fn law_payload_lies_behind_the_offset(
    umem: Umem,
    frame_addr: u64,
    payload_offset: u32,
    payload_len: u32,
    i: int,
)
    requires
        in_umem(umem, frame_addr, payload_offset, payload_len),
        0 <= i < payload_len,
    ensures
        umem_payload(umem, frame_addr, payload_offset, payload_len).len() == payload_len,
        umem_payload(umem, frame_addr, payload_offset, payload_len)[i] == umem@[frame_addr
            + payload_offset + i],
{
}

/// A buffer for sending leaves the headroom free for headers, and has the rest of its frame.
pub proof fn law_buffer_leaves_headroom(pool: XdpTxPool, frame_addr: u64, len: u32)
    requires
        pool.shape().headroom <= pool.shape().frame_size,
    ensures
        ({
            let buf = pool.buffer(frame_addr, len);
            &&& buf.umem_id == pool.shape().umem_id
            &&& buf.frame_addr == frame_addr
            &&& buf.payload_offset == pool.shape().headroom
            &&& buf.payload_len == len
            &&& buf.payload_offset + buf.cap == pool.shape().frame_size
        }),
{
}

/// The headroom is what Ethernet (14 bytes), IPv4 (20) and UDP (8) take.
pub proof fn law_headroom_fits_the_headers()
    ensures
        HEADROOM == 14 + 20 + 8,
{
}

/// A buffer holds a frame exactly where one was received into it, and that one.
pub proof fn law_buffer_holds_its_frame(
    frame_addr: u64,
    payload_offset: u32,
    payload_len: u32,
    cap: u32,
)
    ensures
        held_frame(
            XdpRxBufMut {
                repr: XdpRxBufMutRepr::Ring { frame_addr, payload_offset, payload_len, cap },
            },
        ) == Some(frame_addr),
        held_frame(XdpRxBufMut { repr: XdpRxBufMutRepr::Empty }) is None,
{
}

} // verus!
