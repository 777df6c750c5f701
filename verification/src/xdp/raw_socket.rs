//! AF_XDP socket setup and ring traffic. References:
//! kernel docs `Documentation/networking/af_xdp.rst`, `man 7 af_xdp`.
//!
//! The caller makes the system calls. [`XdpSetup`] says which call comes next;
//! [`RawXdpSocket`] moves descriptors through rings whose memory is passed in as slices.

use crate::xdp::ring::{mmap_ring, RingConsumer, RingMmap, RingOffsets, RingProducer, XdpDesc};
use vstd::prelude::*;

verus! {

broadcast use vstd::slice::group_slice_axioms;

/// `bind` flag: the kernel copies between skb and UMEM.
pub const XDP_COPY: u16 = 2;

/// `bind` flag: the driver moves packets into UMEM itself.
pub const XDP_ZEROCOPY: u16 = 4;

/// `bind` flag: the driver says when it wants to be woken.
pub const XDP_USE_NEED_WAKEUP: u16 = 8;

/// Ring flag: the driver wants to be woken.
pub const XDP_RING_NEED_WAKEUP: u32 = 1;

/// Ring size options and mapping offsets.
pub const XDP_RX_RING: i32 = 2;

pub const XDP_TX_RING: i32 = 3;

pub const XDP_UMEM_FILL_RING: i32 = 5;

pub const XDP_UMEM_COMPLETION_RING: i32 = 6;

pub const XDP_PGOFF_RX_RING: u64 = 0;

pub const XDP_PGOFF_TX_RING: u64 = 0x8000_0000;

pub const XDP_UMEM_PGOFF_FILL_RING: u64 = 0x1_0000_0000;

pub const XDP_UMEM_PGOFF_COMPLETION_RING: u64 = 0x1_8000_0000;

/// `errno` values of `sendto` that say the driver is already awake.
pub const EAGAIN: i32 = 11;

pub const EBUSY: i32 = 16;

/// Ring capacities. All four must be powers of 2.
#[derive(Debug, Clone, Copy, PartialEq, Eq, Structural)]
pub struct RingSizes {
    pub fill: u32,
    pub completion: u32,
    pub rx: u32,
    pub tx: u32,
}

impl Default for RingSizes {
    /// 2048 per ring (kernel `XSK_RING_*_DFLT`).
    fn default() -> (sizes: RingSizes)
        ensures
            sizes == (RingSizes { fill: 2048, completion: 2048, rx: 2048, tx: 2048 }),
    {
        RingSizes { fill: 2048, completion: 2048, rx: 2048, tx: 2048 }
    }
}

impl RingSizes {
    /// All four sizes are powers of two.
    pub open spec fn wf(self) -> bool {
        &&& crate::xdp::ring::is_power_of_two(self.fill)
        &&& crate::xdp::ring::is_power_of_two(self.completion)
        &&& crate::xdp::ring::is_power_of_two(self.rx)
        &&& crate::xdp::ring::is_power_of_two(self.tx)
    }
}

/// Wire mode for `bind()`. Kernel may reject `ZeroCopy`; caller falls back to `Copy`.
#[derive(Debug, Clone, Copy, PartialEq, Eq, Structural)]
pub enum XdpMode {
    /// DMA into UMEM (driver support required; veth on Linux >= 5.18).
    ZeroCopy,
    /// Kernel copies between skb and UMEM.
    Copy,
}

impl XdpMode {
    /// The mode's `bind` flag.
    pub fn flag(self) -> (flag: u16)
        ensures
            flag == (match self {
                XdpMode::ZeroCopy => XDP_ZEROCOPY,
                XdpMode::Copy => XDP_COPY,
            }),
    {
        match self {
            XdpMode::ZeroCopy => XDP_ZEROCOPY,
            XdpMode::Copy => XDP_COPY,
        }
    }
}

/// Writes `addrs` to the ring as far as it has room; returns how many.
fn fill_ring(ring: &mut RingProducer, slots: &mut [u64], addrs: &[u64]) -> (written: u32)
    requires
        crate::xdp::ring::is_power_of_two(old(ring).size),
        old(slots)@.len() == old(ring).size,
    ensures
        written == vstd::math::min(addrs@.len() as int, old(ring).free()),
        final(ring).size == old(ring).size,
        final(ring).cached_consumer == old(ring).cached_consumer,
        final(ring).cached_producer == old(ring).cached_producer.wrapping_add(written),
        final(ring).free() == old(ring).free() - written,
        crate::xdp::ring::ring_written(
            old(slots)@,
            final(slots)@,
            old(ring).cached_producer,
            addrs@.take(written as int),
            old(ring).size,
        ),
{
    let ghost before = slots@;
    let ghost start = ring.cached_producer;
    let ghost free0 = ring.free();
    let size: u32 = ring.size();
    let mask: u32 = size.saturating_sub(1);
    let mut written: u32 = 0;
    assert(addrs@.take(0) =~= Seq::<u64>::empty());
    while (written as usize) < addrs.len()
        invariant_except_break
            written <= addrs@.len(),
        invariant
            crate::xdp::ring::is_power_of_two(size),
            mask == size - 1,
            ring.size == size,
            before.len() == size,
            slots@.len() == size,
            written <= addrs@.len(),
            written <= free0 <= size,
            ring.free() == free0 - written,
            ring.cached_consumer == old(ring).cached_consumer,
            ring.cached_producer == start.wrapping_add(written),
            crate::xdp::ring::ring_written(
                before,
                slots@,
                start,
                addrs@.take(written as int),
                size,
            ),
        ensures
            written == vstd::math::min(addrs@.len() as int, free0),
        decreases addrs@.len() - written,
    {
        match ring.produce() {
            None => {
                break ;
            },
            Some(idx) => {
                proof {
                    let items = addrs@.take(written as int);
                    crate::xdp::ring::lemma_slot_bound(start, written as int, size);
                    crate::xdp::ring::lemma_ring_write_one(
                        before,
                        slots@,
                        start,
                        items,
                        size,
                        addrs@[written as int],
                    );
                    assert(addrs@.take(written + 1) =~= items.push(addrs@[written as int]));
                }
                let slot: usize = (idx & mask) as usize;
                slots[slot] = addrs[written as usize];
                written += 1;
            },
        }
    }
    written
}

/// The system calls that set an AF_XDP socket up, in order.
#[derive(Debug, Clone, Copy, PartialEq, Eq, Structural)]
pub enum SetupStep {
    OpenSocket,
    RegisterUmem,
    SizeCompletion,
    SizeFill,
    SizeTx,
    SizeRx,
    QueryOffsets,
    MapFill,
    MapCompletion,
    MapRx,
    MapTx,
    PreFill,
    Bind,
    Ready,
    Failed,
}

/// What the caller has to do next.
#[derive(Debug, Clone, Copy)]
pub enum SetupAction {
    /// Open an AF_XDP raw socket.
    OpenSocket,
    /// `XDP_UMEM_REG` with the memory's length and frame size, and this headroom.
    RegisterUmem { len: u64, chunk_size: u32, headroom: u32 },
    /// Set a ring's size.
    SetRingSize { option: i32, size: u32 },
    /// `getsockopt(XDP_MMAP_OFFSETS)`.
    QueryOffsets,
    /// Map a ring, and read its producer and consumer index.
    MapRing { layout: RingMmap, page_offset: u64 },
    /// Hand the FILL ring to [`XdpSetup::pre_fill`].
    PreFill,
    /// `bind` with these flags to the interface's queue.
    Bind { flags: u16, if_index: u32, queue_id: u32 },
    /// The socket is ready for [`XdpSetup::finish`].
    Finish,
    /// Close the socket and report the error.
    GiveUp { errno: i32 },
}

/// The offsets that the kernel reports of the four rings.
#[derive(Debug, Clone, Copy)]
pub struct MmapOffsets {
    pub fill: RingOffsets,
    pub completion: RingOffsets,
    pub rx: RingOffsets,
    pub tx: RingOffsets,
}

/// What came of a system call.
#[derive(Debug, Clone, Copy)]
pub enum SetupEvent {
    /// It succeeded.
    Done,
    /// The offsets were reported.
    Offsets(MmapOffsets),
    /// A ring was mapped, and its shared indices hold these values.
    Mapped { producer: u32, consumer: u32 },
    /// It failed.
    Failed { errno: i32 },
}

/// The step behind a step that succeeded.
pub open spec fn step_after(step: SetupStep) -> SetupStep {
    match step {
        SetupStep::OpenSocket => SetupStep::RegisterUmem,
        SetupStep::RegisterUmem => SetupStep::SizeCompletion,
        SetupStep::SizeCompletion => SetupStep::SizeFill,
        SetupStep::SizeFill => SetupStep::SizeTx,
        SetupStep::SizeTx => SetupStep::SizeRx,
        SetupStep::SizeRx => SetupStep::QueryOffsets,
        SetupStep::QueryOffsets => SetupStep::MapFill,
        SetupStep::MapFill => SetupStep::MapCompletion,
        SetupStep::MapCompletion => SetupStep::MapRx,
        SetupStep::MapRx => SetupStep::MapTx,
        SetupStep::MapTx => SetupStep::PreFill,
        SetupStep::PreFill => SetupStep::Bind,
        SetupStep::Bind => SetupStep::Ready,
        SetupStep::Ready => SetupStep::Ready,
        SetupStep::Failed => SetupStep::Failed,
    }
}

/// Whether an event can follow the action of a step.
pub open spec fn event_fits(step: SetupStep, event: SetupEvent) -> bool {
    match event {
        SetupEvent::Failed { errno } => !(step is PreFill || step is Ready || step is Failed),
        SetupEvent::Offsets(_) => step is QueryOffsets,
        SetupEvent::Mapped { producer, consumer } => step is MapFill || step is MapCompletion || step
            is MapRx || step is MapTx,
        SetupEvent::Done => step is OpenSocket || step is RegisterUmem || step is SizeCompletion
            || step is SizeFill || step is SizeTx || step is SizeRx || step is Bind,
    }
}

/// Sets up an AF_XDP socket: open, register UMEM, size + mmap all four rings, pre-fill
/// FILL, and bind. FILL must be non-empty before bind in `ZeroCopy` mode (some drivers
/// misbehave otherwise).
pub struct XdpSetup {
    pub if_index: u32,
    pub queue_id: u32,
    pub umem_len: u64,
    pub frame_size: u32,
    pub sizes: RingSizes,
    pub mode: XdpMode,
    pub step: SetupStep,
    pub errno: i32,
    pub offsets: MmapOffsets,
    pub fill_prod: RingProducer,
    pub comp_cons: RingConsumer,
    pub rx_cons: RingConsumer,
    pub tx_prod: RingProducer,
}

spec fn offsets_fit(offsets: RingOffsets) -> bool {
    &&& offsets.producer <= usize::MAX
    &&& offsets.consumer <= usize::MAX
    &&& offsets.desc <= usize::MAX
    &&& offsets.flags <= usize::MAX
}

impl MmapOffsets {
    /// The offsets are addresses on this machine.
    pub closed spec fn wf(self) -> bool {
        &&& offsets_fit(self.fill)
        &&& offsets_fit(self.completion)
        &&& offsets_fit(self.rx)
        &&& offsets_fit(self.tx)
    }
}

impl XdpSetup {
    /// The sizes are powers of two whose rings can be mapped.
    pub open spec fn wf(self) -> bool {
        &&& self.sizes.wf()
        &&& self.sizes.fill * 8 <= usize::MAX
        &&& self.sizes.completion * 8 <= usize::MAX
        &&& self.sizes.rx * 16 <= usize::MAX
        &&& self.sizes.tx * 16 <= usize::MAX
        &&& self.fill_prod.size == self.sizes.fill
        &&& self.tx_prod.size == self.sizes.tx
        &&& self.offsets.wf()
    }

    /// The setup of a socket on an interface's queue with a UMEM of `umem_len` bytes.
    pub fn new(
        if_index: u32,
        queue_id: u32,
        umem_len: u64,
        frame_size: u32,
        sizes: RingSizes,
        mode: XdpMode,
    ) -> (setup: XdpSetup)
        requires
            sizes.wf(),
            sizes.fill * 8 <= usize::MAX,
            sizes.completion * 8 <= usize::MAX,
            sizes.rx * 16 <= usize::MAX,
            sizes.tx * 16 <= usize::MAX,
        ensures
            setup.wf(),
            setup.step is OpenSocket,
            setup.if_index == if_index,
            setup.queue_id == queue_id,
            setup.umem_len == umem_len,
            setup.frame_size == frame_size,
            setup.sizes == sizes,
            setup.mode == mode,
    {
        let zero = RingOffsets { producer: 0, consumer: 0, desc: 0, flags: 0 };
        XdpSetup {
            if_index,
            queue_id,
            umem_len,
            frame_size,
            sizes,
            mode,
            step: SetupStep::OpenSocket,
            errno: 0,
            offsets: MmapOffsets { fill: zero, completion: zero, rx: zero, tx: zero },
            fill_prod: RingProducer::new(0, 0, sizes.fill),
            comp_cons: RingConsumer::new(0, 0),
            rx_cons: RingConsumer::new(0, 0),
            tx_prod: RingProducer::new(0, 0, sizes.tx),
        }
    }

    /// The two setups agree on everything but the step, the error and the rings.
    pub open spec fn same_socket(self, other: XdpSetup) -> bool {
        &&& self.if_index == other.if_index
        &&& self.queue_id == other.queue_id
        &&& self.umem_len == other.umem_len
        &&& self.frame_size == other.frame_size
        &&& self.sizes == other.sizes
        &&& self.mode == other.mode
    }

    /// What to do at the current step.
    pub fn action(&self) -> (action: SetupAction)
        requires
            self.wf(),
        ensures
            match self.step {
                SetupStep::OpenSocket => action is OpenSocket,
                SetupStep::RegisterUmem => action == (SetupAction::RegisterUmem {
                    len: self.umem_len,
                    chunk_size: self.frame_size,
                    headroom: 0,
                }),
                SetupStep::SizeCompletion => action == (SetupAction::SetRingSize {
                    option: XDP_UMEM_COMPLETION_RING,
                    size: self.sizes.completion,
                }),
                SetupStep::SizeFill => action == (SetupAction::SetRingSize {
                    option: XDP_UMEM_FILL_RING,
                    size: self.sizes.fill,
                }),
                SetupStep::SizeTx => action == (SetupAction::SetRingSize {
                    option: XDP_TX_RING,
                    size: self.sizes.tx,
                }),
                SetupStep::SizeRx => action == (SetupAction::SetRingSize {
                    option: XDP_RX_RING,
                    size: self.sizes.rx,
                }),
                SetupStep::QueryOffsets => action is QueryOffsets,
                SetupStep::MapFill => action == (SetupAction::MapRing {
                    layout: crate::xdp::ring::ring_layout(self.offsets.fill, self.sizes.fill * 8),
                    page_offset: XDP_UMEM_PGOFF_FILL_RING,
                }),
                SetupStep::MapCompletion => action == (SetupAction::MapRing {
                    layout: crate::xdp::ring::ring_layout(self.offsets.completion, self.sizes.completion * 8),
                    page_offset: XDP_UMEM_PGOFF_COMPLETION_RING,
                }),
                SetupStep::MapRx => action == (SetupAction::MapRing {
                    layout: crate::xdp::ring::ring_layout(self.offsets.rx, self.sizes.rx * 16),
                    page_offset: XDP_PGOFF_RX_RING,
                }),
                SetupStep::MapTx => action == (SetupAction::MapRing {
                    layout: crate::xdp::ring::ring_layout(self.offsets.tx, self.sizes.tx * 16),
                    page_offset: XDP_PGOFF_TX_RING,
                }),
                SetupStep::PreFill => action is PreFill,
                SetupStep::Bind => action == (SetupAction::Bind {
                    flags: match self.mode {
                        XdpMode::ZeroCopy => XDP_USE_NEED_WAKEUP | XDP_ZEROCOPY,
                        XdpMode::Copy => XDP_USE_NEED_WAKEUP | XDP_COPY,
                    },
                    if_index: self.if_index,
                    queue_id: self.queue_id,
                }),
                SetupStep::Ready => action is Finish,
                SetupStep::Failed => action == (SetupAction::GiveUp { errno: self.errno }),
            },
    {
        match self.step {
            SetupStep::OpenSocket => SetupAction::OpenSocket,
            SetupStep::RegisterUmem => SetupAction::RegisterUmem {
                len: self.umem_len,
                chunk_size: self.frame_size,
                headroom: 0,
            },
            SetupStep::SizeCompletion => SetupAction::SetRingSize {
                option: XDP_UMEM_COMPLETION_RING,
                size: self.sizes.completion,
            },
            SetupStep::SizeFill => SetupAction::SetRingSize {
                option: XDP_UMEM_FILL_RING,
                size: self.sizes.fill,
            },
            SetupStep::SizeTx => SetupAction::SetRingSize {
                option: XDP_TX_RING,
                size: self.sizes.tx,
            },
            SetupStep::SizeRx => SetupAction::SetRingSize {
                option: XDP_RX_RING,
                size: self.sizes.rx,
            },
            SetupStep::QueryOffsets => SetupAction::QueryOffsets,
            SetupStep::MapFill => SetupAction::MapRing {
                layout: mmap_ring(self.sizes.fill as usize * 8, &self.offsets.fill),
                page_offset: XDP_UMEM_PGOFF_FILL_RING,
            },
            SetupStep::MapCompletion => SetupAction::MapRing {
                layout: mmap_ring(self.sizes.completion as usize * 8, &self.offsets.completion),
                page_offset: XDP_UMEM_PGOFF_COMPLETION_RING,
            },
            SetupStep::MapRx => SetupAction::MapRing {
                layout: mmap_ring(self.sizes.rx as usize * 16, &self.offsets.rx),
                page_offset: XDP_PGOFF_RX_RING,
            },
            SetupStep::MapTx => SetupAction::MapRing {
                layout: mmap_ring(self.sizes.tx as usize * 16, &self.offsets.tx),
                page_offset: XDP_PGOFF_TX_RING,
            },
            SetupStep::PreFill => SetupAction::PreFill,
            SetupStep::Bind => SetupAction::Bind {
                flags: XDP_USE_NEED_WAKEUP | self.mode.flag(),
                if_index: self.if_index,
                queue_id: self.queue_id,
            },
            SetupStep::Ready => SetupAction::Finish,
            SetupStep::Failed => SetupAction::GiveUp { errno: self.errno },
        }
    }

    /// Takes in what came of the action: on to the next step, or to the end with an error.
    pub fn advance(&mut self, event: SetupEvent)
        requires
            old(self).wf(),
            event_fits(old(self).step, event),
            event matches SetupEvent::Offsets(o) ==> o.wf(),
        ensures
            final(self).wf(),
            final(self).same_socket(*old(self)),
            final(self).step == (if event is Failed {
                SetupStep::Failed
            } else {
                step_after(old(self).step)
            }),
            final(self).errno == (if event is Failed {
                event->errno
            } else {
                old(self).errno
            }),
            final(self).offsets == (if event is Offsets {
                event->Offsets_0
            } else {
                old(self).offsets
            }),
            final(self).fill_prod == (if event is Mapped && old(self).step is MapFill {
                RingProducer {
                    cached_producer: event->producer,
                    cached_consumer: event->consumer,
                    size: old(self).sizes.fill,
                }
            } else {
                old(self).fill_prod
            }),
            final(self).comp_cons == (if event is Mapped && old(self).step is MapCompletion {
                RingConsumer { cached_producer: event->producer, cached_consumer: event->consumer }
            } else {
                old(self).comp_cons
            }),
            final(self).rx_cons == (if event is Mapped && old(self).step is MapRx {
                RingConsumer { cached_producer: event->producer, cached_consumer: event->consumer }
            } else {
                old(self).rx_cons
            }),
            final(self).tx_prod == (if event is Mapped && old(self).step is MapTx {
                RingProducer {
                    cached_producer: event->producer,
                    cached_consumer: event->consumer,
                    size: old(self).sizes.tx,
                }
            } else {
                old(self).tx_prod
            }),
    {
        match event {
            SetupEvent::Failed { errno } => {
                self.errno = errno;
                self.step = SetupStep::Failed;
                return ;
            },
            SetupEvent::Offsets(offsets) => {
                self.offsets = offsets;
            },
            SetupEvent::Mapped { producer, consumer } => {
                if self.step == SetupStep::MapFill {
                    self.fill_prod = RingProducer::new(producer, consumer, self.sizes.fill);
                } else if self.step == SetupStep::MapCompletion {
                    self.comp_cons = RingConsumer::new(producer, consumer);
                } else if self.step == SetupStep::MapRx {
                    self.rx_cons = RingConsumer::new(producer, consumer);
                } else {
                    self.tx_prod = RingProducer::new(producer, consumer, self.sizes.tx);
                }
            },
            SetupEvent::Done => {},
        }
        self.step = match self.step {
            SetupStep::OpenSocket => SetupStep::RegisterUmem,
            SetupStep::RegisterUmem => SetupStep::SizeCompletion,
            SetupStep::SizeCompletion => SetupStep::SizeFill,
            SetupStep::SizeFill => SetupStep::SizeTx,
            SetupStep::SizeTx => SetupStep::SizeRx,
            SetupStep::SizeRx => SetupStep::QueryOffsets,
            SetupStep::QueryOffsets => SetupStep::MapFill,
            SetupStep::MapFill => SetupStep::MapCompletion,
            SetupStep::MapCompletion => SetupStep::MapRx,
            SetupStep::MapRx => SetupStep::MapTx,
            SetupStep::MapTx => SetupStep::PreFill,
            SetupStep::PreFill => SetupStep::Bind,
            SetupStep::Bind => SetupStep::Ready,
            SetupStep::Ready => SetupStep::Ready,
            SetupStep::Failed => SetupStep::Failed,
        };
    }

    /// Writes the frames to the FILL ring as far as it has room, and returns the producer
    /// index to publish if any was written.
    pub fn pre_fill(&mut self, slots: &mut [u64], frames: &[u64]) -> (publish: Option<u32>)
        requires
            old(self).wf(),
            old(self).step is PreFill,
            old(slots)@.len() == old(self).sizes.fill,
        ensures
            final(self).wf(),
            final(self).same_socket(*old(self)),
            final(self).step is Bind,
            final(self).errno == old(self).errno,
            final(self).offsets == old(self).offsets,
            final(self).comp_cons == old(self).comp_cons,
            final(self).rx_cons == old(self).rx_cons,
            final(self).tx_prod == old(self).tx_prod,
            filled(
                old(self).fill_prod,
                final(self).fill_prod,
                old(slots)@,
                final(slots)@,
                frames@,
                vstd::math::min(frames@.len() as int, old(self).fill_prod.free()),
                publish,
            ),
    {
        let written: u32 = fill_ring(&mut self.fill_prod, slots, frames);
        self.step = SetupStep::Bind;
        if written > 0 {
            Some(self.fill_prod.commit())
        } else {
            None
        }
    }

    /// The bound socket.
    pub fn finish(self) -> (socket: RawXdpSocket)
        requires
            self.wf(),
            self.step is Ready,
        ensures
            socket.wf(),
            socket.if_index == self.if_index,
            socket.queue_id == self.queue_id,
            socket.sizes == self.sizes,
            socket.mode == self.mode,
            socket.fill_prod == self.fill_prod,
            socket.comp_cons == self.comp_cons,
            socket.rx_cons == self.rx_cons,
            socket.tx_prod == self.tx_prod,
    {
        RawXdpSocket {
            if_index: self.if_index,
            queue_id: self.queue_id,
            sizes: self.sizes,
            mode: self.mode,
            fill_prod: self.fill_prod,
            comp_cons: self.comp_cons,
            rx_cons: self.rx_cons,
            tx_prod: self.tx_prod,
        }
    }
}

/// Whether `count` of the addresses went into a userspace-filled ring: into the slots behind
/// those in use, with the producer index moved on and, unless nothing was written, handed out
/// for publishing.
pub open spec fn filled(
    before: RingProducer,
    after: RingProducer,
    slots0: Seq<u64>,
    slots1: Seq<u64>,
    addrs: Seq<u64>,
    count: int,
    publish: Option<u32>,
) -> bool {
    &&& after == (RingProducer {
        cached_producer: before.cached_producer.wrapping_add(count as u32),
        ..before
    })
    &&& after.free() == before.free() - count
    &&& crate::xdp::ring::ring_written(
        slots0,
        slots1,
        before.cached_producer,
        addrs.take(count),
        before.size,
    )
    &&& publish == (if count > 0 {
        Some(after.cached_producer)
    } else {
        None
    })
}

/// The FILL ring is filled before the socket is bound: the one way to `Bind` is through
/// `PreFill`, and that comes once all rings are mapped.
pub proof fn law_fill_before_bind(step: SetupStep)
    ensures
        step_after(step) is Bind ==> step is PreFill,
        step_after(step) is PreFill ==> step is MapTx,
        step_after(step) is Ready ==> step is Bind || step is Ready,
{
}

/// AF_XDP socket bound to `(if_index, queue_id)` with all four rings mapped.
/// Userspace owns producer side of FILL+TX, consumer side of COMP+RX.
pub struct RawXdpSocket {
    pub if_index: u32,
    pub queue_id: u32,
    pub sizes: RingSizes,
    pub mode: XdpMode,
    pub fill_prod: RingProducer,
    pub comp_cons: RingConsumer,
    pub rx_cons: RingConsumer,
    pub tx_prod: RingProducer,
}

impl RawXdpSocket {
    /// The sizes are powers of two, and the rings have them.
    pub open spec fn wf(self) -> bool {
        &&& self.sizes.wf()
        &&& self.fill_prod.size == self.sizes.fill
        &&& self.tx_prod.size == self.sizes.tx
    }

    /// The socket, with the kernel's consumer index of the FILL ring refreshed.
    pub open spec fn fill_synced(self, kernel_consumer: u32) -> RingProducer {
        RingProducer { cached_consumer: kernel_consumer, ..self.fill_prod }
    }

    /// Push frame addresses into FILL up to its free capacity. `kernel_consumer` is the ring's
    /// shared consumer index. Returns the count written, and the producer index to publish if
    /// any was; caller retries with the rest later.
    pub fn replenish_fill(
        &mut self,
        kernel_consumer: u32,
        slots: &mut [u64],
        addrs: &[u64],
    ) -> (result: (u32, Option<u32>))
        requires
            old(self).wf(),
            old(slots)@.len() == old(self).sizes.fill,
        ensures
            final(self).wf(),
            result.0 == vstd::math::min(
                addrs@.len() as int,
                old(self).fill_synced(kernel_consumer).free(),
            ),
            filled(
                old(self).fill_synced(kernel_consumer),
                final(self).fill_prod,
                old(slots)@,
                final(slots)@,
                addrs@,
                result.0 as int,
                result.1,
            ),
            *final(self) == (RawXdpSocket { fill_prod: final(self).fill_prod, ..*old(self) }),
    {
        self.fill_prod.sync(false, kernel_consumer);
        let written: u32 = fill_ring(&mut self.fill_prod, slots, addrs);
        let publish: Option<u32> = if written > 0 {
            Some(self.fill_prod.commit())
        } else {
            None
        };
        (written, publish)
    }

    /// Drain up to `room` completed TX frame addresses from COMPLETION into `out`.
    /// `kernel_producer` is the ring's shared producer index. Returns the count, and the
    /// consumer index to publish if it is not zero. Caller pushes the addresses back to its TX
    /// free list.
    pub fn drain_completion(
        &mut self,
        kernel_producer: u32,
        slots: &[u64],
        out: &mut Vec<u64>,
        room: usize,
    ) -> (result: (usize, Option<u32>))
        requires
            old(self).wf(),
            slots@.len() == old(self).sizes.completion,
        ensures
            final(self).wf(),
            drained(
                RingConsumer { cached_producer: kernel_producer, ..old(self).comp_cons },
                final(self).comp_cons,
                slots@,
                old(out)@,
                final(out)@,
                result.0 as int,
                result.1,
            ),
            result.0 == vstd::math::min(
                room as int,
                kernel_producer.wrapping_sub(old(self).comp_cons.cached_consumer) as int,
            ),
            *final(self) == (RawXdpSocket { comp_cons: final(self).comp_cons, ..*old(self) }),
    {
        self.comp_cons.sync(false, kernel_producer);
        drain_ring(&mut self.comp_cons, slots, out, room)
    }

    /// Drain up to `max` RX descriptors into `out`, as [`drain_completion`](Self::drain_completion)
    /// does.
    pub fn drain_rx(
        &mut self,
        kernel_producer: u32,
        slots: &[XdpDesc],
        out: &mut Vec<XdpDesc>,
        max: usize,
    ) -> (result: (usize, Option<u32>))
        requires
            old(self).wf(),
            slots@.len() == old(self).sizes.rx,
        ensures
            final(self).wf(),
            drained(
                RingConsumer { cached_producer: kernel_producer, ..old(self).rx_cons },
                final(self).rx_cons,
                slots@,
                old(out)@,
                final(out)@,
                result.0 as int,
                result.1,
            ),
            result.0 == vstd::math::min(
                max as int,
                kernel_producer.wrapping_sub(old(self).rx_cons.cached_consumer) as int,
            ),
            *final(self) == (RawXdpSocket { rx_cons: final(self).rx_cons, ..*old(self) }),
    {
        self.rx_cons.sync(false, kernel_producer);
        drain_ring(&mut self.rx_cons, slots, out, max)
    }

    /// Enqueue a TX descriptor; returns `false` if the ring is full. Caller
    /// must publish [`commit_tx`](Self::commit_tx) and wake the driver after the batch.
    pub fn enqueue_tx(&mut self, slots: &mut [XdpDesc], desc: XdpDesc) -> (queued: bool)
        requires
            old(self).wf(),
            old(slots)@.len() == old(self).sizes.tx,
        ensures
            final(self).wf(),
            queued == (old(self).tx_prod.free() > 0),
            !queued ==> *final(self) == *old(self) && final(slots)@ == old(slots)@,
            queued ==> {
                &&& final(self).tx_prod == (RingProducer {
                    cached_producer: old(self).tx_prod.cached_producer.wrapping_add(1),
                    ..old(self).tx_prod
                })
                &&& final(self).tx_prod.free() == old(self).tx_prod.free() - 1
                &&& final(slots)@ == old(slots)@.update(
                    crate::xdp::ring::ring_slot(
                        old(self).tx_prod.cached_producer,
                        0,
                        old(self).sizes.tx,
                    ),
                    desc,
                )
            },
            *final(self) == (RawXdpSocket { tx_prod: final(self).tx_prod, ..*old(self) }),
    {
        let ghost start = self.tx_prod.cached_producer;
        match self.tx_prod.produce() {
            None => false,
            Some(idx) => {
                let mask: u32 = self.sizes.tx.saturating_sub(1);
                proof {
                    crate::xdp::ring::lemma_slot_bound(start, 0, self.sizes.tx);
                }
                slots[(idx & mask) as usize] = desc;
                true
            },
        }
    }

    /// The TX producer index to publish.
    pub fn commit_tx(&self) -> (index: u32)
        ensures
            index == self.tx_prod.cached_producer,
    {
        self.tx_prod.commit()
    }

    /// Free slots in the TX ring, given its shared consumer index.
    pub fn tx_available(&mut self, kernel_consumer: u32) -> (free: u32)
        requires
            old(self).wf(),
        ensures
            final(self).wf(),
            final(self).tx_prod == (RingProducer {
                cached_consumer: kernel_consumer,
                ..old(self).tx_prod
            }),
            free == final(self).tx_prod.free(),
            *final(self) == (RawXdpSocket { tx_prod: final(self).tx_prod, ..*old(self) }),
    {
        self.tx_prod.sync(false, kernel_consumer);
        self.tx_prod.available()
    }
}

impl RawXdpSocket {
    /// Kernel set `XDP_RING_NEED_WAKEUP` in the flags of TX: the caller should wake the driver.
    pub fn tx_needs_wakeup(&self, tx_flags: u32) -> (needed: bool)
        ensures
            needed == (tx_flags & XDP_RING_NEED_WAKEUP != 0),
    {
        tx_flags & XDP_RING_NEED_WAKEUP != 0
    }

    /// Same as `tx_needs_wakeup` but for the FILL ring (RX side).
    pub fn fill_needs_wakeup(&self, fill_flags: u32) -> (needed: bool)
        ensures
            needed == (fill_flags & XDP_RING_NEED_WAKEUP != 0),
    {
        fill_flags & XDP_RING_NEED_WAKEUP != 0
    }

    /// The sizes of the rings.
    pub fn sizes(&self) -> (sizes: RingSizes)
        ensures
            sizes == self.sizes,
    {
        self.sizes
    }

    /// What a failed wake-up means. `EAGAIN`/`EBUSY` just mean the driver was already awake.
    /// `ENOBUFS` signals kernel TX queue full; it is passed on so the caller can back off rather
    /// than silently dropping packets.
    pub fn wake_tx(&self, errno: i32) -> (result: Result<(), i32>)
        ensures
            errno == EAGAIN || errno == EBUSY <==> result is Ok,
            result matches Err(e) ==> e == errno,
    {
        if errno == EAGAIN || errno == EBUSY {
            Ok(())
        } else {
            Err(errno)
        }
    }
}

/// Whether `count` items were taken from a kernel-filled ring and appended to `out0`, with the
/// consumer index moved on and, unless nothing was taken, handed out for publishing.
pub open spec fn drained<T>(
    before: RingConsumer,
    after: RingConsumer,
    slots: Seq<T>,
    out0: Seq<T>,
    out1: Seq<T>,
    count: int,
    publish: Option<u32>,
) -> bool {
    &&& after == (RingConsumer {
        cached_consumer: before.cached_consumer.wrapping_add(count as u32),
        ..before
    })
    &&& out1 == out0 + crate::xdp::ring::ring_read(slots, before.cached_consumer, count as nat, slots.len() as u32)
    &&& publish == (if count > 0 {
        Some(after.cached_consumer)
    } else {
        None
    })
}

/// Takes up to `max` items from a kernel-filled ring.
fn drain_ring<T: Copy>(ring: &mut RingConsumer, slots: &[T], out: &mut Vec<T>, max: usize) -> (result:
    (usize, Option<u32>))
    requires
        0 < slots@.len() <= u32::MAX,
    ensures
        result.0 == vstd::math::min(max as int, old(ring).pending() as int),
        drained(
            *old(ring),
            *final(ring),
            slots@,
            old(out)@,
            final(out)@,
            result.0 as int,
            result.1,
        ),
{
    let ghost start = ring.cached_consumer;
    let ghost out0 = out@;
    let ghost pending0 = ring.pending();
    let size: u32 = slots.len() as u32;
    let mask: u32 = size.saturating_sub(1);
    let mut n: usize = 0;
    assert(out@ =~= out0 + crate::xdp::ring::ring_read(slots@, start, 0, size));
    while n < max
        invariant_except_break
            n <= max,
        invariant
            size == slots@.len(),
            size > 0,
            mask == size - 1,
            n <= max,
            n <= pending0,
            ring.pending() == pending0 - n,
            ring.cached_producer == old(ring).cached_producer,
            ring.cached_consumer == start.wrapping_add(n as u32),
            out@ == out0 + crate::xdp::ring::ring_read(slots@, start, n as nat, size),
        ensures
            n == vstd::math::min(max as int, pending0 as int),
        decreases max - n,
    {
        match ring.consume() {
            None => {
                break ;
            },
            Some(idx) => {
                proof {
                    crate::xdp::ring::lemma_slot_bound(start, n as int, size);
                }
                let item: T = slots[(idx & mask) as usize];
                out.push(item);
                n += 1;
                assert(out@ =~= out0 + crate::xdp::ring::ring_read(slots@, start, n as nat, size));
            },
        }
    }
    let publish: Option<u32> = if n > 0 {
        Some(ring.commit())
    } else {
        None
    };
    (n, publish)
}

/// A socket is set up in this order: it is opened, its memory is registered, the four rings are
/// sized, their offsets are asked for, they are mapped, FILL is filled, and it is bound.
pub proof fn law_setup_order()
    ensures
        ({
            let s1 = step_after(SetupStep::OpenSocket);
            let s2 = step_after(s1);
            let s3 = step_after(s2);
            let s4 = step_after(s3);
            let s5 = step_after(s4);
            let s6 = step_after(s5);
            let s7 = step_after(s6);
            let s8 = step_after(s7);
            let s9 = step_after(s8);
            let s10 = step_after(s9);
            let s11 = step_after(s10);
            let s12 = step_after(s11);
            let sized = seq![s2, s3, s4, s5];
            let mapped = seq![s7, s8, s9, s10];
            &&& s1 is RegisterUmem
            &&& sized.contains(SetupStep::SizeCompletion) && sized.contains(SetupStep::SizeFill)
                && sized.contains(SetupStep::SizeTx) && sized.contains(SetupStep::SizeRx)
            &&& s6 is QueryOffsets
            &&& mapped.contains(SetupStep::MapFill) && mapped.contains(SetupStep::MapCompletion)
                && mapped.contains(SetupStep::MapRx) && mapped.contains(SetupStep::MapTx)
            &&& s11 is PreFill
            &&& s12 is Bind
            &&& step_after(s12) is Ready
        }),
{
    let sized = seq![
        SetupStep::SizeCompletion,
        SetupStep::SizeFill,
        SetupStep::SizeTx,
        SetupStep::SizeRx,
    ];
    let mapped = seq![
        SetupStep::MapFill,
        SetupStep::MapCompletion,
        SetupStep::MapRx,
        SetupStep::MapTx,
    ];
    assert(sized[0] is SizeCompletion && sized[1] is SizeFill && sized[2] is SizeTx && sized[3]
        is SizeRx);
    assert(mapped[0] is MapFill && mapped[1] is MapCompletion && mapped[2] is MapRx && mapped[3]
        is MapTx);
}

/// The kernel's numbers for AF_XDP.
pub proof fn law_numbers_of_the_kernel()
    ensures
        XDP_COPY == 2 && XDP_ZEROCOPY == 4 && XDP_USE_NEED_WAKEUP == 8,
        XDP_RING_NEED_WAKEUP == 1,
        XDP_RX_RING == 2 && XDP_TX_RING == 3,
        XDP_UMEM_FILL_RING == 5 && XDP_UMEM_COMPLETION_RING == 6,
        XDP_PGOFF_RX_RING == 0 && XDP_PGOFF_TX_RING == 0x8000_0000,
        XDP_UMEM_PGOFF_FILL_RING == 0x1_0000_0000,
        XDP_UMEM_PGOFF_COMPLETION_RING == 0x1_8000_0000,
        EAGAIN == 11 && EBUSY == 16,
{
}

/// Addresses go into a ring behind those in use, in order and round its end, and the index to
/// publish is that many further.
pub proof fn law_ring_is_filled_in_order(
    before: RingProducer,
    after: RingProducer,
    slots0: Seq<u64>,
    slots1: Seq<u64>,
    addrs: Seq<u64>,
    count: int,
    publish: Option<u32>,
    i: int,
)
    requires
        crate::xdp::ring::is_power_of_two(before.size),
        slots0.len() == before.size,
        0 <= i < count <= addrs.len(),
        count <= before.size,
        filled(before, after, slots0, slots1, addrs, count, publish),
    ensures
        slots1[(before.cached_producer + i) % (before.size as int)] == addrs[i],
        publish == Some(after.cached_producer),
        after.cached_producer == (before.cached_producer + count) % 0x1_0000_0000,
{
    crate::xdp::ring::law_slots_go_round(before.cached_producer, i, before.size);
    assert(slots1[crate::xdp::ring::ring_slot(before.cached_producer, i, before.size)]
        == addrs.take(count)[i]);
}

/// Items are taken from a ring in order and round its end, and the index to publish is that many
/// further.
pub proof fn law_ring_is_drained_in_order<T>(
    before: RingConsumer,
    after: RingConsumer,
    slots: Seq<T>,
    out0: Seq<T>,
    out1: Seq<T>,
    count: int,
    publish: Option<u32>,
    i: int,
)
    requires
        slots.len() <= u32::MAX,
        crate::xdp::ring::is_power_of_two(slots.len() as u32),
        0 <= i < count <= u32::MAX,
        drained(before, after, slots, out0, out1, count, publish),
    ensures
        out1.len() == out0.len() + count,
        out1.take(out0.len() as int) == out0,
        out1[out0.len() + i] == slots[(before.cached_consumer + i) % (slots.len() as int)],
        publish == Some(after.cached_consumer),
        after.cached_consumer == (before.cached_consumer + count) % 0x1_0000_0000,
{
    crate::xdp::ring::law_slots_go_round(before.cached_consumer, i, slots.len() as u32);
    assert(out1.take(out0.len() as int) =~= out0);
}

/// Filling a ring leaves the other slots as they are, and nothing is published where nothing was
/// written.
pub proof fn law_filling_leaves_other_slots(
    before: RingProducer,
    after: RingProducer,
    slots0: Seq<u64>,
    slots1: Seq<u64>,
    addrs: Seq<u64>,
    count: int,
    publish: Option<u32>,
    s: int,
)
    requires
        crate::xdp::ring::is_power_of_two(before.size),
        slots0.len() == before.size,
        0 <= count <= addrs.len(),
        count <= before.size,
        0 <= s < slots0.len(),
        filled(before, after, slots0, slots1, addrs, count, publish),
    ensures
        slots1.len() == slots0.len(),
        (s - before.cached_producer) % (before.size as int) >= count ==> slots1[s] == slots0[s],
        count == 0 ==> publish is None && after == before,
        after.size == before.size && after.cached_consumer == before.cached_consumer,
{
    crate::xdp::ring::law_ring_is_written_in_order(
        slots0,
        slots1,
        before.cached_producer,
        addrs.take(count),
        before.size,
        s,
    );
}

/// Draining nothing changes nothing and publishes nothing.
pub proof fn law_draining_nothing<T>(
    before: RingConsumer,
    after: RingConsumer,
    slots: Seq<T>,
    out0: Seq<T>,
    out1: Seq<T>,
    publish: Option<u32>,
)
    requires
        drained(before, after, slots, out0, out1, 0, publish),
    ensures
        out1 == out0,
        publish is None,
        after == before,
{
    assert(out1 =~= out0);
}

/// The setup of a socket keeps what it was asked for: the interface, the queue, the memory, the
/// sizes and the mode.
pub proof fn law_setup_keeps_its_socket(a: XdpSetup, b: XdpSetup)
    requires
        a.same_socket(b),
    ensures
        a.if_index == b.if_index && a.queue_id == b.queue_id,
        a.umem_len == b.umem_len && a.frame_size == b.frame_size,
        a.sizes == b.sizes && a.mode == b.mode,
{
}

} // verus!
