//! The network tile: one I/O thread with its sockets, connected to N engine tiles.

use crate::interface::{PacketBufMut, RecvMeta, ScatterGather, Segment, Transmit};
use crate::mpsc::MpscQueue;
use crate::tile::pool::TxPool;
use crate::tile::queue::{
    clear_all_sleeping, wait_any_non_empty_combined, Queue, Wait, WaitStrategy,
};
use crate::tile::router::PacketRouter;
use crate::xdp::buffers::XdpTxBufMut;
use crate::xdp::umem::Umem;
use std::collections::VecDeque;
use vstd::multiset::Multiset;
use vstd::prelude::*;

verus! {

broadcast use vstd::slice::group_slice_axioms;

pub const TX_BUF_QUEUE_CAP: usize = 1024;

pub const TX_BUF_REFILL_WATERMARK: usize = 256;

pub const TX_BUF_REFILL_BATCH: usize = 64;

/// Number of slots in each queue between a network tile and an engine tile.
pub const QUEUE_CAP: usize = 1024;

/// Most sockets of a tile: their index is a `u8`.
pub const MAX_SOCKETS: usize = 256;

/// Largest batch that a tile receives at once.
pub const MAX_RECV_BATCH: usize = 64;

/// Tile-level toggle for the per-packet `RecvMeta` extras delivered by every
/// backend: `ecn` and `dst_ip`.
///
/// Defaults to both on. Tiles that don't
/// need either field can turn them off to
/// drop the per-packet cost on the OS / io_uring backends.
#[derive(Debug, Clone, Copy, PartialEq, Eq, Structural)]
pub struct RecvMetaConfig {
    pub ecn: bool,
    pub dst_ip: bool,
}

impl Default for RecvMetaConfig {
    fn default() -> (config: RecvMetaConfig)
        ensures
            config == (RecvMetaConfig { ecn: true, dst_ip: true }),
    {
        RecvMetaConfig { ecn: true, dst_ip: true }
    }
}

impl RecvMetaConfig {
    /// Both fields populated.
    pub fn on() -> (config: RecvMetaConfig)
        ensures
            config == (RecvMetaConfig { ecn: true, dst_ip: true }),
    {
        RecvMetaConfig { ecn: true, dst_ip: true }
    }

    /// Neither field populated.
    pub fn off() -> (config: RecvMetaConfig)
        ensures
            config == (RecvMetaConfig { ecn: false, dst_ip: false }),
    {
        RecvMetaConfig { ecn: false, dst_ip: false }
    }

    pub fn no_ecn(self) -> (config: RecvMetaConfig)
        ensures
            config == (RecvMetaConfig { ecn: false, ..self }),
    {
        RecvMetaConfig { ecn: false, ..self }
    }

    pub fn no_dst_ip(self) -> (config: RecvMetaConfig)
        ensures
            config == (RecvMetaConfig { dst_ip: false, ..self }),
    {
        RecvMetaConfig { dst_ip: false, ..self }
    }
}

/// A datagram received from the network, queued for delivery to an engine tile.
///
/// `source_socket` is the index of the originating socket inside the tile
/// (always `0` for single-socket tiles). Engines can use it to tag
/// replies back to the same NIC slave.
pub struct RxPacket<B> {
    pub meta: RecvMeta,
    pub payload: ScatterGather<B>,
    pub source_socket: u8,
}

/// A tile: the queues to and from its engine tiles, and the transmit buffers that engine tiles
/// fill. `B` are the receive buffers, `F` the frozen and `M` the mutable transmit buffers.
pub struct NetworkTileImpl<B, F, M, W: WaitStrategy, R> {
    pub rx_queues: Vec<Queue<RxPacket<B>, W>>,
    pub tx_queues: Vec<Queue<Transmit<ScatterGather<F>>, W>>,
    pub tx_buf_queue: MpscQueue<M>,
    /// RX packets dropped because the routed engine queue was full.
    pub rx_drops: u64,
    pub router: R,
}

/// The items in queues.
pub open spec fn contents<T, W: WaitStrategy>(queues: Seq<Queue<T, W>>) -> Seq<Seq<T>> {
    Seq::new(queues.len(), |i: int| queues[i]@)
}

/// The items in queues, one queue after the other.
pub open spec fn chained<T, W: WaitStrategy>(queues: Seq<Queue<T, W>>) -> Seq<T>
    decreases queues.len(),
{
    if queues.len() == 0 {
        Seq::empty()
    } else {
        chained(queues.drop_last()) + queues.last()@
    }
}

/// The bytes that a packet is routed by: those of its first segment, as far as they are filled.
pub open spec fn routed_bytes<B: PacketBufMut>(payload: Seq<Segment<B>>) -> Seq<u8> {
    if payload.len() == 0 {
        Seq::empty()
    } else {
        let filled = payload[0].buf.bytes();
        filled.subrange(
            payload[0].offset as int,
            vstd::math::min(payload[0].offset + payload[0].len, filled.len() as int),
        )
    }
}

/// Whether a packet's first segment starts in its buffer.
pub open spec fn routable<B: PacketBufMut>(payload: Seq<Segment<B>>) -> bool {
    payload.len() > 0 ==> payload[0].buf.wf() && payload[0].offset <= payload[0].buf.bytes().len()
        && payload[0].offset + payload[0].len <= usize::MAX
}

/// The engine queues and the drop count.
pub struct RxSide<B> {
    pub queues: Seq<Seq<RxPacket<B>>>,
    pub capacities: Seq<nat>,
    pub drops: u64,
}

/// The engine queues after a packet was routed: the chosen queue takes it, or it counts as
/// dropped.
pub open spec fn routed<B>(before: RxSide<B>, index: int, packet: RxPacket<B>) -> RxSide<B> {
    if before.queues[index].len() < before.capacities[index] {
        RxSide {
            queues: before.queues.update(index, before.queues[index].push(packet)),
            ..before
        }
    } else {
        RxSide { drops: before.drops.wrapping_add(1), ..before }
    }
}

/// What the queues know of their consumers.
pub open spec fn consumer_states<T, W: WaitStrategy>(queues: Seq<Queue<T, W>>) -> Seq<W::State> {
    Seq::new(queues.len(), |i: int| queues[i].spec_state())
}

/// The threads to wake for routed packets: for each one that its queue took, the consumer of that
/// queue where it sleeps.
pub open spec fn woken_all<B, W: WaitStrategy>(
    before: RxSide<B>,
    states: Seq<W::State>,
    indices: Seq<int>,
    packets: Seq<RxPacket<B>>,
) -> Seq<u64>
    decreases packets.len(),
{
    if packets.len() == 0 {
        Seq::empty()
    } else {
        let earlier = woken_all::<B, W>(before, states, indices.drop_last(), packets.drop_last());
        let side = routed_all(before, indices.drop_last(), packets.drop_last());
        let index = indices.last();
        if side.queues[index].len() < side.capacities[index] {
            match crate::tile::queue::woken::<W>(states[index]) {
                Some(thread) => earlier.push(thread),
                None => earlier,
            }
        } else {
            earlier
        }
    }
}

/// The packets that found their queue full.
pub open spec fn refused_all<B>(
    before: RxSide<B>,
    indices: Seq<int>,
    packets: Seq<RxPacket<B>>,
) -> Seq<RxPacket<B>>
    decreases packets.len(),
{
    if packets.len() == 0 {
        Seq::empty()
    } else {
        let earlier = refused_all(before, indices.drop_last(), packets.drop_last());
        let side = routed_all(before, indices.drop_last(), packets.drop_last());
        let index = indices.last();
        if side.queues[index].len() < side.capacities[index] {
            earlier
        } else {
            earlier.push(packets.last())
        }
    }
}

/// The engine queues after packets were routed.
pub open spec fn routed_all<B>(
    before: RxSide<B>,
    indices: Seq<int>,
    packets: Seq<RxPacket<B>>,
) -> RxSide<B>
    decreases packets.len(),
{
    if packets.len() == 0 {
        before
    } else {
        routed(
            routed_all(before, indices.drop_last(), packets.drop_last()),
            indices.last(),
            packets.last(),
        )
    }
}

impl<B, F, M, W: WaitStrategy, R> NetworkTileImpl<B, F, M, W, R> {
    pub open spec fn wf(&self) -> bool {
        &&& self.rx_queues@.len() > 0
        &&& crate::tile::queue::all_wf(self.rx_queues@)
        &&& crate::tile::queue::all_wf(self.tx_queues@)
        &&& self.tx_buf_queue.wf()
        &&& self.tx_buf_queue.capacity() == TX_BUF_QUEUE_CAP
    }

    /// The engine queues and the drop count.
    pub open spec fn rx_side(&self) -> RxSide<B> {
        RxSide {
            queues: contents(self.rx_queues@),
            capacities: Seq::new(self.rx_queues@.len(), |i: int| self.rx_queues@[i].capacity()),
            drops: self.rx_drops,
        }
    }

    /// Create a tile with the default queue capacity ([`QUEUE_CAP`]).
    pub fn new(router: R, engine_count: usize) -> (tile: NetworkTileImpl<B, F, M, W, R>)
        requires
            engine_count > 0,
        ensures
            tile.wf(),
            tile.rx_side() == (RxSide {
                queues: Seq::new(engine_count as nat, |i: int| Seq::<RxPacket<B>>::empty()),
                capacities: Seq::new(engine_count as nat, |i: int| QUEUE_CAP as nat),
                drops: 0,
            }),
            contents(tile.tx_queues@) == Seq::new(
                engine_count as nat,
                |i: int| Seq::<Transmit<ScatterGather<F>>>::empty(),
            ),
            tile.tx_buf_queue@ == Seq::<M>::empty(),
            tile.router == router,
    {
        Self::with_queue_cap(router, engine_count, QUEUE_CAP)
    }

    /// Like `new` but with a custom per-engine RX/TX queue capacity.
    pub fn with_queue_cap(router: R, engine_count: usize, queue_cap: usize) -> (tile: NetworkTileImpl<
        B,
        F,
        M,
        W,
        R,
    >)
        requires
            engine_count > 0,
            queue_cap > 0,
            queue_cap * 16 <= isize::MAX,
        ensures
            tile.wf(),
            tile.rx_side() == (RxSide {
                queues: Seq::new(engine_count as nat, |i: int| Seq::<RxPacket<B>>::empty()),
                capacities: Seq::new(engine_count as nat, |i: int| queue_cap as nat),
                drops: 0,
            }),
            contents(tile.tx_queues@) == Seq::new(
                engine_count as nat,
                |i: int| Seq::<Transmit<ScatterGather<F>>>::empty(),
            ),
            tile.tx_buf_queue@ == Seq::<M>::empty(),
            tile.router == router,
    {
        let rx_queues: Vec<Queue<RxPacket<B>, W>> = make_queues(engine_count, queue_cap);
        let tx_queues: Vec<Queue<Transmit<ScatterGather<F>>, W>> = make_queues(
            engine_count,
            queue_cap,
        );
        let tile = NetworkTileImpl {
            rx_queues,
            tx_queues,
            tx_buf_queue: MpscQueue::new(TX_BUF_QUEUE_CAP),
            rx_drops: 0,
            router,
        };
        assert(tile.rx_side().queues =~= Seq::new(
            engine_count as nat,
            |i: int| Seq::<RxPacket<B>>::empty(),
        ));
        assert(tile.rx_side().capacities =~= Seq::new(engine_count as nat, |i: int| queue_cap as nat));
        assert(contents(tile.tx_queues@) =~= Seq::new(
            engine_count as nat,
            |i: int| Seq::<Transmit<ScatterGather<F>>>::empty(),
        ));
        tile
    }

    /// Total RX packets dropped due to a full engine queue since construction.
    pub fn rx_drops(&self) -> (n: u64)
        ensures
            n == self.rx_drops,
    {
        self.rx_drops
    }

    /// Pop up to `count` pre-allocated TX buffers from the tile's buffer queue.
    pub fn alloc_tx_bufs(&mut self, _capacity: usize, count: usize, bufs: &mut Vec<M>) -> (n: usize)
        requires
            old(self).wf(),
        ensures
            final(self).wf(),
            n == vstd::math::min(count as int, old(self).tx_buf_queue@.len() as int),
            final(bufs)@ == old(bufs)@ + old(self).tx_buf_queue@.take(n as int),
            final(self).tx_buf_queue@ == old(self).tx_buf_queue@.skip(n as int),
            *final(self) == (NetworkTileImpl {
                tx_buf_queue: final(self).tx_buf_queue,
                ..*old(self)
            }),
    {
        let ghost all = self.tx_buf_queue@;
        let ghost bufs0 = bufs@;
        let ghost before = *self;
        let mut allocated: usize = 0;
        assert(bufs@ =~= bufs0 + all.take(0));
        assert(all.skip(0) =~= all);
        while allocated < count
            invariant
                allocated <= count,
                allocated <= all.len(),
                self.wf(),
                self.tx_buf_queue@ == all.skip(allocated as int),
                bufs@ == bufs0 + all.take(allocated as int),
                *self == (NetworkTileImpl { tx_buf_queue: self.tx_buf_queue, ..before }),
            ensures
                allocated == vstd::math::min(count as int, all.len() as int),
            decreases count - allocated,
        {
            match self.tx_buf_queue.pop() {
                None => {
                    break ;
                },
                Some(buf) => {
                    bufs.push(buf);
                    proof {
                        assert(all.skip(allocated as int).drop_first() =~= all.skip(allocated + 1));
                        assert(bufs@ =~= bufs0 + all.take(allocated + 1));
                    }
                    allocated += 1;
                },
            }
        }
        allocated
    }

    /// How the I/O thread waits after a round: not at all where there was work or a packet to
    /// send came up, else until an engine tile sends or a short time is over. The wait is bounded,
    /// because the thread also polls the sockets.
    pub fn idle(&mut self, did_work: bool) -> (wait: Option<Wait>)
        requires
            old(self).wf(),
        ensures
            final(self).wf(),
            did_work ==> wait is None && *final(self) == *old(self),
            !did_work ==> {
                &&& wait == (if !crate::tile::queue::all_empty(old(self).tx_queues@) {
                    None
                } else if W::parks() {
                    Some(Wait::ParkTimeout { micros: 50 })
                } else {
                    Some(Wait::Spin)
                })
                &&& crate::tile::queue::same_items(old(self).tx_queues@, final(self).tx_queues@)
                &&& forall|i: int|
                    0 <= i < final(self).tx_queues@.len() ==> W::sleeping(
                        (#[trigger] final(self).tx_queues@[i]).spec_state(),
                    ) == W::parks()
                &&& *final(self) == (NetworkTileImpl {
                    tx_queues: final(self).tx_queues,
                    ..*old(self)
                })
            },
    {
        if did_work {
            None
        } else {
            wait_any_non_empty_combined(&mut self.tx_queues)
        }
    }

    /// Ends a wait: no engine tile has to wake the I/O thread any more.
    pub fn awake(&mut self)
        requires
            old(self).wf(),
        ensures
            final(self).wf(),
            crate::tile::queue::same_items(old(self).tx_queues@, final(self).tx_queues@),
            forall|i: int|
                0 <= i < final(self).tx_queues@.len() ==> !W::sleeping(
                    (#[trigger] final(self).tx_queues@[i]).spec_state(),
                ),
            *final(self) == (NetworkTileImpl { tx_queues: final(self).tx_queues, ..*old(self) }),
    {
        clear_all_sleeping(&mut self.tx_queues);
    }

    /// Appends the packets of all engine tiles to `out`, one engine tile after the other.
    pub fn drain_tx(&mut self, out: &mut VecDeque<Transmit<ScatterGather<F>>>)
        requires
            old(self).wf(),
        ensures
            final(self).wf(),
            final(out)@ == old(out)@ + chained(old(self).tx_queues@),
            crate::tile::queue::all_empty(final(self).tx_queues@),
            final(self).tx_queues@.len() == old(self).tx_queues@.len(),
            forall|i: int|
                0 <= i < old(self).tx_queues@.len() ==> (#[trigger] final(self).tx_queues@[i]).capacity() == old(self).tx_queues@[i].capacity() && final(self).tx_queues@[i].spec_state() == old(self).tx_queues@[i].spec_state(),
            *final(self) == (NetworkTileImpl { tx_queues: final(self).tx_queues, ..*old(self) }),
    {
        let ghost before = *self;
        let ghost queues0 = self.tx_queues@;
        let ghost out0 = out@;
        let mut i: usize = 0;
        assert(chained(queues0.take(0)) =~= Seq::<Transmit<ScatterGather<F>>>::empty());
        while i < self.tx_queues.len()
            invariant
                i <= self.tx_queues@.len() == queues0.len(),
                self.wf(),
                before.tx_queues@ == queues0,
                out@ == out0 + chained(queues0.take(i as int)),
                *self == (NetworkTileImpl { tx_queues: self.tx_queues, ..before }),
                forall|j: int| 0 <= j < i ==> (#[trigger] self.tx_queues@[j])@.len() == 0,
                forall|j: int|
                    0 <= j < queues0.len() ==> (#[trigger] self.tx_queues@[j]).capacity()
                        == queues0[j].capacity() && self.tx_queues@[j].spec_state()
                        == queues0[j].spec_state(),
                forall|j: int| i <= j < queues0.len() ==> #[trigger] self.tx_queues@[j] == queues0[j],
            decreases queues0.len() - i,
        {
            assert(self.tx_queues@[i as int] == queues0[i as int]);
            let ghost all = queues0[i as int]@;
            let ghost out1 = out@;
            let ghost mut n: int = 0;
            assert(all.skip(0) =~= all);
            assert(out@ =~= out1 + all.take(0));
            loop
                invariant
                    i < self.tx_queues@.len() == queues0.len(),
                    self.wf(),
                    before.tx_queues@ == queues0,
                    *self == (NetworkTileImpl { tx_queues: self.tx_queues, ..before }),
                    0 <= n <= all.len(),
                    self.tx_queues@[i as int]@ == all.skip(n),
                    out@ == out1 + all.take(n),
                    forall|j: int| 0 <= j < i ==> (#[trigger] self.tx_queues@[j])@.len() == 0,
                    forall|j: int|
                        0 <= j < queues0.len() ==> (#[trigger] self.tx_queues@[j]).capacity()
                            == queues0[j].capacity() && self.tx_queues@[j].spec_state()
                            == queues0[j].spec_state(),
                    forall|j: int|
                        i < j < queues0.len() ==> #[trigger] self.tx_queues@[j] == queues0[j],
                ensures
                    n == all.len(),
                decreases all.len() - n,
            {
                match self.tx_queues[i].pop() {
                    None => {
                        break ;
                    },
                    Some(t) => {
                        out.push_back(t);
                        proof {
                            assert(all.skip(n).drop_first() =~= all.skip(n + 1));
                            assert(out@ =~= out1 + all.take(n + 1));
                            n = n + 1;
                        }
                    },
                }
            }
            proof {
                assert(all.take(n) =~= all);
                assert(queues0.take(i + 1).drop_last() =~= queues0.take(i as int));
                assert(queues0.take(i + 1).last() == queues0[i as int]);
                assert(out@ =~= out0 + chained(queues0.take(i + 1)));
            }
            i += 1;
        }
        assert(queues0.take(i as int) =~= queues0);
    }
}

/// `n` empty queues.
fn make_queues<T, W: WaitStrategy>(n: usize, capacity: usize) -> (queues: Vec<Queue<T, W>>)
    requires
        0 < capacity,
        capacity * 16 <= isize::MAX,
    ensures
        queues@.len() == n,
        crate::tile::queue::all_wf(queues@),
        forall|i: int|
            0 <= i < n ==> (#[trigger] queues@[i])@ == Seq::<T>::empty() && queues@[i].capacity()
                == capacity,
{
    let mut queues: Vec<Queue<T, W>> = Vec::with_capacity(n);
    let mut i: usize = 0;
    while i < n
        invariant
            i <= n,
            0 < capacity,
            capacity * 16 <= isize::MAX,
            queues@.len() == i,
            crate::tile::queue::all_wf(queues@),
            forall|j: int|
                0 <= j < i ==> (#[trigger] queues@[j])@ == Seq::<T>::empty() && queues@[j].capacity()
                    == capacity,
        decreases n - i,
    {
        queues.push(Queue::new(capacity));
        i += 1;
    }
    queues
}

impl<B, F, M, W: WaitStrategy, R: PacketRouter> NetworkTileImpl<B, F, M, W, R> {
    /// Queues a packet for the engine tile that the router chooses for `payload`, the bytes of
    /// its first segment. Buffers that only name a slot or a frame come this way: their bytes lie
    /// with the socket. Returns the thread to wake, or the packet as [`push_to`](Self::push_to)
    /// does.
    pub fn push_routed(&mut self, packet: RxPacket<B>, payload: &[u8]) -> (result: Result<
        Option<u64>,
        RxPacket<B>,
    >)
        requires
            old(self).wf(),
        ensures
            final(self).wf(),
            exists|index: int|
                {
                    &&& #[trigger] old(self).router.may_choose(
                        packet.meta,
                        payload@,
                        old(self).rx_queues@.len() as int,
                        index,
                    )
                    &&& 0 <= index < old(self).rx_queues@.len()
                    &&& pushed_to(*old(self), *final(self), index, packet, result)
                },
    {
        let engine_count: usize = self.rx_queues.len();
        let index: usize = self.router.route(&packet.meta, payload, engine_count);
        assert(self.router.may_choose(
            packet.meta,
            payload@,
            self.rx_queues@.len() as int,
            index as int,
        ));
        self.push_to(index, packet)
    }

    /// Queues a packet for an engine tile, and returns the thread to wake. Where its queue is
    /// full, the packet counts as dropped: it is handed back, so that its buffers can go back to
    /// where they came from.
    pub fn push_to(&mut self, index: usize, packet: RxPacket<B>) -> (result: Result<
        Option<u64>,
        RxPacket<B>,
    >)
        requires
            old(self).wf(),
            index < old(self).rx_queues@.len(),
        ensures
            final(self).wf(),
            pushed_to(*old(self), *final(self), index as int, packet, result),
    {
        let ghost before = *self;
        let result: Result<Option<u64>, RxPacket<B>> = self.rx_queues[index].push(packet);
        if result.is_err() {
            self.rx_drops = self.rx_drops.wrapping_add(1);
        }
        proof {
            let side = routed(before.rx_side(), index as int, packet);
            assert(self.rx_side().queues =~= side.queues);
            assert(self.rx_side().capacities =~= side.capacities);
        }
        result
    }
}

impl<B: PacketBufMut, F, M, W: WaitStrategy, R: PacketRouter> NetworkTileImpl<B, F, M, W, R> {
    /// Queues a packet for the engine tile that the router chooses. Returns the thread to wake,
    /// or the packet as [`push_to`](Self::push_to) does.
    pub fn push_rx(&mut self, packet: RxPacket<B>) -> (result: Result<Option<u64>, RxPacket<B>>)
        requires
            old(self).wf(),
            packet.payload.wf(),
            routable(packet.payload@),
        ensures
            final(self).wf(),
            exists|index: int|
                {
                    &&& #[trigger] old(self).router.may_choose(
                        packet.meta,
                        routed_bytes(packet.payload@),
                        old(self).rx_queues@.len() as int,
                        index,
                    )
                    &&& 0 <= index < old(self).rx_queues@.len()
                    &&& pushed_to(*old(self), *final(self), index, packet, result)
                },
    {
        let engine_count: usize = self.rx_queues.len();
        let empty: Vec<u8> = Vec::new();
        let index: usize = if packet.payload.segment_count() == 0 {
            assert(empty@ =~= routed_bytes(packet.payload@));
            self.router.route(&packet.meta, empty.as_slice(), engine_count)
        } else {
            let (buf, start, len): (&B, usize, usize) = packet.payload.segment(0);
            let filled: &[u8] = buf.filled();
            let end: usize = if start + len < filled.len() {
                start + len
            } else {
                filled.len()
            };
            let data: &[u8] = vstd::slice::slice_subrange(filled, start, end);
            assert(data@ =~= routed_bytes(packet.payload@));
            self.router.route(&packet.meta, data, engine_count)
        };
        assert(self.router.may_choose(
            packet.meta,
            routed_bytes(packet.payload@),
            self.rx_queues@.len() as int,
            index as int,
        ));
        self.push_to(index, packet)
    }

    /// Queues the first `n` received buffers, each as a packet of one segment, and takes them
    /// out of `bufs`. Returns the threads to wake, and the packets that found their queue full:
    /// no buffer is lost.
    pub fn deliver(
        &mut self,
        meta: &[RecvMeta],
        bufs: &mut Vec<B>,
        n: usize,
        source_socket: u8,
    ) -> (result: (Vec<u64>, Vec<RxPacket<B>>))
        requires
            old(self).wf(),
            n <= meta@.len(),
            n <= old(bufs)@.len(),
            forall|i: int| 0 <= i < n ==> (#[trigger] old(bufs)@[i]).wf(),
        ensures
            final(self).wf(),
            final(bufs)@ == old(bufs)@.skip(n as int),
            exists|packets: Seq<RxPacket<B>>, indices: Seq<int>|
                {
                    &&& #[trigger] batch_of(packets, meta@, old(bufs)@, n as int, source_socket)
                    &&& #[trigger] choices_of(old(self).router, packets, indices, old(self).rx_queues@.len() as int)
                    &&& final(self).rx_side() == routed_all(old(self).rx_side(), indices, packets)
                    &&& result.0@ == woken_all::<B, W>(
                        old(self).rx_side(),
                        consumer_states(old(self).rx_queues@),
                        indices,
                        packets,
                    )
                    &&& result.1@ == refused_all(old(self).rx_side(), indices, packets)
                },
            queued_bufs(old(self).rx_side().queues).add(old(bufs)@.to_multiset()) == queued_bufs(
                final(self).rx_side().queues,
            ).add(packet_bufs(result.1@)).add(final(bufs)@.to_multiset()),
            consumer_states(final(self).rx_queues@) == consumer_states(old(self).rx_queues@),
            final(self).rx_queues@.len() == old(self).rx_queues@.len(),
            final(self).tx_queues == old(self).tx_queues,
            final(self).tx_buf_queue == old(self).tx_buf_queue,
            final(self).router == old(self).router,
    {
        let ghost before = *self;
        let ghost all = bufs@;
        let ghost mut packets: Seq<RxPacket<B>> = Seq::empty();
        let ghost mut indices: Seq<int> = Seq::empty();
        let mut wakes: Vec<u64> = Vec::new();
        let mut refused: Vec<RxPacket<B>> = Vec::new();
        let mut i: usize = 0;
        assert(all.skip(0) =~= all);
        while i < n
            invariant
                i <= n <= meta@.len(),
                n <= all.len(),
                forall|j: int| 0 <= j < n ==> (#[trigger] all[j]).wf(),
                self.wf(),
                bufs@ == all.skip(i as int),
                batch_of(packets, meta@, all, i as int, source_socket),
                choices_of(before.router, packets, indices, before.rx_queues@.len() as int),
                self.rx_side() == routed_all(before.rx_side(), indices, packets),
                wakes@ == woken_all::<B, W>(
                    before.rx_side(),
                    consumer_states(before.rx_queues@),
                    indices,
                    packets,
                ),
                refused@ == refused_all(before.rx_side(), indices, packets),
                consumer_states(self.rx_queues@) == consumer_states(before.rx_queues@),
                self.rx_queues@.len() == before.rx_queues@.len(),
                self.tx_queues == before.tx_queues,
                self.tx_buf_queue == before.tx_buf_queue,
                self.router == before.router,
            decreases n - i,
        {
            let ghost current = *self;
            assert(bufs@[0] == all[i as int]);
            let buf: B = bufs.remove(0);
            assert(bufs@ =~= all.skip(i + 1));
            let mut payload: ScatterGather<B> = ScatterGather::new();
            payload.push(Segment { buf, offset: 0, len: meta[i].len });
            let packet = RxPacket { meta: meta[i], payload, source_socket };
            proof {
                assert(packet.payload@ =~= seq![Segment { buf, offset: 0, len: meta@[i as int].len }]);
            }
            let pushed: Result<Option<u64>, RxPacket<B>> = self.push_rx(packet);
            proof {
                let index = choose|index: int|
                    {
                        &&& #[trigger] current.router.may_choose(
                            packet.meta,
                            routed_bytes(packet.payload@),
                            current.rx_queues@.len() as int,
                            index,
                        )
                        &&& 0 <= index < current.rx_queues@.len()
                        &&& pushed_to(current, *self, index, packet, pushed)
                    };
                let packets1 = packets.push(packet);
                let indices1 = indices.push(index);
                assert(packets1.drop_last() =~= packets);
                assert(indices1.drop_last() =~= indices);
                assert(routed_all(before.rx_side(), indices1, packets1) == routed(
                    routed_all(before.rx_side(), indices, packets),
                    index,
                    packet,
                ));
                assert(choices_of(before.router, packets1, indices1, before.rx_queues@.len() as int));
                assert(batch_of(packets1, meta@, all, i + 1, source_socket));
                assert(consumer_states(self.rx_queues@) =~= consumer_states(current.rx_queues@));
                assert(current.rx_side().queues[index] == current.rx_queues@[index]@);
                assert(current.rx_side().capacities[index] == current.rx_queues@[index].capacity());
                assert(consumer_states(before.rx_queues@)[index]
                    == current.rx_queues@[index].spec_state());
                packets = packets1;
                indices = indices1;
            }
            match pushed {
                Ok(Some(thread)) => {
                    wakes.push(thread);
                },
                Ok(None) => {},
                Err(back) => {
                    refused.push(back);
                },
            }
            i += 1;
        }
        proof {
            law_delivery_loses_no_buffer(
                before.rx_side(),
                indices,
                packets,
                meta@,
                all,
                n as int,
                source_socket,
            );
        }
        (wakes, refused)
    }
}

/// How queueing a packet changes a tile.
pub open spec fn pushed_to<B, F, M, W: WaitStrategy, R>(
    before: NetworkTileImpl<B, F, M, W, R>,
    after: NetworkTileImpl<B, F, M, W, R>,
    index: int,
    packet: RxPacket<B>,
    result: Result<Option<u64>, RxPacket<B>>,
) -> bool {
    &&& after.rx_side() == routed(before.rx_side(), index, packet)
    &&& after.rx_queues@.len() == before.rx_queues@.len()
    &&& result == (if before.rx_queues@[index]@.len() < before.rx_queues@[index].capacity() {
        Ok::<Option<u64>, RxPacket<B>>(
            crate::tile::queue::woken::<W>(before.rx_queues@[index].spec_state()),
        )
    } else {
        Err(packet)
    })
    &&& forall|i: int|
        0 <= i < before.rx_queues@.len() ==> (#[trigger] after.rx_queues@[i]).spec_state()
            == before.rx_queues@[i].spec_state()
    &&& after.tx_queues == before.tx_queues
    &&& after.tx_buf_queue == before.tx_buf_queue
    &&& after.router == before.router
}

/// Whether packets are the first `n` buffers, each as one segment.
pub open spec fn batch_of<B>(
    packets: Seq<RxPacket<B>>,
    meta: Seq<RecvMeta>,
    bufs: Seq<B>,
    n: int,
    source_socket: u8,
) -> bool {
    &&& packets.len() == n
    &&& forall|i: int|
        0 <= i < n ==> {
            &&& (#[trigger] packets[i]).meta == meta[i]
            &&& packets[i].source_socket == source_socket
            &&& packets[i].payload@ == seq![Segment { buf: bufs[i], offset: 0, len: meta[i].len }]
        }
}

/// The buffers that segments lie in.
pub open spec fn segment_bufs<B>(segments: Seq<Segment<B>>) -> Multiset<B> {
    segments.map_values(|s: Segment<B>| s.buf).to_multiset()
}

/// The buffers of packets.
pub open spec fn packet_bufs<B>(packets: Seq<RxPacket<B>>) -> Multiset<B>
    decreases packets.len(),
{
    if packets.len() == 0 {
        Multiset::empty()
    } else {
        packet_bufs(packets.drop_last()).add(segment_bufs(packets.last().payload@))
    }
}

/// The buffers of the packets in queues.
pub open spec fn queued_bufs<B>(queues: Seq<Seq<RxPacket<B>>>) -> Multiset<B>
    decreases queues.len(),
{
    if queues.len() == 0 {
        Multiset::empty()
    } else {
        queued_bufs(queues.drop_last()).add(packet_bufs(queues.last()))
    }
}

/// Delivering received buffers loses none and doubles none: those queued before and those
/// received are the ones queued now, those of the packets that are handed back, and those that
/// were not delivered.
pub proof fn law_delivery_loses_no_buffer<B>(
    before: RxSide<B>,
    indices: Seq<int>,
    packets: Seq<RxPacket<B>>,
    meta: Seq<RecvMeta>,
    bufs: Seq<B>,
    n: int,
    source_socket: u8,
)
    requires
        0 <= n <= bufs.len(),
        indices.len() == n,
        forall|i: int| 0 <= i < n ==> 0 <= #[trigger] indices[i] < before.queues.len(),
        batch_of(packets, meta, bufs, n, source_socket),
    ensures
        queued_bufs(before.queues).add(bufs.to_multiset()) == queued_bufs(
            routed_all(before, indices, packets).queues,
        ).add(packet_bufs(refused_all(before, indices, packets))).add(bufs.skip(n).to_multiset()),
{
    lemma_routed_bufs(before, indices, packets);
    lemma_batch_bufs(packets, meta, bufs, n, source_socket);
    vstd::seq_lib::lemma_multiset_commutative(bufs.take(n), bufs.skip(n));
    assert(bufs =~= bufs.take(n) + bufs.skip(n));
    assert(queued_bufs(before.queues).add(bufs.to_multiset()) =~= queued_bufs(
        routed_all(before, indices, packets).queues,
    ).add(packet_bufs(refused_all(before, indices, packets))).add(bufs.skip(n).to_multiset()));
}

/// Routing packets moves their buffers to the queues or to the packets handed back.
proof fn lemma_routed_bufs<B>(before: RxSide<B>, indices: Seq<int>, packets: Seq<RxPacket<B>>)
    requires
        indices.len() == packets.len(),
        forall|i: int| 0 <= i < indices.len() ==> 0 <= #[trigger] indices[i] < before.queues.len(),
    ensures
        routed_all(before, indices, packets).queues.len() == before.queues.len(),
        queued_bufs(before.queues).add(packet_bufs(packets)) == queued_bufs(
            routed_all(before, indices, packets).queues,
        ).add(packet_bufs(refused_all(before, indices, packets))),
    decreases packets.len(),
{
    if packets.len() == 0 {
        assert(queued_bufs(before.queues).add(packet_bufs(packets)) =~= queued_bufs(
            routed_all(before, indices, packets).queues,
        ).add(packet_bufs(refused_all(before, indices, packets))));
    } else {
        let indices0 = indices.drop_last();
        let packets0 = packets.drop_last();
        assert forall|i: int| 0 <= i < indices0.len() implies 0 <= #[trigger] indices0[i]
            < before.queues.len() by {
            assert(indices0[i] == indices[i]);
        }
        lemma_routed_bufs(before, indices0, packets0);
        let side = routed_all(before, indices0, packets0);
        let refused = refused_all(before, indices0, packets0);
        let index = indices.last();
        let packet = packets.last();
        let bufs = segment_bufs(packet.payload@);
        assert(indices[indices.len() - 1] == index);
        let after = routed_all(before, indices, packets);
        let refused1 = refused_all(before, indices, packets);
        if side.queues[index].len() < side.capacities[index] {
            lemma_queued_one_more(side.queues, index, packet);
            assert(refused1 == refused);
            assert(queued_bufs(after.queues) == queued_bufs(side.queues).add(bufs));
        } else {
            assert(refused1 == refused.push(packet));
            assert(refused1.drop_last() =~= refused);
            assert(refused1.last() == packet);
            assert(packet_bufs(refused1) == packet_bufs(refused).add(bufs));
            assert(after.queues == side.queues);
        }
        let queued = queued_bufs(side.queues);
        let back = packet_bufs(refused);
        assert(queued_bufs(before.queues).add(packet_bufs(packets)) =~= queued_bufs(
            before.queues,
        ).add(packet_bufs(packets0)).add(bufs));
        assert(queued.add(back).add(bufs) =~= queued.add(bufs).add(back));
        assert(queued.add(back).add(bufs) =~= queued.add(back.add(bufs)));
    }
}

/// A packet more in a queue is its buffers more.
proof fn lemma_queued_one_more<B>(queues: Seq<Seq<RxPacket<B>>>, index: int, packet: RxPacket<B>)
    requires
        0 <= index < queues.len(),
    ensures
        queued_bufs(queues.update(index, queues[index].push(packet))) == queued_bufs(queues).add(
            segment_bufs(packet.payload@),
        ),
    decreases queues.len(),
{
    let more = queues.update(index, queues[index].push(packet));
    if index == queues.len() - 1 {
        assert(more.drop_last() =~= queues.drop_last());
        assert(more.last().drop_last() =~= queues.last());
    } else {
        lemma_queued_one_more(queues.drop_last(), index, packet);
        assert(more.drop_last() =~= queues.drop_last().update(index, queues[index].push(packet)));
    }
    assert(queued_bufs(more) =~= queued_bufs(queues).add(segment_bufs(packet.payload@)));
}

/// A batch has the buffers that it was made of.
proof fn lemma_batch_bufs<B>(
    packets: Seq<RxPacket<B>>,
    meta: Seq<RecvMeta>,
    bufs: Seq<B>,
    n: int,
    source_socket: u8,
)
    requires
        0 <= n <= bufs.len(),
        batch_of(packets, meta, bufs, n, source_socket),
    ensures
        packet_bufs(packets) == bufs.take(n).to_multiset(),
    decreases n,
{
    broadcast use vstd::seq_lib::group_to_multiset_ensures;

    if n == 0 {
        assert(bufs.take(0) =~= Seq::<B>::empty());
        assert(packet_bufs(packets) =~= bufs.take(n).to_multiset());
    } else {
        let packets0 = packets.drop_last();
        assert forall|i: int| 0 <= i < n - 1 implies {
            &&& (#[trigger] packets0[i]).meta == meta[i]
            &&& packets0[i].source_socket == source_socket
            &&& packets0[i].payload@ == seq![Segment { buf: bufs[i], offset: 0, len: meta[i].len }]
        } by {
            assert(packets0[i] == packets[i]);
        }
        lemma_batch_bufs(packets0, meta, bufs, n - 1, source_socket);
        let buf = bufs[n - 1];
        assert(packets[n - 1] == packets.last());
        assert(packets.last().payload@.map_values(|s: Segment<B>| s.buf) =~= Seq::empty().push(buf));
        assert(bufs.take(n) =~= bufs.take(n - 1).push(buf));
        assert(segment_bufs(packets.last().payload@) =~= Multiset::empty().insert(buf));
        assert(packet_bufs(packets) =~= bufs.take(n).to_multiset());
    }
}

/// Whether a router may choose engine tiles for packets.
pub open spec fn choices_of<B: PacketBufMut, R: PacketRouter>(
    router: R,
    packets: Seq<RxPacket<B>>,
    indices: Seq<int>,
    engine_count: int,
) -> bool {
    &&& indices.len() == packets.len()
    &&& forall|i: int|
        0 <= i < packets.len() ==> 0 <= #[trigger] indices[i] < engine_count && router.may_choose(
            packets[i].meta,
            routed_bytes(packets[i].payload@),
            engine_count,
            indices[i],
        )
}

/// Whether all scratch buffers are usable and empty.
pub open spec fn all_blank<M: PacketBufMut>(bufs: Seq<M>) -> bool {
    forall|i: int| 0 <= i < bufs.len() ==> (#[trigger] bufs[i]).wf() && bufs[i].bytes().len() == 0
}

impl<B, F, M: PacketBufMut, W: WaitStrategy, R> NetworkTileImpl<B, F, M, W, R> {
    /// Copies bytes into a scratch Tx buffer of the tile's pre-filled queue. `Err` when the queue
    /// is exhausted, or the bytes do not fit the scratch buffer, which comes along for its pool.
    pub fn fill_scratch(&mut self, data: &[u8]) -> (filled: Result<M, Option<M>>)
        requires
            old(self).wf(),
            all_blank(old(self).tx_buf_queue@),
        ensures
            final(self).wf(),
            *final(self) == (NetworkTileImpl {
                tx_buf_queue: final(self).tx_buf_queue,
                ..*old(self)
            }),
            all_blank(final(self).tx_buf_queue@),
            ({
                let scratch = old(self).tx_buf_queue@;
                &&& scratch.len() == 0 ==> filled == Err::<M, Option<M>>(None)
                    && final(self).tx_buf_queue@ == scratch
                &&& scratch.len() > 0 ==> final(self).tx_buf_queue@ == scratch.drop_first()
                &&& scratch.len() > 0 && data@.len() > scratch[0].spec_capacity() ==> filled
                    == Err::<M, Option<M>>(Some(scratch[0]))
                &&& scratch.len() > 0 && data@.len() <= scratch[0].spec_capacity() ==> {
                    &&& filled matches Ok(tx)
                    &&& tx.wf()
                    &&& tx.same_buffer(scratch[0])
                    &&& tx.spec_capacity() == scratch[0].spec_capacity()
                    &&& tx.bytes() == data@
                }
            }),
    {
        let ghost scratch = self.tx_buf_queue@;
        let mut tx: M = match self.tx_buf_queue.pop() {
            None => return Err(None),
            Some(tx) => tx,
        };
        proof {
            assert(scratch[0].wf());
            assert forall|i: int| 0 <= i < self.tx_buf_queue@.len() implies (
            #[trigger] self.tx_buf_queue@[i]).wf() && self.tx_buf_queue@[i].bytes().len() == 0 by {
                assert(self.tx_buf_queue@[i] == scratch[i + 1]);
            }
        }
        // RX max payload may exceed TX max payload; bail rather than
        // overrun the TX buffer.
        if data.len() > tx.capacity() {
            return Err(Some(tx));
        }
        let ghost bytes0 = tx.bytes();
        tx.append(data);
        assert(bytes0 + data@ =~= data@);
        Ok(tx)
    }
}

/// Whether all scratch frames are empty and lie in the memory.
pub open spec fn all_blank_in(bufs: Seq<XdpTxBufMut>, umem: Umem) -> bool {
    forall|i: int| 0 <= i < bufs.len() ==> (#[trigger] bufs[i]).wf(umem) && bufs[i].payload_len == 0
}

impl<B, F, W: WaitStrategy, R> NetworkTileImpl<B, F, XdpTxBufMut, W, R> {
    /// Copies bytes into a scratch frame of the tile's pre-filled queue, in the memory that its
    /// frames lie in. `Err` when the queue is exhausted, or the bytes do not fit the frame, which
    /// comes along for its pool.
    pub fn fill_scratch_frame(&mut self, umem: &mut Umem, data: &[u8]) -> (filled: Result<
        XdpTxBufMut,
        Option<XdpTxBufMut>,
    >)
        requires
            old(self).wf(),
            old(umem).wf(),
            all_blank_in(old(self).tx_buf_queue@, *old(umem)),
        ensures
            final(self).wf(),
            *final(self) == (NetworkTileImpl {
                tx_buf_queue: final(self).tx_buf_queue,
                ..*old(self)
            }),
            final(umem).wf(),
            all_blank_in(final(self).tx_buf_queue@, *final(umem)),
            ({
                let scratch = old(self).tx_buf_queue@;
                &&& scratch.len() == 0 ==> filled == Err::<XdpTxBufMut, Option<XdpTxBufMut>>(None)
                    && final(self).tx_buf_queue@ == scratch
                &&& scratch.len() > 0 ==> final(self).tx_buf_queue@ == scratch.drop_first()
                &&& scratch.len() > 0 && data@.len() > scratch[0].cap ==> filled == Err::<
                    XdpTxBufMut,
                    Option<XdpTxBufMut>,
                >(Some(scratch[0]))
                &&& filled is Err ==> *final(umem) == *old(umem)
                &&& scratch.len() > 0 && data@.len() <= scratch[0].cap ==> {
                    &&& filled == Ok::<XdpTxBufMut, Option<XdpTxBufMut>>(
                        XdpTxBufMut { payload_len: data@.len() as u32, ..scratch[0] },
                    )
                    &&& crate::xdp::buffers::region_written(
                        *old(umem),
                        *final(umem),
                        scratch[0].frame_addr + scratch[0].payload_offset,
                        data@,
                    )
                    &&& final(umem).spec_frame_size() == old(umem).spec_frame_size()
                    &&& final(umem).spec_frame_count() == old(umem).spec_frame_count()
                }
            }),
    {
        let ghost scratch = self.tx_buf_queue@;
        let mut tx: XdpTxBufMut = match self.tx_buf_queue.pop() {
            None => return Err(None),
            Some(tx) => tx,
        };
        proof {
            assert(scratch[0].wf(*umem));
            assert forall|i: int| 0 <= i < self.tx_buf_queue@.len() implies (
            #[trigger] self.tx_buf_queue@[i]).wf(*umem) && self.tx_buf_queue@[i].payload_len == 0 by {
                assert(self.tx_buf_queue@[i] == scratch[i + 1]);
            }
        }
        if data.len() > tx.capacity() {
            return Err(Some(tx));
        }
        tx.append(umem, data);
        Ok(tx)
    }
}

impl<B: PacketBufMut, F, M: PacketBufMut, W: WaitStrategy, R> NetworkTileImpl<B, F, M, W, R> {
    /// Convert an Rx buffer into a Tx buffer preserving its contents, where the two come from
    /// different pools: copies the data into a scratch Tx buffer of the tile's pre-filled queue.
    /// `Ok` has the Tx buffer, and the Rx buffer for its pool.
    ///
    /// `Err` when the scratch queue is exhausted (back-pressure), or the data does not fit the
    /// scratch buffer, which comes along for its pool: the caller has the Rx buffer back to
    /// retry or drop explicitly.
    pub fn convert_rx_to_tx(&mut self, rx: B) -> (converted: Result<(M, B), (B, Option<M>)>)
        requires
            old(self).wf(),
            rx.wf(),
            all_blank(old(self).tx_buf_queue@),
        ensures
            final(self).wf(),
            *final(self) == (NetworkTileImpl {
                tx_buf_queue: final(self).tx_buf_queue,
                ..*old(self)
            }),
            all_blank(final(self).tx_buf_queue@),
            ({
                let scratch = old(self).tx_buf_queue@;
                &&& scratch.len() == 0 ==> converted == Err::<(M, B), (B, Option<M>)>((rx, None))
                    && final(self).tx_buf_queue@ == scratch
                &&& scratch.len() > 0 ==> final(self).tx_buf_queue@ == scratch.drop_first()
                &&& scratch.len() > 0 && rx.bytes().len() > scratch[0].spec_capacity()
                    ==> converted == Err::<(M, B), (B, Option<M>)>((rx, Some(scratch[0])))
                &&& scratch.len() > 0 && rx.bytes().len() <= scratch[0].spec_capacity() ==> {
                    &&& converted matches Ok((tx, spent))
                    &&& spent == rx
                    &&& tx.wf()
                    &&& tx.same_buffer(scratch[0])
                    &&& tx.spec_capacity() == scratch[0].spec_capacity()
                    &&& tx.bytes() == rx.bytes()
                }
            }),
    {
        match self.fill_scratch(rx.filled()) {
            Ok(tx) => Ok((tx, rx)),
            Err(scratch) => Err((rx, scratch)),
        }
    }
}

impl<B, F, W: WaitStrategy, R> NetworkTileImpl<B, F, B, W, R> {
    /// Convert an Rx buffer into a Tx buffer where both come from one pool: it is the buffer
    /// itself.
    pub fn convert_rx_to_tx_unified(&self, rx: B) -> (tx: B)
        ensures
            tx == rx,
    {
        rx
    }
}

/// The sum of counts.
pub open spec fn total(counts: Seq<usize>) -> nat
    decreases counts.len(),
{
    if counts.len() == 0 {
        0
    } else {
        total(counts.drop_last()) + counts.last() as nat
    }
}

/// How many buffers each of `n` sockets contributes at most.
pub open spec fn per_socket(n: int) -> int {
    (TX_BUF_REFILL_BATCH + n - 1) / n
}

/// How many buffers a pool with `free` free ones is asked for, with `queued` scratch buffers in
/// the queue. A pool without free buffers only grows if the scratch queue is empty (bootstrap /
/// stuck), to avoid unbounded growth; else at most half is taken, to leave headroom for RX.
pub open spec fn refill_count(queued: int, free: int, per_sock: int) -> int {
    if free == 0 {
        if queued == 0 {
            per_sock
        } else {
            0
        }
    } else {
        vstd::math::min(per_sock, free / 2)
    }
}

/// Whether all pools are usable and can tell another batch of buffers apart.
pub open spec fn pools_ready<P: TxPool>(pools: Seq<P>) -> bool {
    forall|i: int|
        0 <= i < pools.len() ==> (#[trigger] pools[i]).pool_wf() && forall|c: nat|
            c <= TX_BUF_REFILL_BATCH ==> #[trigger] pools[i].can_name(c)
}

/// Whether all pools can tell another batch of buffers apart, as a refill needs.
pub fn can_refill<P: TxPool>(pools: &[P]) -> (ready: bool)
    requires
        forall|i: int| 0 <= i < pools@.len() ==> (#[trigger] pools@[i]).pool_wf(),
    ensures
        ready == pools_ready(pools@),
{
    let mut i: usize = 0;
    while i < pools.len()
        invariant
            i <= pools@.len(),
            forall|j: int| 0 <= j < pools@.len() ==> (#[trigger] pools@[j]).pool_wf(),
            forall|j: int|
                0 <= j < i ==> forall|c: nat|
                    c <= TX_BUF_REFILL_BATCH ==> #[trigger] (#[trigger] pools@[j]).can_name(c),
        decreases pools@.len() - i,
    {
        if !pools[i].has_names(TX_BUF_REFILL_BATCH) {
            assert(!pools@[i as int].can_name(TX_BUF_REFILL_BATCH as nat));
            return false;
        }
        i += 1;
    }
    true
}

/// A refill leaves at least half of a pool's free buffers for RX.
pub proof fn law_refill_leaves_half(queued: int, free: int, n: int)
    requires
        0 < free,
        0 < n,
    ensures
        0 <= refill_count(queued, free, per_socket(n)) <= free / 2,
        free - refill_count(queued, free, per_socket(n)) >= free - free / 2,
{
    vstd::arithmetic::div_mod::lemma_div_pos_is_pos(TX_BUF_REFILL_BATCH + n - 1, n);
}

proof fn lemma_per_socket(n: int)
    requires
        0 < n,
    ensures
        1 <= per_socket(n) <= TX_BUF_REFILL_BATCH,
        n * per_socket(n) <= TX_BUF_REFILL_BATCH + n - 1,
{
    let sum = TX_BUF_REFILL_BATCH + n - 1;
    vstd::arithmetic::div_mod::lemma_fundamental_div_mod(sum, n);
    vstd::arithmetic::div_mod::lemma_mod_bound(sum, n);
    let q = per_socket(n);
    assert(q <= TX_BUF_REFILL_BATCH) by (nonlinear_arith)
        requires
            n * q <= TX_BUF_REFILL_BATCH + n - 1,
            0 < n,
    ;
    assert(q >= 1) by (nonlinear_arith)
        requires
            n * q > TX_BUF_REFILL_BATCH + n - 1 - n,
            0 < n,
    ;
}

/// Refill the tile's TX buffer queue, pulling from every socket's pool so
/// multi-socket tiles draw on all
/// available TX capacity. The total refill is split across sockets;
/// each socket contributes up to `ceil(BATCH / N)` buffers per call, each empty and large enough
/// for a largest payload of its socket. Returns how many each pool gave.
pub fn refill_tx_bufs<B, F, P: TxPool, W: WaitStrategy, R>(
    tile: &mut NetworkTileImpl<B, F, P::BufMut, W, R>,
    pools: &mut Vec<P>,
) -> (taken: Vec<usize>)
    requires
        old(tile).wf(),
        0 < old(pools)@.len() <= MAX_SOCKETS,
        pools_ready(old(pools)@),
    ensures
        final(tile).wf(),
        *final(tile) == (NetworkTileImpl { tx_buf_queue: final(tile).tx_buf_queue, ..*old(tile) }),
        old(tile).tx_buf_queue@.len() >= TX_BUF_REFILL_WATERMARK ==> {
            &&& taken@.len() == 0
            &&& final(tile).tx_buf_queue@ == old(tile).tx_buf_queue@
            &&& final(pools)@ == old(pools)@
        },
        old(tile).tx_buf_queue@.len() < TX_BUF_REFILL_WATERMARK ==> {
            &&& refilled(old(pools)@, final(pools)@, old(tile).tx_buf_queue@.len() as int, taken@)
            &&& final(tile).tx_buf_queue@.len() == old(tile).tx_buf_queue@.len() + total(taken@)
            &&& final(tile).tx_buf_queue@.take(old(tile).tx_buf_queue@.len() as int) == old(
                tile,
            ).tx_buf_queue@
            &&& forall|i: int|
                0 <= i < old(pools)@.len() ==> #[trigger] pool_queued(
                    old(pools)@[i],
                    final(tile).tx_buf_queue@,
                    old(tile).tx_buf_queue@.len() as int,
                    taken@,
                    i,
                )
            &&& new_blank(
                old(pools)@,
                final(tile).tx_buf_queue@,
                old(tile).tx_buf_queue@.len() as int,
            )
        },
{
    let mut taken: Vec<usize> = Vec::new();
    if tile.tx_buf_queue.len() >= TX_BUF_REFILL_WATERMARK {
        return taken;
    }
    let n: usize = pools.len();
    let per_sock: usize = (TX_BUF_REFILL_BATCH + n - 1) / n;
    let ghost before = *tile;
    let ghost pools0 = pools@;
    let ghost queue0 = tile.tx_buf_queue@;
    let mut i: usize = 0;
    proof {
        lemma_per_socket(n as int);
        assert(queue0.take(queue0.len() as int) =~= queue0);
        assert(0 * per_sock == 0) by (nonlinear_arith);
    }
    while i < n
        invariant
            i <= n == pools0.len(),
            pools@.len() == n <= MAX_SOCKETS,
            n == pools.len(),
            per_sock == per_socket(n as int),
            1 <= per_sock <= TX_BUF_REFILL_BATCH,
            n * per_sock <= TX_BUF_REFILL_BATCH + n - 1,
            queue0.len() < TX_BUF_REFILL_WATERMARK,
            pools_ready(pools0),
            tile.wf(),
            *tile == (NetworkTileImpl { tx_buf_queue: tile.tx_buf_queue, ..before }),
            taken@.len() == i,
            total(taken@) <= i * per_sock,
            tile.tx_buf_queue@.len() == queue0.len() + total(taken@),
            tile.tx_buf_queue@.take(queue0.len() as int) == queue0,
            forall|j: int| i <= j < n ==> #[trigger] pools@[j] == pools0[j],
            refilled_to(pools0, pools@, queue0.len() as int, taken@, i as int, n as int),
            forall|j: int|
                0 <= j < i ==> #[trigger] pool_queued(
                    pools0[j],
                    tile.tx_buf_queue@,
                    queue0.len() as int,
                    taken@,
                    j,
                ),
            new_blank(pools0, tile.tx_buf_queue@, queue0.len() as int),
        decreases n - i,
    {
        let ghost taken0 = taken@;
        let ghost pool0 = pools@[i as int];
        let ghost pools1 = pools@;
        let queued: usize = tile.tx_buf_queue.len();
        assert(pools@[i as int] == pools0[i as int]);
        let avail: usize = pools[i].available();
        let count: usize = if avail == 0 {
            if queued == 0 {
                per_sock
            } else {
                0
            }
        } else if per_sock < avail / 2 {
            per_sock
        } else {
            avail / 2
        };
        assert(count == refill_count(queued as int, pool0.free_count() as int, per_sock as int));
        let mut fresh: Vec<P::BufMut> = Vec::new();
        let mut given: usize = 0;
        assert(queue0.len() <= tile.tx_buf_queue@.len());
        if count > 0 {
            let capacity: usize = pools[i].max_payload_size();
            assert(pools@[i as int].can_name(count as nat) == pool0.can_name(count as nat));
            given = pools[i].allocate(capacity, count, &mut fresh);
        }
        proof {
            assert((i + 1) * per_sock == i * per_sock + per_sock) by (nonlinear_arith);
            assert((i + 1) * per_sock <= n * per_sock) by (nonlinear_arith)
                requires
                    i + 1 <= n,
            ;
        }
        let ghost queue1 = tile.tx_buf_queue@;
        let ghost largest = pool0.spec_max_payload() as nat;
        let mut pushed: usize = 0;
        while pushed < given
            invariant
                pushed <= given <= per_sock,
                fresh@.len() == given - pushed,
                forall|k: int| 0 <= k < fresh@.len() ==> P::is_blank(#[trigger] fresh@[k], largest),
                forall|k: int|
                    queue1.len() <= k < tile.tx_buf_queue@.len() ==> P::is_blank(
                        #[trigger] tile.tx_buf_queue@[k],
                        largest,
                    ),
                tile.tx_buf_queue@.take(queue1.len() as int) == queue1,
                tile.wf(),
                *tile == (NetworkTileImpl { tx_buf_queue: tile.tx_buf_queue, ..before }),
                tile.tx_buf_queue@.len() == queue1.len() + pushed,
                queue1.len() + per_sock < TX_BUF_QUEUE_CAP,
                queue0.len() <= queue1.len(),
                tile.tx_buf_queue@.take(queue0.len() as int) == queue0,
            decreases given - pushed,
        {
            let ghost fresh0 = fresh@;
            let buf: P::BufMut = fresh.remove(0);
            assert forall|k: int| 0 <= k < fresh@.len() implies P::is_blank(
                #[trigger] fresh@[k],
                largest,
            ) by {
                assert(fresh@[k] == fresh0[k + 1]);
            }
            let ghost queue2 = tile.tx_buf_queue@;
            let result: Result<(), P::BufMut> = tile.tx_buf_queue.push(buf);
            assert(result is Ok);
            assert(tile.tx_buf_queue@.take(queue1.len() as int) =~= queue2.take(
                queue1.len() as int,
            ));
            assert(tile.tx_buf_queue@.take(queue0.len() as int) =~= queue2.take(
                queue0.len() as int,
            ));
            pushed += 1;
        }
        taken.push(given);
        proof {
            assert(taken@.drop_last() =~= taken0);
            let queue2 = tile.tx_buf_queue@;
            assert forall|k: int| 0 <= k < queue1.len() implies queue2[k] == queue1[k] by {
                assert(queue2.take(queue1.len() as int)[k] == queue2[k]);
            }
            assert forall|j: int| 0 <= j < i + 1 implies #[trigger] pool_queued(
                pools0[j],
                queue2,
                queue0.len() as int,
                taken@,
                j,
            ) by {
                if j < i {
                    assert(pool_queued(pools0[j], queue1, queue0.len() as int, taken0, j));
                    assert(taken@.take(j) =~= taken0.take(j));
                } else {
                    assert(taken@.take(j) =~= taken0);
                }
            }
            assert forall|k: int| queue0.len() <= k < queue2.len() implies blank_for(
                pools0,
                #[trigger] queue2[k],
            ) by {
                if k < queue1.len() {
                    assert(blank_for(pools0, queue1[k]));
                } else {
                    assert(P::is_blank(queue2[k], pools0[i as int].spec_max_payload() as nat));
                }
            }
            assert forall|j: int| 0 <= j < i + 1 implies #[trigger] pool_refilled(
                pools0,
                pools@,
                queue0.len() as int,
                taken@,
                j,
                n as int,
            ) by {
                if j < i {
                    assert(pool_refilled(pools0, pools1, queue0.len() as int, taken0, j, n as int));
                    assert(pools@[j] == pools1[j]);
                    assert(taken@.take(j) =~= taken0.take(j));
                } else {
                    assert(taken@.take(j) =~= taken0);
                }
            }
        }
        i += 1;
    }
    taken
}

/// What a refill queued from a pool: the buffers that it took, behind those of the pools before,
/// each empty and large enough for a largest payload.
pub open spec fn pool_queued<P: TxPool>(
    pool: P,
    queue: Seq<P::BufMut>,
    queued: int,
    taken: Seq<usize>,
    i: int,
) -> bool {
    let start = queued + total(taken.take(i));
    &&& start + taken[i] <= queue.len()
    &&& forall|k: int|
        start <= k < start + taken[i] ==> P::is_blank(
            #[trigger] queue[k],
            pool.spec_max_payload() as nat,
        )
}

/// Whether a buffer is empty and large enough for a largest payload of one of the pools.
pub open spec fn blank_for<P: TxPool>(pools: Seq<P>, buf: P::BufMut) -> bool {
    exists|i: int|
        0 <= i < pools.len() && P::is_blank(buf, (#[trigger] pools[i]).spec_max_payload() as nat)
}

/// Whether all buffers from `queued` on are empty and large enough.
pub open spec fn new_blank<P: TxPool>(pools: Seq<P>, queue: Seq<P::BufMut>, queued: int) -> bool {
    forall|k: int| queued <= k < queue.len() ==> blank_for(pools, #[trigger] queue[k])
}

/// A refill keeps the scratch queue blank: where the pools' buffers are usable and empty when they
/// are handed out, all of the queue is ready to be filled afterwards.
pub proof fn law_refill_keeps_scratch_blank<P: TxPool>(
    pools: Seq<P>,
    before: Seq<P::BufMut>,
    after: Seq<P::BufMut>,
) where P::BufMut: PacketBufMut
    requires
        all_blank(before),
        before.len() <= after.len(),
        after.take(before.len() as int) == before,
        new_blank(pools, after, before.len() as int),
        forall|buf: P::BufMut, capacity: nat| #[trigger]
            P::is_blank(buf, capacity) ==> buf.wf() && buf.bytes().len() == 0,
    ensures
        all_blank(after),
{
    assert forall|i: int| 0 <= i < after.len() implies (#[trigger] after[i]).wf()
        && after[i].bytes().len() == 0 by {
        if i < before.len() {
            assert(after.take(before.len() as int)[i] == after[i]);
            assert(before[i].wf());
        } else {
            assert(blank_for(pools, after[i]));
            let k = choose|k: int|
                0 <= k < pools.len() && P::is_blank(
                    after[i],
                    (#[trigger] pools[k]).spec_max_payload() as nat,
                );
            assert(P::is_blank(after[i], pools[k].spec_max_payload() as nat));
        }
    }
}

/// What a refill took from one of `n` pools: as much as it was asked for where it had free
/// buffers or makes more, and nothing where it had none and makes none.
pub open spec fn pool_refilled<P: TxPool>(
    before: Seq<P>,
    after: Seq<P>,
    queued: int,
    taken: Seq<usize>,
    i: int,
    n: int,
) -> bool {
    let asked = refill_count(
        queued + total(taken.take(i)),
        before[i].free_count() as int,
        per_socket(n),
    );
    &&& after[i].pool_wf()
    &&& after[i].spec_max_payload() == before[i].spec_max_payload()
    &&& taken[i] == (if before[i].grows() || before[i].free_count() > 0 {
        asked
    } else {
        0
    })
    &&& after[i].free_count() == (if asked > 0 {
        before[i].free_after(asked as nat)
    } else {
        before[i].free_count()
    })
    &&& before[i].free_count() > 0 ==> after[i].free_count() == before[i].free_count() - asked
    &&& forall|buf: P::Buf| #[trigger] after[i].spec_owns(buf) == before[i].spec_owns(buf)
}

/// What a refill took from the first `upto` pools.
pub open spec fn refilled_to<P: TxPool>(
    before: Seq<P>,
    after: Seq<P>,
    queued: int,
    taken: Seq<usize>,
    upto: int,
    n: int,
) -> bool {
    forall|i: int|
        0 <= i < upto ==> #[trigger] pool_refilled(before, after, queued, taken, i, n)
}

/// What a refill took from all pools.
pub open spec fn refilled<P: TxPool>(
    before: Seq<P>,
    after: Seq<P>,
    queued: int,
    taken: Seq<usize>,
) -> bool {
    &&& taken.len() == before.len()
    &&& after.len() == before.len()
    &&& refilled_to(before, after, queued, taken, before.len() as int, before.len() as int)
}

proof fn lemma_total_at_least(counts: Seq<usize>, i: int)
    requires
        0 <= i < counts.len(),
    ensures
        total(counts) >= counts[i],
    decreases counts.len(),
{
    if i < counts.len() - 1 {
        lemma_total_at_least(counts.drop_last(), i);
    }
}

/// A refill of an empty scratch queue from pools that make buffers puts some in, even where no
/// buffer is free; only a first pool with exactly one free buffer keeps that for RX.
pub proof fn law_refill_bootstraps<P: TxPool>(before: Seq<P>, after: Seq<P>, taken: Seq<usize>)
    requires
        before.len() > 0,
        before[0].grows(),
        before[0].free_count() != 1,
        refilled(before, after, 0, taken),
    ensures
        total(taken) > 0,
{
    assert(pool_refilled(before, after, 0, taken, 0, before.len() as int));
    assert(taken.take(0).len() == 0);
    lemma_per_socket(before.len() as int);
    lemma_total_at_least(taken, 0);
}

/// The socket that sends a packet: the first one that owns its first buffer, and the first of
/// all for a packet that nobody owns or that is empty.
pub open spec fn target_socket<P: TxPool>(
    pools: Seq<P>,
    transmit: Transmit<ScatterGather<P::Buf>>,
) -> int {
    first_owner(pools, transmit, 0)
}

/// The first socket from `from` on that may send a packet, or socket 0.
pub open spec fn first_owner<P: TxPool>(
    pools: Seq<P>,
    transmit: Transmit<ScatterGather<P::Buf>>,
    from: int,
) -> int
    decreases pools.len() - from,
{
    if from >= pools.len() {
        0
    } else if transmit.contents@.len() == 0 || pools[from].spec_owns(transmit.contents@[0].buf) {
        from
    } else {
        first_owner(pools, transmit, from + 1)
    }
}

/// The packets that a socket sends.
pub open spec fn bucket<P: TxPool>(
    pools: Seq<P>,
    transmits: Seq<Transmit<ScatterGather<P::Buf>>>,
    socket: int,
) -> Seq<Transmit<ScatterGather<P::Buf>>>
    decreases transmits.len(),
{
    if transmits.len() == 0 {
        Seq::empty()
    } else if target_socket(pools, transmits.last()) == socket {
        bucket(pools, transmits.drop_last(), socket).push(transmits.last())
    } else {
        bucket(pools, transmits.drop_last(), socket)
    }
}

/// The socket that sends a packet.
pub fn find_target<P: TxPool>(pools: &[P], transmit: &Transmit<ScatterGather<P::Buf>>) -> (target:
    usize)
    requires
        pools@.len() > 0,
        transmit.contents.wf(),
    ensures
        target == target_socket(pools@, *transmit),
        target < pools@.len(),
{
    if transmit.contents.segment_count() == 0 {
        return 0;
    }
    let (buf, _, _): (&P::Buf, usize, usize) = transmit.contents.segment(0);
    let mut i: usize = 0;
    while i < pools.len()
        invariant
            i <= pools@.len(),
            pools@.len() > 0,
            transmit.contents@.len() > 0,
            *buf == transmit.contents@[0].buf,
            target_socket(pools@, *transmit) == first_owner(pools@, *transmit, i as int),
        decreases pools@.len() - i,
    {
        if pools[i].owns(buf) {
            return i;
        }
        i += 1;
    }
    0
}

/// Sorts packets by the socket that sends them, each behind the ones still pending there.
pub fn bucket_transmits<P: TxPool>(
    pools: &[P],
    transmits: &mut VecDeque<Transmit<ScatterGather<P::Buf>>>,
    pending: &mut Vec<Vec<Transmit<ScatterGather<P::Buf>>>>,
)
    requires
        pools@.len() > 0,
        old(pending)@.len() == pools@.len(),
        forall|i: int|
            0 <= i < old(transmits)@.len() ==> (#[trigger] old(transmits)@[i]).contents.wf(),
    ensures
        final(transmits)@.len() == 0,
        final(pending)@.len() == old(pending)@.len(),
        forall|s: int|
            0 <= s < pools@.len() ==> (#[trigger] final(pending)@[s])@ == old(pending)@[s]@ + bucket(
                pools@,
                old(transmits)@,
                s,
            ),
{
    let ghost all = transmits@;
    let ghost pending0 = pending@;
    let ghost mut n: int = 0;
    proof {
        assert(all.skip(0) =~= all);
        assert forall|s: int| 0 <= s < pools@.len() implies (#[trigger] pending@[s])@
            == pending0[s]@ + bucket(pools@, all.take(0), s) by {
            assert(all.take(0).len() == 0);
            assert(pending0[s]@ + bucket(pools@, all.take(0), s) =~= pending0[s]@);
        }
    }
    loop
        invariant
            0 <= n <= all.len(),
            pools@.len() > 0,
            transmits@ == all.skip(n),
            forall|i: int| 0 <= i < all.len() ==> (#[trigger] all[i]).contents.wf(),
            pending@.len() == pending0.len() == pools@.len(),
            forall|s: int|
                0 <= s < pools@.len() ==> (#[trigger] pending@[s])@ == pending0[s]@ + bucket(
                    pools@,
                    all.take(n),
                    s,
                ),
        ensures
            n == all.len(),
        decreases all.len() - n,
    {
        match transmits.pop_front() {
            None => {
                break ;
            },
            Some(transmit) => {
                assert(transmit == all[n]);
                let target: usize = find_target(pools, &transmit);
                let ghost pending1 = pending@;
                pending[target].push(transmit);
                proof {
                    assert(all.skip(n).drop_first() =~= all.skip(n + 1));
                    assert(all.skip(n).subrange(1, all.skip(n).len() as int) =~= all.skip(n + 1));
                    let more = all.take(n + 1);
                    assert(more.drop_last() =~= all.take(n));
                    assert(more.last() == all[n]);
                    assert forall|s: int| 0 <= s < pools@.len() implies (#[trigger] pending@[s])@
                        == pending0[s]@ + bucket(pools@, more, s) by {
                        assert(pending1[s]@ == pending0[s]@ + bucket(pools@, all.take(n), s));
                        assert(pending@[s]@ =~= pending0[s]@ + bucket(pools@, more, s));
                    }
                    n = n + 1;
                }
            },
        }
    }
    assert(all.take(n) =~= all);
}

/// Every packet is sent by one socket of the tile.
pub proof fn law_every_packet_has_a_socket<P: TxPool>(
    pools: Seq<P>,
    transmit: Transmit<ScatterGather<P::Buf>>,
)
    requires
        pools.len() > 0,
    ensures
        0 <= target_socket(pools, transmit) < pools.len(),
{
    lemma_first_owner_in_range(pools, transmit, 0);
}

proof fn lemma_first_owner_in_range<P: TxPool>(
    pools: Seq<P>,
    transmit: Transmit<ScatterGather<P::Buf>>,
    from: int,
)
    requires
        pools.len() > 0,
        0 <= from,
    ensures
        0 <= first_owner(pools, transmit, from) < pools.len(),
    decreases pools.len() - from,
{
    if from < pools.len() {
        lemma_first_owner_in_range(pools, transmit, from + 1);
    }
}

/// Takes the packets out that a send took: the first `sent`, or all of them where it failed.
/// Returns them, so that the buffers that they still have can go back to where they came from.
pub fn retire_sent<T>(pending: &mut Vec<T>, sent: Option<usize>) -> (gone: Vec<T>)
    requires
        sent matches Some(n) ==> n <= old(pending)@.len(),
    ensures
        gone@ == match sent {
            Some(n) => old(pending)@.take(n as int),
            None => old(pending)@,
        },
        gone@ + final(pending)@ == old(pending)@,
        final(pending)@ == match sent {
            Some(n) => old(pending)@.skip(n as int),
            None => Seq::<T>::empty(),
        },
{
    let ghost all = pending@;
    let count: usize = match sent {
        Some(n) => n,
        None => pending.len(),
    };
    let mut rest: Vec<T> = pending.split_off(count);
    std::mem::swap(pending, &mut rest);
    assert(pending@ =~= all.skip(count as int));
    assert(rest@ =~= all.take(count as int));
    assert(all.take(all.len() as int) =~= all);
    assert(rest@ + pending@ =~= all);
    rest
}

/// The first pool from `from` on that a buffer came from; the number of pools where there is none.
pub open spec fn home_of<P: TxPool>(pools: Seq<P>, buf: P::Buf, from: int) -> int
    decreases pools.len() - from,
{
    if from >= pools.len() || pools[from].is_home(buf) {
        from
    } else {
        home_of(pools, buf, from + 1)
    }
}

/// How many of the buffers came from pool `i`.
pub open spec fn home_count<P: TxPool>(pools: Seq<P>, bufs: Seq<P::Buf>, i: int) -> nat
    decreases bufs.len(),
{
    if bufs.len() == 0 {
        0
    } else {
        home_count(pools, bufs.drop_last(), i) + if P::pooled(bufs.last()) && home_of(
            pools,
            bufs.last(),
            0,
        ) == i {
            1nat
        } else {
            0nat
        }
    }
}

/// The buffers that came from a pool, but from none of these.
pub open spec fn homeless<P: TxPool>(pools: Seq<P>, bufs: Seq<P::Buf>) -> Seq<P::Buf>
    decreases bufs.len(),
{
    if bufs.len() == 0 {
        Seq::empty()
    } else if P::pooled(bufs.last()) && home_of(pools, bufs.last(), 0) == pools.len() {
        homeless(pools, bufs.drop_last()).push(bufs.last())
    } else {
        homeless(pools, bufs.drop_last())
    }
}

/// How many of the buffers came from a pool.
pub open spec fn pooled_count<P: TxPool>(bufs: Seq<P::Buf>) -> nat
    decreases bufs.len(),
{
    if bufs.len() == 0 {
        0
    } else {
        pooled_count::<P>(bufs.drop_last()) + if P::pooled(bufs.last()) {
            1nat
        } else {
            0nat
        }
    }
}

/// How many of the buffers came from one of the first `n` pools.
pub open spec fn home_total<P: TxPool>(pools: Seq<P>, bufs: Seq<P::Buf>, n: int) -> nat
    decreases n,
{
    if n <= 0 {
        0
    } else {
        home_total(pools, bufs, n - 1) + home_count(pools, bufs, n - 1)
    }
}

/// A buffer that is given up comes back once: each one that came from a pool is free again in
/// one of the pools, or is handed back because it came from none of them.
pub proof fn law_buffers_come_back_once<P: TxPool>(pools: Seq<P>, bufs: Seq<P::Buf>)
    ensures
        home_total(pools, bufs, pools.len() as int) + homeless(pools, bufs).len()
            == pooled_count::<P>(bufs),
    decreases bufs.len(),
{
    if bufs.len() == 0 {
        lemma_home_total_none(pools, bufs, pools.len() as int);
    } else {
        law_buffers_come_back_once(pools, bufs.drop_last());
        lemma_home_of_in_range(pools, bufs.last(), 0);
        lemma_home_total_one(pools, bufs, pools.len() as int);
    }
}

proof fn lemma_home_total_none<P: TxPool>(pools: Seq<P>, bufs: Seq<P::Buf>, n: int)
    requires
        bufs.len() == 0,
    ensures
        home_total(pools, bufs, n) == 0,
    decreases n,
{
    if n > 0 {
        lemma_home_total_none(pools, bufs, n - 1);
    }
}

proof fn lemma_home_total_one<P: TxPool>(pools: Seq<P>, bufs: Seq<P::Buf>, n: int)
    requires
        bufs.len() > 0,
        0 <= home_of(pools, bufs.last(), 0),
    ensures
        home_total(pools, bufs, n) == home_total(pools, bufs.drop_last(), n) + (if P::pooled(
            bufs.last(),
        ) && home_of(pools, bufs.last(), 0) < n {
            1nat
        } else {
            0nat
        }),
    decreases n,
{
    if n > 0 {
        lemma_home_total_one(pools, bufs, n - 1);
    }
}

proof fn lemma_home_of_in_range<P: TxPool>(pools: Seq<P>, buf: P::Buf, from: int)
    requires
        0 <= from <= pools.len(),
    ensures
        from <= home_of(pools, buf, from) <= pools.len(),
    decreases pools.len() - from,
{
    if from < pools.len() && !pools[from].is_home(buf) {
        lemma_home_of_in_range(pools, buf, from + 1);
    }
}

/// Whether pools are usable, and as many as the ones before, from which the same buffers came.
pub open spec fn same_pools<P: TxPool>(before: Seq<P>, after: Seq<P>) -> bool {
    &&& after.len() == before.len()
    &&& forall|i: int|
        #![trigger after[i]]
        0 <= i < before.len() ==> {
            &&& after[i].pool_wf()
            &&& after[i].grows() == before[i].grows()
            &&& after[i].spec_max_payload() == before[i].spec_max_payload()
            &&& forall|c: nat| #[trigger] after[i].can_name(c) == before[i].can_name(c)
            &&& forall|buf: P::Buf| #[trigger] after[i].spec_owns(buf) == before[i].spec_owns(buf)
            &&& forall|buf: P::Buf| #[trigger] after[i].is_home(buf) == before[i].is_home(buf)
        }
}

/// Gives buffers that were sent, or could not be, back to the pools that they came from, on the
/// thread that owns these. Returns those that came from none of them.
pub fn send_home<P: TxPool>(pools: &mut Vec<P>, bufs: Vec<P::Buf>) -> (strays: Vec<P::Buf>)
    requires
        old(pools)@.len() > 0,
        forall|i: int| 0 <= i < old(pools)@.len() ==> (#[trigger] old(pools)@[i]).pool_wf(),
    ensures
        same_pools(old(pools)@, final(pools)@),
        forall|i: int|
            0 <= i < old(pools)@.len() ==> (#[trigger] final(pools)@[i]).free_count() == old(
                pools,
            )@[i].free_count() + home_count(old(pools)@, bufs@, i),
        strays@ == homeless(old(pools)@, bufs@),
{
    let ghost pools0 = pools@;
    let ghost all = bufs@;
    let ghost mut n: int = 0;
    let mut rest: Vec<P::Buf> = bufs;
    let mut strays: Vec<P::Buf> = Vec::new();
    assert(all.skip(0) =~= all);
    assert(all.take(0) =~= Seq::<P::Buf>::empty());
    while rest.len() > 0
        invariant
            0 <= n <= all.len(),
            rest@ == all.skip(n),
            pools0.len() > 0,
            same_pools(pools0, pools@),
            forall|i: int|
                0 <= i < pools0.len() ==> (#[trigger] pools@[i]).free_count()
                    == pools0[i].free_count() + home_count(pools0, all.take(n), i),
            strays@ == homeless(pools0, all.take(n)),
        decreases rest@.len(),
    {
        let buf: P::Buf = rest.remove(0);
        let ghost pools1 = pools@;
        let ghost strays1 = strays@;
        proof {
            assert(all.skip(n).remove(0) =~= all.skip(n + 1));
            assert(all.take(n + 1).drop_last() =~= all.take(n));
            assert(all.take(n + 1).last() == buf);
            lemma_home_of_in_range(pools0, buf, 0);
        }
        match send_one_home(pools, buf) {
            Some(stray) => {
                strays.push(stray);
            },
            None => {},
        }
        proof {
            lemma_same_home(pools0, pools1, buf, 0);
            assert forall|i: int| 0 <= i < pools0.len() implies (
            #[trigger] pools@[i]).free_count() == pools0[i].free_count() + home_count(
                pools0,
                all.take(n + 1),
                i,
            ) by {
                assert(pools1[i].free_count() == pools0[i].free_count() + home_count(
                    pools0,
                    all.take(n),
                    i,
                ));
            }
            assert(same_pools(pools0, pools@)) by {
                assert forall|i: int|
                    #![trigger pools@[i]]
                    0 <= i < pools0.len() implies {
                    &&& pools@[i].pool_wf()
                    &&& pools@[i].grows() == pools0[i].grows()
                    &&& pools@[i].spec_max_payload() == pools0[i].spec_max_payload()
                    &&& forall|c: nat| #[trigger] pools@[i].can_name(c) == pools0[i].can_name(c)
                    &&& forall|b: P::Buf| #[trigger]
                        pools@[i].spec_owns(b) == pools0[i].spec_owns(b)
                    &&& forall|b: P::Buf| #[trigger] pools@[i].is_home(b) == pools0[i].is_home(b)
                } by {
                    assert(pools1[i].pool_wf());
                    assert(forall|c: nat| #[trigger]
                        pools@[i].can_name(c) == pools1[i].can_name(c));
                    assert(forall|b: P::Buf| #[trigger]
                        pools@[i].spec_owns(b) == pools1[i].spec_owns(b));
                    assert(forall|b: P::Buf| #[trigger]
                        pools@[i].is_home(b) == pools1[i].is_home(b));
                }
            }
            n = n + 1;
        }
    }
    assert(all.take(n) =~= all);
    strays
}

/// A buffer has the same home as long as the same buffers came from the pools.
proof fn lemma_same_home<P: TxPool>(before: Seq<P>, after: Seq<P>, buf: P::Buf, from: int)
    requires
        0 <= from,
        same_pools(before, after),
    ensures
        home_of(after, buf, from) == home_of(before, buf, from),
    decreases before.len() - from,
{
    if from < before.len() {
        assert(after[from].is_home(buf) == before[from].is_home(buf));
        lemma_same_home(before, after, buf, from + 1);
    }
}

/// Gives a buffer back to the first pool that it came from, or hands it back.
fn send_one_home<P: TxPool>(pools: &mut Vec<P>, buf: P::Buf) -> (back: Option<P::Buf>)
    requires
        old(pools)@.len() > 0,
        forall|i: int| 0 <= i < old(pools)@.len() ==> (#[trigger] old(pools)@[i]).pool_wf(),
    ensures
        same_pools(old(pools)@, final(pools)@),
        back == (if P::pooled(buf) && home_of(old(pools)@, buf, 0) == old(pools)@.len() {
            Some(buf)
        } else {
            None
        }),
        forall|i: int|
            0 <= i < old(pools)@.len() ==> (#[trigger] final(pools)@[i]).free_count() == old(
                pools,
            )@[i].free_count() + (if P::pooled(buf) && home_of(old(pools)@, buf, 0) == i {
                1nat
            } else {
                0nat
            }),
{
    let ghost pools0 = pools@;
    let mut held: P::Buf = buf;
    let mut k: usize = 0;
    while k < pools.len()
        invariant
            k <= pools0.len(),
            pools0.len() > 0,
            same_pools(pools0, pools@),
            pools0 == old(pools)@,
            held == buf,
            k > 0 ==> P::pooled(buf),
            home_of(pools0, buf, 0) == home_of(pools0, buf, k as int),
            forall|i: int|
                0 <= i < pools0.len() ==> (#[trigger] pools@[i]).free_count()
                    == pools0[i].free_count(),
        decreases pools0.len() - k,
    {
        let ghost pools1 = pools@;
        assert(pools1[k as int].is_home(buf) == pools0[k as int].is_home(buf));
        proof {
            lemma_home_of_in_range(pools0, buf, k as int);
            if !pools0[k as int].is_home(buf) {
                lemma_home_of_in_range(pools0, buf, k + 1);
            }
        }
        let back: Option<P::Buf> = pools[k].take_back(held);
        proof {
            assert forall|i: int| 0 <= i < pools0.len() && i != k implies #[trigger] pools@[i]
                == pools1[i] by {}
        }
        match back {
            None => {
                return None;
            },
            Some(other) => {
                held = other;
            },
        }
        k += 1;
    }
    Some(held)
}

/// Why a tile cannot run.
#[derive(Debug, Clone, Copy, PartialEq, Eq, Structural)]
pub enum TileError {
    /// The factory returned no socket.
    NoSockets,
    /// More sockets than their index can tell apart.
    TooManySockets { count: usize },
    /// Some sockets are aligned to a CPU and some are not.
    MixedAlignment,
    /// The sockets' queues are handled by different CPUs.
    DifferentCpus,
}

/// Where the I/O thread runs.
#[derive(Debug, Clone, Copy, PartialEq, Eq, Structural)]
pub enum Pinning {
    /// The sockets do not ask for alignment.
    Unpinned,
    /// They do, but no queue's CPU is known.
    NoCpuKnown,
    /// They do, but only some queues' CPUs are known.
    SomeCpusKnown { known: usize },
    /// On the CPU that handles all the queues.
    Pin { cpu: u32 },
}

/// Whether some flag has a value.
pub open spec fn any_flag(flags: Seq<bool>, value: bool) -> bool {
    exists|i: int| 0 <= i < flags.len() && #[trigger] flags[i] == value
}

/// Number of CPUs known.
pub open spec fn known_count(cpus: Seq<Option<u32>>) -> nat
    decreases cpus.len(),
{
    if cpus.len() == 0 {
        0
    } else {
        known_count(cpus.drop_last()) + if cpus.last() is Some {
            1nat
        } else {
            0nat
        }
    }
}

/// Where the I/O thread of a tile runs, given for each socket whether it asks for alignment and
/// which CPU handles its queue.
pub open spec fn pinning(flags: Seq<bool>, cpus: Seq<Option<u32>>) -> Result<Pinning, TileError> {
    if flags.len() == 0 {
        Err(TileError::NoSockets)
    } else if flags.len() > MAX_SOCKETS {
        Err(TileError::TooManySockets { count: flags.len() as usize })
    } else if any_flag(flags, true) && any_flag(flags, false) {
        Err(TileError::MixedAlignment)
    } else if !any_flag(flags, true) {
        Ok(Pinning::Unpinned)
    } else if known_count(cpus) == 0 {
        Ok(Pinning::NoCpuKnown)
    } else if known_count(cpus) < cpus.len() {
        Ok(Pinning::SomeCpusKnown { known: known_count(cpus) as usize })
    } else if exists|i: int| 0 <= i < cpus.len() && #[trigger] cpus[i] != cpus[0] {
        Err(TileError::DifferentCpus)
    } else {
        Ok(Pinning::Pin { cpu: cpus[0]->Some_0 })
    }
}

fn has_flag(flags: &[bool], value: bool) -> (found: bool)
    ensures
        found == any_flag(flags@, value),
{
    let mut i: usize = 0;
    while i < flags.len()
        invariant
            i <= flags@.len(),
            forall|j: int| 0 <= j < i ==> #[trigger] flags@[j] != value,
        decreases flags@.len() - i,
    {
        if flags[i] == value {
            assert(flags@[i as int] == value);
            return true;
        }
        i += 1;
    }
    false
}

proof fn lemma_known_count(cpus: Seq<Option<u32>>)
    ensures
        known_count(cpus) <= cpus.len(),
        known_count(cpus) == cpus.len() ==> forall|i: int|
            0 <= i < cpus.len() ==> (#[trigger] cpus[i]) is Some,
    decreases cpus.len(),
{
    if cpus.len() > 0 {
        lemma_known_count(cpus.drop_last());
        if known_count(cpus) == cpus.len() {
            assert forall|i: int| 0 <= i < cpus.len() implies (#[trigger] cpus[i]) is Some by {
                if i < cpus.len() - 1 {
                    assert(cpus.drop_last()[i] is Some);
                }
            }
        }
    }
}

/// Decides where the I/O thread of a tile runs. All sockets or none ask for alignment; CPUs
/// that conflict are refused, and where not all of them are known the thread runs unpinned.
pub fn pin_policy(flags: &[bool], cpus: &[Option<u32>]) -> (choice: Result<Pinning, TileError>)
    requires
        cpus@.len() == flags@.len(),
    ensures
        choice == pinning(flags@, cpus@),
{
    if flags.len() == 0 {
        return Err(TileError::NoSockets);
    }
    if flags.len() > MAX_SOCKETS {
        return Err(TileError::TooManySockets { count: flags.len() });
    }
    let any_on: bool = has_flag(flags, true);
    let any_off: bool = has_flag(flags, false);
    if any_on && any_off {
        return Err(TileError::MixedAlignment);
    }
    if !any_on {
        return Ok(Pinning::Unpinned);
    }
    let mut known: usize = 0;
    let mut i: usize = 0;
    while i < cpus.len()
        invariant
            i <= cpus@.len(),
            known <= i,
            known == known_count(cpus@.take(i as int)),
        decreases cpus@.len() - i,
    {
        assert(cpus@.take(i + 1).drop_last() =~= cpus@.take(i as int));
        if cpus[i].is_some() {
            known += 1;
        }
        i += 1;
    }
    proof {
        assert(cpus@.take(i as int) =~= cpus@);
        lemma_known_count(cpus@);
    }
    if known == 0 {
        return Ok(Pinning::NoCpuKnown);
    }
    if known < cpus.len() {
        return Ok(Pinning::SomeCpusKnown { known });
    }
    match cpus[0] {
        None => Ok(Pinning::NoCpuKnown),
        Some(first) => {
            let mut k: usize = 0;
            while k < cpus.len()
                invariant
                    k <= cpus@.len(),
                    cpus@[0] == Some(first),
                    pinning(flags@, cpus@) == (if exists|j: int|
                        0 <= j < cpus@.len() && #[trigger] cpus@[j] != cpus@[0] {
                        Err::<Pinning, TileError>(TileError::DifferentCpus)
                    } else {
                        Ok(Pinning::Pin { cpu: first })
                    }),
                    forall|j: int| 0 <= j < k ==> #[trigger] cpus@[j] == Some(first),
                    forall|j: int| 0 <= j < cpus@.len() ==> (#[trigger] cpus@[j]) is Some,
                decreases cpus@.len() - k,
            {
                match cpus[k] {
                    Some(cpu) => {
                        if cpu != first {
                            assert(cpus@[k as int] != cpus@[0]);
                            return Err(TileError::DifferentCpus);
                        }
                    },
                    None => {
                        assert(false);
                    },
                }
                k += 1;
            }
            Ok(Pinning::Pin { cpu: first })
        },
    }
}

/// How many packets a tile receives at once from a socket that takes `socket_batch`.
pub fn recv_batch(socket_batch: usize) -> (n: usize)
    ensures
        n == vstd::math::min(socket_batch as int, MAX_RECV_BATCH as int),
{
    if socket_batch < MAX_RECV_BATCH {
        socket_batch
    } else {
        MAX_RECV_BATCH
    }
}

/// Each of `n` sockets is asked for as many buffers as make a batch of 64 together, and for none
/// more than that takes.
pub proof fn law_sockets_share_a_batch(n: int)
    requires
        0 < n,
    ensures
        per_socket(n) >= 1,
        n * per_socket(n) >= 64,
        n * (per_socket(n) - 1) < 64,
{
    let sum = 64 + n - 1;
    vstd::arithmetic::div_mod::lemma_fundamental_div_mod(sum, n);
    vstd::arithmetic::div_mod::lemma_mod_bound(sum, n);
    let q = per_socket(n);
    lemma_per_socket(n);
    assert(n * (q - 1) == n * q - n) by (nonlinear_arith);
}

/// A pool with free buffers is asked for its share, or for half of them where that is less. One
/// without is asked for its share while no scratch buffer is queued, and else for nothing.
pub proof fn law_refill_takes_share_or_half(queued: int, free: int, share: int)
    requires
        0 <= free,
        0 <= queued,
        1 <= share,
    ensures
        ({
            let n = refill_count(queued, free, share);
            &&& 0 <= n <= share
            &&& free > 0 ==> 2 * n <= free && (n == share || 2 * (n + 1) > free)
            &&& free == 0 && queued == 0 ==> n == share
            &&& free == 0 && queued > 0 ==> n == 0
        }),
{
}

/// The sizes of a tile: queues of 1024, a refill below 256 scratch buffers by 64, up to 256
/// sockets, and receive batches of up to 64.
pub proof fn law_sizes_of_a_tile()
    ensures
        QUEUE_CAP == 1024 && TX_BUF_QUEUE_CAP == 1024,
        TX_BUF_REFILL_WATERMARK == 256 && TX_BUF_REFILL_BATCH == 64,
        MAX_SOCKETS == 256 && MAX_RECV_BATCH == 64,
{
}

/// A packet is sent by the first socket that owns its first buffer. One that is empty, or that no
/// socket owns, goes to the first socket.
pub proof fn law_packet_goes_to_its_owner<P: TxPool>(
    pools: Seq<P>,
    transmit: Transmit<ScatterGather<P::Buf>>,
)
    requires
        pools.len() > 0,
    ensures
        ({
            let t = target_socket(pools, transmit);
            &&& transmit.contents@.len() == 0 ==> t == 0
            &&& transmit.contents@.len() > 0 ==> ({
                let buf = transmit.contents@[0].buf;
                &&& pools[t].spec_owns(buf) || t == 0
                &&& forall|i: int| 0 <= i < t ==> !(#[trigger] pools[i]).spec_owns(buf)
                &&& forall|i: int|
                    0 <= i < pools.len() && (#[trigger] pools[i]).spec_owns(buf)
                        ==> pools[t].spec_owns(buf) && t <= i
            })
        }),
{
    if transmit.contents@.len() > 0 {
        lemma_first_owner(pools, transmit, 0);
    }
}

proof fn lemma_first_owner<P: TxPool>(
    pools: Seq<P>,
    transmit: Transmit<ScatterGather<P::Buf>>,
    from: int,
)
    requires
        0 <= from <= pools.len(),
        transmit.contents@.len() > 0,
    ensures
        ({
            let t = first_owner(pools, transmit, from);
            let buf = transmit.contents@[0].buf;
            &&& (from <= t < pools.len() && pools[t].spec_owns(buf)) || (t == 0 && forall|i: int|
                from <= i < pools.len() ==> !(#[trigger] pools[i]).spec_owns(buf))
            &&& forall|i: int|
                from <= i < pools.len() && i < t ==> !(#[trigger] pools[i]).spec_owns(buf)
        }),
    decreases pools.len() - from,
{
    if from < pools.len() && !pools[from].spec_owns(transmit.contents@[0].buf) {
        lemma_first_owner(pools, transmit, from + 1);
    }
}

/// A packet more goes behind those of the socket that sends it, and to no other.
pub proof fn law_packet_joins_one_bucket<P: TxPool>(
    pools: Seq<P>,
    transmits: Seq<Transmit<ScatterGather<P::Buf>>>,
    transmit: Transmit<ScatterGather<P::Buf>>,
    socket: int,
)
    ensures
        bucket(pools, transmits.push(transmit), socket) == (if socket == target_socket(
            pools,
            transmit,
        ) {
            bucket(pools, transmits, socket).push(transmit)
        } else {
            bucket(pools, transmits, socket)
        }),
{
    let all = transmits.push(transmit);
    assert(all.drop_last() =~= transmits);
    assert(all.last() == transmit);
}

/// A packet for an engine tile goes to the end of its queue, and nothing is dropped, where there
/// is room. Where there is none, all queues stay as they are and one drop more is counted.
pub proof fn law_packet_joins_its_queue<B>(
    before: RxSide<B>,
    index: int,
    packet: RxPacket<B>,
    i: int,
)
    requires
        0 <= index < before.queues.len(),
        0 <= i < before.queues.len(),
    ensures
        ({
            let after = routed(before, index, packet);
            let room = before.queues[index].len() < before.capacities[index];
            &&& after.queues.len() == before.queues.len()
            &&& after.capacities == before.capacities
            &&& i != index ==> after.queues[i] == before.queues[i]
            &&& room ==> {
                &&& after.queues[index].len() == before.queues[index].len() + 1
                &&& after.queues[index].last() == packet
                &&& after.queues[index].drop_last() == before.queues[index]
                &&& after.drops == before.drops
            }
            &&& !room ==> {
                &&& after.queues == before.queues
                &&& after.drops == (before.drops + 1) % 0x1_0000_0000_0000_0000
            }
        }),
{
    let after = routed(before, index, packet);
    if before.queues[index].len() < before.capacities[index] {
        assert(after.queues[index].drop_last() =~= before.queues[index]);
    }
}

/// Packets are routed one after the other: the next one meets the queues as those before it left
/// them. It is handed back where its queue is full, and else wakes the consumer of its queue where
/// that sleeps.
pub proof fn law_packets_are_routed_in_order<B, W: WaitStrategy>(
    before: RxSide<B>,
    states: Seq<W::State>,
    indices: Seq<int>,
    packets: Seq<RxPacket<B>>,
    index: int,
    packet: RxPacket<B>,
)
    requires
        indices.len() == packets.len(),
    ensures
        ({
            let side = routed_all(before, indices, packets);
            let room = side.queues[index].len() < side.capacities[index];
            let refused = refused_all(before, indices, packets);
            let woken = woken_all::<B, W>(before, states, indices, packets);
            let wakes = W::parks() && W::sleeping(states[index]);
            let indices1 = indices.push(index);
            let packets1 = packets.push(packet);
            let woken1 = woken_all::<B, W>(before, states, indices1, packets1);
            &&& routed_all(before, indices1, packets1) == routed(side, index, packet)
            &&& refused_all(before, indices1, packets1) == (if room {
                refused
            } else {
                refused.push(packet)
            })
            &&& room && wakes ==> (W::registered(states[index]) matches Some(thread) ==> woken1
                == woken.push(thread))
            &&& !room || !wakes || W::registered(states[index]) is None ==> woken1 == woken
        }),
{
    assert(indices.push(index).drop_last() =~= indices);
    assert(packets.push(packet).drop_last() =~= packets);
}

/// Draining takes the packets of one engine tile behind those of the one before it.
pub proof fn law_queues_are_drained_in_order<T, W: WaitStrategy>(
    queues: Seq<Queue<T, W>>,
    queue: Queue<T, W>,
)
    ensures
        chained(queues.push(queue)) == chained(queues) + queue@,
        chained(Seq::<Queue<T, W>>::empty()) == Seq::<T>::empty(),
{
    assert(queues.push(queue).drop_last() =~= queues);
    assert(queues.push(queue).last() == queue);
}

/// A packet is routed by the bytes of its first segment, as far as they are filled.
pub proof fn law_routed_by_first_segment<B: PacketBufMut>(payload: Seq<Segment<B>>, i: int)
    requires
        payload.len() > 0,
        routable(payload),
    ensures
        ({
            let s = payload[0];
            let filled = s.buf.bytes();
            let bytes = routed_bytes(payload);
            &&& bytes.len() <= s.len
            &&& s.offset + bytes.len() <= filled.len()
            &&& bytes.len() == s.len || s.offset + bytes.len() == filled.len()
            &&& 0 <= i < bytes.len() ==> bytes[i] == filled[s.offset + i]
        }),
{
}

/// Where a tile runs. It is pinned to a CPU exactly where all of its sockets ask for alignment
/// and that CPU handles all of their queues; it runs unpinned where none asks, or where a CPU is
/// not known. Sockets that do not agree, none, and more than 256 are refused.
pub proof fn law_tile_runs_where_its_sockets_ask(
    flags: Seq<bool>,
    cpus: Seq<Option<u32>>,
    cpu: u32,
)
    requires
        cpus.len() == flags.len() <= usize::MAX,
    ensures
        ({
            let choice = pinning(flags, cpus);
            let fits = 1 <= flags.len() <= 256;
            let all_ask = forall|i: int| 0 <= i < flags.len() ==> #[trigger] flags[i];
            let none_asks = forall|i: int| 0 <= i < flags.len() ==> !#[trigger] flags[i];
            let all_known = forall|i: int| 0 <= i < cpus.len() ==> (#[trigger] cpus[i]) is Some;
            let none_known = forall|i: int| 0 <= i < cpus.len() ==> (#[trigger] cpus[i]) is None;
            let all_here = forall|i: int| 0 <= i < cpus.len() ==> #[trigger] cpus[i] == Some(cpu);
            &&& choice == Err::<Pinning, TileError>(TileError::NoSockets) <==> flags.len() == 0
            &&& (choice matches Err(TileError::TooManySockets { count }) && count == flags.len())
                <==> flags.len() > 256
            &&& choice == Err::<Pinning, TileError>(TileError::MixedAlignment) <==> fits && !all_ask
                && !none_asks
            &&& choice == Ok::<Pinning, TileError>(Pinning::Unpinned) <==> fits && none_asks
            &&& choice == Ok::<Pinning, TileError>(Pinning::NoCpuKnown) <==> fits && all_ask
                && none_known
            &&& choice == Ok::<Pinning, TileError>(Pinning::Pin { cpu }) <==> fits && all_ask
                && all_here
            &&& fits && all_ask && all_known && cpus[0] == Some(cpu) && !all_here ==> choice
                == Err::<Pinning, TileError>(TileError::DifferentCpus)
            &&& fits && all_ask && !all_known && !none_known ==> (choice matches Ok(
                Pinning::SomeCpusKnown { known },
            ) && 0 < known < cpus.len())
        }),
{
    lemma_known_count(cpus);
    lemma_known_some(cpus);
    let all_ask = forall|i: int| 0 <= i < flags.len() ==> #[trigger] flags[i];
    let none_asks = forall|i: int| 0 <= i < flags.len() ==> !#[trigger] flags[i];
    let differ = exists|i: int| 0 <= i < cpus.len() && #[trigger] cpus[i] != cpus[0];
    assert(any_flag(flags, true) <==> !none_asks) by {
        if any_flag(flags, true) {
            let i = choose|i: int| 0 <= i < flags.len() && #[trigger] flags[i] == true;
            assert(flags[i]);
        }
    }
    assert(any_flag(flags, false) <==> !all_ask) by {
        if any_flag(flags, false) {
            let i = choose|i: int| 0 <= i < flags.len() && #[trigger] flags[i] == false;
            assert(!flags[i]);
        }
    }
    if flags.len() > 0 {
        let first = flags[0];
        assert(all_ask ==> first);
        assert(none_asks ==> !first);
        let all_here = forall|i: int| 0 <= i < cpus.len() ==> #[trigger] cpus[i] == Some(cpu);
        assert(all_here ==> cpus[0] == Some(cpu));
        assert(cpus[0] == Some(cpu) ==> (all_here <==> !differ));
        let none_known = forall|i: int| 0 <= i < cpus.len() ==> (#[trigger] cpus[i]) is None;
        assert(none_known ==> cpus[0] is None);
    }
}

proof fn lemma_known_some(cpus: Seq<Option<u32>>)
    ensures
        known_count(cpus) == 0 <==> forall|i: int|
            0 <= i < cpus.len() ==> (#[trigger] cpus[i]) is None,
        (forall|i: int| 0 <= i < cpus.len() ==> (#[trigger] cpus[i]) is Some) ==> known_count(cpus)
            == cpus.len(),
    decreases cpus.len(),
{
    if cpus.len() > 0 {
        let fewer = cpus.drop_last();
        lemma_known_some(fewer);
        assert(forall|i: int| 0 <= i < fewer.len() ==> #[trigger] fewer[i] == cpus[i]);
        assert(cpus[cpus.len() - 1] == cpus.last());
        if known_count(cpus) == 0 {
            assert forall|i: int| 0 <= i < cpus.len() implies (#[trigger] cpus[i]) is None by {
                if i < fewer.len() {
                    assert(fewer[i] is None);
                }
            }
        }
        if forall|i: int| 0 <= i < cpus.len() ==> (#[trigger] cpus[i]) is None {
            assert forall|i: int| 0 <= i < fewer.len() implies (#[trigger] fewer[i]) is None by {
                assert(cpus[i] is None);
            }
        }
        if forall|i: int| 0 <= i < cpus.len() ==> (#[trigger] cpus[i]) is Some {
            assert forall|i: int| 0 <= i < fewer.len() implies (#[trigger] fewer[i]) is Some by {
                assert(cpus[i] is Some);
            }
        }
    }
}

/// Queueing a packet succeeds exactly where its queue has room. It then wakes the consumer where
/// that sleeps; else the very packet is handed back.
pub proof fn law_packet_is_queued_or_handed_back<B, F, M, W: WaitStrategy, R>(
    before: NetworkTileImpl<B, F, M, W, R>,
    after: NetworkTileImpl<B, F, M, W, R>,
    index: int,
    packet: RxPacket<B>,
    result: Result<Option<u64>, RxPacket<B>>,
)
    requires
        0 <= index < before.rx_queues@.len(),
        pushed_to(before, after, index, packet, result),
    ensures
        ({
            let queue = before.rx_queues@[index];
            let sleeps = W::parks() && W::sleeping(queue.spec_state());
            &&& result is Ok <==> queue@.len() < queue.capacity()
            &&& result matches Ok(wake) ==> {
                &&& sleeps ==> wake == W::registered(queue.spec_state())
                &&& !sleeps ==> wake is None
                &&& after.rx_queues@[index]@ == queue@.push(packet)
                &&& after.rx_drops == before.rx_drops
            }
            &&& result matches Err(back) ==> {
                &&& back == packet
                &&& after.rx_queues@[index]@ == queue@
                &&& after.rx_drops == (before.rx_drops + 1) % 0x1_0000_0000_0000_0000
            }
            &&& forall|i: int|
                0 <= i < before.rx_queues@.len() && i != index ==> (#[trigger] after.rx_queues@[i])@
                    == before.rx_queues@[i]@
            &&& after.tx_queues == before.tx_queues && after.tx_buf_queue == before.tx_buf_queue
        }),
{
    let side = routed(before.rx_side(), index, packet);
    assert(after.rx_side() == side);
    assert forall|i: int| 0 <= i < before.rx_queues@.len() implies (#[trigger] after.rx_queues@[i])@
        == side.queues[i] by {
        assert(after.rx_side().queues[i] == after.rx_queues@[i]@);
    }
    assert(before.rx_side().queues[index] == before.rx_queues@[index]@);
    assert(before.rx_side().capacities[index] == before.rx_queues@[index].capacity());
}

/// A received buffer becomes a packet of one segment, from the buffer's start on and as long as
/// the datagram, that names its socket; and it goes to a tile that the router may choose for it.
pub proof fn law_received_buffers_become_packets<B: PacketBufMut, R: PacketRouter>(
    packets: Seq<RxPacket<B>>,
    meta: Seq<RecvMeta>,
    bufs: Seq<B>,
    n: int,
    source_socket: u8,
    router: R,
    indices: Seq<int>,
    engine_count: int,
    i: int,
)
    requires
        batch_of(packets, meta, bufs, n, source_socket),
        choices_of(router, packets, indices, engine_count),
        0 <= i < n,
    ensures
        packets.len() == n,
        packets[i].meta == meta[i],
        packets[i].source_socket == source_socket,
        packets[i].payload@.len() == 1,
        packets[i].payload@[0].buf == bufs[i],
        packets[i].payload@[0].offset == 0,
        packets[i].payload@[0].len == meta[i].len,
        0 <= indices[i] < engine_count,
        router.may_choose(
            meta[i],
            routed_bytes(packets[i].payload@),
            engine_count,
            indices[i],
        ),
{
    assert(packets[i].meta == meta[i]);
    assert(0 <= indices[i] < engine_count);
}

/// What a refill takes of a pool: no more than its share and half of what is free, and nothing of
/// one that is empty and cannot make more. What it takes is no longer free.
pub proof fn law_refill_of_a_pool<P: TxPool>(
    before: Seq<P>,
    after: Seq<P>,
    queued: int,
    taken: Seq<usize>,
    i: int,
)
    requires
        refilled(before, after, queued, taken),
        0 <= queued,
        0 <= i < before.len(),
    ensures
        ({
            let n = before.len() as int;
            let free = before[i].free_count();
            &&& taken.len() == before.len() && after.len() == before.len()
            &&& n * (taken[i] - 1) < 64
            &&& free > 0 ==> 2 * taken[i] <= free && after[i].free_count() == free - taken[i]
            &&& free > 0 ==> n * taken[i] >= 64 || 2 * (taken[i] + 1) > free
            &&& free == 0 && !before[i].grows() ==> taken[i] == 0
            &&& free == 0 && i == 0 && queued > 0 ==> taken[i] == 0
            &&& free == 0 && i == 0 && queued == 0 && before[i].grows() ==> n * taken[i] >= 64
        }),
{
    let n = before.len() as int;
    assert(pool_refilled(before, after, queued, taken, i, n));
    law_sockets_share_a_batch(n);
    let q = queued + total(taken.take(i));
    let free = before[i].free_count() as int;
    law_refill_takes_share_or_half(q, free, per_socket(n));
    if i == 0 {
        assert(taken.take(0).len() == 0);
        assert(total(taken.take(0)) == 0);
    }
    let t = taken[i] as int;
    assert(n * (t - 1) <= n * (per_socket(n) - 1)) by (nonlinear_arith)
        requires
            n > 0,
            t <= per_socket(n),
    ;
}

/// Counts add up.
pub proof fn law_counts_add_up(counts: Seq<usize>, count: usize)
    ensures
        total(counts.push(count)) == total(counts) + count,
        total(Seq::<usize>::empty()) == 0,
{
    assert(counts.push(count).drop_last() =~= counts);
}

/// A buffer is at home in the first pool that it came from.
pub proof fn law_home_is_the_first_pool<P: TxPool>(pools: Seq<P>, buf: P::Buf)
    ensures
        ({
            let home = home_of(pools, buf, 0);
            &&& 0 <= home <= pools.len()
            &&& home < pools.len() ==> pools[home].is_home(buf)
            &&& forall|i: int| 0 <= i < home ==> !(#[trigger] pools[i]).is_home(buf)
        }),
{
    lemma_home_is_first(pools, buf, 0);
}

proof fn lemma_home_is_first<P: TxPool>(pools: Seq<P>, buf: P::Buf, from: int)
    requires
        0 <= from <= pools.len(),
    ensures
        ({
            let home = home_of(pools, buf, from);
            &&& from <= home <= pools.len()
            &&& home < pools.len() ==> pools[home].is_home(buf)
            &&& forall|i: int| from <= i < home ==> !(#[trigger] pools[i]).is_home(buf)
        }),
    decreases pools.len() - from,
{
    if from < pools.len() && !pools[from].is_home(buf) {
        lemma_home_is_first(pools, buf, from + 1);
    }
}

/// A buffer more is counted where it is at home, and handed back where it has no home.
pub proof fn law_buffer_comes_home<P: TxPool>(
    pools: Seq<P>,
    bufs: Seq<P::Buf>,
    buf: P::Buf,
    i: int,
)
    ensures
        home_count(pools, bufs.push(buf), i) == home_count(pools, bufs, i) + (if P::pooled(buf)
            && home_of(pools, buf, 0) == i {
            1nat
        } else {
            0nat
        }),
        homeless(pools, bufs.push(buf)) == (if P::pooled(buf) && home_of(pools, buf, 0)
            == pools.len() {
            homeless(pools, bufs).push(buf)
        } else {
            homeless(pools, bufs)
        }),
{
    assert(bufs.push(buf).drop_last() =~= bufs);
    assert(bufs.push(buf).last() == buf);
}

/// Giving buffers back changes nothing of the pools but what is free.
pub proof fn law_pools_stay_the_same<P: TxPool>(before: Seq<P>, after: Seq<P>, i: int, buf: P::Buf)
    requires
        same_pools(before, after),
        0 <= i < before.len(),
    ensures
        after.len() == before.len(),
        after[i].pool_wf(),
        after[i].grows() == before[i].grows(),
        after[i].spec_max_payload() == before[i].spec_max_payload(),
        after[i].spec_owns(buf) == before[i].spec_owns(buf),
        after[i].is_home(buf) == before[i].is_home(buf),
{
    assert(after[i].pool_wf());
}

/// A refill can go ahead exactly where every pool is usable and has names for a batch of 64.
pub proof fn law_refill_needs_names<P: TxPool>(pools: Seq<P>)
    ensures
        pools_ready(pools) <==> forall|i: int|
            0 <= i < pools.len() ==> (#[trigger] pools[i]).pool_wf() && forall|c: nat|
                c <= 64 ==> #[trigger] pools[i].can_name(c),
{
}

/// The buffers that a refill took from a pool lie in the queue behind those of the pools before,
/// empty and with room for a largest payload of that pool.
pub proof fn law_refilled_buffers_are_queued<P: TxPool>(
    pool: P,
    queue: Seq<P::BufMut>,
    queued: int,
    taken: Seq<usize>,
    i: int,
    k: int,
)
    requires
        pool_queued(pool, queue, queued, taken, i),
        0 <= queued,
        0 <= i < taken.len(),
        0 <= k < taken[i],
    ensures
        ({
            let at = queued + total(taken.take(i)) + k;
            &&& 0 <= at < queue.len()
            &&& P::is_blank(queue[at], pool.spec_max_payload() as nat)
        }),
{
    let at = queued + total(taken.take(i)) + k;
    assert(P::is_blank(queue[at], pool.spec_max_payload() as nat));
}

} // verus!
