//! OS-socket-backed network tile: one reader thread and one writer thread,
//! connected to N engine tiles via queues.

use bytes::BytesMut;
use crate::addr::{IpAddr, SocketAddr};
use crate::interface::{
    bytes_mut_as_ref, bytes_mut_extend, bytes_mut_from, bytes_mut_with_capacity, EcnCodepoint,
    PacketBuf, RecvMeta, ScatterGather, Segment, Transmit,
};
use crate::mpsc::MpscQueue;
use crate::os::buffers::OsBuf;
use vstd::prelude::*;

verus! {

broadcast use vstd::slice::group_slice_axioms;

/// How many datagrams the reader takes at once.
pub const READER_BATCH: usize = 64;

/// A received datagram on its way to an engine tile.
pub struct RxPacket {
    pub meta: RecvMeta,
    pub payload: BytesMut,
}

/// A datagram of an engine tile on its way to the writer.
pub struct TxPacket {
    pub destination: SocketAddr,
    pub ecn: Option<EcnCodepoint>,
    pub payload: BytesMut,
    pub segment_size: Option<usize>,
    pub src_ip: Option<IpAddr>,
}

/// `fastrand::usize` on `0..n`: some number below `n`. Which one is up to chance.
#[verifier::external_body]
fn random_below(n: usize) -> (r: usize)
    requires
        0 < n,
    ensures
        r < n,
{
    fastrand::usize(0..n)
}

/// The engine tile for a datagram whose connection id names a queue, or else a random one.
pub fn route_or(queue_id: Option<u32>, num_engine_tiles: usize, random: usize) -> (index: usize)
    requires
        random < num_engine_tiles,
    ensures
        index < num_engine_tiles,
        index == match queue_id {
            Some(id) => id as int % num_engine_tiles as int,
            None => random as int,
        },
{
    match queue_id {
        Some(id) => (id as usize) % num_engine_tiles,
        None => random,
    }
}

/// Choose engine tile index for an incoming datagram, given the queue that its connection id
/// names, if any.
pub fn route_packet(queue_id: Option<u32>, num_engine_tiles: usize) -> (index: usize)
    requires
        0 < num_engine_tiles,
    ensures
        index < num_engine_tiles,
        queue_id matches Some(id) ==> index == id as int % num_engine_tiles as int,
{
    match queue_id {
        Some(_) => route_or(queue_id, num_engine_tiles, 0),
        None => route_or(queue_id, num_engine_tiles, random_below(num_engine_tiles)),
    }
}

/// The bytes of a packet, in one buffer.
pub fn assemble_payload<B: PacketBuf>(packet: &ScatterGather<B>) -> (payload: BytesMut)
    requires
        packet.wf(),
        packet.in_bounds(),
        crate::interface::segments_len(packet@) <= isize::MAX,
    ensures
        crate::interface::bytes_mut_contents(payload) == crate::interface::segments_bytes(packet@),
{
    match packet.as_contiguous() {
        Some(data) => {
            proof {
                assert(packet@.drop_last().len() == 0);
                assert(crate::interface::segments_bytes(packet@.drop_last()) =~= Seq::<u8>::empty());
                assert(crate::interface::segments_bytes(packet@) =~= packet@[0].bytes());
            }
            bytes_mut_from(data)
        },
        None => {
            let mut joined: BytesMut = bytes_mut_with_capacity(packet.total_len());
            let n: usize = packet.segment_count();
            let ghost all = packet@;
            let mut i: usize = 0;
            assert(all.take(0) =~= Seq::<Segment<B>>::empty());
            while i < n
                invariant
                    i <= n == all.len(),
                    all == packet@,
                    packet.wf(),
                    packet.in_bounds(),
                    crate::interface::segments_len(all) <= isize::MAX,
                    crate::interface::bytes_mut_contents(joined)
                        == crate::interface::segments_bytes(all.take(i as int)),
                decreases n - i,
            {
                let (buf, offset, len): (&B, usize, usize) = packet.segment(i);
                assert(packet@[i as int].wf());
                let whole: &[u8] = buf.as_ref();
                assert(offset + len <= whole.len());
                let data: &[u8] = vstd::slice::slice_subrange(whole, offset, offset + len);
                proof {
                    assert(all.take(i + 1).drop_last() =~= all.take(i as int));
                    assert(all.take(i + 1).last() == all[i as int]);
                    lemma_bytes_fit(all, i + 1);
                }
                bytes_mut_extend(&mut joined, data);
                i += 1;
            }
            assert(all.take(n as int) =~= all);
            joined
        },
    }
}

/// The first segments of a packet have as many bytes as their lengths say, and no more than all.
proof fn lemma_bytes_fit<B: PacketBuf>(all: Seq<Segment<B>>, n: int)
    requires
        0 <= n <= all.len(),
        forall|i: int| 0 <= i < all.len() ==> (#[trigger] all[i]).wf(),
    ensures
        crate::interface::segments_bytes(all.take(n)).len() == crate::interface::segments_len(
            all.take(n),
        ),
        crate::interface::segments_len(all.take(n)) <= crate::interface::segments_len(all),
{
    lemma_bytes_len(all, n);
    lemma_len_prefix(all, n);
}

proof fn lemma_bytes_len<B: PacketBuf>(all: Seq<Segment<B>>, n: int)
    requires
        0 <= n <= all.len(),
        forall|i: int| 0 <= i < all.len() ==> (#[trigger] all[i]).wf(),
    ensures
        crate::interface::segments_bytes(all.take(n)).len() == crate::interface::segments_len(
            all.take(n),
        ),
    decreases n,
{
    if n > 0 {
        lemma_bytes_len(all, n - 1);
        assert(all.take(n).drop_last() =~= all.take(n - 1));
        assert(all.take(n).last() == all[n - 1]);
        assert(all[n - 1].wf());
    }
}

proof fn lemma_len_prefix<B>(all: Seq<Segment<B>>, n: int)
    requires
        0 <= n <= all.len(),
    ensures
        crate::interface::segments_len(all.take(n)) <= crate::interface::segments_len(all),
    decreases all.len() - n,
{
    if n < all.len() {
        lemma_len_prefix(all, n + 1);
        assert(all.take(n + 1).drop_last() =~= all.take(n));
    } else {
        assert(all.take(n) =~= all);
    }
}

/// Whether a packet says what a datagram of an engine tile says.
pub open spec fn sends(transmit: Transmit<ScatterGather<OsBuf>>, packet: TxPacket) -> bool {
    let payload = crate::interface::bytes_mut_contents(packet.payload);
    &&& transmit.destination == packet.destination
    &&& transmit.ecn == packet.ecn
    &&& transmit.segment_size == packet.segment_size
    &&& transmit.src_ip == packet.src_ip
    &&& transmit.contents.wf()
    &&& transmit.contents@.len() == 1
    &&& transmit.contents@[0].wf()
    &&& transmit.contents@[0].offset == 0
    &&& transmit.contents@[0].len == payload.len()
    &&& transmit.contents@[0].bytes() == payload
}

/// A datagram of an engine tile as a packet of one segment.
pub fn to_transmit(packet: &TxPacket) -> (transmit: Transmit<ScatterGather<OsBuf>>)
    ensures
        sends(transmit, *packet),
{
    let data: &[u8] = bytes_mut_as_ref(&packet.payload);
    let len: usize = data.len();
    let buf = OsBuf::from_slice(data);
    let mut contents: ScatterGather<OsBuf> = ScatterGather::new();
    let segment = Segment { buf, offset: 0, len };
    assert(segment.bytes() =~= data@);
    contents.push(segment);
    Transmit {
        destination: packet.destination,
        ecn: packet.ecn,
        contents,
        segment_size: packet.segment_size,
        src_ip: packet.src_ip,
    }
}

/// OS-socket network tile: one reader, one writer, bound to the same UDP port via `SO_REUSEPORT`.
pub struct OsNetworkTile {
    pub addr: SocketAddr,
    /// One queue per engine tile; reader pushes, engine drains.
    pub rx_queues: Vec<MpscQueue<RxPacket>>,
    /// Engine tile tx queues assigned to this writer.
    pub tx_queues: Vec<MpscQueue<TxPacket>>,
    /// Whether each engine tile is parked (indexed same as rx_queues).
    pub engine_is_parked: Vec<bool>,
}

impl OsNetworkTile {
    pub open spec fn wf(&self) -> bool {
        &&& self.rx_queues@.len() > 0
        &&& self.engine_is_parked@.len() == self.rx_queues@.len()
        &&& forall|i: int| 0 <= i < self.rx_queues@.len() ==> (#[trigger] self.rx_queues@[i]).wf()
        &&& forall|i: int| 0 <= i < self.tx_queues@.len() ==> (#[trigger] self.tx_queues@[i]).wf()
    }

    /// Create a new network tile.
    ///
    /// `rx_queues` has one entry per engine tile (reader pushes into these).
    /// `tx_queues` has one entry per engine tile assigned to this writer. No engine tile is
    /// parked.
    pub fn new(
        addr: SocketAddr,
        rx_queues: Vec<MpscQueue<RxPacket>>,
        tx_queues: Vec<MpscQueue<TxPacket>>,
    ) -> (tile: OsNetworkTile)
        requires
            rx_queues@.len() > 0,
            forall|i: int| 0 <= i < rx_queues@.len() ==> (#[trigger] rx_queues@[i]).wf(),
            forall|i: int| 0 <= i < tx_queues@.len() ==> (#[trigger] tx_queues@[i]).wf(),
        ensures
            tile.wf(),
            tile.addr == addr,
            tile.rx_queues == rx_queues,
            tile.tx_queues == tx_queues,
            forall|i: int| 0 <= i < rx_queues@.len() ==> !#[trigger] tile.engine_is_parked@[i],
    {
        let mut engine_is_parked: Vec<bool> = Vec::new();
        let mut i: usize = 0;
        while i < rx_queues.len()
            invariant
                i <= rx_queues@.len(),
                engine_is_parked@.len() == i,
                forall|j: int| 0 <= j < i ==> !#[trigger] engine_is_parked@[j],
            decreases rx_queues@.len() - i,
        {
            engine_is_parked.push(false);
            i += 1;
        }
        OsNetworkTile { addr, rx_queues, tx_queues, engine_is_parked }
    }

    /// Queues a received datagram for an engine tile; where its queue is full, the datagram is
    /// dropped. Returns whether to unpark the engine tile.
    pub fn enqueue<B: PacketBuf>(&mut self, meta: RecvMeta, packet: &ScatterGather<B>, index: usize) -> (unpark:
        bool)
        requires
            old(self).wf(),
            index < old(self).rx_queues@.len(),
            packet.wf(),
            packet.in_bounds(),
            crate::interface::segments_len(packet@) <= isize::MAX,
        ensures
            final(self).wf(),
            enqueued(*old(self), *final(self), meta, packet@, index as int, unpark),
    {
        let payload: BytesMut = assemble_payload(packet);
        let ghost queue0 = self.rx_queues@[index as int]@;
        let result: Result<(), RxPacket> = self.rx_queues[index].push(RxPacket { meta, payload });
        assert(result is Ok ==> self.rx_queues@[index as int]@.drop_last() =~= queue0);
        result.is_ok() && self.engine_is_parked[index]
    }

    /// Routes a received datagram by the queue that its connection id names, if any, and queues
    /// it. Returns the engine tile and whether to unpark it.
    pub fn receive<B: PacketBuf>(
        &mut self,
        queue_id: Option<u32>,
        meta: RecvMeta,
        packet: &ScatterGather<B>,
    ) -> (result: (usize, bool))
        requires
            old(self).wf(),
            packet.wf(),
            packet.in_bounds(),
            crate::interface::segments_len(packet@) <= isize::MAX,
        ensures
            final(self).wf(),
            result.0 < old(self).rx_queues@.len(),
            queue_id matches Some(id) ==> result.0 == id as int % old(self).rx_queues@.len() as int,
            enqueued(*old(self), *final(self), meta, packet@, result.0 as int, result.1),
    {
        let index: usize = route_packet(queue_id, self.rx_queues.len());
        let unpark: bool = self.enqueue(meta, packet, index);
        (index, unpark)
    }

    /// Takes the next datagram for the writer: the oldest of the first queue from `from` on that
    /// has one. Returns it with its queue.
    pub fn next_packet(&mut self, from: usize) -> (next: Option<(usize, TxPacket)>)
        requires
            old(self).wf(),
            from <= old(self).tx_queues@.len(),
        ensures
            final(self).wf(),
            final(self).rx_queues == old(self).rx_queues,
            final(self).engine_is_parked == old(self).engine_is_parked,
            final(self).addr == old(self).addr,
            final(self).tx_queues@.len() == old(self).tx_queues@.len(),
            next is None ==> {
                &&& forall|i: int|
                    from <= i < old(self).tx_queues@.len() ==> (#[trigger] old(
                        self,
                    ).tx_queues@[i])@.len() == 0
                &&& forall|i: int|
                    0 <= i < old(self).tx_queues@.len() ==> (#[trigger] final(self).tx_queues@[i])@
                        == old(self).tx_queues@[i]@
            },
            next matches Some((queue, packet)) ==> {
                &&& from <= queue < old(self).tx_queues@.len()
                &&& forall|i: int|
                    from <= i < queue ==> (#[trigger] old(self).tx_queues@[i])@.len() == 0
                &&& old(self).tx_queues@[queue as int]@.len() > 0
                &&& packet == old(self).tx_queues@[queue as int]@[0]
                &&& final(self).tx_queues@[queue as int]@ == old(
                    self,
                ).tx_queues@[queue as int]@.drop_first()
                &&& forall|i: int|
                    0 <= i < old(self).tx_queues@.len() && i != queue ==> (#[trigger] final(self).tx_queues@[i])@ == old(self).tx_queues@[i]@
            },
    {
        let ghost queues0 = self.tx_queues@;
        let mut i: usize = from;
        while i < self.tx_queues.len()
            invariant
                from <= i <= self.tx_queues@.len() == queues0.len(),
                queues0 == old(self).tx_queues@,
                self.wf(),
                self.rx_queues == old(self).rx_queues,
                self.engine_is_parked == old(self).engine_is_parked,
                self.addr == old(self).addr,
                forall|j: int| from <= j < i ==> (#[trigger] queues0[j])@.len() == 0,
                forall|j: int|
                    0 <= j < queues0.len() ==> (#[trigger] self.tx_queues@[j])@ == queues0[j]@,
            decreases queues0.len() - i,
        {
            assert(self.tx_queues@[i as int]@ == queues0[i as int]@);
            match self.tx_queues[i].pop() {
                Some(packet) => {
                    return Some((i, packet));
                },
                None => {},
            }
            i += 1;
        }
        None
    }
}

/// How queueing a datagram for an engine tile changes the tile.
pub open spec fn enqueued<B: PacketBuf>(
    before: OsNetworkTile,
    after: OsNetworkTile,
    meta: RecvMeta,
    packet: Seq<Segment<B>>,
    index: int,
    unpark: bool,
) -> bool {
    let queue0 = before.rx_queues@[index];
    let queue1 = after.rx_queues@[index];
    let room = queue0@.len() < queue0.capacity();
    &&& room ==> {
        &&& queue1@.len() == queue0@.len() + 1
        &&& queue1@.drop_last() == queue0@
        &&& queue1@.last().meta == meta
        &&& crate::interface::bytes_mut_contents(queue1@.last().payload)
            == crate::interface::segments_bytes(packet)
    }
    &&& !room ==> queue1@ == queue0@
    &&& queue1.capacity() == queue0.capacity()
    &&& unpark == (room && before.engine_is_parked@[index])
    &&& after.rx_queues@.len() == before.rx_queues@.len()
    &&& forall|i: int|
        0 <= i < before.rx_queues@.len() && i != index ==> #[trigger] after.rx_queues@[i]
            == before.rx_queues@[i]
    &&& after.tx_queues == before.tx_queues
    &&& after.engine_is_parked == before.engine_is_parked
    &&& after.addr == before.addr
}

/// A datagram that is queued for an engine tile is the last one of its queue, with its bytes and
/// what is said of it, and the engine tile is unparked where it is parked. One that finds the
/// queue full changes nothing and unparks nobody.
pub proof fn law_datagram_joins_its_queue<B: PacketBuf>(
    before: OsNetworkTile,
    after: OsNetworkTile,
    meta: RecvMeta,
    packet: Seq<Segment<B>>,
    index: int,
    unpark: bool,
    i: int,
)
    requires
        0 <= index < before.rx_queues@.len(),
        0 <= i < before.rx_queues@.len(),
        enqueued(before, after, meta, packet, index, unpark),
    ensures
        i != index ==> after.rx_queues@[i]@ == before.rx_queues@[i]@,
        ({
            let old_queue = before.rx_queues@[index]@;
            let new_queue = after.rx_queues@[index]@;
            let room = old_queue.len() < before.rx_queues@[index].capacity();
            &&& unpark <==> room && before.engine_is_parked@[index]
            &&& !room ==> new_queue == old_queue
            &&& room ==> {
                &&& new_queue.len() == old_queue.len() + 1
                &&& new_queue.drop_last() == old_queue
                &&& new_queue.last().meta == meta
                &&& crate::interface::bytes_mut_contents(new_queue.last().payload)
                    == crate::interface::segments_bytes(packet)
            }
        }),
        after.engine_is_parked == before.engine_is_parked,
        after.tx_queues == before.tx_queues,
{
}

/// A packet for the writer says what the engine tile's datagram says: where it goes, how it is
/// marked, from where, and with which bytes.
pub proof fn law_writer_sends_the_datagram(
    transmit: Transmit<ScatterGather<OsBuf>>,
    packet: TxPacket,
)
    requires
        sends(transmit, packet),
    ensures
        transmit.destination == packet.destination,
        transmit.ecn == packet.ecn,
        transmit.src_ip == packet.src_ip,
        transmit.segment_size == packet.segment_size,
        transmit.contents@.len() == 1,
        crate::interface::segments_bytes(transmit.contents@)
            == crate::interface::bytes_mut_contents(packet.payload),
{
    let rest = transmit.contents@.drop_last();
    assert(crate::interface::segments_bytes(rest) =~= Seq::<u8>::empty());
    assert(crate::interface::segments_bytes(transmit.contents@) =~= transmit.contents@[0].bytes());
}

} // verus!
