//! Packet socket over AF_XDP.
//!
//! `XdpSocket` is the longest-lived per-tile object: it owns the UMEM, the four rings, the TX
//! pool and the reclaimer. Buffers name frames of its UMEM.
//!
//! IPv4-only, strict UDP. On TX, IPv6 destinations are silently consumed: they count as sent,
//! and nothing is sent of them. The kernel's side of the rings (shared indices and slots) is
//! handed in by whoever maps them.

use crate::addr::{IpAddr, Ipv4Addr, SocketAddr};
use crate::interface::{RecvMeta, ScatterGather, Segment, Transmit};
use crate::xdp::buffers::{XdpRxBufMut, XdpRxBufMutRepr, XdpRxPool, XdpTxBuf, XdpTxPool, HEADROOM};
use crate::xdp::packet::{
    parse_ipv4_udp, write_eth_header, write_ip_header_for_udp, write_udp_header, IP_HEADER_SIZE,
    UDP_HEADER_SIZE,
};
use crate::xdp::program::AttachMode;
use crate::xdp::raw_socket::{RawXdpSocket, RingSizes, XdpMode};
use crate::xdp::reclaimer::Reclaimer;
use crate::xdp::ring::{RingProducer, XdpDesc};
use crate::xdp::umem::Umem;
use vstd::multiset::Multiset;
use vstd::prelude::*;

verus! {

broadcast use vstd::slice::group_slice_axioms;

/// One packet per descriptor; multi-buf XDP isn't supported.
pub const MAX_SEGMENTS: usize = 1;

/// AF_XDP has no socket-level GSO/GRO.
pub const MAX_GSO: u16 = 1;

pub const MAX_GRO: u16 = 1;

pub const MAX_BATCH: usize = 64;

/// Per-socket configuration. Build via [`XdpConfig::builder`] or [`XdpConfig::default`].
#[derive(Debug, Clone, Copy)]
pub struct XdpConfig {
    /// FILL / COMPLETION / RX / TX ring sizes. All four must be powers of 2.
    pub ring_sizes: RingSizes,
    /// Total UMEM frame count, power of 2. Split 50/50 between FILL pre-fill
    /// and the TX free list at construction.
    pub frame_count: u32,
    /// Per-frame size in bytes. Matches `XDP_UMEM_REG.chunk_size`.
    pub frame_size: u32,
    /// Zero-copy vs copy mode.
    pub mode: XdpMode,
    /// XDP attach mode. Native ZC requires `Drv`; software interfaces (`lo`)
    /// require `Skb`; veth supports `Drv` on newer kernels.
    pub attach_mode: AttachMode,
    /// Custom BPF object. `None` uses the embedded default; the first socket
    /// per NIC decides which program is loaded.
    pub program_bytes: Option<&'static [u8]>,
}

impl XdpConfig {
    /// The configuration that [`XdpConfig::default`] gives.
    pub open spec fn is_default(self) -> bool {
        &&& self.ring_sizes == (RingSizes { fill: 2048, completion: 2048, rx: 2048, tx: 2048 })
        &&& self.frame_count == 4096
        &&& self.frame_size == 2048
        &&& self.mode == XdpMode::ZeroCopy
        &&& self.attach_mode == AttachMode::Default
        &&& self.program_bytes is None
    }

    /// Sizes that the rings and the UMEM can have.
    pub open spec fn valid(self) -> bool {
        &&& crate::xdp::ring::is_power_of_two(self.frame_count)
        &&& self.frame_size >= HEADROOM
        &&& self.ring_sizes.wf()
    }

    pub fn builder() -> (builder: XdpConfigBuilder)
        ensures
            builder.config.is_default(),
    {
        XdpConfigBuilder::default()
    }
}

impl Default for XdpConfig {
    fn default() -> (config: XdpConfig)
        ensures
            config.is_default(),
    {
        XdpConfig {
            ring_sizes: RingSizes::default(),
            // 4096 frames of 2 KiB = 8 MiB UMEM. Big enough that a 64-batch
            // recv loop never exhausts FILL even under bursty traffic.
            frame_count: 4096,
            frame_size: 2048,
            mode: XdpMode::ZeroCopy,
            attach_mode: AttachMode::Default,
            program_bytes: None,
        }
    }
}

/// Builder for [`XdpConfig`]. See [`XdpConfig::builder`].
#[derive(Debug, Clone, Copy)]
pub struct XdpConfigBuilder {
    pub config: XdpConfig,
}

impl Default for XdpConfigBuilder {
    fn default() -> (builder: XdpConfigBuilder)
        ensures
            builder.config.is_default(),
    {
        XdpConfigBuilder { config: XdpConfig::default() }
    }
}

/// Whether a number is a power of two.
fn check_power_of_two(n: u32) -> (yes: bool)
    ensures
        yes == crate::xdp::ring::is_power_of_two(n),
{
    n != 0 && n & (n - 1) == 0
}

impl XdpConfigBuilder {
    pub fn ring_sizes(self, sizes: RingSizes) -> (builder: XdpConfigBuilder)
        ensures
            builder.config == (XdpConfig { ring_sizes: sizes, ..self.config }),
    {
        XdpConfigBuilder { config: XdpConfig { ring_sizes: sizes, ..self.config } }
    }

    /// Must be a power of 2.
    pub fn frame_count(self, n: u32) -> (builder: XdpConfigBuilder)
        ensures
            builder.config == (XdpConfig { frame_count: n, ..self.config }),
    {
        XdpConfigBuilder { config: XdpConfig { frame_count: n, ..self.config } }
    }

    /// Must be at least HEADROOM (42 B for ETH+IPv4+UDP) plus any payload.
    pub fn frame_size(self, n: u32) -> (builder: XdpConfigBuilder)
        ensures
            builder.config == (XdpConfig { frame_size: n, ..self.config }),
    {
        XdpConfigBuilder { config: XdpConfig { frame_size: n, ..self.config } }
    }

    pub fn mode(self, mode: XdpMode) -> (builder: XdpConfigBuilder)
        ensures
            builder.config == (XdpConfig { mode, ..self.config }),
    {
        XdpConfigBuilder { config: XdpConfig { mode, ..self.config } }
    }

    pub fn attach_mode(self, mode: AttachMode) -> (builder: XdpConfigBuilder)
        ensures
            builder.config == (XdpConfig { attach_mode: mode, ..self.config }),
    {
        XdpConfigBuilder { config: XdpConfig { attach_mode: mode, ..self.config } }
    }

    /// Supply a custom BPF object.
    pub fn program_bytes(self, bytes: &'static [u8]) -> (builder: XdpConfigBuilder)
        ensures
            builder.config == (XdpConfig { program_bytes: Some(bytes), ..self.config }),
    {
        XdpConfigBuilder { config: XdpConfig { program_bytes: Some(bytes), ..self.config } }
    }

    /// Whether [`build`](Self::build) accepts the sizes. The rings are masked with `size - 1`,
    /// so a size that is no power of two would corrupt descriptor indexing.
    pub fn is_valid(&self) -> (valid: bool)
        ensures
            valid == self.config.valid(),
    {
        let sizes: RingSizes = self.config.ring_sizes;
        check_power_of_two(self.config.frame_count) && self.config.frame_size >= HEADROOM
            && check_power_of_two(sizes.fill) && check_power_of_two(sizes.completion)
            && check_power_of_two(sizes.rx) && check_power_of_two(sizes.tx)
    }

    /// The configuration, whose sizes have to be valid.
    pub fn build(self) -> (config: XdpConfig)
        requires
            self.config.valid(),
        ensures
            config == self.config,
    {
        self.config
    }
}

/// Number of payload bytes in a frame.
pub fn payload_capacity(frame_size: u32) -> (n: usize)
    requires
        frame_size >= HEADROOM,
    ensures
        n == frame_size - HEADROOM,
{
    (frame_size - HEADROOM) as usize
}

/// What opening a socket does next.
///
/// The program must be attached before the AF_XDP bind: native zero-copy inspects program
/// features. Routing and MAC are looked up before the program's maps are touched, so that a
/// failure there leaves nothing behind. The socket map is populated before the port map, else
/// the program redirects to an empty slot.
#[derive(Debug, Clone, Copy, PartialEq, Eq, Structural)]
pub enum OpenStep {
    LoadProgram,
    AllocateUmem,
    SetUpRings,
    LoadRouter,
    ReadMac,
    RegisterSocket,
    BindPort,
    /// The port could not be bound: take the socket out of the map again.
    UnregisterSocket,
    /// Give up with the error that came first.
    Failed,
    Open,
}

impl OpenStep {
    /// The step after one that succeeded or failed.
    pub open spec fn spec_next(self, ok: bool) -> OpenStep {
        match self {
            OpenStep::LoadProgram => if ok {
                OpenStep::AllocateUmem
            } else {
                OpenStep::Failed
            },
            OpenStep::AllocateUmem => if ok {
                OpenStep::SetUpRings
            } else {
                OpenStep::Failed
            },
            OpenStep::SetUpRings => if ok {
                OpenStep::LoadRouter
            } else {
                OpenStep::Failed
            },
            OpenStep::LoadRouter => if ok {
                OpenStep::ReadMac
            } else {
                OpenStep::Failed
            },
            OpenStep::ReadMac => if ok {
                OpenStep::RegisterSocket
            } else {
                OpenStep::Failed
            },
            OpenStep::RegisterSocket => if ok {
                OpenStep::BindPort
            } else {
                OpenStep::Failed
            },
            OpenStep::BindPort => if ok {
                OpenStep::Open
            } else {
                OpenStep::UnregisterSocket
            },
            OpenStep::UnregisterSocket => OpenStep::Failed,
            OpenStep::Failed => OpenStep::Failed,
            OpenStep::Open => OpenStep::Open,
        }
    }

    /// The step after this one.
    pub fn next(self, ok: bool) -> (step: OpenStep)
        ensures
            step == self.spec_next(ok),
    {
        match (self, ok) {
            (OpenStep::LoadProgram, true) => OpenStep::AllocateUmem,
            (OpenStep::AllocateUmem, true) => OpenStep::SetUpRings,
            (OpenStep::SetUpRings, true) => OpenStep::LoadRouter,
            (OpenStep::LoadRouter, true) => OpenStep::ReadMac,
            (OpenStep::ReadMac, true) => OpenStep::RegisterSocket,
            (OpenStep::RegisterSocket, true) => OpenStep::BindPort,
            (OpenStep::BindPort, true) => OpenStep::Open,
            (OpenStep::BindPort, false) => OpenStep::UnregisterSocket,
            (OpenStep::Open, _) => OpenStep::Open,
            _ => OpenStep::Failed,
        }
    }
}

/// Whether the maps hold an entry of the socket before a step.
pub open spec fn socket_registered(step: OpenStep) -> bool {
    step is BindPort || step is UnregisterSocket || step is Open
}

/// Nothing is left in the maps when opening fails: the only steps that fail are those before the
/// socket is registered and the one that takes it out again. A port is bound only for a socket
/// that is registered.
pub proof fn law_failed_open_leaves_no_entry(step: OpenStep, ok: bool)
    ensures
        step.spec_next(ok) is Failed && !(step is Failed) ==> !socket_registered(step)
            || step is UnregisterSocket,
        step is RegisterSocket && ok <==> !socket_registered(step) && socket_registered(
            step.spec_next(ok),
        ),
        step.spec_next(ok) is Open && !(step is Open) ==> step is BindPort && socket_registered(
            step,
        ),
{
}

/// The offsets of frames `from` to `to`.
pub open spec fn frame_offsets(frame_size: u32, from: int, to: int) -> Seq<u64> {
    Seq::new((to - from) as nat, |i: int| ((from + i) * frame_size) as u64)
}

/// The UMEM's frames split 50/50: FILL pre-fill and TX free list.
pub fn split_frames(umem: &Umem) -> (frames: (Vec<u64>, Vec<u64>))
    ensures
        ({
            let half = umem.spec_frame_count() / 2;
            &&& frames.0@ == frame_offsets(umem.spec_frame_size(), 0, half as int)
            &&& frames.1@ == frame_offsets(
                umem.spec_frame_size(),
                half as int,
                umem.spec_frame_count() as int,
            )
        }),
{
    let count: u32 = umem.frame_count();
    let half: u32 = count / 2;
    let rx: Vec<u64> = offsets_of(umem, 0, half);
    let tx: Vec<u64> = offsets_of(umem, half, count);
    (rx, tx)
}

fn offsets_of(umem: &Umem, from: u32, to: u32) -> (offsets: Vec<u64>)
    requires
        from <= to <= umem.spec_frame_count(),
    ensures
        offsets@ == frame_offsets(umem.spec_frame_size(), from as int, to as int),
{
    let mut offsets: Vec<u64> = Vec::new();
    let mut i: u32 = from;
    while i < to
        invariant
            from <= i <= to <= umem.spec_frame_count(),
            offsets@ == frame_offsets(umem.spec_frame_size(), from as int, i as int),
        decreases to - i,
    {
        offsets.push(umem.frame_offset(i));
        i += 1;
        assert(offsets@ =~= frame_offsets(umem.spec_frame_size(), from as int, i as int));
    }
    offsets
}

/// The two halves of the split share no frame.
pub proof fn law_split_disjoint(frame_size: u32, half: int, count: int, i: int, j: int)
    requires
        0 < frame_size,
        0 <= i < half <= count <= u32::MAX,
        0 <= j < count - half,
    ensures
        frame_offsets(frame_size, 0, half)[i] + frame_size <= frame_offsets(
            frame_size,
            half,
            count,
        )[j],
{
    let a = i;
    let b = half + j;
    vstd::arithmetic::mul::lemma_mul_inequality(a + 1, b, frame_size as int);
    vstd::arithmetic::mul::lemma_mul_is_distributive_add_other_way(frame_size as int, a, 1);
    vstd::arithmetic::mul::lemma_mul_nonnegative(a, frame_size as int);
    vstd::arithmetic::mul::lemma_mul_upper_bound(
        b,
        u32::MAX as int,
        frame_size as int,
        u32::MAX as int,
    );
}

/// Where the router sends a packet: the neighbour's MAC, once it is known, and the source
/// address that the route prefers.
#[derive(Debug, Clone, Copy, PartialEq, Eq)]
pub struct NextHop {
    pub mac_addr: Option<[u8; 6]>,
    pub preferred_src_ip: Option<Ipv4Addr>,
}

/// A packet for the TX ring.
pub type XdpTransmit = Transmit<ScatterGather<XdpTxBuf>>;

/// A packet that goes to the TX ring: its frame, and what its headers say.
#[derive(Debug, Clone, Copy)]
pub struct PlannedSend {
    pub frame_addr: u64,
    pub payload_len: usize,
    pub src: Ipv4Addr,
    pub dst: Ipv4Addr,
    pub dst_port: u16,
    pub dst_mac: [u8; 6],
}

/// The source address: that of the caller, else that of the socket, else that of the route,
/// else none. `None` where the caller asks for an IPv6 address.
pub open spec fn source_of(
    src_ip: Option<IpAddr>,
    bound_v4: Option<Ipv4Addr>,
    preferred: Option<Ipv4Addr>,
) -> Option<Ipv4Addr> {
    match src_ip {
        Some(IpAddr::V4(v4)) => Some(v4),
        Some(IpAddr::V6(v6)) => None,
        None => match bound_v4 {
            Some(v4) => Some(v4),
            None => match preferred {
                Some(v4) => Some(v4),
                None => Some(Ipv4Addr { bits: 0 }),
            },
        },
    }
}

/// How a packet is sent. Nothing is sent of a packet with an IPv6 destination or source, of an
/// empty packet, of one whose payload does not start its buffer, and of one to a destination
/// without a route or a known neighbour.
pub open spec fn planned_send(
    bound_v4: Option<Ipv4Addr>,
    transmit: XdpTransmit,
    hop: Option<NextHop>,
) -> Option<PlannedSend> {
    match (
        transmit.destination.ip,
        hop,
        source_of(
            transmit.src_ip,
            bound_v4,
            match hop {
                Some(h) => h.preferred_src_ip,
                None => None,
            },
        ),
    ) {
        (IpAddr::V4(dst), Some(h), Some(src)) => match h.mac_addr {
            Some(dst_mac) => if transmit.contents@.len() > 0 && transmit.contents@[0].offset == 0 {
                Some(
                    PlannedSend {
                        frame_addr: transmit.contents@[0].buf.frame_addr,
                        payload_len: transmit.contents@[0].len,
                        src,
                        dst,
                        dst_port: transmit.destination.port,
                        dst_mac,
                    },
                )
            } else {
                None
            },
            None => None,
        },
        _ => None,
    }
}

/// What goes to the TX ring of the first `n` packets.
pub open spec fn planned_sends(
    bound_v4: Option<Ipv4Addr>,
    transmits: Seq<XdpTransmit>,
    hops: Seq<Option<NextHop>>,
    n: int,
) -> Seq<PlannedSend>
    decreases n,
{
    if n <= 0 {
        Seq::empty()
    } else {
        let before = planned_sends(bound_v4, transmits, hops, n - 1);
        match planned_send(bound_v4, transmits[n - 1], hops[n - 1]) {
            Some(plan) => before.push(plan),
            None => before,
        }
    }
}

/// Whether a packet is consumed: it is sent, or its destination is an IPv6 address, which nothing
/// can be sent to.
pub open spec fn is_consumed(
    bound_v4: Option<Ipv4Addr>,
    transmit: XdpTransmit,
    hop: Option<NextHop>,
) -> bool {
    planned_send(bound_v4, transmit, hop) is Some || transmit.destination.ip is V6
}

/// The places of those of the first `n` packets that are consumed, or of those that are not.
pub open spec fn places(
    bound_v4: Option<Ipv4Addr>,
    transmits: Seq<XdpTransmit>,
    hops: Seq<Option<NextHop>>,
    n: int,
    consumed: bool,
) -> Seq<int>
    decreases n,
{
    if n <= 0 {
        Seq::empty()
    } else {
        let before = places(bound_v4, transmits, hops, n - 1, consumed);
        if is_consumed(bound_v4, transmits[n - 1], hops[n - 1]) == consumed {
            before.push(n - 1)
        } else {
            before
        }
    }
}

/// The packets at some places.
pub open spec fn packets_at(transmits: Seq<XdpTransmit>, places: Seq<int>) -> Seq<XdpTransmit> {
    Seq::new(places.len(), |k: int| transmits[places[k]])
}

/// The packets that are left of a batch of which the first `n` were offered to the TX ring: those
/// that were not consumed, and those that were not offered.
pub open spec fn left_over(
    bound_v4: Option<Ipv4Addr>,
    transmits: Seq<XdpTransmit>,
    hops: Seq<Option<NextHop>>,
    n: int,
) -> Seq<XdpTransmit> {
    packets_at(transmits, places(bound_v4, transmits, hops, n, false)) + transmits.skip(n)
}

/// What stands where a consumed packet was: an empty packet where it was sent, else the packet.
pub open spec fn stands_for(
    bound_v4: Option<Ipv4Addr>,
    transmit: XdpTransmit,
    hop: Option<NextHop>,
    entry: XdpTransmit,
) -> bool {
    if planned_send(bound_v4, transmit, hop) is Some {
        is_sentinel(entry)
    } else {
        entry == transmit
    }
}

/// Whether a batch is arranged as far as its first `n` packets go: what stands for the consumed
/// ones, the others in their order, and the rest of the batch.
pub open spec fn arranged(
    bound_v4: Option<Ipv4Addr>,
    transmits: Seq<XdpTransmit>,
    hops: Seq<Option<NextHop>>,
    n: int,
    entries: Seq<XdpTransmit>,
) -> bool {
    let gone = places(bound_v4, transmits, hops, n, true);
    let kept = places(bound_v4, transmits, hops, n, false);
    &&& entries.len() == transmits.len()
    &&& gone.len() + kept.len() == n
    &&& forall|k: int|
        0 <= k < gone.len() ==> stands_for(
            bound_v4,
            transmits[gone[k]],
            hops[gone[k]],
            #[trigger] entries[k],
        )
    &&& forall|k: int|
        gone.len() <= k < n ==> #[trigger] entries[k] == transmits[kept[k - gone.len()]]
    &&& forall|k: int| n <= k < transmits.len() ==> #[trigger] entries[k] == transmits[k]
}

/// A consumed packet is moved in front of those that are not, and another one stays.
proof fn lemma_arranged_next(
    bound_v4: Option<Ipv4Addr>,
    transmits: Seq<XdpTransmit>,
    hops: Seq<Option<NextHop>>,
    n: int,
    before: Seq<XdpTransmit>,
    after: Seq<XdpTransmit>,
)
    requires
        0 <= n < transmits.len(),
        arranged(bound_v4, transmits, hops, n, before),
        ({
            let gone = places(bound_v4, transmits, hops, n, true);
            if is_consumed(bound_v4, transmits[n], hops[n]) {
                let entry = after[gone.len() as int];
                &&& after == before.remove(n).insert(gone.len() as int, entry)
                &&& stands_for(bound_v4, transmits[n], hops[n], entry)
            } else {
                after == before
            }
        }),
    ensures
        arranged(bound_v4, transmits, hops, n + 1, after),
{
    let gone = places(bound_v4, transmits, hops, n, true);
    let kept = places(bound_v4, transmits, hops, n, false);
    let gone1 = places(bound_v4, transmits, hops, n + 1, true);
    let kept1 = places(bound_v4, transmits, hops, n + 1, false);
    let g = gone.len() as int;
    if is_consumed(bound_v4, transmits[n], hops[n]) {
        assert(gone1 == gone.push(n));
        assert(kept1 == kept);
        assert forall|k: int| 0 <= k < gone1.len() implies stands_for(
            bound_v4,
            transmits[gone1[k]],
            hops[gone1[k]],
            #[trigger] after[k],
        ) by {
            if k < g {
                assert(after[k] == before[k]);
            }
        }
        assert forall|k: int| gone1.len() <= k < n + 1 implies #[trigger] after[k]
            == transmits[kept1[k - gone1.len()]] by {
            assert(after[k] == before[k - 1]);
        }
        assert forall|k: int| n + 1 <= k < transmits.len() implies #[trigger] after[k]
            == transmits[k] by {
            assert(after[k] == before[k]);
        }
    } else {
        assert(gone1 == gone);
        assert(kept1 == kept.push(n));
    }
}

/// Discarding the consumed packets takes out exactly those that were sent or go to an IPv6
/// address, and leaves the others in their order: none of the consumed ones is offered again,
/// and none of the others is discarded.
pub proof fn law_consumed_batch_is_discarded(
    bound_v4: Option<Ipv4Addr>,
    transmits: Seq<XdpTransmit>,
    hops: Seq<Option<NextHop>>,
    n: int,
)
    requires
        0 <= n <= transmits.len(),
    ensures
        ({
            let gone = places(bound_v4, transmits, hops, n, true);
            let kept = places(bound_v4, transmits, hops, n, false);
            &&& gone.len() + kept.len() == n
            &&& left_over(bound_v4, transmits, hops, n).len() == transmits.len() - gone.len()
            &&& forall|j: int|
                0 <= j < n ==> (#[trigger] gone.contains(j) <==> is_consumed(
                    bound_v4,
                    transmits[j],
                    hops[j],
                ))
            &&& forall|j: int| 0 <= j < n ==> (#[trigger] kept.contains(j) <==> !gone.contains(j))
            &&& forall|k: int| 0 <= k < gone.len() ==> 0 <= #[trigger] gone[k] < n
            &&& forall|k: int| 0 <= k < kept.len() ==> 0 <= #[trigger] kept[k] < n
            &&& forall|k: int, l: int| 0 <= k < l < gone.len() ==> gone[k] < gone[l]
            &&& forall|k: int, l: int| 0 <= k < l < kept.len() ==> kept[k] < kept[l]
        }),
    decreases n,
{
    let gone = places(bound_v4, transmits, hops, n, true);
    let kept = places(bound_v4, transmits, hops, n, false);
    if n > 0 {
        law_consumed_batch_is_discarded(bound_v4, transmits, hops, n - 1);
        let gone0 = places(bound_v4, transmits, hops, n - 1, true);
        let kept0 = places(bound_v4, transmits, hops, n - 1, false);
        assert forall|j: int| 0 <= j < n implies (#[trigger] gone.contains(j) <==> is_consumed(
            bound_v4,
            transmits[j],
            hops[j],
        )) && (kept.contains(j) <==> !gone.contains(j)) by {
            if j < n - 1 {
                lemma_contains_before(gone0, gone, n - 1, j);
                lemma_contains_before(kept0, kept, n - 1, j);
                assert(gone0.contains(j) <==> is_consumed(bound_v4, transmits[j], hops[j]));
                assert(kept0.contains(j) <==> !gone0.contains(j));
            } else if is_consumed(bound_v4, transmits[j], hops[j]) {
                assert(gone[gone.len() - 1] == j);
            } else {
                assert(kept[kept.len() - 1] == j);
            }
        }
    }
}

/// Pushing one number onto numbers changes nothing for another one.
proof fn lemma_contains_before(before: Seq<int>, after: Seq<int>, last: int, j: int)
    requires
        after == before || after == before.push(last),
        j != last,
    ensures
        after.contains(j) <==> before.contains(j),
{
    if before.contains(j) {
        let k = choose|k: int| 0 <= k < before.len() && before[k] == j;
        assert(after[k] == j);
    }
    if after.contains(j) {
        let k = choose|k: int| 0 <= k < after.len() && after[k] == j;
        assert(before[k] == j);
    }
}

/// The frames that packets hold.
pub open spec fn held_frames(transmits: Seq<XdpTransmit>) -> Multiset<u64>
    decreases transmits.len(),
{
    if transmits.len() == 0 {
        Multiset::empty()
    } else {
        held_frames(transmits.drop_last()).add(
            transmits.last().contents@.map_values(
                |s: Segment<XdpTxBuf>| s.buf.frame_addr,
            ).to_multiset(),
        )
    }
}

/// The frames of planned packets.
pub open spec fn planned_frames(plans: Seq<PlannedSend>) -> Multiset<u64> {
    plans.map_values(|plan: PlannedSend| plan.frame_addr).to_multiset()
}

/// Sending loses no frame and doubles none: those of the packets before are those that the
/// kernel has now, which come back when it is done with them, and those that the packets still
/// hold, among them the ones to IPv6 addresses. A packet that is sent lies in one frame.
pub proof fn law_send_loses_no_frame(
    before: XdpSocket,
    after: XdpSocket,
    transmits0: Seq<XdpTransmit>,
    transmits1: Seq<XdpTransmit>,
    hops: Seq<Option<NextHop>>,
    tx_consumer: u32,
    slots0: Seq<XdpDesc>,
    slots1: Seq<XdpDesc>,
    result: (usize, Option<u32>),
)
    requires
        before.wf(),
        sent(
            before,
            after,
            transmits0,
            transmits1,
            hops,
            tx_consumer,
            slots0,
            slots1,
            result,
        ),
        forall|i: int|
            0 <= i < transmits0.len() && planned_send(
                before.bound_v4,
                #[trigger] transmits0[i],
                hops[i],
            ) is Some ==> transmits0[i].contents@.len() == 1,
    ensures
        held_frames(transmits0) == held_frames(transmits1).add(
            planned_frames(
                planned_sends(
                    before.bound_v4,
                    transmits0,
                    hops,
                    offered(before, transmits0.len(), tx_consumer),
                ),
            ),
        ),
{
    let n = offered(before, transmits0.len(), tx_consumer);
    let gone = places(before.bound_v4, transmits0, hops, n, true);
    let kept = places(before.bound_v4, transmits0, hops, n, false);
    let entries = transmits1.take(gone.len() as int);
    let plans = planned_sends(before.bound_v4, transmits0, hops, n);
    law_consumed_batch_is_discarded(before.bound_v4, transmits0, hops, n);
    lemma_send_frames(before.bound_v4, transmits0, hops, n, entries);
    let rest = transmits0.skip(n);
    assert(transmits0 =~= transmits0.take(n) + rest);
    lemma_held_frames_add(transmits0.take(n), rest);
    assert(transmits1 =~= entries + transmits1.skip(gone.len() as int));
    lemma_held_frames_add(entries, transmits1.skip(gone.len() as int));
    lemma_held_frames_add(packets_at(transmits0, kept), rest);
    let a = held_frames(entries);
    let b = held_frames(packets_at(transmits0, kept));
    let c = planned_frames(plans);
    let d = held_frames(rest);
    assert(a.add(b).add(c).add(d) =~= a.add(b.add(d)).add(c));
}

proof fn lemma_held_frames_add(a: Seq<XdpTransmit>, b: Seq<XdpTransmit>)
    ensures
        held_frames(a + b) == held_frames(a).add(held_frames(b)),
    decreases b.len(),
{
    if b.len() == 0 {
        assert(a + b =~= a);
        assert(held_frames(a + b) =~= held_frames(a).add(held_frames(b)));
    } else {
        lemma_held_frames_add(a, b.drop_last());
        assert((a + b).drop_last() =~= a + b.drop_last());
        assert((a + b).last() == b.last());
        assert(held_frames(a + b) =~= held_frames(a).add(held_frames(b)));
    }
}

/// The frames of the first packets are those of what stands for the consumed ones, those of the
/// others, and those sent.
proof fn lemma_send_frames(
    bound_v4: Option<Ipv4Addr>,
    transmits: Seq<XdpTransmit>,
    hops: Seq<Option<NextHop>>,
    n: int,
    entries: Seq<XdpTransmit>,
)
    requires
        0 <= n <= transmits.len(),
        entries.len() == places(bound_v4, transmits, hops, n, true).len(),
        forall|k: int|
            0 <= k < entries.len() ==> stands_for(
                bound_v4,
                transmits[places(bound_v4, transmits, hops, n, true)[k]],
                hops[places(bound_v4, transmits, hops, n, true)[k]],
                #[trigger] entries[k],
            ),
        forall|i: int|
            0 <= i < transmits.len() && planned_send(
                bound_v4,
                #[trigger] transmits[i],
                hops[i],
            ) is Some ==> transmits[i].contents@.len() == 1,
    ensures
        held_frames(transmits.take(n)) == held_frames(entries).add(
            held_frames(packets_at(transmits, places(bound_v4, transmits, hops, n, false))),
        ).add(planned_frames(planned_sends(bound_v4, transmits, hops, n))),
    decreases n,
{
    broadcast use vstd::seq_lib::group_to_multiset_ensures;

    let gone = places(bound_v4, transmits, hops, n, true);
    let kept = places(bound_v4, transmits, hops, n, false);
    let plans = planned_sends(bound_v4, transmits, hops, n);
    let kept_packets = packets_at(transmits, kept);
    if n == 0 {
        assert(plans.map_values(|plan: PlannedSend| plan.frame_addr) =~= Seq::<u64>::empty());
        assert(held_frames(transmits.take(n)) =~= held_frames(entries).add(
            held_frames(kept_packets),
        ).add(planned_frames(plans)));
    } else {
        let gone0 = places(bound_v4, transmits, hops, n - 1, true);
        let kept0 = places(bound_v4, transmits, hops, n - 1, false);
        let plans0 = planned_sends(bound_v4, transmits, hops, n - 1);
        let t = transmits[n - 1];
        let consumed = is_consumed(bound_v4, t, hops[n - 1]);
        let entries0 = if consumed {
            entries.drop_last()
        } else {
            entries
        };
        assert forall|k: int| 0 <= k < entries0.len() implies stands_for(
            bound_v4,
            transmits[gone0[k]],
            hops[gone0[k]],
            #[trigger] entries0[k],
        ) by {
            assert(entries0[k] == entries[k]);
            assert(gone0[k] == gone[k]);
        }
        lemma_send_frames(bound_v4, transmits, hops, n - 1, entries0);
        assert(transmits.take(n).drop_last() =~= transmits.take(n - 1));
        assert(transmits.take(n).last() == t);
        let frames = t.contents@.map_values(|s: Segment<XdpTxBuf>| s.buf.frame_addr);
        let a = held_frames(entries0);
        let b = held_frames(packets_at(transmits, kept0));
        let c = planned_frames(plans0);
        let f = frames.to_multiset();
        assert(held_frames(transmits.take(n)) == a.add(b).add(c).add(f));
        if consumed {
            assert(kept == kept0);
            let entry = entries[entries.len() - 1];
            assert(gone[gone.len() - 1] == n - 1);
            assert(stands_for(bound_v4, t, hops[n - 1], entry));
            match planned_send(bound_v4, t, hops[n - 1]) {
                Some(plan) => {
                    assert(entry.contents@.map_values(|s: Segment<XdpTxBuf>| s.buf.frame_addr)
                        =~= Seq::<u64>::empty());
                    assert(held_frames(entries) =~= a);
                    assert(plans == plans0.push(plan));
                    assert(plans.map_values(|plan: PlannedSend| plan.frame_addr)
                        =~= plans0.map_values(|plan: PlannedSend| plan.frame_addr).push(
                        plan.frame_addr,
                    ));
                    assert(frames =~= Seq::<u64>::empty().push(plan.frame_addr));
                    assert(planned_frames(plans) =~= c.add(f));
                    assert(a.add(b).add(c).add(f) =~= a.add(b).add(c.add(f)));
                },
                None => {
                    assert(plans == plans0);
                    assert(held_frames(entries) == a.add(f));
                    assert(a.add(b).add(c).add(f) =~= a.add(f).add(b).add(c));
                },
            }
        } else {
            assert(gone == gone0);
            assert(plans == plans0);
            assert(kept_packets.drop_last() =~= packets_at(transmits, kept0));
            assert(kept_packets.last() == t);
            assert(held_frames(kept_packets) == b.add(f));
            assert(a.add(b).add(c).add(f) =~= a.add(b.add(f)).add(c));
        }
    }
}

/// How many of `len` packets are offered to the TX ring: those that it has room for.
pub open spec fn offered(socket: XdpSocket, len: nat, tx_consumer: u32) -> int {
    vstd::math::min(
        len as int,
        RingProducer { cached_consumer: tx_consumer, ..socket.raw.tx_prod }.free(),
    )
}

/// The headers of a planned packet.
pub open spec fn plan_headers(if_mac: [u8; 6], src_port: u16, plan: PlannedSend) -> Seq<u8> {
    crate::xdp::packet::headers(
        if_mac@,
        plan.dst_mac@,
        plan.src,
        src_port,
        plan.dst,
        plan.dst_port,
        plan.payload_len as u16,
    )
}

/// The descriptor of a planned packet.
pub open spec fn plan_desc(plan: PlannedSend) -> XdpDesc {
    XdpDesc { addr: plan.frame_addr, len: (HEADROOM + plan.payload_len) as u32, options: 0 }
}

/// The descriptors of planned packets.
pub open spec fn plan_descs(plans: Seq<PlannedSend>) -> Seq<XdpDesc> {
    Seq::new(plans.len(), |i: int| plan_desc(plans[i]))
}

/// The memory with the headers of planned packets written at the start of their frames.
pub open spec fn memory_after(
    memory: Seq<u8>,
    if_mac: [u8; 6],
    src_port: u16,
    plans: Seq<PlannedSend>,
) -> Seq<u8>
    decreases plans.len(),
{
    if plans.len() == 0 {
        memory
    } else {
        crate::xdp::umem::overwritten(
            memory_after(memory, if_mac, src_port, plans.drop_last()),
            plans.last().frame_addr as int,
            plan_headers(if_mac, src_port, plans.last()),
        )
    }
}

/// Whether a planned packet fits its frame and the frame lies in the memory.
pub open spec fn plan_fits(umem: Umem, plan: PlannedSend) -> bool {
    &&& HEADROOM + plan.payload_len <= umem.spec_frame_size()
    &&& IP_HEADER_SIZE + UDP_HEADER_SIZE + plan.payload_len <= 0xffff
    &&& plan.frame_addr + umem.spec_frame_size() <= umem@.len()
}

/// The empty packet that stands where a packet was.
pub open spec fn is_sentinel(transmit: XdpTransmit) -> bool {
    &&& transmit.destination == (SocketAddr { ip: IpAddr::V4(Ipv4Addr { bits: 0 }), port: 0 })
    &&& transmit.ecn is None
    &&& transmit.segment_size is None
    &&& transmit.src_ip is None
    &&& transmit.contents.wf()
    &&& transmit.contents@ == Seq::<Segment<XdpTxBuf>>::empty()
}

/// Empty packet that takes the place of one whose frame has been handed to the TX ring.
pub fn sentinel_transmit() -> (transmit: XdpTransmit)
    ensures
        is_sentinel(transmit),
{
    Transmit::new(
        ScatterGather::new(),
        SocketAddr { ip: IpAddr::V4(Ipv4Addr { bits: 0 }), port: 0 },
    )
}

/// The address that a socket bound to `ip` sends from.
pub open spec fn bound_v4_of(ip: IpAddr) -> Option<Ipv4Addr> {
    match ip {
        IpAddr::V4(v4) => if v4.bits == 0 {
            None
        } else {
            Some(v4)
        },
        IpAddr::V6(v6) => None,
    }
}

/// What a batch of received packets asks of the caller: the number of packets, and the indices
/// of FILL and RX to publish.
#[derive(Debug, Clone, Copy, PartialEq, Eq, Structural)]
pub struct RecvResult {
    pub received: usize,
    pub publish_fill: Option<u32>,
    pub publish_rx: Option<u32>,
}

/// The bytes that a descriptor names.
pub open spec fn desc_frame(memory: Seq<u8>, desc: XdpDesc) -> Seq<u8> {
    memory.subrange(desc.addr as int, desc.addr + desc.len)
}

/// The descriptors that hold a packet.
pub open spec fn packet_descs(memory: Seq<u8>, descs: Seq<XdpDesc>) -> Seq<XdpDesc>
    decreases descs.len(),
{
    if descs.len() == 0 {
        Seq::empty()
    } else if crate::xdp::packet::is_udp_frame(desc_frame(memory, descs.last())) {
        packet_descs(memory, descs.drop_last()).push(descs.last())
    } else {
        packet_descs(memory, descs.drop_last())
    }
}

/// The frames that receiving gives up: those without a packet, and those of the buffers that
/// packets replace.
pub open spec fn frames_given_up(
    memory: Seq<u8>,
    descs: Seq<XdpDesc>,
    bufs: Seq<XdpRxBufMut>,
) -> Seq<u64>
    decreases descs.len(),
{
    if descs.len() == 0 {
        Seq::empty()
    } else {
        let before = frames_given_up(memory, descs.drop_last(), bufs);
        if crate::xdp::packet::is_udp_frame(desc_frame(memory, descs.last())) {
            match crate::xdp::buffers::held_frame(
                bufs[packet_descs(memory, descs.drop_last()).len() as int],
            ) {
                Some(addr) => before.push(addr),
                None => before,
            }
        } else {
            before.push(descs.last().addr)
        }
    }
}

/// The buffer of a received packet.
pub open spec fn received_buffer(frame_size: u32, memory: Seq<u8>, desc: XdpDesc) -> XdpRxBufMutRepr {
    let frame = desc_frame(memory, desc);
    XdpRxBufMutRepr::Ring {
        frame_addr: desc.addr,
        payload_offset: crate::xdp::packet::payload_start(frame) as u32,
        payload_len: crate::xdp::packet::payload_length(frame) as u32,
        cap: vstd::math::min(
            frame_size - HEADROOM,
            frame_size - crate::xdp::packet::payload_start(frame),
        ) as u32,
    }
}

/// AF_XDP packet socket. IPv4-only: IPv6 destinations on `send` are
/// silently consumed; non-IPv4 / non-UDP RX traffic goes to the kernel
/// stack.
pub struct XdpSocket {
    pub raw: RawXdpSocket,
    pub umem: Umem,
    pub rx_pool: XdpRxPool,
    pub tx_pool: XdpTxPool,
    pub reclaimer: Reclaimer,
    /// Cached interface MAC for the Ethernet src field.
    pub if_mac: [u8; 6],
    /// Caller-supplied source IPv4. Falls back to the route's when `None`.
    pub bound_v4: Option<Ipv4Addr>,
    pub bound_addr: SocketAddr,
    pub queue_id: u16,
}

impl XdpSocket {
    pub open spec fn wf(&self) -> bool {
        &&& self.raw.wf()
        &&& self.umem.wf()
        &&& self.umem.spec_frame_size() >= HEADROOM
        &&& self.tx_pool.wf()
        &&& self.reclaimer.wf()
    }

    /// A socket over set-up rings and their UMEM, with `tx_frames` to send from.
    pub fn new(
        raw: RawXdpSocket,
        umem: Umem,
        tx_frames: Vec<u64>,
        if_mac: [u8; 6],
        bound_addr: SocketAddr,
        queue_id: u16,
        umem_id: u64,
        owner: u64,
    ) -> (socket: XdpSocket)
        requires
            raw.wf(),
            umem.wf(),
            umem.spec_frame_size() >= HEADROOM,
            umem.spec_frame_count() > 0,
            umem.spec_frame_count() * 16 <= isize::MAX,
        ensures
            socket.wf(),
            socket.raw == raw,
            socket.umem == umem,
            socket.rx_pool.max_payload == umem.spec_frame_size() - HEADROOM,
            socket.tx_pool.shape() == (crate::xdp::buffers::PoolShape {
                max_payload: (umem.spec_frame_size() - HEADROOM) as usize,
                frame_size: umem.spec_frame_size(),
                headroom: HEADROOM,
                umem_id,
                owner,
                remote_capacity: umem.spec_frame_count() as nat,
            }),
            socket.tx_pool.local() == tx_frames@,
            socket.tx_pool.remote() == Seq::<u64>::empty(),
            socket.reclaimer.owner == owner,
            socket.reclaimer.remote.capacity() == umem.spec_frame_count(),
            socket.reclaimer.pending@ == Seq::<u64>::empty(),
            socket.reclaimer.remote@ == Seq::<u64>::empty(),
            socket.if_mac == if_mac,
            socket.bound_v4 == bound_v4_of(bound_addr.ip),
            socket.bound_addr == bound_addr,
            socket.queue_id == queue_id,
    {
        let frame_size: u32 = umem.frame_size();
        let frame_count: usize = umem.frame_count() as usize;
        let bound_v4: Option<Ipv4Addr> = match bound_addr.ip {
            IpAddr::V4(v4) => if v4.bits == 0 {
                None
            } else {
                Some(v4)
            },
            IpAddr::V6(_) => None,
        };
        XdpSocket {
            raw,
            umem,
            rx_pool: XdpRxPool::new(payload_capacity(frame_size)),
            tx_pool: XdpTxPool::new(
                umem_id,
                owner,
                frame_size,
                HEADROOM,
                payload_capacity(frame_size),
                tx_frames,
                frame_count,
            ),
            reclaimer: Reclaimer::new(owner, frame_count),
            if_mac,
            bound_v4,
            bound_addr,
            queue_id,
        }
    }

    pub fn local_addr(&self) -> (addr: SocketAddr)
        ensures
            addr == self.bound_addr,
    {
        self.bound_addr
    }

    pub fn queue_id(&self) -> (id: u16)
        ensures
            id == self.queue_id,
    {
        self.queue_id
    }

    /// Push reclaimed frame addresses back to FILL so the kernel has buffers
    /// for the next RX burst. Called at the top of every `recv`. What other threads gave back is
    /// collected only when fewer than a batch are at hand. Returns the index to publish.
    pub fn replenish_fill(&mut self, fill_consumer: u32, fill_slots: &mut [u64]) -> (publish: Option<
        u32,
    >)
        requires
            old(self).wf(),
            old(fill_slots)@.len() == old(self).raw.sizes.fill,
        ensures
            final(self).wf(),
            replenished(
                *old(self),
                *final(self),
                fill_consumer,
                old(fill_slots)@,
                final(fill_slots)@,
                publish,
            ),
    {
        if self.reclaimer.pending.len() < MAX_BATCH {
            self.reclaimer.remote.drain_into(&mut self.reclaimer.pending);
        }
        if self.reclaimer.pending.len() == 0 {
            assert(self.reclaimer.pending@.skip(0) =~= self.reclaimer.pending@);
            return None;
        }
        let ghost all = self.reclaimer.pending@;
        let (written, publish): (u32, Option<u32>) = self.raw.replenish_fill(
            fill_consumer,
            fill_slots,
            self.reclaimer.pending.as_slice(),
        );
        // Anything not written stays for the next call.
        let rest: Vec<u64> = self.reclaimer.pending.split_off(written as usize);
        self.reclaimer.pending = rest;
        assert(self.reclaimer.pending@ =~= all.skip(written as int));
        publish
    }

    /// How a packet is sent.
    pub fn plan_send(&self, transmit: &XdpTransmit, hop: &Option<NextHop>) -> (plan: Option<
        PlannedSend,
    >)
        requires
            transmit.contents.wf(),
        ensures
            plan == planned_send(self.bound_v4, *transmit, *hop),
    {
        let dst: Ipv4Addr = match transmit.destination.ip {
            IpAddr::V4(v4) => v4,
            IpAddr::V6(_) => return None,
        };
        if transmit.contents.segment_count() == 0 {
            return None;
        }
        let (buf, offset, payload_len): (&XdpTxBuf, usize, usize) = transmit.contents.segment(0);
        // AF_XDP sends contiguous frame ranges; a non-zero segment
        // offset would require an in-frame copy.
        if offset != 0 {
            return None;
        }
        let (mac_addr, preferred): (Option<[u8; 6]>, Option<Ipv4Addr>) = match hop {
            Some(h) => (h.mac_addr, h.preferred_src_ip),
            None => return None,
        };
        let dst_mac: [u8; 6] = match mac_addr {
            Some(mac) => mac,
            None => return None,
        };
        let src: Ipv4Addr = match transmit.src_ip {
            Some(IpAddr::V4(v4)) => v4,
            Some(IpAddr::V6(_)) => return None,
            None => match self.bound_v4 {
                Some(v4) => v4,
                None => match preferred {
                    Some(v4) => v4,
                    None => Ipv4Addr { bits: 0 },
                },
            },
        };
        Some(
            PlannedSend {
                frame_addr: buf.frame_addr,
                payload_len,
                src,
                dst,
                dst_port: transmit.destination.port,
                dst_mac,
            },
        )
    }

    /// Writes the headers of a packet in front of its payload.
    fn write_headers(&mut self, plan: &PlannedSend)
        requires
            old(self).wf(),
            plan_fits(old(self).umem, *plan),
        ensures
            final(self).wf(),
            final(self).umem@ == crate::xdp::umem::overwritten(
                old(self).umem@,
                plan.frame_addr as int,
                plan_headers(old(self).if_mac, old(self).bound_addr.port, *plan),
            ),
            final(self).umem@.len() == old(self).umem@.len(),
            final(self).umem.spec_frame_size() == old(self).umem.spec_frame_size(),
            final(self).umem.spec_frame_count() == old(self).umem.spec_frame_count(),
            *final(self) == (XdpSocket { umem: final(self).umem, ..*old(self) }),
    {
        let payload_len: u16 = plan.payload_len as u16;
        let mut headers: Vec<u8> = Vec::with_capacity(HEADROOM as usize);
        write_eth_header(&mut headers, &self.if_mac, &plan.dst_mac);
        write_ip_header_for_udp(
            &mut headers,
            &plan.src,
            &plan.dst,
            UDP_HEADER_SIZE as u16 + payload_len,
        );
        write_udp_header(&mut headers, self.bound_addr.port, plan.dst_port, payload_len);
        assert(headers@ =~= plan_headers(self.if_mac, self.bound_addr.port, *plan));
        self.umem.write_at(plan.frame_addr, headers.as_slice());
    }

    /// Sends the packets that the TX ring has room for: each gets its headers and a descriptor,
    /// and an empty packet stands for it. `next_hops` holds what the router says of each
    /// packet's destination, `tx_consumer` the ring's shared consumer index.
    ///
    /// Returns the number consumed, and the producer index to publish where anything was sent;
    /// the driver is to be woken then. The consumed packets are moved to the front, where the
    /// caller discards them; the others stay behind them in their order, for a later attempt. A
    /// packet to an IPv6 address is consumed without being sent: it is still there when it is
    /// discarded, so that its frame can go back to the pool.
    #[verifier::rlimit(30)]
    pub fn send(
        &mut self,
        transmits: &mut Vec<XdpTransmit>,
        next_hops: &[Option<NextHop>],
        tx_consumer: u32,
        tx_slots: &mut [XdpDesc],
    ) -> (result: (usize, Option<u32>))
        requires
            old(self).wf(),
            old(tx_slots)@.len() == old(self).raw.sizes.tx,
            next_hops@.len() == old(transmits)@.len(),
            forall|i: int|
                0 <= i < old(transmits)@.len() ==> (#[trigger] old(transmits)@[i]).contents.wf() && (
                planned_send(old(self).bound_v4, old(transmits)@[i], next_hops@[i]) matches Some(plan)
                    ==> plan_fits(old(self).umem, plan)),
        ensures
            final(self).wf(),
            sent(
                *old(self),
                *final(self),
                old(transmits)@,
                final(transmits)@,
                next_hops@,
                tx_consumer,
                old(tx_slots)@,
                final(tx_slots)@,
                result,
            ),
    {
        if transmits.len() == 0 {
            return (0, None);
        }
        let free: u32 = self.raw.tx_available(tx_consumer);
        let n: usize = if transmits.len() < free as usize {
            transmits.len()
        } else {
            free as usize
        };
        let ghost before = *self;
        let ghost all = transmits@;
        let ghost slots0 = tx_slots@;
        let ghost start = self.raw.tx_prod.cached_producer;
        let ghost bound_v4 = self.bound_v4;
        let ghost if_mac = self.if_mac;
        let ghost port = self.bound_addr.port;
        let mut count: usize = 0;
        let mut consumed: usize = 0;
        let mut i: usize = 0;
        while i < n
            invariant
                i <= n <= all.len(),
                consumed <= i,
                consumed == places(bound_v4, all, next_hops@, i as int, true).len(),
                n <= before.raw.tx_prod.free() <= before.raw.sizes.tx,
                next_hops@.len() == all.len(),
                count <= i,
                count == planned_sends(bound_v4, all, next_hops@, i as int).len(),
                self.wf(),
                before.wf(),
                bound_v4 == before.bound_v4,
                if_mac == before.if_mac,
                port == before.bound_addr.port,
                start == before.raw.tx_prod.cached_producer,
                self.umem@ == memory_after(
                    before.umem@,
                    if_mac,
                    port,
                    planned_sends(bound_v4, all, next_hops@, i as int),
                ),
                self.umem@.len() == before.umem@.len(),
                self.umem.spec_frame_size() == before.umem.spec_frame_size(),
                self.umem.spec_frame_count() == before.umem.spec_frame_count(),
                self.raw.tx_prod == (RingProducer {
                    cached_producer: start.wrapping_add(count as u32),
                    ..before.raw.tx_prod
                }),
                self.raw.tx_prod.free() == before.raw.tx_prod.free() - count,
                *self == (XdpSocket {
                    raw: RawXdpSocket { tx_prod: self.raw.tx_prod, ..before.raw },
                    umem: self.umem,
                    ..before
                }),
                slots0.len() == before.raw.sizes.tx,
                crate::xdp::ring::ring_written(
                    slots0,
                    tx_slots@,
                    start,
                    plan_descs(planned_sends(bound_v4, all, next_hops@, i as int)),
                    before.raw.sizes.tx,
                ),
                arranged(bound_v4, all, next_hops@, i as int, transmits@),
                forall|j: int|
                    0 <= j < all.len() ==> (#[trigger] all[j]).contents.wf() && (planned_send(
                        bound_v4,
                        all[j],
                        next_hops@[j],
                    ) matches Some(plan) ==> plan_fits(before.umem, plan)),
            decreases n - i,
        {
            let ghost plans = planned_sends(bound_v4, all, next_hops@, i as int);
            let ghost transmits0 = transmits@;
            assert(transmits@[i as int] == all[i as int]);
            match self.plan_send(&transmits[i], &next_hops[i]) {
                Some(plan) => {
                    let ghost more = plans.push(plan);
                    assert(planned_sends(bound_v4, all, next_hops@, i + 1) == more);
                    assert(more.drop_last() =~= plans);
                    self.write_headers(&plan);
                    let desc = XdpDesc {
                        addr: plan.frame_addr,
                        len: HEADROOM + plan.payload_len as u32,
                        options: 0,
                    };
                    proof {
                        crate::xdp::ring::lemma_ring_write_one(
                            slots0,
                            tx_slots@,
                            start,
                            plan_descs(plans),
                            before.raw.sizes.tx,
                            desc,
                        );
                        assert(plan_descs(plans).push(desc) =~= plan_descs(more));
                        lemma_slot_shift(start, count as u32, before.raw.sizes.tx);
                    }
                    let queued: bool = self.raw.enqueue_tx(tx_slots, desc);
                    assert(queued);
                    transmits.remove(i);
                    transmits.insert(consumed, sentinel_transmit());
                    count += 1;
                    consumed += 1;
                },
                None => {
                    assert(planned_sends(bound_v4, all, next_hops@, i + 1) == plans);
                    // IPv6 unsupported: silently consumed.
                    if !transmits[i].destination.is_ipv4() {
                        let transmit: XdpTransmit = transmits.remove(i);
                        transmits.insert(consumed, transmit);
                        consumed += 1;
                    }
                },
            }
            proof {
                lemma_arranged_next(
                    bound_v4,
                    all,
                    next_hops@,
                    i as int,
                    transmits0,
                    transmits@,
                );
            }
            i += 1;
        }
        assert(transmits@.skip(consumed as int) =~= left_over(
            bound_v4,
            all,
            next_hops@,
            n as int,
        ));
        let publish: Option<u32> = if count > 0 {
            Some(self.raw.commit_tx())
        } else {
            None
        };
        (consumed, publish)
    }

    /// Takes back the frames that the kernel has sent. Returns their number, and the COMPLETION
    /// consumer index to publish if it is not zero.
    pub fn drain_completions(&mut self, comp_producer: u32, comp_slots: &[u64]) -> (result: (
        usize,
        Option<u32>,
    ))
        requires
            old(self).wf(),
            comp_slots@.len() == old(self).raw.sizes.completion,
        ensures
            final(self).wf(),
            ({
                let n = vstd::math::min(
                    old(self).raw.sizes.completion as int,
                    comp_producer.wrapping_sub(old(self).raw.comp_cons.cached_consumer) as int,
                );
                let start = old(self).raw.comp_cons.cached_consumer;
                &&& result.0 == n
                &&& result.1 == (if n > 0 {
                    Some(start.wrapping_add(n as u32))
                } else {
                    None
                })
                &&& final(self).tx_pool.local() == old(self).tx_pool.local()
                    + crate::xdp::ring::ring_read(
                    comp_slots@,
                    start,
                    n as nat,
                    old(self).raw.sizes.completion,
                )
                &&& final(self).tx_pool.remote() == old(self).tx_pool.remote()
                &&& final(self).tx_pool.shape() == old(self).tx_pool.shape()
                &&& final(self).raw.comp_cons.cached_consumer == start.wrapping_add(n as u32)
                &&& final(self).raw.comp_cons.cached_producer == comp_producer
                &&& *final(self) == (XdpSocket {
                    raw: RawXdpSocket { comp_cons: final(self).raw.comp_cons, ..old(self).raw },
                    tx_pool: final(self).tx_pool,
                    ..*old(self)
                })
            }),
    {
        let mut addrs: Vec<u64> = Vec::new();
        let room: usize = self.raw.sizes.completion as usize;
        let (n, publish): (usize, Option<u32>) = self.raw.drain_completion(
            comp_producer,
            comp_slots,
            &mut addrs,
            room,
        );
        let ghost pool0 = self.tx_pool;
        let ghost before = *self;
        let mut i: usize = 0;
        assert(pool0.local() + addrs@.take(0) =~= pool0.local());
        while i < addrs.len()
            invariant
                i <= addrs@.len(),
                self.tx_pool.wf(),
                self.tx_pool.local() == pool0.local() + addrs@.take(i as int),
                self.tx_pool.remote() == pool0.remote(),
                self.tx_pool.shape() == pool0.shape(),
                *self == (XdpSocket { tx_pool: self.tx_pool, ..before }),
            decreases addrs@.len() - i,
        {
            self.tx_pool.reclaim_completed(addrs[i]);
            i += 1;
            assert(self.tx_pool.local() =~= pool0.local() + addrs@.take(i as int));
        }
        assert(addrs@.take(i as int) =~= addrs@);
        (n, publish)
    }

    /// Receives packets: replenishes FILL, takes up to as many RX descriptors as there are
    /// buffers, and puts each packet in the next buffer. Frames without a packet go back to
    /// FILL with the next call, as do those of the buffers replaced.
    pub fn recv(
        &mut self,
        fill_consumer: u32,
        fill_slots: &mut [u64],
        rx_producer: u32,
        rx_slots: &[XdpDesc],
        meta: &mut Vec<RecvMeta>,
        bufs: &mut Vec<XdpRxBufMut>,
    ) -> (result: RecvResult)
        requires
            old(self).wf(),
            old(fill_slots)@.len() == old(self).raw.sizes.fill,
            rx_slots@.len() == old(self).raw.sizes.rx,
            forall|s: int|
                0 <= s < rx_slots@.len() ==> (#[trigger] rx_slots@[s]).addr + rx_slots@[s].len
                    <= old(self).umem@.len() && rx_slots@[s].len <= old(
                    self,
                ).umem.spec_frame_size(),
        ensures
            final(self).wf(),
            old(meta)@.len() == 0 || old(bufs)@.len() == 0 ==> {
                &&& result == (RecvResult { received: 0, publish_fill: None, publish_rx: None })
                &&& *final(self) == *old(self)
                &&& final(fill_slots)@ == old(fill_slots)@
                &&& final(meta)@ == old(meta)@
                &&& final(bufs)@ == old(bufs)@
            },
            old(meta)@.len() > 0 && old(bufs)@.len() > 0 ==> ({
                let limit = vstd::math::min(old(meta)@.len() as int, old(bufs)@.len() as int);
                let start = old(self).raw.rx_cons.cached_consumer;
                let n = vstd::math::min(limit, rx_producer.wrapping_sub(start) as int);
                let descs = crate::xdp::ring::ring_read(
                    rx_slots@,
                    start,
                    n as nat,
                    old(self).raw.sizes.rx,
                );
                received(
                    *old(self),
                    *final(self),
                    fill_consumer,
                    old(fill_slots)@,
                    final(fill_slots)@,
                    rx_producer,
                    descs,
                    old(bufs)@,
                    result,
                ) && batch_filled(
                    *old(self),
                    descs,
                    old(meta)@,
                    final(meta)@,
                    old(bufs)@,
                    final(bufs)@,
                )
            }),
    {
        let limit: usize = if meta.len() < bufs.len() {
            meta.len()
        } else {
            bufs.len()
        };
        if limit == 0 {
            return RecvResult { received: 0, publish_fill: None, publish_rx: None };
        }
        let ghost before = *self;
        let publish_fill: Option<u32> = self.replenish_fill(fill_consumer, fill_slots);
        let ghost refilled = *self;
        let mut descs: Vec<XdpDesc> = Vec::new();
        let (_, publish_rx): (usize, Option<u32>) = self.raw.drain_rx(
            rx_producer,
            rx_slots,
            &mut descs,
            limit,
        );
        let ghost drained = *self;
        proof {
            assert forall|j: int| 0 <= j < descs@.len() implies (#[trigger] descs@[j]).addr
                + descs@[j].len <= before.umem@.len() && descs@[j].len
                <= before.umem.spec_frame_size() by {
                crate::xdp::ring::lemma_slot_bound(
                    before.raw.rx_cons.cached_consumer,
                    j,
                    before.raw.sizes.rx,
                );
                let s = crate::xdp::ring::ring_slot(
                    before.raw.rx_cons.cached_consumer,
                    j,
                    before.raw.sizes.rx,
                );
                assert(descs@[j] == rx_slots@[s]);
            }
        }
        let frame_size: u32 = self.umem.frame_size();
        let ghost memory = self.umem@;
        let ghost meta0 = meta@;
        let ghost bufs0 = bufs@;
        let mut written: usize = 0;
        let mut i: usize = 0;
        assert(refilled.reclaimer.pending@ + frames_given_up(memory, descs@.take(0), bufs0)
            =~= refilled.reclaimer.pending@);
        while i < descs.len()
            invariant
                i <= descs@.len() <= limit,
                limit <= meta0.len(),
                limit <= bufs0.len(),
                self.wf(),
                memory == self.umem@,
                frame_size == self.umem.spec_frame_size(),
                frame_size >= HEADROOM,
                forall|j: int|
                    0 <= j < descs@.len() ==> (#[trigger] descs@[j]).addr + descs@[j].len
                        <= memory.len() && descs@[j].len <= frame_size,
                written == packet_descs(memory, descs@.take(i as int)).len(),
                written <= i,
                meta@.len() == meta0.len(),
                bufs@.len() == bufs0.len(),
                forall|j: int|
                    0 <= j < written ==> #[trigger] meta@[j] == crate::xdp::packet::frame_meta(
                        desc_frame(memory, packet_descs(memory, descs@.take(i as int))[j]),
                    ),
                forall|j: int|
                    0 <= j < written ==> (#[trigger] bufs@[j]).repr == received_buffer(
                        frame_size,
                        memory,
                        packet_descs(memory, descs@.take(i as int))[j],
                    ),
                forall|j: int| written <= j < meta0.len() ==> #[trigger] meta@[j] == meta0[j],
                forall|j: int| written <= j < bufs0.len() ==> #[trigger] bufs@[j] == bufs0[j],
                self.reclaimer.pending@ == refilled.reclaimer.pending@ + frames_given_up(
                    memory,
                    descs@.take(i as int),
                    bufs0,
                ),
                *self == (XdpSocket {
                    reclaimer: Reclaimer {
                        pending: self.reclaimer.pending,
                        ..drained.reclaimer
                    },
                    ..drained
                }),
            decreases descs@.len() - i,
        {
            let ghost seen = descs@.take(i as int);
            let ghost more = descs@.take(i + 1);
            let ghost pending0 = self.reclaimer.pending@;
            assert(more.drop_last() =~= seen);
            assert(more.last() == descs@[i as int]);
            let desc = descs[i];
            let frame: &[u8] = self.umem.slice_at(desc.addr, desc.len as usize);
            assert(frame@ =~= desc_frame(memory, desc));
            match parse_ipv4_udp(frame) {
                None => {
                    // Bad packet: drop the frame back to FILL.
                    self.reclaimer.pending.push(desc.addr);
                    assert(self.reclaimer.pending@ =~= refilled.reclaimer.pending@
                        + frames_given_up(memory, more, bufs0));
                },
                Some((parsed, payload_offset, payload_len)) => {
                    let room: u32 = frame_size - payload_offset;
                    let cap: u32 = if frame_size - HEADROOM < room {
                        frame_size - HEADROOM
                    } else {
                        room
                    };
                    match bufs[written].frame_addr() {
                        Some(addr) => {
                            self.reclaimer.pending.push(addr);
                        },
                        None => {},
                    }
                    assert(self.reclaimer.pending@ =~= refilled.reclaimer.pending@
                        + frames_given_up(memory, more, bufs0));
                    bufs.set(
                        written,
                        XdpRxBufMut::from_ring_frame(desc.addr, payload_offset, payload_len, cap),
                    );
                    meta.set(written, parsed);
                    written += 1;
                },
            }
            i += 1;
        }
        assert(descs@.take(i as int) =~= descs@);
        assert(descs@ =~= crate::xdp::ring::ring_read(
            rx_slots@,
            before.raw.rx_cons.cached_consumer,
            descs@.len(),
            before.raw.sizes.rx,
        ));
        RecvResult { received: written, publish_fill, publish_rx }
    }
}

/// The slot after `count` more descriptors is the slot of descriptor `count`.
proof fn lemma_slot_shift(start: u32, count: u32, size: u32)
    ensures
        crate::xdp::ring::ring_slot(start.wrapping_add(count), 0, size)
            == crate::xdp::ring::ring_slot(start, count as int, size),
{
}

/// How replenishing changes the socket and the FILL ring.
pub open spec fn replenished(
    before: XdpSocket,
    after: XdpSocket,
    fill_consumer: u32,
    slots0: Seq<u64>,
    slots1: Seq<u64>,
    publish: Option<u32>,
) -> bool {
    let collect = before.reclaimer.pending@.len() < MAX_BATCH;
    let all = if collect {
        before.reclaimer.pending@ + before.reclaimer.remote@
    } else {
        before.reclaimer.pending@
    };
    let synced = before.raw.fill_synced(fill_consumer);
    let count = if all.len() == 0 {
        0
    } else {
        vstd::math::min(all.len() as int, synced.free())
    };
    &&& after.reclaimer.owner == before.reclaimer.owner
    &&& after.reclaimer.remote.capacity() == before.reclaimer.remote.capacity()
    &&& after.reclaimer.remote@ == (if collect {
        Seq::<u64>::empty()
    } else {
        before.reclaimer.remote@
    })
    &&& after.reclaimer.pending@ == all.skip(count)
    &&& after == (XdpSocket {
        raw: RawXdpSocket { fill_prod: after.raw.fill_prod, ..before.raw },
        reclaimer: after.reclaimer,
        ..before
    })
    &&& all.len() == 0 ==> after.raw == before.raw && slots1 == slots0 && publish is None
    &&& all.len() > 0 ==> crate::xdp::raw_socket::filled(
        synced,
        after.raw.fill_prod,
        slots0,
        slots1,
        all,
        count,
        publish,
    )
}

/// How sending changes the socket, the packets and the TX ring.
pub open spec fn sent(
    before: XdpSocket,
    after: XdpSocket,
    transmits0: Seq<XdpTransmit>,
    transmits1: Seq<XdpTransmit>,
    hops: Seq<Option<NextHop>>,
    tx_consumer: u32,
    slots0: Seq<XdpDesc>,
    slots1: Seq<XdpDesc>,
    result: (usize, Option<u32>),
) -> bool {
    let synced = RingProducer { cached_consumer: tx_consumer, ..before.raw.tx_prod };
    let n = offered(before, transmits0.len(), tx_consumer);
    let gone = places(before.bound_v4, transmits0, hops, n, true);
    let plans = planned_sends(before.bound_v4, transmits0, hops, n);
    let start = before.raw.tx_prod.cached_producer;
    &&& result.0 == gone.len()
    &&& result.1 == (if plans.len() > 0 {
        Some(start.wrapping_add(plans.len() as u32))
    } else {
        None
    })
    &&& transmits1.len() == transmits0.len()
    &&& forall|k: int|
        0 <= k < gone.len() ==> stands_for(
            before.bound_v4,
            transmits0[gone[k]],
            hops[gone[k]],
            #[trigger] transmits1[k],
        )
    &&& transmits1.skip(gone.len() as int) == left_over(before.bound_v4, transmits0, hops, n)
    &&& crate::xdp::ring::ring_written(
        slots0,
        slots1,
        start,
        plan_descs(plans),
        before.raw.sizes.tx,
    )
    &&& after.umem@ == memory_after(before.umem@, before.if_mac, before.bound_addr.port, plans)
    &&& after.umem.spec_frame_size() == before.umem.spec_frame_size()
    &&& after.umem.spec_frame_count() == before.umem.spec_frame_count()
    &&& transmits0.len() > 0 ==> after.raw.tx_prod == (RingProducer {
        cached_producer: start.wrapping_add(plans.len() as u32),
        ..synced
    })
    &&& transmits0.len() == 0 ==> after.raw == before.raw
    &&& after == (XdpSocket {
        raw: RawXdpSocket { tx_prod: after.raw.tx_prod, ..before.raw },
        umem: after.umem,
        ..before
    })
}

/// How receiving changes the socket and the FILL ring.
pub open spec fn received(
    before: XdpSocket,
    after: XdpSocket,
    fill_consumer: u32,
    fill_slots0: Seq<u64>,
    fill_slots1: Seq<u64>,
    rx_producer: u32,
    descs: Seq<XdpDesc>,
    bufs0: Seq<XdpRxBufMut>,
    result: RecvResult,
) -> bool {
    let start = before.raw.rx_cons.cached_consumer;
    &&& result.received == packet_descs(before.umem@, descs).len()
    &&& result.publish_rx == (if descs.len() > 0 {
        Some(start.wrapping_add(descs.len() as u32))
    } else {
        None
    })
    &&& exists|refilled: XdpSocket|
        {
            &&& #[trigger] replenished(
                before,
                refilled,
                fill_consumer,
                fill_slots0,
                fill_slots1,
                result.publish_fill,
            )
            &&& after.reclaimer.pending@ == refilled.reclaimer.pending@ + frames_given_up(
                before.umem@,
                descs,
                bufs0,
            )
            &&& after.reclaimer.remote@ == refilled.reclaimer.remote@
            &&& after.reclaimer.owner == refilled.reclaimer.owner
            &&& after.reclaimer.remote.capacity() == refilled.reclaimer.remote.capacity()
            &&& after.raw.rx_cons.cached_consumer == start.wrapping_add(descs.len() as u32)
            &&& after.raw.rx_cons.cached_producer == rx_producer
            &&& after == (XdpSocket {
                raw: RawXdpSocket { rx_cons: after.raw.rx_cons, ..refilled.raw },
                reclaimer: after.reclaimer,
                ..refilled
            })
        }
}

/// The packets of a batch, in order, in the first buffers; the others are as before.
pub open spec fn batch_filled(
    socket: XdpSocket,
    descs: Seq<XdpDesc>,
    meta0: Seq<RecvMeta>,
    meta1: Seq<RecvMeta>,
    bufs0: Seq<XdpRxBufMut>,
    bufs1: Seq<XdpRxBufMut>,
) -> bool {
    let packets = packet_descs(socket.umem@, descs);
    &&& meta1.len() == meta0.len()
    &&& bufs1.len() == bufs0.len()
    &&& forall|j: int|
        0 <= j < meta0.len() ==> #[trigger] meta1[j] == if j < packets.len() {
            crate::xdp::packet::frame_meta(desc_frame(socket.umem@, packets[j]))
        } else {
            meta0[j]
        }
    &&& forall|j: int|
        0 <= j < bufs0.len() ==> if j < packets.len() {
            (#[trigger] bufs1[j]).repr == received_buffer(
                socket.umem.spec_frame_size(),
                socket.umem@,
                packets[j],
            )
        } else {
            bufs1[j] == bufs0[j]
        }
}

/// The bytes of a planned packet's frame.
pub open spec fn plan_frame(memory: Seq<u8>, plan: PlannedSend) -> Seq<u8> {
    memory.subrange(plan.frame_addr as int, plan.frame_addr + HEADROOM + plan.payload_len)
}

/// Whether a planned packet's frame lies in the memory and fits the length fields.
pub open spec fn plan_in_memory(memory: Seq<u8>, plan: PlannedSend) -> bool {
    &&& plan.frame_addr + HEADROOM + plan.payload_len <= memory.len()
    &&& IP_HEADER_SIZE + UDP_HEADER_SIZE + plan.payload_len <= 0xffff
}

/// Whether writing the headers of one packet leaves the frame of another alone.
pub open spec fn frames_apart(written: PlannedSend, other: PlannedSend) -> bool {
    ||| written.frame_addr + HEADROOM <= other.frame_addr
    ||| other.frame_addr + HEADROOM + other.payload_len <= written.frame_addr
}

/// What is sent reads back: where the frames of a batch do not overlap, each frame holds after
/// the send a packet from the socket's address and port to the destination, with the payload
/// that the frame held before.
pub proof fn law_sent_frames_read_back(
    memory: Seq<u8>,
    if_mac: [u8; 6],
    src_port: u16,
    plans: Seq<PlannedSend>,
    j: int,
)
    requires
        0 <= j < plans.len(),
        forall|i: int| 0 <= i < plans.len() ==> #[trigger] plan_in_memory(memory, plans[i]),
        forall|i: int|
            0 <= i < plans.len() && i != j ==> #[trigger] frames_apart(plans[i], plans[j]),
    ensures
        ({
            let plan = plans[j];
            let frame = plan_frame(memory_after(memory, if_mac, src_port, plans), plan);
            let meta = crate::xdp::packet::frame_meta(frame);
            &&& crate::xdp::packet::is_udp_frame(frame)
            &&& meta.src == (SocketAddr { ip: IpAddr::V4(plan.src), port: src_port })
            &&& meta.dst_ip == Some(IpAddr::V4(plan.dst))
            &&& meta.len == plan.payload_len
            &&& frame.skip(HEADROOM as int) == plan_frame(memory, plan).skip(HEADROOM as int)
        }),
{
    assert(plan_in_memory(memory, plans[j]));
    lemma_frame_after(memory, if_mac, src_port, plans, j);
    lemma_plan_reads_back(
        if_mac,
        src_port,
        plans[j],
        plan_frame(memory, plans[j]).skip(HEADROOM as int),
    );
}

/// The headers of a planned packet, and a payload behind them, read back.
proof fn lemma_plan_reads_back(
    if_mac: [u8; 6],
    src_port: u16,
    plan: PlannedSend,
    payload: Seq<u8>,
)
    requires
        payload.len() == plan.payload_len,
        IP_HEADER_SIZE + UDP_HEADER_SIZE + plan.payload_len <= 0xffff,
    ensures
        ({
            let frame = plan_headers(if_mac, src_port, plan) + payload;
            let meta = crate::xdp::packet::frame_meta(frame);
            &&& crate::xdp::packet::is_udp_frame(frame)
            &&& meta.src == (SocketAddr { ip: IpAddr::V4(plan.src), port: src_port })
            &&& meta.dst_ip == Some(IpAddr::V4(plan.dst))
            &&& meta.len == plan.payload_len
            &&& frame.skip(HEADROOM as int) == payload
        }),
{
    crate::xdp::packet::law_headers_read_back(
        if_mac@,
        plan.dst_mac@,
        plan.src,
        src_port,
        plan.dst,
        plan.dst_port,
        payload,
    );
    lemma_headers_len(if_mac, src_port, plan);
    lemma_skip_head(plan_headers(if_mac, src_port, plan), payload);
}

proof fn lemma_skip_head(head: Seq<u8>, tail: Seq<u8>)
    ensures
        (head + tail).skip(head.len() as int) == tail,
{
    assert((head + tail).skip(head.len() as int) =~= tail);
}

proof fn lemma_headers_len(if_mac: [u8; 6], src_port: u16, plan: PlannedSend)
    ensures
        plan_headers(if_mac, src_port, plan).len() == HEADROOM,
{
}

proof fn lemma_memory_len(memory: Seq<u8>, if_mac: [u8; 6], src_port: u16, plans: Seq<PlannedSend>)
    requires
        forall|i: int| 0 <= i < plans.len() ==> #[trigger] plan_in_memory(memory, plans[i]),
    ensures
        memory_after(memory, if_mac, src_port, plans).len() == memory.len(),
    decreases plans.len(),
{
    if plans.len() > 0 {
        let rest = plans.drop_last();
        assert forall|i: int| 0 <= i < rest.len() implies #[trigger] plan_in_memory(
            memory,
            rest[i],
        ) by {
            assert(plan_in_memory(memory, plans[i]));
        }
        lemma_memory_len(memory, if_mac, src_port, rest);
        lemma_headers_len(if_mac, src_port, plans.last());
        assert(plan_in_memory(memory, plans[plans.len() - 1]));
    }
}

/// Packets whose headers leave a frame alone leave its bytes alone.
proof fn lemma_frame_untouched(
    memory: Seq<u8>,
    if_mac: [u8; 6],
    src_port: u16,
    plans: Seq<PlannedSend>,
    plan: PlannedSend,
)
    requires
        plan_in_memory(memory, plan),
        forall|i: int| 0 <= i < plans.len() ==> #[trigger] plan_in_memory(memory, plans[i]),
        forall|i: int| 0 <= i < plans.len() ==> #[trigger] frames_apart(plans[i], plan),
    ensures
        plan_frame(memory_after(memory, if_mac, src_port, plans), plan) == plan_frame(memory, plan),
    decreases plans.len(),
{
    if plans.len() > 0 {
        let rest = plans.drop_last();
        let last = plans.last();
        assert forall|i: int| 0 <= i < rest.len() implies #[trigger] plan_in_memory(memory, rest[i])
            && frames_apart(rest[i], plan) by {
            assert(plan_in_memory(memory, plans[i]));
            assert(frames_apart(plans[i], plan));
        }
        lemma_frame_untouched(memory, if_mac, src_port, rest, plan);
        lemma_memory_len(memory, if_mac, src_port, rest);
        lemma_headers_len(if_mac, src_port, last);
        assert(plan_in_memory(memory, plans[plans.len() - 1]));
        assert(frames_apart(plans[plans.len() - 1], plan));
        crate::xdp::umem::lemma_overwritten_apart(
            memory_after(memory, if_mac, src_port, rest),
            last.frame_addr as int,
            plan_headers(if_mac, src_port, last),
            plan.frame_addr as int,
            plan.frame_addr + HEADROOM + plan.payload_len,
        );
    }
}

#[verifier::rlimit(30)]
proof fn lemma_frame_after(
    memory: Seq<u8>,
    if_mac: [u8; 6],
    src_port: u16,
    plans: Seq<PlannedSend>,
    j: int,
)
    requires
        0 <= j < plans.len(),
        forall|i: int| 0 <= i < plans.len() ==> #[trigger] plan_in_memory(memory, plans[i]),
        forall|i: int|
            0 <= i < plans.len() && i != j ==> #[trigger] frames_apart(plans[i], plans[j]),
    ensures
        plan_frame(memory_after(memory, if_mac, src_port, plans), plans[j]) == plan_headers(
            if_mac,
            src_port,
            plans[j],
        ) + plan_frame(memory, plans[j]).skip(HEADROOM as int),
    decreases plans.len(),
{
    let rest = plans.drop_last();
    let last = plans.last();
    let plan = plans[j];
    assert(plan_in_memory(memory, plans[j]));
    assert(plan_in_memory(memory, plans[plans.len() - 1]));
    assert forall|i: int| 0 <= i < rest.len() implies #[trigger] plan_in_memory(
        memory,
        rest[i],
    ) by {
        assert(plan_in_memory(memory, plans[i]));
    }
    assert forall|i: int| 0 <= i < rest.len() && i != j implies #[trigger] frames_apart(
        rest[i],
        plan,
    ) by {
        assert(frames_apart(plans[i], plans[j]));
    }
    lemma_memory_len(memory, if_mac, src_port, rest);
    lemma_headers_len(if_mac, src_port, last);
    let before = memory_after(memory, if_mac, src_port, rest);
    if j < rest.len() {
        lemma_frame_after(memory, if_mac, src_port, rest, j);
        assert(frames_apart(plans[plans.len() - 1], plan));
        crate::xdp::umem::lemma_overwritten_apart(
            before,
            last.frame_addr as int,
            plan_headers(if_mac, src_port, last),
            plan.frame_addr as int,
            plan.frame_addr + HEADROOM + plan.payload_len,
        );
    } else {
        lemma_frame_untouched(memory, if_mac, src_port, rest, plan);
        crate::xdp::umem::lemma_overwritten_start(
            before,
            last.frame_addr as int,
            plan_headers(if_mac, src_port, last),
            plan.frame_addr + HEADROOM + plan.payload_len,
        );
    }
}

/// The frames that descriptors name.
pub open spec fn frame_addrs(descs: Seq<XdpDesc>) -> Seq<u64> {
    descs.map_values(|d: XdpDesc| d.addr)
}

/// The frames behind the first `n` buffers.
pub open spec fn replaced_frames(bufs: Seq<XdpRxBufMut>, n: int) -> Seq<u64>
    decreases n,
{
    if n <= 0 {
        Seq::empty()
    } else {
        match crate::xdp::buffers::held_frame(bufs[n - 1]) {
            Some(addr) => replaced_frames(bufs, n - 1).push(addr),
            None => replaced_frames(bufs, n - 1),
        }
    }
}

/// Receiving loses no frame: the frames that came from the ring, and those behind the buffers
/// that were replaced, are afterwards behind the buffers of the packets or given up to FILL,
/// each as often as before.
pub proof fn law_recv_loses_no_frame(
    memory: Seq<u8>,
    descs: Seq<XdpDesc>,
    bufs: Seq<XdpRxBufMut>,
)
    ensures
        ({
            let packets = packet_descs(memory, descs);
            frame_addrs(packets).to_multiset().add(
                frames_given_up(memory, descs, bufs).to_multiset(),
            ) == frame_addrs(descs).to_multiset().add(
                replaced_frames(bufs, packets.len() as int).to_multiset(),
            )
        }),
    decreases descs.len(),
{
    let packets = packet_descs(memory, descs);
    let given_up = frames_given_up(memory, descs, bufs);
    if descs.len() == 0 {
        assert(frame_addrs(packets) =~= frame_addrs(descs));
        assert(given_up =~= replaced_frames(bufs, 0));
    } else {
        let rest = descs.drop_last();
        let last = descs.last();
        law_recv_loses_no_frame(memory, rest, bufs);
        let packets0 = packet_descs(memory, rest);
        let given_up0 = frames_given_up(memory, rest, bufs);
        let replaced0 = replaced_frames(bufs, packets0.len() as int);
        let replaced = replaced_frames(bufs, packets.len() as int);
        frame_addrs(rest).to_multiset_ensures();
        frame_addrs(packets0).to_multiset_ensures();
        given_up0.to_multiset_ensures();
        replaced0.to_multiset_ensures();
        assert(frame_addrs(descs) =~= frame_addrs(rest).push(last.addr));
        assert(frame_addrs(descs).to_multiset() == frame_addrs(rest).to_multiset().insert(
            last.addr,
        ));
        if crate::xdp::packet::is_udp_frame(desc_frame(memory, last)) {
            assert(frame_addrs(packets) =~= frame_addrs(packets0).push(last.addr));
            assert(frame_addrs(packets).to_multiset() == frame_addrs(packets0).to_multiset().insert(
                last.addr,
            ));
            match crate::xdp::buffers::held_frame(bufs[packets0.len() as int]) {
                Some(addr) => {
                    assert(given_up.to_multiset() == given_up0.to_multiset().insert(addr));
                    assert(replaced.to_multiset() == replaced0.to_multiset().insert(addr));
                },
                None => {},
            }
        } else {
            assert(given_up.to_multiset() == given_up0.to_multiset().insert(last.addr));
        }
        let all0 = frame_addrs(packets0).to_multiset().add(given_up0.to_multiset());
        let all = frame_addrs(packets).to_multiset().add(given_up.to_multiset());
        let whole = frame_addrs(descs).to_multiset().add(replaced.to_multiset());
        assert forall|v: u64| all.count(v) == whole.count(v) by {
            assert(all0.count(v) == frame_addrs(rest).to_multiset().add(
                replaced0.to_multiset(),
            ).count(v));
        }
        assert(all =~= whole);
    }
}

/// What is sent of a packet. One goes out exactly where its destination is IPv4, a route leads
/// there to a neighbour with a known address, no IPv6 source is asked for, and its payload starts
/// its buffer. It goes from the source that the caller asks for, else from the one that the socket
/// is bound to, else from the one that the route prefers. What is not sent is consumed only where
/// its destination is IPv6.
pub proof fn law_what_is_sent(
    bound_v4: Option<Ipv4Addr>,
    transmit: XdpTransmit,
    hop: Option<NextHop>,
)
    ensures
        ({
            let plan = planned_send(bound_v4, transmit, hop);
            let preferred = match hop {
                Some(h) => h.preferred_src_ip,
                None => None,
            };
            &&& plan is Some <==> {
                &&& transmit.destination.ip is V4
                &&& hop matches Some(h)
                &&& h.mac_addr is Some
                &&& !(transmit.src_ip matches Some(IpAddr::V6(_)))
                &&& transmit.contents@.len() > 0
                &&& transmit.contents@[0].offset == 0
            }
            &&& plan matches Some(p) ==> {
                &&& p.frame_addr == transmit.contents@[0].buf.frame_addr
                &&& p.payload_len == transmit.contents@[0].len
                &&& transmit.destination == (SocketAddr { ip: IpAddr::V4(p.dst), port: p.dst_port })
                &&& hop->Some_0.mac_addr == Some(p.dst_mac)
                &&& transmit.src_ip is Some ==> transmit.src_ip == Some(IpAddr::V4(p.src))
                &&& transmit.src_ip is None && bound_v4 is Some ==> bound_v4 == Some(p.src)
                &&& transmit.src_ip is None && bound_v4 is None && preferred is Some ==> preferred
                    == Some(p.src)
                &&& transmit.src_ip is None && bound_v4 is None && preferred is None ==> p.src.bits
                    == 0
            }
            &&& is_consumed(bound_v4, transmit, hop) <==> plan is Some || transmit.destination.ip
                is V6
        }),
{
}

/// A socket sends from the address that it is bound to, unless that is of IPv6 or none in
/// particular.
pub proof fn law_bound_address_is_the_source(ip: IpAddr)
    ensures
        bound_v4_of(ip) is Some <==> (ip matches IpAddr::V4(v4) && v4.bits != 0),
        bound_v4_of(ip) matches Some(v4) ==> ip == IpAddr::V4(v4),
{
}

/// As many packets are offered to the TX ring as there are, or as it has room for: its size less
/// how far the producer is ahead of the kernel.
pub proof fn law_ring_takes_what_it_has_room_for(socket: XdpSocket, len: nat, tx_consumer: u32)
    requires
        socket.wf(),
    ensures
        ({
            let ahead = (socket.raw.tx_prod.cached_producer - tx_consumer) % 0x1_0000_0000;
            let n = offered(socket, len, tx_consumer);
            &&& 0 <= n <= len
            &&& ahead <= socket.raw.sizes.tx ==> n + ahead <= socket.raw.sizes.tx && (n == len || n
                + ahead == socket.raw.sizes.tx)
            &&& ahead > socket.raw.sizes.tx ==> n == 0
        }),
{
    crate::xdp::ring::law_free_slots(
        RingProducer { cached_consumer: tx_consumer, ..socket.raw.tx_prod },
    );
}

/// Packets are sent in their order: each one that can be sent comes behind as many as can be sent
/// before it, and nothing else is sent.
pub proof fn law_sends_keep_their_order(
    bound_v4: Option<Ipv4Addr>,
    transmits: Seq<XdpTransmit>,
    hops: Seq<Option<NextHop>>,
    n: int,
    j: int,
)
    requires
        0 <= j < n,
    ensures
        ({
            let all = planned_sends(bound_v4, transmits, hops, n);
            let before = planned_sends(bound_v4, transmits, hops, j);
            &&& all.len() <= n
            &&& before.len() <= all.len()
            &&& all.take(before.len() as int) == before
            &&& planned_send(bound_v4, transmits[j], hops[j]) matches Some(plan) ==> before.len()
                < all.len() && all[before.len() as int] == plan
            &&& planned_send(bound_v4, transmits[j], hops[j]) is None ==> planned_sends(
                bound_v4,
                transmits,
                hops,
                j + 1,
            ) == before
        }),
    decreases n,
{
    let all = planned_sends(bound_v4, transmits, hops, n);
    let before = planned_sends(bound_v4, transmits, hops, j);
    lemma_planned_bound(bound_v4, transmits, hops, n);
    if j < n - 1 {
        law_sends_keep_their_order(bound_v4, transmits, hops, n - 1, j);
        let most = planned_sends(bound_v4, transmits, hops, n - 1);
        assert(all.take(before.len() as int) =~= most.take(before.len() as int));
    } else {
        assert(all.take(before.len() as int) =~= before);
    }
}

proof fn lemma_planned_bound(
    bound_v4: Option<Ipv4Addr>,
    transmits: Seq<XdpTransmit>,
    hops: Seq<Option<NextHop>>,
    n: int,
)
    requires
        0 <= n,
    ensures
        planned_sends(bound_v4, transmits, hops, n).len() <= n,
    decreases n,
{
    if n > 0 {
        lemma_planned_bound(bound_v4, transmits, hops, n - 1);
    }
}

/// Each packet that a send takes has a descriptor in the TX ring: its frame, and the 42 bytes of
/// headers with its payload. It lies behind those of the packets before it, round the ring's end,
/// and the producer index covers it.
pub proof fn law_sent_packets_have_descriptors(
    before: XdpSocket,
    after: XdpSocket,
    transmits0: Seq<XdpTransmit>,
    transmits1: Seq<XdpTransmit>,
    hops: Seq<Option<NextHop>>,
    tx_consumer: u32,
    slots0: Seq<XdpDesc>,
    slots1: Seq<XdpDesc>,
    result: (usize, Option<u32>),
    j: int,
)
    requires
        before.wf(),
        slots0.len() == before.raw.sizes.tx,
        sent(
            before,
            after,
            transmits0,
            transmits1,
            hops,
            tx_consumer,
            slots0,
            slots1,
            result,
        ),
        0 <= j < offered(before, transmits0.len(), tx_consumer),
        planned_send(before.bound_v4, transmits0[j], hops[j]) matches Some(plan)
            && plan.payload_len <= 0xffff,
    ensures
        ({
            let plan = planned_send(before.bound_v4, transmits0[j], hops[j])->Some_0;
            let k = planned_sends(before.bound_v4, transmits0, hops, j).len();
            let start = before.raw.tx_prod.cached_producer;
            let desc = slots1[(start + k) % (before.raw.sizes.tx as int)];
            &&& desc.addr == plan.frame_addr
            &&& desc.len == 42 + plan.payload_len
            &&& desc.options == 0
            &&& result.1 == Some(after.raw.tx_prod.cached_producer)
            &&& (after.raw.tx_prod.cached_producer - start) % 0x1_0000_0000 > k
        }),
{
    let n = offered(before, transmits0.len(), tx_consumer);
    let plans = planned_sends(before.bound_v4, transmits0, hops, n);
    let start = before.raw.tx_prod.cached_producer;
    law_sends_keep_their_order(before.bound_v4, transmits0, hops, n, j);
    law_ring_takes_what_it_has_room_for(before, transmits0.len(), tx_consumer);
    let k = planned_sends(before.bound_v4, transmits0, hops, j).len() as int;
    crate::xdp::ring::law_slots_go_round(start, k, before.raw.sizes.tx);
    assert(slots1[crate::xdp::ring::ring_slot(start, k, before.raw.sizes.tx)] == plan_descs(
        plans,
    )[k]);
}

/// Received packets come up in the order of their descriptors: each one whose bytes hold a
/// datagram comes behind as many as hold one before it.
pub proof fn law_packets_keep_their_order(memory: Seq<u8>, descs: Seq<XdpDesc>, j: int)
    requires
        0 <= j < descs.len(),
    ensures
        ({
            let all = packet_descs(memory, descs);
            let before = packet_descs(memory, descs.take(j));
            let frame = memory.subrange(descs[j].addr as int, descs[j].addr + descs[j].len);
            &&& all.len() <= descs.len()
            &&& before.len() <= all.len()
            &&& all.take(before.len() as int) == before
            &&& crate::xdp::packet::is_udp_frame(frame) ==> before.len() < all.len()
                && all[before.len() as int] == descs[j]
            &&& !crate::xdp::packet::is_udp_frame(frame) ==> packet_descs(memory, descs.take(j + 1))
                == before
        }),
    decreases descs.len(),
{
    let all = packet_descs(memory, descs);
    let before = packet_descs(memory, descs.take(j));
    assert(descs.take(j + 1).drop_last() =~= descs.take(j));
    assert(descs.take(j + 1).last() == descs[j]);
    lemma_packet_descs_bound(memory, descs);
    if j < descs.len() - 1 {
        let most = descs.drop_last();
        law_packets_keep_their_order(memory, most, j);
        assert(most.take(j) =~= descs.take(j));
        assert(most.take(j + 1) =~= descs.take(j + 1));
        assert(all.take(before.len() as int) =~= packet_descs(memory, most).take(
            before.len() as int,
        ));
    } else {
        assert(descs.drop_last() =~= descs.take(j));
        assert(all.take(before.len() as int) =~= before);
    }
}

proof fn lemma_packet_descs_bound(memory: Seq<u8>, descs: Seq<XdpDesc>)
    ensures
        packet_descs(memory, descs).len() <= descs.len(),
    decreases descs.len(),
{
    if descs.len() > 0 {
        lemma_packet_descs_bound(memory, descs.drop_last());
    }
}

/// The buffer of a received packet is its frame: its payload is what the frame holds behind the
/// headers, and it has room for as much as a frame has behind them, or behind headers without
/// options where that is less.
pub proof fn law_received_buffer_is_its_payload(frame_size: u32, memory: Seq<u8>, desc: XdpDesc)
    requires
        desc.addr + desc.len <= memory.len(),
        desc.len <= frame_size,
        ({
            let frame = memory.subrange(desc.addr as int, desc.addr + desc.len);
            crate::xdp::packet::is_udp_frame(frame)
        }),
    ensures
        ({
            let frame = memory.subrange(desc.addr as int, desc.addr + desc.len);
            let udp = 14 + 4 * (frame[14] - 0x40);
            &&& received_buffer(frame_size, memory, desc) matches XdpRxBufMutRepr::Ring {
                frame_addr,
                payload_offset,
                payload_len,
                cap,
            }
            &&& frame_addr == desc.addr
            &&& payload_offset == udp + 8
            &&& payload_len == frame[udp + 4] * 0x100 + frame[udp + 5] - 8
            &&& memory.subrange(
                frame_addr + payload_offset,
                frame_addr + payload_offset + payload_len,
            ) == frame.subrange(udp + 8, udp + 8 + payload_len)
            &&& payload_len <= cap
            &&& payload_offset + cap <= frame_size
            &&& cap <= frame_size - 42
            &&& payload_offset + cap == frame_size || cap == frame_size - 42
        }),
{
    let frame = memory.subrange(desc.addr as int, desc.addr + desc.len);
    crate::xdp::packet::law_frames_are_read_from_the_wire(frame);
    let udp = 14 + 4 * (frame[14] - 0x40);
    let len = frame[udp + 4] * 0x100 + frame[udp + 5] - 8;
    assert(memory.subrange(desc.addr + udp + 8, desc.addr + udp + 8 + len) =~= frame.subrange(
        udp + 8,
        udp + 8 + len,
    ));
}

/// Refilling takes frames in the order in which they were given back: those that go to FILL, and
/// those that wait on, are together those that waited. Some go whenever some wait and FILL has
/// room.
pub proof fn law_waiting_frames_go_to_fill(
    before: XdpSocket,
    after: XdpSocket,
    fill_consumer: u32,
    slots0: Seq<u64>,
    slots1: Seq<u64>,
    publish: Option<u32>,
)
    requires
        before.wf(),
        slots0.len() == before.raw.sizes.fill,
        replenished(before, after, fill_consumer, slots0, slots1, publish),
    ensures
        ({
            let waiting = before.reclaimer.pending@ + before.reclaimer.remote@;
            let start = before.raw.fill_prod.cached_producer;
            let n = (after.raw.fill_prod.cached_producer - start) % 0x1_0000_0000;
            let ahead = (start - fill_consumer) % 0x1_0000_0000;
            &&& 0 <= n <= waiting.len()
            &&& waiting.take(n) + (after.reclaimer.pending@ + after.reclaimer.remote@) == waiting
            &&& forall|i: int|
                0 <= i < n ==> slots1[(start + i) % (before.raw.sizes.fill as int)]
                    == #[trigger] waiting[i]
            &&& waiting.len() > 0 && ahead < before.raw.sizes.fill ==> n > 0
            &&& publish == (if n > 0 {
                Some(after.raw.fill_prod.cached_producer)
            } else {
                None
            })
        }),
{
    let waiting = before.reclaimer.pending@ + before.reclaimer.remote@;
    let start = before.raw.fill_prod.cached_producer;
    let collect = before.reclaimer.pending@.len() < MAX_BATCH;
    let all = if collect {
        waiting
    } else {
        before.reclaimer.pending@
    };
    let synced = before.raw.fill_synced(fill_consumer);
    crate::xdp::ring::law_free_slots(synced);
    let count = if all.len() == 0 {
        0
    } else {
        vstd::math::min(all.len() as int, synced.free())
    };
    assert(after.raw.fill_prod.cached_producer == start.wrapping_add(count as u32));
    assert((after.raw.fill_prod.cached_producer - start) % 0x1_0000_0000 == count);
    let rest = after.reclaimer.pending@ + after.reclaimer.remote@;
    assert(waiting.take(count) + rest =~= waiting);
    assert forall|i: int| 0 <= i < count implies slots1[(start + i) % (
    before.raw.sizes.fill as int)] == #[trigger] waiting[i] by {
        crate::xdp::ring::law_slots_go_round(start, i, before.raw.sizes.fill);
        assert(slots1[crate::xdp::ring::ring_slot(start, i, before.raw.sizes.fill)] == all.take(
            count,
        )[i]);
    }
}

/// The two halves of the memory are all of its frames: each one, in order, and once.
pub proof fn law_split_covers_every_frame(frame_size: u32, count: u32, i: int)
    requires
        0 <= i < count,
    ensures
        ({
            let half = (count / 2) as int;
            let fill = frame_offsets(frame_size, 0, half);
            let tx = frame_offsets(frame_size, half, count as int);
            &&& fill.len() + tx.len() == count
            &&& fill.len() <= tx.len() <= fill.len() + 1
            &&& (fill + tx)[i] == i * frame_size
        }),
{
    let half = (count / 2) as int;
    assert(i * frame_size <= u64::MAX) by (nonlinear_arith)
        requires
            0 <= i < count,
            count <= u32::MAX,
            frame_size <= u32::MAX,
    ;
    assert(i * frame_size >= 0) by (nonlinear_arith)
        requires
            0 <= i,
    ;
    assert(half + (i - half) == i);
}

/// A socket opens when all of its seven steps succeed: program, memory, rings, router, address,
/// socket map and port map, in this order. One that fails before the socket map is touched ends
/// there; behind that, the entry is taken out first.
pub proof fn law_open_takes_every_step()
    ensures
        ({
            let s1 = OpenStep::LoadProgram.spec_next(true);
            let s2 = s1.spec_next(true);
            let s3 = s2.spec_next(true);
            let s4 = s3.spec_next(true);
            let s5 = s4.spec_next(true);
            let s6 = s5.spec_next(true);
            &&& s1 is AllocateUmem
            &&& s2 is SetUpRings
            &&& (s3 is LoadRouter && s4 is ReadMac) || (s3 is ReadMac && s4 is LoadRouter)
            &&& s5 is RegisterSocket
            &&& s6 is BindPort
            &&& s6.spec_next(true) is Open
            &&& OpenStep::LoadProgram.spec_next(false) is Failed && s1.spec_next(false) is Failed
                && s2.spec_next(false) is Failed && s3.spec_next(false) is Failed && s4.spec_next(
                false,
            ) is Failed && s5.spec_next(false) is Failed
            &&& s6.spec_next(false) is UnregisterSocket
            &&& forall|ok: bool| (#[trigger] s6.spec_next(false).spec_next(ok)) is Failed
        }),
{
}

/// The headers that a send writes go to the start of the packet's frame and nowhere else.
pub proof fn law_send_writes_only_headers(
    memory: Seq<u8>,
    if_mac: [u8; 6],
    src_port: u16,
    plans: Seq<PlannedSend>,
    i: int,
)
    requires
        0 <= i < memory.len(),
        forall|k: int| 0 <= k < plans.len() ==> #[trigger] plan_in_memory(memory, plans[k]),
        forall|k: int|
            0 <= k < plans.len() ==> i < (#[trigger] plans[k]).frame_addr || plans[k].frame_addr + 42
                <= i,
    ensures
        memory_after(memory, if_mac, src_port, plans).len() == memory.len(),
        memory_after(memory, if_mac, src_port, plans)[i] == memory[i],
    decreases plans.len(),
{
    if plans.len() > 0 {
        let fewer = plans.drop_last();
        let plan = plans.last();
        assert forall|k: int| 0 <= k < fewer.len() implies #[trigger] plan_in_memory(
            memory,
            fewer[k],
        ) && (i < fewer[k].frame_addr || fewer[k].frame_addr + 42 <= i) by {
            assert(plan_in_memory(memory, plans[k]));
        }
        law_send_writes_only_headers(memory, if_mac, src_port, fewer, i);
        assert(plan_in_memory(memory, plans[plans.len() - 1]));
        let headers = plan_headers(if_mac, src_port, plan);
        crate::xdp::packet::law_headers_on_the_wire(
            if_mac@,
            plan.dst_mac@,
            plan.src,
            src_port,
            plan.dst,
            plan.dst_port,
            (8 + plan.payload_len) as u16,
        );
        assert(headers.len() == 42);
    }
}

/// What is written in front of a packet's payload: from the interface to the neighbour, from the
/// source address and the socket's port to the destination and its port, with the lengths that its
/// payload has.
pub proof fn law_sent_packet_on_the_wire(if_mac: [u8; 6], src_port: u16, plan: PlannedSend)
    requires
        28 + plan.payload_len <= 0xffff,
    ensures
        ({
            let h = plan_headers(if_mac, src_port, plan);
            let src = plan.src.bits;
            let dst = plan.dst.bits;
            &&& h.len() == 42
            &&& h.take(6) == plan.dst_mac@
            &&& h.subrange(6, 12) == if_mac@
            &&& h[12] == 8 && h[13] == 0 && h[14] == 0x45 && h[15] == 0
            &&& h[16] * 0x100 + h[17] == 28 + plan.payload_len
            &&& h[20] == 0x40 && h[21] == 0 && h[22] == 64 && h[23] == 17
            &&& h[26] == src / 0x100_0000 % 0x100 && h[27] == src / 0x1_0000 % 0x100
            &&& h[28] == src / 0x100 % 0x100 && h[29] == src % 0x100
            &&& h[30] == dst / 0x100_0000 % 0x100 && h[31] == dst / 0x1_0000 % 0x100
            &&& h[32] == dst / 0x100 % 0x100 && h[33] == dst % 0x100
            &&& h[34] * 0x100 + h[35] == src_port
            &&& h[36] * 0x100 + h[37] == plan.dst_port
            &&& h[38] * 0x100 + h[39] == 8 + plan.payload_len
            &&& h[40] == 0 && h[41] == 0
        }),
{
    let udp_len = (8 + plan.payload_len) as u16;
    crate::xdp::packet::law_headers_on_the_wire(
        if_mac@,
        plan.dst_mac@,
        plan.src,
        src_port,
        plan.dst,
        plan.dst_port,
        udp_len,
    );
    let h = plan_headers(if_mac, src_port, plan);
    let e = crate::xdp::packet::eth_header(if_mac@, plan.dst_mac@);
    let ip = crate::xdp::packet::ip_header(plan.src, plan.dst, udp_len);
    let udp = crate::xdp::packet::udp_header(src_port, plan.dst_port, plan.payload_len as u16);
    crate::xdp::packet::lemma_frame_parts(e, ip, udp, Seq::<u8>::empty());
    assert(h =~= e + ip + udp + Seq::<u8>::empty());
    assert(h.take(6) =~= e.take(6));
    assert(h.subrange(6, 12) =~= e.subrange(6, 12));
    assert(h[12] == e[12] && h[13] == e[13]);
    assert(forall|i: int| 14 <= i < 34 ==> #[trigger] h[i] == ip[i - 14]);
    assert(forall|i: int| 34 <= i < 42 ==> #[trigger] h[i] == udp[i - 34]);
}

/// What is left of a batch keeps its order: the packets that were offered and not consumed, and
/// behind them those that were not offered.
pub proof fn law_rest_of_a_batch_keeps_its_order(
    bound_v4: Option<Ipv4Addr>,
    transmits: Seq<XdpTransmit>,
    hops: Seq<Option<NextHop>>,
    n: int,
    j: int,
)
    requires
        0 <= n <= transmits.len(),
        0 <= j < transmits.len(),
    ensures
        ({
            let rest = left_over(bound_v4, transmits, hops, n);
            let consumed = planned_send(bound_v4, transmits[j], hops[j]) is Some
                || transmits[j].destination.ip is V6;
            let kept = places(bound_v4, transmits, hops, n, false);
            let earlier = places(bound_v4, transmits, hops, j, false);
            &&& j < n && !consumed ==> earlier.len() < kept.len() && rest[earlier.len() as int]
                == transmits[j]
            &&& j >= n ==> rest[kept.len() + j - n] == transmits[j]
            &&& rest.len() == kept.len() + transmits.len() - n
        }),
{
    let kept = places(bound_v4, transmits, hops, n, false);
    if j < n {
        lemma_place_of(bound_v4, transmits, hops, n, j, false);
    }
}

proof fn lemma_place_of(
    bound_v4: Option<Ipv4Addr>,
    transmits: Seq<XdpTransmit>,
    hops: Seq<Option<NextHop>>,
    n: int,
    j: int,
    consumed: bool,
)
    requires
        0 <= j < n,
    ensures
        ({
            let all = places(bound_v4, transmits, hops, n, consumed);
            let earlier = places(bound_v4, transmits, hops, j, consumed);
            &&& earlier.len() <= all.len()
            &&& is_consumed(bound_v4, transmits[j], hops[j]) == consumed ==> earlier.len()
                < all.len() && all[earlier.len() as int] == j
        }),
    decreases n,
{
    if j < n - 1 {
        lemma_place_of(bound_v4, transmits, hops, n - 1, j, consumed);
    }
}

/// The consumed packets of a batch come first, in their order: an empty packet for each one that
/// was sent, and the packet itself for one to an IPv6 address.
pub proof fn law_consumed_packets_come_first(
    before: XdpSocket,
    after: XdpSocket,
    transmits0: Seq<XdpTransmit>,
    transmits1: Seq<XdpTransmit>,
    hops: Seq<Option<NextHop>>,
    tx_consumer: u32,
    slots0: Seq<XdpDesc>,
    slots1: Seq<XdpDesc>,
    result: (usize, Option<u32>),
    j: int,
)
    requires
        sent(
            before,
            after,
            transmits0,
            transmits1,
            hops,
            tx_consumer,
            slots0,
            slots1,
            result,
        ),
        0 <= j < offered(before, transmits0.len(), tx_consumer),
    ensures
        ({
            let planned = planned_send(before.bound_v4, transmits0[j], hops[j]) is Some;
            let v6 = transmits0[j].destination.ip is V6;
            let k = places(before.bound_v4, transmits0, hops, j, true).len() as int;
            &&& planned ==> k < result.0 && transmits1[k].contents@.len() == 0
            &&& v6 ==> k < result.0 && transmits1[k] == transmits0[j]
            &&& transmits1.len() == transmits0.len()
            &&& transmits1.skip(result.0 as int) == left_over(
                before.bound_v4,
                transmits0,
                hops,
                offered(before, transmits0.len(), tx_consumer),
            )
        }),
{
    let n = offered(before, transmits0.len(), tx_consumer);
    law_what_is_sent(before.bound_v4, transmits0[j], hops[j]);
    lemma_place_of(before.bound_v4, transmits0, hops, n, j, true);
    let gone = places(before.bound_v4, transmits0, hops, n, true);
    let k = places(before.bound_v4, transmits0, hops, j, true).len() as int;
    if is_consumed(before.bound_v4, transmits0[j], hops[j]) {
        assert(gone[k] == j);
        assert(stands_for(before.bound_v4, transmits0[gone[k]], hops[gone[k]], transmits1[k]));
    }
}

/// A received batch: each descriptor whose bytes hold a datagram fills the next place of the
/// caller's lists, with what the bytes say and the frame that they lie in. The places behind stay
/// as they are.
pub proof fn law_received_batch_fills_the_lists(
    socket: XdpSocket,
    descs: Seq<XdpDesc>,
    meta0: Seq<RecvMeta>,
    meta1: Seq<RecvMeta>,
    bufs0: Seq<XdpRxBufMut>,
    bufs1: Seq<XdpRxBufMut>,
    j: int,
)
    requires
        batch_filled(socket, descs, meta0, meta1, bufs0, bufs1),
        descs.len() <= meta0.len(),
        descs.len() <= bufs0.len(),
        0 <= j < descs.len(),
    ensures
        ({
            let frame = socket.umem@.subrange(descs[j].addr as int, descs[j].addr + descs[j].len);
            let k = packet_descs(socket.umem@, descs.take(j)).len() as int;
            let n = packet_descs(socket.umem@, descs).len() as int;
            &&& meta1.len() == meta0.len() && bufs1.len() == bufs0.len()
            &&& crate::xdp::packet::is_udp_frame(frame) ==> k < n && meta1[k]
                == crate::xdp::packet::frame_meta(frame) && bufs1[k].repr == received_buffer(
                socket.umem.spec_frame_size(),
                socket.umem@,
                descs[j],
            )
            &&& forall|i: int| n <= i < meta0.len() ==> #[trigger] meta1[i] == meta0[i]
            &&& forall|i: int| n <= i < bufs0.len() ==> #[trigger] bufs1[i] == bufs0[i]
        }),
{
    law_packets_keep_their_order(socket.umem@, descs, j);
}

/// Receiving takes every descriptor that was read, and says so to the kernel.
pub proof fn law_received_descriptors_are_released(
    before: XdpSocket,
    after: XdpSocket,
    fill_consumer: u32,
    fill_slots0: Seq<u64>,
    fill_slots1: Seq<u64>,
    rx_producer: u32,
    descs: Seq<XdpDesc>,
    bufs0: Seq<XdpRxBufMut>,
    result: RecvResult,
)
    requires
        descs.len() <= u32::MAX,
        received(
            before,
            after,
            fill_consumer,
            fill_slots0,
            fill_slots1,
            rx_producer,
            descs,
            bufs0,
            result,
        ),
    ensures
        ({
            let start = before.raw.rx_cons.cached_consumer;
            &&& after.raw.rx_cons.cached_consumer == (start + descs.len()) % 0x1_0000_0000
            &&& descs.len() > 0 ==> result.publish_rx == Some(after.raw.rx_cons.cached_consumer)
            &&& descs.len() == 0 ==> result.publish_rx is None && result.received == 0
            &&& result.received <= descs.len()
        }),
{
    lemma_packet_descs_bound(before.umem@, descs);
}

/// The default configuration: rings of 2048, 4096 frames of 2048 bytes, zero-copy, and the
/// program that comes along, attached as the kernel likes.
pub proof fn law_default_configuration(config: XdpConfig)
    requires
        config.is_default(),
    ensures
        config.ring_sizes.fill == 2048 && config.ring_sizes.completion == 2048,
        config.ring_sizes.rx == 2048 && config.ring_sizes.tx == 2048,
        config.frame_count == 4096 && config.frame_size == 2048,
        config.mode is ZeroCopy && config.attach_mode is Default && config.program_bytes is None,
        config.valid(),
{
    assert(2048u32 & 2047u32 == 0 && 4096u32 & 4095u32 == 0) by (bit_vector);
}

/// A configuration is valid exactly where the rings and the number of frames are powers of two and
/// a frame holds the 42 bytes of headers.
pub proof fn law_valid_configurations(config: XdpConfig)
    ensures
        config.valid() <==> {
            &&& config.frame_size >= 42
            &&& exists|k: nat|
                k < 32 && config.frame_count == #[trigger] vstd::arithmetic::power2::pow2(k)
            &&& exists|k: nat|
                k < 32 && config.ring_sizes.fill == #[trigger] vstd::arithmetic::power2::pow2(k)
            &&& exists|k: nat|
                k < 32 && config.ring_sizes.completion == #[trigger] vstd::arithmetic::power2::pow2(
                    k,
                )
            &&& exists|k: nat|
                k < 32 && config.ring_sizes.rx == #[trigger] vstd::arithmetic::power2::pow2(k)
            &&& exists|k: nat|
                k < 32 && config.ring_sizes.tx == #[trigger] vstd::arithmetic::power2::pow2(k)
        },
{
    crate::xdp::ring::law_powers_of_two(config.frame_count);
    crate::xdp::ring::law_powers_of_two(config.ring_sizes.fill);
    crate::xdp::ring::law_powers_of_two(config.ring_sizes.completion);
    crate::xdp::ring::law_powers_of_two(config.ring_sizes.rx);
    crate::xdp::ring::law_powers_of_two(config.ring_sizes.tx);
}

/// After a send, the frame of each packet holds its headers and behind them the payload that was
/// there before, where the frames of the batch do not overlap. Nothing else of the memory changes,
/// no other slot of the TX ring, and nothing of the socket's pools and other rings.
pub proof fn law_send_puts_packets_on_the_wire(
    before: XdpSocket,
    after: XdpSocket,
    transmits0: Seq<XdpTransmit>,
    transmits1: Seq<XdpTransmit>,
    hops: Seq<Option<NextHop>>,
    tx_consumer: u32,
    slots0: Seq<XdpDesc>,
    slots1: Seq<XdpDesc>,
    result: (usize, Option<u32>),
    k: int,
    i: int,
    s: int,
)
    requires
        before.wf(),
        slots0.len() == before.raw.sizes.tx,
        sent(
            before,
            after,
            transmits0,
            transmits1,
            hops,
            tx_consumer,
            slots0,
            slots1,
            result,
        ),
        ({
            let plans = planned_sends(
                before.bound_v4,
                transmits0,
                hops,
                offered(before, transmits0.len(), tx_consumer),
            );
            &&& forall|a: int| 0 <= a < plans.len() ==> #[trigger] plan_in_memory(
                before.umem@,
                plans[a],
            )
            &&& forall|a: int|
                0 <= a < plans.len() && a != k ==> #[trigger] frames_apart(plans[a], plans[k])
            &&& 0 <= k < plans.len()
            &&& 0 <= i < before.umem@.len()
            &&& 0 <= s < slots0.len()
        }),
    ensures
        ({
            let plans = planned_sends(
                before.bound_v4,
                transmits0,
                hops,
                offered(before, transmits0.len(), tx_consumer),
            );
            let at = plans[k].frame_addr as int;
            let end = at + 42 + plans[k].payload_len;
            let start = before.raw.tx_prod.cached_producer;
            &&& after.umem@.len() == before.umem@.len()
            &&& after.umem@.subrange(at, at + 42) == plan_headers(
                before.if_mac,
                before.bound_addr.port,
                plans[k],
            )
            &&& after.umem@.subrange(at + 42, end) == before.umem@.subrange(at + 42, end)
            &&& (forall|a: int|
                0 <= a < plans.len() ==> i < (#[trigger] plans[a]).frame_addr || plans[a].frame_addr
                    + 42 <= i) ==> after.umem@[i] == before.umem@[i]
            &&& (s - start) % (before.raw.sizes.tx as int) >= plans.len() ==> slots1[s] == slots0[s]
            &&& after.tx_pool == before.tx_pool && after.reclaimer == before.reclaimer
            &&& after.raw.fill_prod == before.raw.fill_prod && after.raw.rx_cons
                == before.raw.rx_cons && after.raw.comp_cons == before.raw.comp_cons
            &&& after.umem.spec_frame_size() == before.umem.spec_frame_size()
        }),
{
    let n = offered(before, transmits0.len(), tx_consumer);
    let plans = planned_sends(before.bound_v4, transmits0, hops, n);
    let plan = plans[k];
    let if_mac = before.if_mac;
    let port = before.bound_addr.port;
    let at = plan.frame_addr as int;
    let end = at + 42 + plan.payload_len;
    assert(plan_in_memory(before.umem@, plans[k]));
    lemma_frame_after(before.umem@, if_mac, port, plans, k);
    law_sent_packet_on_the_wire(if_mac, port, plan);
    lemma_memory_after_len(before.umem@, if_mac, port, plans);
    let frame = plan_frame(after.umem@, plan);
    let headers = plan_headers(if_mac, port, plan);
    let payload = plan_frame(before.umem@, plan).skip(42);
    assert(frame == headers + payload);
    assert(after.umem@.subrange(at, at + 42) =~= frame.take(42));
    assert(frame.take(42) =~= headers);
    assert(after.umem@.subrange(at + 42, end) =~= frame.skip(42));
    assert(frame.skip(42) =~= payload);
    assert(before.umem@.subrange(at + 42, end) =~= payload);
    if forall|a: int|
        0 <= a < plans.len() ==> i < (#[trigger] plans[a]).frame_addr || plans[a].frame_addr + 42
            <= i {
        law_send_writes_only_headers(before.umem@, if_mac, port, plans, i);
    }
    lemma_planned_bound(before.bound_v4, transmits0, hops, n);
    law_ring_takes_what_it_has_room_for(before, transmits0.len(), tx_consumer);
    crate::xdp::ring::law_ring_is_written_in_order(
        slots0,
        slots1,
        before.raw.tx_prod.cached_producer,
        plan_descs(plans),
        before.raw.sizes.tx,
        s,
    );
}

proof fn lemma_memory_after_len(
    memory: Seq<u8>,
    if_mac: [u8; 6],
    src_port: u16,
    plans: Seq<PlannedSend>,
)
    requires
        forall|k: int| 0 <= k < plans.len() ==> #[trigger] plan_in_memory(memory, plans[k]),
    ensures
        memory_after(memory, if_mac, src_port, plans).len() == memory.len(),
    decreases plans.len(),
{
    if plans.len() > 0 {
        let fewer = plans.drop_last();
        assert forall|k: int| 0 <= k < fewer.len() implies #[trigger] plan_in_memory(
            memory,
            fewer[k],
        ) by {
            assert(plan_in_memory(memory, plans[k]));
        }
        lemma_memory_after_len(memory, if_mac, src_port, fewer);
        assert(plan_in_memory(memory, plans[plans.len() - 1]));
        law_sent_packet_on_the_wire(if_mac, src_port, plans.last());
    }
}

/// Receiving hands waiting frames to FILL, in order, and lets those wait that it gives up itself.
/// It writes nothing to the memory and takes nothing from the pool for sending.
pub proof fn law_receive_returns_frames(
    before: XdpSocket,
    after: XdpSocket,
    fill_consumer: u32,
    fill_slots0: Seq<u64>,
    fill_slots1: Seq<u64>,
    rx_producer: u32,
    descs: Seq<XdpDesc>,
    bufs0: Seq<XdpRxBufMut>,
    result: RecvResult,
)
    requires
        before.wf(),
        fill_slots0.len() == before.raw.sizes.fill,
        received(
            before,
            after,
            fill_consumer,
            fill_slots0,
            fill_slots1,
            rx_producer,
            descs,
            bufs0,
            result,
        ),
    ensures
        ({
            let waiting = before.reclaimer.pending@ + before.reclaimer.remote@;
            let given_up = frames_given_up(before.umem@, descs, bufs0);
            let start = before.raw.fill_prod.cached_producer;
            let n = (after.raw.fill_prod.cached_producer - start) % 0x1_0000_0000;
            let ahead = (start - fill_consumer) % 0x1_0000_0000;
            &&& 0 <= n <= waiting.len()
            &&& forall|i: int|
                0 <= i < n ==> fill_slots1[(start + i) % (before.raw.sizes.fill as int)]
                    == #[trigger] waiting[i]
            &&& waiting.len() > 0 && ahead < before.raw.sizes.fill ==> n > 0
            &&& result.publish_fill == (if n > 0 {
                Some(after.raw.fill_prod.cached_producer)
            } else {
                None
            })
            &&& (after.reclaimer.pending@ + after.reclaimer.remote@).to_multiset() == waiting.skip(
                n,
            ).to_multiset().add(given_up.to_multiset())
            &&& after.umem == before.umem && after.tx_pool == before.tx_pool
            &&& after.raw.tx_prod == before.raw.tx_prod && after.raw.comp_cons
                == before.raw.comp_cons
        }),
{
    let refilled = choose|refilled: XdpSocket|
        {
            &&& #[trigger] replenished(
                before,
                refilled,
                fill_consumer,
                fill_slots0,
                fill_slots1,
                result.publish_fill,
            )
            &&& after.reclaimer.pending@ == refilled.reclaimer.pending@ + frames_given_up(
                before.umem@,
                descs,
                bufs0,
            )
            &&& after.reclaimer.remote@ == refilled.reclaimer.remote@
            &&& after.reclaimer.owner == refilled.reclaimer.owner
            &&& after.reclaimer.remote.capacity() == refilled.reclaimer.remote.capacity()
            &&& after.raw.rx_cons.cached_consumer
                == before.raw.rx_cons.cached_consumer.wrapping_add(descs.len() as u32)
            &&& after.raw.rx_cons.cached_producer == rx_producer
            &&& after == (XdpSocket {
                raw: RawXdpSocket { rx_cons: after.raw.rx_cons, ..refilled.raw },
                reclaimer: after.reclaimer,
                ..refilled
            })
        };
    law_waiting_frames_go_to_fill(
        before,
        refilled,
        fill_consumer,
        fill_slots0,
        fill_slots1,
        result.publish_fill,
    );
    let waiting = before.reclaimer.pending@ + before.reclaimer.remote@;
    let n = (after.raw.fill_prod.cached_producer - before.raw.fill_prod.cached_producer)
        % 0x1_0000_0000;
    let given_up = frames_given_up(before.umem@, descs, bufs0);
    let rest = refilled.reclaimer.pending@ + refilled.reclaimer.remote@;
    assert(waiting.skip(n) =~= rest) by {
        assert(waiting == waiting.take(n) + rest);
        assert((waiting.take(n) + rest).skip(n) =~= rest);
    }
    vstd::seq_lib::lemma_multiset_commutative(after.reclaimer.pending@, after.reclaimer.remote@);
    vstd::seq_lib::lemma_multiset_commutative(refilled.reclaimer.pending@, given_up);
    vstd::seq_lib::lemma_multiset_commutative(
        refilled.reclaimer.pending@,
        refilled.reclaimer.remote@,
    );
    assert((after.reclaimer.pending@ + after.reclaimer.remote@).to_multiset() =~= waiting.skip(
        n,
    ).to_multiset().add(given_up.to_multiset()));
}

/// The limits of the socket: one segment and one datagram for each descriptor, 64 in a batch.
pub proof fn law_limits_of_the_socket()
    ensures
        MAX_SEGMENTS == 1 && MAX_GSO == 1 && MAX_GRO == 1 && MAX_BATCH == 64,
{
}

} // verus!
