//! UDP packet socket of the operating system: batching, zerocopy bookkeeping and what to make
//! of the kernel's answers. The system calls are the caller's.

use crate::addr::{IpAddr, SocketAddr};
use crate::interface::{PacketBuf, PacketBufMut, RecvMeta, ScatterGather, Segment, Transmit};
use crate::net::{IPV4_MAX_UDP_PAYLOAD, IPV6_MAX_UDP_PAYLOAD};
use crate::os::buffers::{OsBuf, OsBufMut, OsPool};
use std::collections::VecDeque;
use vstd::prelude::*;

verus! {

/// Comfortable practical ceiling for `sendmmsg` scatter-gather. Linux's
/// kernel limit is `UIO_MAXIOV = 1024`, but no QUIC workload realistically
/// builds anywhere near that many segments per datagram.
pub const MAX_SEGMENTS: usize = 64;

/// Size of a recv or send batch.
pub const MAX_BATCH: usize = 64;

/// The socket does no segmentation offload.
pub const MAX_GSO: usize = 1;

pub const MSG_TRUNC: i32 = 0x20;

pub const MSG_DONTWAIT: i32 = 0x40;

pub const MSG_ZEROCOPY: i32 = 0x400_0000;

pub const ENOBUFS: i32 = 105;

/// Also `EWOULDBLOCK`.
pub const EAGAIN: i32 = 11;

/// Values of <linux/errqueue.h>; stable kernel UAPI.
pub const SO_EE_ORIGIN_ZEROCOPY: u8 = 5;

pub const SO_EE_CODE_ZEROCOPY_COPIED: u8 = 1;

/// Protocol levels, options and their values that forbid fragmentation.
pub const IPPROTO_IP: i32 = 0;

pub const IP_MTU_DISCOVER: i32 = 10;

pub const IP_PMTUDISC_DO: i32 = 2;

pub const IPPROTO_IPV6: i32 = 41;

pub const IPV6_MTU_DISCOVER: i32 = 23;

pub const IPV6_PMTUDISC_DO: i32 = 2;

/// `slice::swap` of std: swaps two elements.
#[verifier::external_body]
fn swap_bufs(bufs: &mut Vec<OsBufMut>, a: usize, b: usize)
    requires
        a < old(bufs)@.len(),
        b < old(bufs)@.len(),
    ensures
        final(bufs)@ == old(bufs)@.update(a as int, old(bufs)@[b as int]).update(
            b as int,
            old(bufs)@[a as int],
        ),
{
    bufs.swap(a, b)
}

/// A packet of OS buffers to be sent.
pub type OsTransmit = Transmit<ScatterGather<OsBuf>>;

/// A socket option to set.
#[derive(Debug, Clone, Copy, PartialEq, Eq, Structural)]
pub struct SocketOption {
    pub level: i32,
    pub name: i32,
    pub value: i32,
}

/// The error that the kernel reports of a send.
#[derive(Debug, Clone, Copy)]
pub struct SockExtendedErr {
    pub ee_errno: u32,
    pub ee_origin: u8,
    pub ee_type: u8,
    pub ee_code: u8,
    pub ee_pad: u8,
    pub ee_info: u32,
    pub ee_data: u32,
}

/// A batch for one `sendmmsg`: the first `n` packets, with these flags.
#[derive(Debug, Clone, Copy, PartialEq, Eq, Structural)]
pub struct SendBatch {
    pub n: usize,
    pub flags: i32,
}

/// What came of a `sendmmsg`.
#[derive(Debug, Clone, Copy, PartialEq, Eq, Structural)]
pub enum SendOutcome {
    /// The first `count` packets were accepted.
    Sent { count: usize },
    /// None was.
    Failed { errno: i32 },
}

/// What to do after a batch.
#[derive(Debug, Clone, Copy, PartialEq, Eq, Structural)]
pub enum SendStep {
    /// Send the next batch; `sent` packets of this one were accepted.
    Again { sent: usize },
    /// Stop for now; `sent` packets of this batch were accepted.
    Done { sent: usize },
}

/// What came of a `recvmmsg`.
#[derive(Debug, Clone, Copy, PartialEq, Eq, Structural)]
pub enum RecvOutcome {
    /// The first `count` messages were filled.
    Received { count: usize },
    /// None was.
    Failed { errno: i32 },
}

/// What to do after a receive.
#[derive(Debug, Clone, Copy, PartialEq, Eq, Structural)]
pub enum RecvStep {
    /// Hand on the first `count` messages.
    Received { count: usize },
    /// There is nothing to receive now.
    Nothing,
    /// The receive failed.
    Fail { errno: i32 },
}

/// A message that `recvmmsg` filled: its flags, its length and its sender, where the address
/// was of a known family.
#[derive(Debug, Clone, Copy)]
pub struct RecvSlot {
    pub msg_flags: i32,
    pub msg_len: u32,
    pub src: Option<SocketAddr>,
}

/// A packet that the socket cannot send.
#[derive(Debug, Clone, Copy, PartialEq, Eq, Structural)]
pub enum TransmitViolation {
    /// It has more segments than the socket takes.
    TooManySegments { index: usize, segments: usize },
    /// It asks for segmentation offload, which the socket has not.
    GsoUnsupported { index: usize, segment_size: usize },
}

/// Whether a packet breaks a limit.
pub open spec fn violates(transmit: OsTransmit, max_segments: usize, max_gso: usize) -> bool {
    ||| transmit.contents@.len() > max_segments
    ||| max_gso == 1 && transmit.segment_size is Some
}

/// The first packet that breaks a limit. Catches caller contract violations before any I/O
/// state is changed, so retries with a corrected batch are still possible.
pub fn check_transmit_invariants(
    transmits: &Vec<OsTransmit>,
    max_segments: usize,
    max_gso: usize,
) -> (result: Result<(), TransmitViolation>)
    requires
        forall|i: int| 0 <= i < transmits@.len() ==> (#[trigger] transmits@[i]).contents.wf(),
    ensures
        result is Ok <==> forall|i: int|
            0 <= i < transmits@.len() ==> !violates(#[trigger] transmits@[i], max_segments, max_gso),
        match result {
            Ok(_) => true,
            Err(TransmitViolation::TooManySegments { index, segments }) => {
                &&& index < transmits@.len()
                &&& forall|i: int|
                    0 <= i < index ==> !violates(#[trigger] transmits@[i], max_segments, max_gso)
                &&& segments == transmits@[index as int].contents@.len()
                &&& segments > max_segments
            },
            Err(TransmitViolation::GsoUnsupported { index, segment_size }) => {
                &&& index < transmits@.len()
                &&& forall|i: int|
                    0 <= i < index ==> !violates(#[trigger] transmits@[i], max_segments, max_gso)
                &&& transmits@[index as int].contents@.len() <= max_segments
                &&& max_gso == 1
                &&& transmits@[index as int].segment_size == Some(segment_size)
            },
        },
{
    let mut i: usize = 0;
    while i < transmits.len()
        invariant
            i <= transmits@.len(),
            forall|j: int| 0 <= j < transmits@.len() ==> (#[trigger] transmits@[j]).contents.wf(),
            forall|j: int|
                0 <= j < i ==> !violates(#[trigger] transmits@[j], max_segments, max_gso),
        decreases transmits@.len() - i,
    {
        let t = &transmits[i];
        let segments: usize = t.contents.segment_count();
        if segments > max_segments {
            assert(violates(transmits@[i as int], max_segments, max_gso));
            return Err(TransmitViolation::TooManySegments { index: i, segments });
        }
        if max_gso == 1 {
            if let Some(segment_size) = t.segment_size {
                assert(violates(transmits@[i as int], max_segments, max_gso));
                return Err(TransmitViolation::GsoUnsupported { index: i, segment_size });
            }
        }
        i += 1;
    }
    Ok(())
}

/// Number of segments of packets.
pub open spec fn segment_total(transmits: Seq<OsTransmit>) -> nat
    decreases transmits.len(),
{
    if transmits.len() == 0 {
        0
    } else {
        segment_total(transmits.drop_last()) + transmits.last().contents@.len()
    }
}

proof fn lemma_segment_total_prefix(all: Seq<OsTransmit>, n: int)
    requires
        0 <= n <= all.len(),
    ensures
        segment_total(all.take(n)) <= segment_total(all),
    decreases all.len() - n,
{
    if n < all.len() {
        lemma_segment_total_prefix(all, n + 1);
        assert(all.take(n + 1).drop_last() =~= all.take(n));
    } else {
        assert(all.take(n) =~= all);
    }
}

/// Where each packet's segments lie in the list of all segments of the first `n` packets:
/// start and count.
pub fn segment_ranges(transmits: &Vec<OsTransmit>, n: usize) -> (ranges: Vec<(usize, usize)>)
    requires
        n <= transmits@.len(),
        forall|i: int| 0 <= i < transmits@.len() ==> (#[trigger] transmits@[i]).contents.wf(),
        segment_total(transmits@.take(n as int)) <= usize::MAX,
    ensures
        ranges@.len() == n,
        forall|i: int|
            0 <= i < n ==> #[trigger] ranges@[i] == (
                segment_total(transmits@.take(i)) as usize,
                transmits@[i].contents@.len() as usize,
            ) && segment_total(transmits@.take(i)) + transmits@[i].contents@.len() <= usize::MAX,
{
    let ghost all = transmits@.take(n as int);
    let mut ranges: Vec<(usize, usize)> = Vec::with_capacity(n);
    let mut start: usize = 0;
    let mut i: usize = 0;
    assert(transmits@.take(0) =~= Seq::<OsTransmit>::empty());
    while i < n
        invariant
            i <= n <= transmits@.len(),
            all == transmits@.take(n as int),
            segment_total(all) <= usize::MAX,
            forall|j: int| 0 <= j < transmits@.len() ==> (#[trigger] transmits@[j]).contents.wf(),
            start == segment_total(transmits@.take(i as int)),
            ranges@.len() == i,
            forall|j: int|
                0 <= j < i ==> #[trigger] ranges@[j] == (
                    segment_total(transmits@.take(j)) as usize,
                    transmits@[j].contents@.len() as usize,
                ) && segment_total(transmits@.take(j)) + transmits@[j].contents@.len()
                    <= usize::MAX,
        decreases n - i,
    {
        let count: usize = transmits[i].contents.segment_count();
        proof {
            lemma_segment_total_prefix(all, i + 1);
            assert(all.take(i + 1) =~= transmits@.take(i + 1));
            assert(transmits@.take(i + 1).drop_last() =~= transmits@.take(i as int));
        }
        ranges.push((start, count));
        start += count;
        i += 1;
    }
    ranges
}

/// Ids of the nodes among buffers that are of the pool with a name, in order.
pub open spec fn pooled_ids(bufs: Seq<OsBuf>, name: u64) -> Seq<u64>
    decreases bufs.len(),
{
    if bufs.len() == 0 {
        Seq::empty()
    } else if bufs.last().pooled && bufs.last().node.pool == name {
        pooled_ids(bufs.drop_last(), name).push(bufs.last().node.id)
    } else {
        pooled_ids(bufs.drop_last(), name)
    }
}

/// The buffers that are of other pools than the one with a name, in order.
pub open spec fn stray_bufs(bufs: Seq<OsBuf>, name: u64) -> Seq<OsBuf>
    decreases bufs.len(),
{
    if bufs.len() == 0 {
        Seq::empty()
    } else if bufs.last().pooled && bufs.last().node.pool != name {
        stray_bufs(bufs.drop_last(), name).push(bufs.last())
    } else {
        stray_bufs(bufs.drop_last(), name)
    }
}

/// The buffers of packets, in order.
pub open spec fn transmit_bufs(transmits: Seq<OsTransmit>) -> Seq<OsBuf>
    decreases transmits.len(),
{
    if transmits.len() == 0 {
        Seq::empty()
    } else {
        transmit_bufs(transmits.drop_last()) + transmits.last().contents@.map_values(
            |s: Segment<OsBuf>| s.buf,
        )
    }
}

proof fn lemma_pooled_ids_add(a: Seq<OsBuf>, b: Seq<OsBuf>, name: u64)
    ensures
        pooled_ids(a + b, name) == pooled_ids(a, name) + pooled_ids(b, name),
        stray_bufs(a + b, name) == stray_bufs(a, name) + stray_bufs(b, name),
    decreases b.len(),
{
    if b.len() == 0 {
        assert(a + b =~= a);
        assert(pooled_ids(a, name) + pooled_ids(b, name) =~= pooled_ids(a, name));
        assert(stray_bufs(a, name) + stray_bufs(b, name) =~= stray_bufs(a, name));
    } else {
        lemma_pooled_ids_add(a, b.drop_last(), name);
        assert((a + b).drop_last() =~= a + b.drop_last());
        assert((a + b).last() == b.last());
        assert(pooled_ids(a + b, name) =~= pooled_ids(a, name) + pooled_ids(b, name));
        assert(stray_bufs(a + b, name) =~= stray_bufs(a, name) + stray_bufs(b, name));
    }
}

/// UDP socket state: the RX queue index, whether zerocopy is on, the accepted packets held
/// until the kernel is done with them, and the buffer pool. `strays` are buffers that were sent
/// and belong to other pools: they are to be given back there.
pub struct OsSocket {
    pub queue_id: u16,
    pub zerocopy_enabled: bool,
    pub zc_in_flight: VecDeque<OsTransmit>,
    pub pool: OsPool,
    pub strays: Vec<OsBuf>,
}

impl OsSocket {
    /// The pool is in order, and so are the packets in flight.
    pub open spec fn wf(self) -> bool {
        &&& self.pool.wf()
        &&& forall|i: int|
            0 <= i < self.zc_in_flight@.len() ==> (#[trigger] self.zc_in_flight@[i]).contents.wf()
    }

    /// Largest UDP payload from the socket's bound address family.
    /// Falls back to the conservative IPv6 value if the address is not known.
    pub fn max_payload_for(local: Option<SocketAddr>) -> (n: usize)
        ensures
            n == (match local {
                Some(addr) => match addr.ip {
                    IpAddr::V4(_) => IPV4_MAX_UDP_PAYLOAD,
                    IpAddr::V6(_) => IPV6_MAX_UDP_PAYLOAD,
                },
                None => IPV6_MAX_UDP_PAYLOAD,
            }),
    {
        match local {
            Some(addr) => if addr.is_ipv4() {
                IPV4_MAX_UDP_PAYLOAD
            } else {
                IPV6_MAX_UDP_PAYLOAD
            },
            None => IPV6_MAX_UDP_PAYLOAD,
        }
    }

    /// The option that forbids IP fragmentation on outgoing datagrams. Only the matching
    /// protocol level is configured: setting an IPv6 option on an IPv4-bound socket fails, and
    /// vice versa.
    pub fn fragmentation_option(max_payload: usize) -> (option: SocketOption)
        ensures
            max_payload == IPV4_MAX_UDP_PAYLOAD ==> option == (SocketOption {
                level: IPPROTO_IP,
                name: IP_MTU_DISCOVER,
                value: IP_PMTUDISC_DO,
            }),
            max_payload != IPV4_MAX_UDP_PAYLOAD ==> option == (SocketOption {
                level: IPPROTO_IPV6,
                name: IPV6_MTU_DISCOVER,
                value: IPV6_PMTUDISC_DO,
            }),
    {
        if max_payload == IPV4_MAX_UDP_PAYLOAD {
            SocketOption { level: IPPROTO_IP, name: IP_MTU_DISCOVER, value: IP_PMTUDISC_DO }
        } else {
            SocketOption { level: IPPROTO_IPV6, name: IPV6_MTU_DISCOVER, value: IPV6_PMTUDISC_DO }
        }
    }

    /// The state of a fresh socket: bound to `local`, with zerocopy as the kernel granted it,
    /// and a pool owned by thread `owner`.
    pub fn from_udp(
        local: Option<SocketAddr>,
        zerocopy_enabled: bool,
        queue_id: u16,
        owner: u64,
    ) -> (socket: OsSocket)
        ensures
            socket.wf(),
            socket.queue_id == queue_id,
            socket.zerocopy_enabled == zerocopy_enabled,
            socket.zc_in_flight@ == Seq::<OsTransmit>::empty(),
            socket.pool.spec_owner() == owner,
            socket.pool.spec_max_payload() == (match local {
                Some(addr) => match addr.ip {
                    IpAddr::V4(_) => IPV4_MAX_UDP_PAYLOAD,
                    IpAddr::V6(_) => IPV6_MAX_UDP_PAYLOAD,
                },
                None => IPV6_MAX_UDP_PAYLOAD,
            }),
            socket.pool.local_ids() == Seq::<u64>::empty(),
            socket.pool.remote_ids() == Seq::<u64>::empty(),
            socket.pool.spec_next_id() == 0,
            socket.pool.spec_name() == 0,
            socket.strays@ == Seq::<OsBuf>::empty(),
    {
        let max_payload: usize = OsSocket::max_payload_for(local);
        OsSocket {
            queue_id,
            zerocopy_enabled,
            zc_in_flight: VecDeque::new(),
            pool: OsPool::with_max_payload(max_payload, owner),
            strays: Vec::new(),
        }
    }

    /// Index of the RX queue.
    pub fn queue_id(&self) -> (id: u16)
        ensures
            id == self.queue_id,
    {
        self.queue_id
    }

    /// Override the RX queue index used for QUIC-LB CID encoding / steering.
    pub fn set_queue_id(&mut self, queue_id: u16)
        ensures
            *final(self) == (OsSocket { queue_id, ..*old(self) }),
    {
        self.queue_id = queue_id;
    }

    /// The next batch. The flags are computed anew each time, so that a batch is retried
    /// without `MSG_ZEROCOPY` once zerocopy is off.
    pub fn next_batch(&self, transmits: &Vec<OsTransmit>) -> (batch: SendBatch)
        ensures
            batch.n == vstd::math::min(transmits@.len() as int, MAX_BATCH as int),
            batch.flags == (if self.zerocopy_enabled {
                MSG_DONTWAIT | MSG_ZEROCOPY
            } else {
                MSG_DONTWAIT | 0
            }),
    {
        let zerocopy: i32 = if self.zerocopy_enabled {
            MSG_ZEROCOPY
        } else {
            0
        };
        let n: usize = if transmits.len() < MAX_BATCH {
            transmits.len()
        } else {
            MAX_BATCH
        };
        SendBatch { n, flags: MSG_DONTWAIT | zerocopy }
    }

    /// Gives the buffers of a packet back to the pool, and puts those of other pools aside.
    fn release(&mut self, transmit: OsTransmit)
        requires
            old(self).wf(),
            transmit.contents.wf(),
        ensures
            final(self).wf(),
            final(self).queue_id == old(self).queue_id,
            final(self).zerocopy_enabled == old(self).zerocopy_enabled,
            final(self).zc_in_flight == old(self).zc_in_flight,
            released(
                *old(self),
                *final(self),
                transmit.contents@.map_values(|s: Segment<OsBuf>| s.buf),
            ),
    {
        let owner: u64 = self.pool.owner();
        let mut bufs: Vec<OsBuf> = transmit.contents.into_bufs();
        let ghost all = bufs@;
        let ghost mut n: int = 0;
        let ghost ids0 = self.pool.local_ids();
        let ghost strays0 = self.strays@;
        let ghost name = self.pool.spec_name();
        assert(all.take(0) =~= Seq::<OsBuf>::empty());
        assert(self.pool.local_ids() =~= ids0 + pooled_ids(all.take(0), name));
        assert(self.strays@ =~= strays0 + stray_bufs(all.take(0), name));
        assert(all.skip(0) =~= all);
        while bufs.len() > 0
            invariant
                self.wf(),
                owner == self.pool.spec_owner(),
                self.queue_id == old(self).queue_id,
                self.zerocopy_enabled == old(self).zerocopy_enabled,
                self.zc_in_flight == old(self).zc_in_flight,
                0 <= n <= all.len(),
                bufs@ == all.skip(n),
                self.pool.local_ids() == ids0 + pooled_ids(all.take(n), name),
                self.strays@ == strays0 + stray_bufs(all.take(n), name),
                name == self.pool.spec_name() == old(self).pool.spec_name(),
                self.pool.remote_ids() == old(self).pool.remote_ids(),
                self.pool.spec_next_id() == old(self).pool.spec_next_id(),
                self.pool.spec_max_payload() == old(self).pool.spec_max_payload(),
                self.pool.spec_owner() == old(self).pool.spec_owner(),
            decreases bufs@.len(),
        {
            let buf = bufs.remove(0);
            match self.pool.reclaim(buf, owner) {
                Some(stray) => {
                    self.strays.push(stray);
                },
                None => {},
            }
            proof {
                assert(all.skip(n).remove(0) =~= all.skip(n + 1));
                assert(all.take(n + 1).drop_last() =~= all.take(n));
                assert(all.take(n + 1).last() == buf);
                n = n + 1;
                assert(self.pool.local_ids() =~= ids0 + pooled_ids(all.take(n), name));
                assert(self.strays@ =~= strays0 + stray_bufs(all.take(n), name));
            }
        }
        assert(all.take(n) =~= all);
    }

    /// Takes in what came of a batch. Accepted packets leave the front of `transmits`: with
    /// zerocopy they are held (the kernel still owns the bytes until completion), else their
    /// buffers go back to the pool (the kernel has already copied), or to the strays where they
    /// are of another pool.
    ///
    /// `ENOBUFS` with zerocopy says that the kernel's notification queue is exhausted: zerocopy
    /// is given up and the batch is retried, so connections don't stall forever. Fewer packets
    /// accepted than offered is a soft limit of the kernel; the caller can retry later.
    pub fn after_send(
        &mut self,
        transmits: &mut Vec<OsTransmit>,
        n: usize,
        outcome: SendOutcome,
    ) -> (step: SendStep)
        requires
            old(self).wf(),
            n <= old(transmits)@.len(),
            forall|i: int|
                0 <= i < old(transmits)@.len() ==> (#[trigger] old(transmits)@[i]).contents.wf(),
            outcome matches SendOutcome::Sent { count } ==> count <= n,
        ensures
            final(self).wf(),
            final(self).queue_id == old(self).queue_id,
            match outcome {
                SendOutcome::Failed { errno } => {
                    let exhausted = old(self).zerocopy_enabled && errno == ENOBUFS;
                    &&& final(transmits)@ == old(transmits)@
                    &&& final(self).zerocopy_enabled == (old(self).zerocopy_enabled && !exhausted)
                    &&& final(self).zc_in_flight == old(self).zc_in_flight
                    &&& final(self).pool == old(self).pool
                    &&& final(self).strays == old(self).strays
                    &&& step == (if exhausted {
                        SendStep::Again { sent: 0 }
                    } else {
                        SendStep::Done { sent: 0 }
                    })
                },
                SendOutcome::Sent { count } => {
                    let sent = old(transmits)@.take(count as int);
                    &&& final(transmits)@ == old(transmits)@.skip(count as int)
                    &&& final(self).zerocopy_enabled == old(self).zerocopy_enabled
                    &&& old(self).zerocopy_enabled ==> final(self).zc_in_flight@ == old(
                        self,
                    ).zc_in_flight@ + sent && final(self).pool == old(self).pool
                        && final(self).strays == old(self).strays
                    &&& !old(self).zerocopy_enabled ==> final(self).zc_in_flight == old(
                        self,
                    ).zc_in_flight && released(*old(self), *final(self), transmit_bufs(sent))
                    &&& step == (if count < n || count == old(transmits)@.len() {
                        SendStep::Done { sent: count }
                    } else {
                        SendStep::Again { sent: count }
                    })
                },
            },
    {
        match outcome {
            SendOutcome::Failed { errno } => {
                if self.zerocopy_enabled && errno == ENOBUFS {
                    self.zerocopy_enabled = false;
                    SendStep::Again { sent: 0 }
                } else {
                    SendStep::Done { sent: 0 }
                }
            },
            SendOutcome::Sent { count } => {
                let ghost all = transmits@;
                let mut k: usize = 0;
                let ghost held0 = self.zc_in_flight@;
                let ghost before = *self;
                let ghost name = self.pool.spec_name();
                assert(all.take(0) =~= Seq::<OsTransmit>::empty());
                assert(all.skip(0) =~= all);
                assert(held0 + all.take(0) =~= held0);
                assert(before.pool.local_ids() + pooled_ids(transmit_bufs(all.take(0)), name)
                    =~= before.pool.local_ids());
                assert(before.strays@ + stray_bufs(transmit_bufs(all.take(0)), name)
                    =~= before.strays@);
                while k < count
                    invariant
                        k <= count <= all.len(),
                        self.wf(),
                        self.queue_id == old(self).queue_id,
                        self.zerocopy_enabled == old(self).zerocopy_enabled,
                        transmits@ == all.skip(k as int),
                        forall|i: int|
                            0 <= i < all.len() ==> (#[trigger] all[i]).contents.wf(),
                        before == *old(self),
                        name == before.pool.spec_name(),
                        self.zerocopy_enabled ==> self.zc_in_flight@ == held0 + all.take(k as int)
                            && self.pool == before.pool && self.strays == before.strays,
                        !self.zerocopy_enabled ==> self.zc_in_flight == old(self).zc_in_flight
                            && released(before, *self, transmit_bufs(all.take(k as int))),
                    decreases count - k,
                {
                    let t = transmits.remove(0);
                    proof {
                        assert(t == all[k as int]);
                        assert(all.skip(k as int).remove(0) =~= all.skip(k + 1));
                        assert(all.take(k + 1) =~= all.take(k as int).push(t));
                        assert(all.take(k + 1).drop_last() =~= all.take(k as int));
                    }
                    if self.zerocopy_enabled {
                        self.zc_in_flight.push_back(t);
                        assert(self.zc_in_flight@ =~= held0 + all.take(k + 1));
                    } else {
                        let ghost bufs = t.contents@.map_values(|s: Segment<OsBuf>| s.buf);
                        self.release(t);
                        proof {
                            lemma_pooled_ids_add(transmit_bufs(all.take(k as int)), bufs, name);
                            assert(self.pool.local_ids() =~= before.pool.local_ids() + pooled_ids(
                                transmit_bufs(all.take(k + 1)),
                                name,
                            ));
                            assert(self.strays@ =~= before.strays@ + stray_bufs(
                                transmit_bufs(all.take(k + 1)),
                                name,
                            ));
                        }
                    }
                    k += 1;
                }
                if count < n || transmits.len() == 0 {
                    SendStep::Done { sent: count }
                } else {
                    SendStep::Again { sent: count }
                }
            },
        }
    }

    /// Takes in one notification from the error queue. It covers a range
    /// `[ee_info, ee_data]` (inclusive) of zerocopy ids; ids are assigned in submission order,
    /// so that many packets leave the front of those in flight. Returns how many did.
    ///
    /// If the kernel signals that it fell back to copying, zerocopy is off for all future
    /// sends: there is no benefit from pinning pages when the kernel copies anyway.
    pub fn complete(&mut self, err: &SockExtendedErr) -> (freed: usize)
        requires
            old(self).wf(),
        ensures
            final(self).wf(),
            final(self).queue_id == old(self).queue_id,
            err.ee_origin != SO_EE_ORIGIN_ZEROCOPY ==> freed == 0 && *final(self) == *old(self),
            err.ee_origin == SO_EE_ORIGIN_ZEROCOPY ==> {
                &&& freed == vstd::math::min(
                    err.ee_data.wrapping_sub(err.ee_info).wrapping_add(1) as int,
                    old(self).zc_in_flight@.len() as int,
                )
                &&& final(self).zerocopy_enabled == (old(self).zerocopy_enabled && err.ee_code
                    != SO_EE_CODE_ZEROCOPY_COPIED)
                &&& final(self).zc_in_flight@ == old(self).zc_in_flight@.skip(freed as int)
                &&& released(
                    *old(self),
                    *final(self),
                    transmit_bufs(old(self).zc_in_flight@.take(freed as int)),
                )
            },
    {
        if err.ee_origin != SO_EE_ORIGIN_ZEROCOPY {
            return 0;
        }
        if err.ee_code == SO_EE_CODE_ZEROCOPY_COPIED {
            self.zerocopy_enabled = false;
        }
        let count: u32 = err.ee_data.wrapping_sub(err.ee_info).wrapping_add(1);
        let ghost all = self.zc_in_flight@;
        let ghost before = *self;
        let ghost name = self.pool.spec_name();
        let ghost zerocopy = self.zerocopy_enabled;
        let mut freed: usize = 0;
        assert(all.take(0) =~= Seq::<OsTransmit>::empty());
        assert(all.skip(0) =~= all);
        assert(before.pool.local_ids() + pooled_ids(transmit_bufs(all.take(0)), name)
            =~= before.pool.local_ids());
        assert(before.strays@ + stray_bufs(transmit_bufs(all.take(0)), name) =~= before.strays@);
        while freed < count as usize
            invariant_except_break
                freed <= count,
            invariant
                freed <= count,
                freed <= all.len(),
                self.wf(),
                self.queue_id == old(self).queue_id,
                self.zerocopy_enabled == zerocopy,
                self.zc_in_flight@ == all.skip(freed as int),
                forall|i: int| 0 <= i < all.len() ==> (#[trigger] all[i]).contents.wf(),
                name == before.pool.spec_name(),
                released(before, *self, transmit_bufs(all.take(freed as int))),
            ensures
                freed == vstd::math::min(count as int, all.len() as int),
            decreases count - freed,
        {
            match self.zc_in_flight.pop_front() {
                None => {
                    break ;
                },
                Some(t) => {
                    proof {
                        assert(t == all[freed as int]);
                        assert(all.skip(freed as int).subrange(1, all.len() - freed) =~= all.skip(
                            freed + 1,
                        ));
                        assert(all.take(freed + 1).drop_last() =~= all.take(freed as int));
                        lemma_pooled_ids_add(
                            transmit_bufs(all.take(freed as int)),
                            t.contents@.map_values(|s: Segment<OsBuf>| s.buf),
                            name,
                        );
                        assert forall|i: int| 0 <= i < self.zc_in_flight@.len() implies (
                        #[trigger] self.zc_in_flight@[i]).contents.wf() by {
                            assert(self.zc_in_flight@[i] == all[freed + 1 + i]);
                        }
                    }
                    self.release(t);
                    freed += 1;
                    assert(self.pool.local_ids() =~= before.pool.local_ids() + pooled_ids(
                        transmit_bufs(all.take(freed as int)),
                        name,
                    ));
                    assert(self.strays@ =~= before.strays@ + stray_bufs(
                        transmit_bufs(all.take(freed as int)),
                        name,
                    ));
                },
            }
        }
        freed
    }

    /// What follows from a receive: a socket that would block has nothing, which is no error.
    pub fn after_recv(outcome: RecvOutcome) -> (step: RecvStep)
        ensures
            step == match outcome {
                RecvOutcome::Received { count } => RecvStep::Received { count },
                RecvOutcome::Failed { errno } => if errno == EAGAIN {
                    RecvStep::Nothing
                } else {
                    RecvStep::Fail { errno }
                },
            },
    {
        match outcome {
            RecvOutcome::Received { count } => RecvStep::Received { count },
            RecvOutcome::Failed { errno } => if errno == EAGAIN {
                RecvStep::Nothing
            } else {
                RecvStep::Fail { errno }
            },
        }
    }

    /// How many messages to ask the kernel for.
    pub fn recv_limit(metas: usize, bufs: usize) -> (n: usize)
        ensures
            n == vstd::math::min(vstd::math::min(metas as int, bufs as int), MAX_BATCH as int),
    {
        let n: usize = if metas < bufs {
            metas
        } else {
            bufs
        };
        if n < MAX_BATCH {
            n
        } else {
            MAX_BATCH
        }
    }
}

/// Whether a message is handed on: not cut short for want of room (as any datagram is that was
/// reassembled from fragments), and with a known sender.
pub open spec fn acceptable(slot: RecvSlot) -> bool {
    slot.msg_flags & MSG_TRUNC == 0 && slot.src is Some
}

/// Indices of the messages among the first `n` that are handed on.
pub open spec fn accepted(slots: Seq<RecvSlot>, n: nat) -> Seq<int>
    decreases n,
{
    if n == 0 {
        Seq::empty()
    } else if acceptable(slots[n - 1]) {
        accepted(slots, (n - 1) as nat).push(n - 1)
    } else {
        accepted(slots, (n - 1) as nat)
    }
}

/// The metadata of a message.
pub open spec fn slot_meta(slot: RecvSlot) -> RecvMeta {
    RecvMeta {
        src: slot.src->Some_0,
        dst_ip: None,
        ecn: None,
        len: slot.msg_len as usize,
        stride: slot.msg_len as usize,
    }
}

/// Whether `after` holds the nodes of `before` in the order that `order` gives, and from `valid`
/// on the very buffers, with their filled lengths.
pub open spec fn rearranged(
    before: Seq<OsBufMut>,
    after: Seq<OsBufMut>,
    order: Seq<int>,
    valid: int,
) -> bool {
    &&& order.len() == before.len() == after.len()
    &&& order.no_duplicates()
    &&& forall|i: int|
        0 <= i < order.len() ==> {
            &&& 0 <= #[trigger] order[i] < before.len()
            &&& after[i].node == before[order[i]].node
            &&& i >= valid ==> after[i] == before[order[i]]
        }
}

proof fn lemma_accepted_bound(slots: Seq<RecvSlot>, n: nat)
    ensures
        accepted(slots, n).len() <= n,
        forall|i: int|
            0 <= i < accepted(slots, n).len() ==> 0 <= #[trigger] accepted(slots, n)[i] < n,
    decreases n,
{
    if n > 0 {
        lemma_accepted_bound(slots, (n - 1) as nat);
    }
}

/// Hands the received messages on: message `i` was written to `bufs[i]`. The acceptable ones
/// are packed into the leading slots of `meta` and `bufs`, in order, and counted; the others
/// are dropped silently.
pub fn compact_received(
    slots: &[RecvSlot],
    meta: &mut Vec<RecvMeta>,
    bufs: &mut Vec<OsBufMut>,
) -> (valid: usize)
    requires
        slots@.len() <= old(meta)@.len(),
        slots@.len() <= old(bufs)@.len(),
        forall|i: int|
            0 <= i < slots@.len() && acceptable(#[trigger] slots@[i]) ==> slots@[i].msg_len <= old(
                bufs,
            )@[i].spec_capacity(),
    ensures
        valid == accepted(slots@, slots@.len()).len(),
        final(meta)@.len() == old(meta)@.len(),
        forall|j: int|
            0 <= j < valid ==> #[trigger] final(meta)@[j] == slot_meta(
                slots@[accepted(slots@, slots@.len())[j]],
            ),
        forall|j: int| valid <= j < old(meta)@.len() ==> final(meta)@[j] == old(meta)@[j],
        final(bufs)@.len() == old(bufs)@.len(),
        forall|j: int|
            0 <= j < valid ==> {
                let i = accepted(slots@, slots@.len())[j];
                &&& (#[trigger] final(bufs)@[j]).node == old(bufs)@[i].node
                &&& final(bufs)@[j].data_len == slots@[i].msg_len
            },
        forall|j: int|
            slots@.len() <= j < old(bufs)@.len() ==> #[trigger] final(bufs)@[j] == old(bufs)@[j],
        exists|order: Seq<int>| rearranged(old(bufs)@, final(bufs)@, order, valid as int),
{
    let ghost bufs0 = bufs@;
    let ghost meta0 = meta@;
    let ghost mut order: Seq<int> = Seq::new(bufs0.len(), |i: int| i);
    let received: usize = slots.len();
    let mut valid: usize = 0;
    let mut i: usize = 0;
    while i < received
        invariant
            received == slots@.len(),
            i <= received,
            received <= meta0.len(),
            received <= bufs0.len(),
            forall|j: int|
                0 <= j < slots@.len() && acceptable(#[trigger] slots@[j]) ==> slots@[j].msg_len
                    <= bufs0[j].spec_capacity(),
            valid <= i,
            valid == accepted(slots@, i as nat).len(),
            meta@.len() == meta0.len(),
            bufs@.len() == bufs0.len(),
            forall|j: int|
                0 <= j < valid ==> #[trigger] meta@[j] == slot_meta(
                    slots@[accepted(slots@, i as nat)[j]],
                ),
            forall|j: int| valid <= j < meta0.len() ==> meta@[j] == meta0[j],
            forall|j: int|
                0 <= j < valid ==> {
                    let k = accepted(slots@, i as nat)[j];
                    &&& (#[trigger] bufs@[j]).node == bufs0[k].node
                    &&& bufs@[j].data_len == slots@[k].msg_len
                },
            forall|j: int| i <= j < bufs0.len() ==> #[trigger] bufs@[j] == bufs0[j],
            rearranged(bufs0, bufs@, order, valid as int),
        decreases received - i,
    {
        let slot = slots[i];
        proof {
            lemma_accepted_bound(slots@, i as nat);
        }
        if slot.msg_flags & MSG_TRUNC == 0 {
            if let Some(src) = slot.src {
                assert(acceptable(slots@[i as int]));
                let ghost before = bufs@;
                if valid != i {
                    swap_bufs(bufs, valid, i);
                    proof {
                        order = order.update(valid as int, order[i as int]).update(
                            i as int,
                            order[valid as int],
                        );
                    }
                }
                let msg_len: usize = slot.msg_len as usize;
                bufs[valid].set_filled(msg_len);
                meta[valid] = RecvMeta {
                    src,
                    dst_ip: None,
                    ecn: None,
                    len: msg_len,
                    stride: msg_len,
                };
                valid += 1;
            }
        }
        i += 1;
    }
    valid
}

/// Whether buffers were given back on the thread of the pool's owner, in order: those of the pool to
/// it, those of other pools to the strays.
pub open spec fn released(before: OsSocket, after: OsSocket, bufs: Seq<OsBuf>) -> bool {
    let name = before.pool.spec_name();
    &&& after.pool.local_ids() == before.pool.local_ids() + pooled_ids(bufs, name)
    &&& after.pool.remote_ids() == before.pool.remote_ids()
    &&& after.pool.spec_next_id() == before.pool.spec_next_id()
    &&& after.pool.spec_max_payload() == before.pool.spec_max_payload()
    &&& after.pool.spec_owner() == before.pool.spec_owner()
    &&& after.pool.spec_name() == name
    &&& after.strays@ == before.strays@ + stray_bufs(bufs, name)
}

/// A buffer that is given up comes back once: each one that came from a pool goes to this pool or
/// to the strays.
pub proof fn law_nodes_come_back_once(bufs: Seq<OsBuf>, name: u64)
    ensures
        pooled_ids(bufs, name).len() + stray_bufs(bufs, name).len() == crate::tile::network::pooled_count::<
            OsPool,
        >(bufs),
    decreases bufs.len(),
{
    if bufs.len() > 0 {
        law_nodes_come_back_once(bufs.drop_last(), name);
    }
}

/// A message is handed on exactly where it was not cut short (flag 0x20) and has a sender, of
/// whichever family. Those handed on keep their order: each comes behind as many as are handed on
/// before it.
pub proof fn law_whole_messages_are_handed_on(slots: Seq<RecvSlot>, n: nat, j: int)
    requires
        0 <= j < n <= slots.len(),
    ensures
        ({
            let whole = slots[j].msg_flags & 0x20 == 0 && slots[j].src is Some;
            let all = accepted(slots, n);
            let before = accepted(slots, j as nat);
            &&& all.len() <= n
            &&& before.len() <= all.len()
            &&& all.take(before.len() as int) == before
            &&& whole ==> before.len() < all.len() && all[before.len() as int] == j
            &&& !whole ==> accepted(slots, (j + 1) as nat) == before && !all.contains(j)
        }),
    decreases n,
{
    let all = accepted(slots, n);
    let before = accepted(slots, j as nat);
    lemma_accepted_bound(slots, n);
    lemma_accepted_members(slots, n);
    if j < n - 1 {
        law_whole_messages_are_handed_on(slots, (n - 1) as nat, j);
        let most = accepted(slots, (n - 1) as nat);
        assert(all.take(before.len() as int) =~= most.take(before.len() as int));
    } else {
        assert(all.take(before.len() as int) =~= before);
    }
}

proof fn lemma_accepted_members(slots: Seq<RecvSlot>, n: nat)
    requires
        n <= slots.len(),
    ensures
        forall|k: int|
            0 <= k < accepted(slots, n).len() ==> 0 <= #[trigger] accepted(slots, n)[k] < n
                && acceptable(slots[accepted(slots, n)[k]]),
    decreases n,
{
    if n > 0 {
        let most = accepted(slots, (n - 1) as nat);
        lemma_accepted_members(slots, (n - 1) as nat);
        assert forall|k: int| 0 <= k < accepted(slots, n).len() implies 0 <= #[trigger] accepted(
            slots,
            n,
        )[k] < n && acceptable(slots[accepted(slots, n)[k]]) by {
            if k < most.len() {
                assert(accepted(slots, n)[k] == most[k]);
            }
        }
    }
}

/// What is said of a message: its sender and its length.
pub proof fn law_message_names_sender_and_length(slot: RecvSlot)
    requires
        slot.src is Some,
    ensures
        Some(slot_meta(slot).src) == slot.src,
        slot_meta(slot).len == slot.msg_len,
        slot_meta(slot).stride == slot.msg_len,
        slot_meta(slot).dst_ip is None,
        slot_meta(slot).ecn is None,
{
}

/// A packet is refused for too many segments, or for segmentation offload on a socket that sends
/// one datagram at a time; for nothing else.
pub proof fn law_what_is_refused(transmit: OsTransmit, max_segments: usize, max_gso: usize)
    ensures
        transmit.contents@.len() > max_segments ==> violates(transmit, max_segments, max_gso),
        transmit.contents@.len() <= max_segments && transmit.segment_size is None ==> !violates(
            transmit,
            max_segments,
            max_gso,
        ),
        transmit.contents@.len() <= max_segments ==> (violates(transmit, max_segments, 1)
            <==> transmit.segment_size is Some),
        transmit.contents@.len() <= max_segments && max_gso != 1 ==> !violates(
            transmit,
            max_segments,
            max_gso,
        ),
{
}

/// The segments of packets lie one behind the other: those of a packet start where those of the
/// one before it end, and the first ones at the start.
pub proof fn law_segments_lie_one_behind_the_other(transmits: Seq<OsTransmit>, i: int)
    requires
        0 <= i < transmits.len(),
    ensures
        segment_total(transmits.take(0)) == 0,
        segment_total(transmits.take(i + 1)) == segment_total(transmits.take(i))
            + transmits[i].contents@.len(),
{
    assert(transmits.take(i + 1).drop_last() =~= transmits.take(i));
    assert(transmits.take(i + 1).last() == transmits[i]);
}

/// The buffers of packets are those of their segments, one packet behind the other.
pub proof fn law_buffers_of_packets(transmits: Seq<OsTransmit>, transmit: OsTransmit, k: int)
    requires
        0 <= k < transmit.contents@.len(),
    ensures
        ({
            let before = transmit_bufs(transmits);
            let after = transmit_bufs(transmits.push(transmit));
            &&& after.len() == before.len() + transmit.contents@.len()
            &&& after.take(before.len() as int) == before
            &&& after[before.len() + k] == transmit.contents@[k].buf
        }),
{
    let all = transmits.push(transmit);
    assert(all.drop_last() =~= transmits);
    assert(all.last() == transmit);
    assert(transmit_bufs(all).take(transmit_bufs(transmits).len() as int) =~= transmit_bufs(
        transmits,
    ));
}

/// Where a buffer goes that is given up: to the pool that made it, or, where another pool did, to
/// the strays. One that no pool made goes nowhere.
pub proof fn law_buffers_go_where_they_came_from(bufs: Seq<OsBuf>, buf: OsBuf, name: u64)
    ensures
        pooled_ids(bufs.push(buf), name) == (if buf.pooled && buf.node.pool == name {
            pooled_ids(bufs, name).push(buf.node.id)
        } else {
            pooled_ids(bufs, name)
        }),
        stray_bufs(bufs.push(buf), name) == (if buf.pooled && buf.node.pool != name {
            stray_bufs(bufs, name).push(buf)
        } else {
            stray_bufs(bufs, name)
        }),
{
    assert(bufs.push(buf).drop_last() =~= bufs);
    assert(bufs.push(buf).last() == buf);
}

/// The kernel's numbers for sockets.
pub proof fn law_numbers_of_the_kernel()
    ensures
        MSG_TRUNC == 0x20 && MSG_DONTWAIT == 0x40 && MSG_ZEROCOPY == 0x400_0000,
        EAGAIN == 11 && ENOBUFS == 105,
        SO_EE_ORIGIN_ZEROCOPY == 5 && SO_EE_CODE_ZEROCOPY_COPIED == 1,
        IPPROTO_IP == 0 && IP_MTU_DISCOVER == 10 && IP_PMTUDISC_DO == 2,
        IPPROTO_IPV6 == 41 && IPV6_MTU_DISCOVER == 23 && IPV6_PMTUDISC_DO == 2,
        IPV4_MAX_UDP_PAYLOAD == 1500 - 20 - 8 && IPV6_MAX_UDP_PAYLOAD == 1500 - 40 - 8,
        MAX_BATCH == 64 && MAX_SEGMENTS == 64 && MAX_GSO == 1,
{
}

/// Buffers that are given back join the free ones of their pool, or the strays, behind those that
/// are there, and none is lost.
pub proof fn law_released_buffers_are_free(before: OsSocket, after: OsSocket, bufs: Seq<OsBuf>)
    requires
        released(before, after, bufs),
    ensures
        after.pool.local_ids().len() + after.strays@.len() == before.pool.local_ids().len()
            + before.strays@.len() + crate::tile::network::pooled_count::<OsPool>(bufs),
        after.pool.local_ids().take(before.pool.local_ids().len() as int)
            == before.pool.local_ids(),
        after.strays@.take(before.strays@.len() as int) == before.strays@,
        after.pool.remote_ids() == before.pool.remote_ids(),
        after.pool.spec_next_id() == before.pool.spec_next_id(),
{
    law_nodes_come_back_once(bufs, before.pool.spec_name());
    assert(after.pool.local_ids().take(before.pool.local_ids().len() as int)
        =~= before.pool.local_ids());
    assert(after.strays@.take(before.strays@.len() as int) =~= before.strays@);
}

/// Packing received messages loses no buffer and doubles none: each node that was there is there
/// once.
pub proof fn law_packing_keeps_every_buffer(
    before: Seq<OsBufMut>,
    after: Seq<OsBufMut>,
    order: Seq<int>,
    valid: int,
    j: int,
)
    requires
        rearranged(before, after, order, valid),
        0 <= j < before.len(),
    ensures
        after.len() == before.len(),
        exists|i: int|
            0 <= i < after.len() && (#[trigger] after[i]).node == before[j].node && (i >= valid
                ==> after[i] == before[j]),
        forall|a: int, b: int|
            0 <= a < b < order.len() ==> #[trigger] order[a] != #[trigger] order[b],
{
    let n = order.len() as int;
    order.unique_seq_to_set();
    vstd::set_lib::lemma_int_range(0, n);
    let all = vstd::set_lib::set_int_range(0, n);
    assert(order.to_set().subset_of(all)) by {
        assert forall|x: int| order.to_set().contains(x) implies all.contains(x) by {
            let i = choose|i: int| 0 <= i < order.len() && order[i] == x;
            assert(0 <= order[i] < before.len());
        }
    }
    vstd::set_lib::lemma_len_subset(order.to_set(), all);
    vstd::set_lib::lemma_subset_equality(order.to_set(), all);
    assert(order.to_set().contains(j));
    let i = choose|i: int| 0 <= i < order.len() && order[i] == j;
    assert(0 <= order[i] < before.len());
    assert(after[i].node == before[j].node);
}

} // verus!
