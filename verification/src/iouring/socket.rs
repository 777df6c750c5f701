//! UDP packet socket backed by io_uring: slot and buffer accounting, and what to make of
//! completions. Submitting to and reading from the kernel's rings is the caller's.

use crate::addr::{IpAddr, Ipv4Addr, SocketAddr};
use crate::interface::{EcnCodepoint, RecvMeta, ScatterGather, Segment, Transmit};
use crate::iouring::buffers::{IoRxBufMut, IoRxBufMutRepr, IoRxPool, IoTxBuf, IoTxPool};
use crate::iouring::ring::{ProvidedBufRing, RingReclaimer};
use crate::net::{IPV4_MAX_UDP_PAYLOAD, IPV6_MAX_UDP_PAYLOAD};
use crate::os::socket::{
    OsSocket, SocketOption, IPPROTO_IP, IPPROTO_IPV6, IPV6_MTU_DISCOVER, IPV6_PMTUDISC_DO,
    IP_MTU_DISCOVER, IP_PMTUDISC_DO,
};
use crate::sockaddr::socketaddr_from_raw;
use io_uring::cqueue;
use std::collections::VecDeque;
use vstd::prelude::*;

verus! {

/// High bit set: send completion; clear: recv completion.
pub const SEND_TAG: u64 = 0x8000_0000_0000_0000;

pub const RECV_TAG: u64 = 0;

/// Default SQ size; CQ is twice this. Larger SQ amortizes per-completion overhead.
pub const DEFAULT_RING_ENTRIES: u32 = 1024;

pub const DEFAULT_SEND_POOL: usize = 128;

/// Largest number of scatter-gather segments per send.
pub const MAX_SEND_SGS: usize = 8;

/// Completion drain batch size.
pub const DRAIN_BATCH: usize = 64;

/// Stop re-arming the multishot receive after this many errors other than `ENOBUFS`
/// (busy-loop guard for ECANCELED/EINVAL/ENOMEM rejections).
pub const MAX_RECV_ERROR_STREAK: u32 = 8;

/// Default size; power of 2, at most 32768.
pub const DEFAULT_BUF_RING_COUNT: usize = 256;

/// Size of the header that the kernel writes before a received message.
pub const RECV_OUT_SIZE: usize = 16;

/// Room for the source address behind the header.
pub const RECV_NAME_MAX: usize = 128;

/// Room for control messages behind the address.
pub const RECV_CMSG_MAX: usize = 128;

/// Fixed payload offset: header + name + cmsg.
pub const RECV_PAYLOAD_OFF: usize = 272;

/// Per provided buffer: header + name + cmsg + payload.
pub const RECV_BUF_SIZE: usize = 2320;

pub const MSG_CTRUNC: u32 = 0x8;

pub const MSG_TRUNC: u32 = 0x20;

pub const EMSGSIZE: i32 = 90;

pub const ENOBUFS: i32 = 105;

/// `io_uring::cqueue::more`: whether the operation stays armed for further completions.
pub assume_specification[ cqueue::more ](flags: u32) -> (armed: bool)
    ensures
        armed == (flags & 2u32 != 0),
;

/// `io_uring::cqueue::buffer_select`: the provided buffer that a completion used, if it used
/// one.
pub assume_specification[ cqueue::buffer_select ](flags: u32) -> (bid: Option<u16>)
    ensures
        flags & 1u32 == 0 ==> bid is None,
        flags & 1u32 != 0 ==> bid == Some((flags >> 16u32) as u16),
;

/// The header that the kernel writes at the start of a receive slot.
#[derive(Debug, Clone, Copy, PartialEq, Eq, Structural)]
pub struct RecvMsgOut {
    pub namelen: u32,
    pub controllen: u32,
    pub payloadlen: u32,
    pub flags: u32,
}

/// The number that four bytes spell, least significant first.
pub open spec fn le32(bytes: Seq<u8>, at: int) -> int {
    bytes[at] + bytes[at + 1] * 0x100 + bytes[at + 2] * 0x1_0000 + bytes[at + 3] * 0x100_0000
}

fn read_le32(bytes: &[u8], at: usize) -> (n: u32)
    requires
        at + 4 <= bytes@.len(),
    ensures
        n == le32(bytes@, at as int),
{
    bytes[at] as u32 + bytes[at + 1] as u32 * 0x100 + bytes[at + 2] as u32 * 0x1_0000 + bytes[at
        + 3] as u32 * 0x100_0000
}

impl RecvMsgOut {
    /// Reads the header of a receive slot.
    pub fn parse(slot: &[u8]) -> (header: RecvMsgOut)
        requires
            slot@.len() >= RECV_OUT_SIZE,
        ensures
            header.namelen == le32(slot@, 0),
            header.controllen == le32(slot@, 4),
            header.payloadlen == le32(slot@, 8),
            header.flags == le32(slot@, 12),
    {
        RecvMsgOut {
            namelen: read_le32(slot, 0),
            controllen: read_le32(slot, 4),
            payloadlen: read_le32(slot, 8),
            flags: read_le32(slot, 12),
        }
    }
}

/// A message in a receive slot: length and flags of its header, its sender where the address is
/// of a known family, and what its control messages say.
#[derive(Debug, Clone, Copy, PartialEq, Eq, Structural)]
pub struct ReceivedMsg {
    pub payload_len: u32,
    pub flags: u32,
    pub src: Option<SocketAddr>,
    pub dst_ip: Option<IpAddr>,
    pub ecn: Option<EcnCodepoint>,
}

/// Where the parts of a receive slot lie: start and end of each, and the header before them.
#[derive(Debug, Clone, Copy, PartialEq, Eq)]
pub struct SlotParts {
    pub header: RecvMsgOut,
    pub name: (usize, usize),
    pub control: (usize, usize),
    pub payload: (usize, usize),
}

/// The parts of a receive slot. They start at fixed places, whatever the lengths in the header
/// say; each ends where its length says, or with the room that there is for it.
pub fn slot_ranges(slot: &[u8]) -> (parts: SlotParts)
    requires
        slot@.len() == RECV_BUF_SIZE,
    ensures
        parts.header.namelen == le32(slot@, 0),
        parts.header.controllen == le32(slot@, 4),
        parts.header.payloadlen == le32(slot@, 8),
        parts.header.flags == le32(slot@, 12),
        parts.name.0 == RECV_OUT_SIZE,
        parts.name.1 == RECV_OUT_SIZE + vstd::math::min(le32(slot@, 0), RECV_NAME_MAX as int),
        parts.control.0 == RECV_OUT_SIZE + RECV_NAME_MAX,
        parts.control.1 == RECV_OUT_SIZE + RECV_NAME_MAX + vstd::math::min(
            le32(slot@, 4),
            RECV_CMSG_MAX as int,
        ),
        parts.payload.0 == RECV_PAYLOAD_OFF,
        parts.payload.1 == RECV_PAYLOAD_OFF + vstd::math::min(
            le32(slot@, 8),
            RECV_BUF_SIZE - RECV_PAYLOAD_OFF,
        ),
{
    let header = RecvMsgOut::parse(slot);
    let control_at: usize = RECV_OUT_SIZE + RECV_NAME_MAX;
    SlotParts {
        header,
        name: (RECV_OUT_SIZE, RECV_OUT_SIZE + at_most(header.namelen, RECV_NAME_MAX)),
        control: (control_at, control_at + at_most(header.controllen, RECV_CMSG_MAX)),
        payload: (
            RECV_PAYLOAD_OFF,
            RECV_PAYLOAD_OFF + at_most(header.payloadlen, RECV_BUF_SIZE - RECV_PAYLOAD_OFF),
        ),
    }
}

fn at_most(len: u32, room: usize) -> (n: usize)
    ensures
        n == vstd::math::min(len as int, room as int),
{
    if (len as usize) < room {
        len as usize
    } else {
        room
    }
}

/// The message in a receive slot, given what its control messages say.
pub fn received_msg(slot: &[u8], dst_ip: Option<IpAddr>, ecn: Option<EcnCodepoint>) -> (msg:
    ReceivedMsg)
    requires
        slot@.len() == RECV_BUF_SIZE,
    ensures
        msg.payload_len == le32(slot@, 8),
        msg.flags == le32(slot@, 12),
        msg.src == crate::sockaddr::sockaddr_value(
            slot@.subrange(
                RECV_OUT_SIZE as int,
                RECV_OUT_SIZE + vstd::math::min(le32(slot@, 0), RECV_NAME_MAX as int),
            ),
        ),
        msg.dst_ip == dst_ip,
        msg.ecn == ecn,
{
    let parts = slot_ranges(slot);
    let name: &[u8] = vstd::slice::slice_subrange(slot, parts.name.0, parts.name.1);
    ReceivedMsg {
        payload_len: parts.header.payloadlen,
        flags: parts.header.flags,
        src: socketaddr_from_raw(name),
        dst_ip,
        ecn,
    }
}

/// An entry of the completion queue. Where it brings a message, `msg` is that.
#[derive(Debug, Clone, Copy)]
pub struct Completion {
    pub user_data: u64,
    pub result: i32,
    pub flags: u32,
    pub msg: Option<ReceivedMsg>,
}

/// A packet of io_uring buffers to be sent.
pub type IoTransmit = Transmit<ScatterGather<IoTxBuf>>;

/// What a drain of completions amounted to on the send side.
#[derive(Debug, Clone, Copy, PartialEq, Eq, Structural)]
pub struct DrainResult {
    pub completed: usize,
    pub emsgsize: usize,
    pub errors: usize,
}

impl Default for DrainResult {
    fn default() -> (result: DrainResult)
        ensures
            result == (DrainResult { completed: 0, emsgsize: 0, errors: 0 }),
    {
        DrainResult { completed: 0, emsgsize: 0, errors: 0 }
    }
}

/// Configuration of an [`IoUringSocket`]. Build via [`IoUringConfig::builder`]
/// or [`IoUringConfig::default`].
#[derive(Debug, Clone, Copy, PartialEq, Eq, Structural)]
pub struct IoUringConfig {
    /// SQE ring size (power of 2, default 1024); CQ is twice this.
    pub ring_entries: u32,
    /// Provided-buffer ring size (power of 2, at most 32768, default 256).
    pub buf_ring_count: usize,
    /// Pre-allocated in-flight send slots (default 128); caps concurrent sends.
    pub send_pool_size: usize,
    /// Set `SO_REUSEPORT` for multi-tile listeners. Defaults to `false`.
    pub reuseport: bool,
}

impl IoUringConfig {
    /// The sizes can be had.
    pub open spec fn valid(self) -> bool {
        &&& crate::xdp::ring::is_power_of_two(self.ring_entries)
        &&& 0 < self.buf_ring_count <= 32768
        &&& crate::xdp::ring::is_power_of_two(self.buf_ring_count as u32)
        &&& self.send_pool_size > 0
    }

    pub fn builder() -> (builder: IoUringConfigBuilder)
        ensures
            builder.config == default_config(),
    {
        IoUringConfigBuilder::default()
    }
}

/// The default configuration.
pub open spec fn default_config() -> IoUringConfig {
    IoUringConfig {
        ring_entries: DEFAULT_RING_ENTRIES,
        buf_ring_count: DEFAULT_BUF_RING_COUNT,
        send_pool_size: DEFAULT_SEND_POOL,
        reuseport: false,
    }
}

impl Default for IoUringConfig {
    fn default() -> (config: IoUringConfig)
        ensures
            config == default_config(),
    {
        IoUringConfig {
            ring_entries: DEFAULT_RING_ENTRIES,
            buf_ring_count: DEFAULT_BUF_RING_COUNT,
            send_pool_size: DEFAULT_SEND_POOL,
            reuseport: false,
        }
    }
}

/// Builder for [`IoUringConfig`]. See [`IoUringConfig::builder`].
#[derive(Debug, Clone, Copy)]
pub struct IoUringConfigBuilder {
    pub config: IoUringConfig,
}

impl Default for IoUringConfigBuilder {
    fn default() -> (builder: IoUringConfigBuilder)
        ensures
            builder.config == default_config(),
    {
        IoUringConfigBuilder { config: IoUringConfig::default() }
    }
}

impl IoUringConfigBuilder {
    /// SQE ring size (must be power of 2; validated in `build`).
    pub fn ring_entries(self, n: u32) -> (builder: IoUringConfigBuilder)
        ensures
            builder.config == (IoUringConfig { ring_entries: n, ..self.config }),
    {
        IoUringConfigBuilder { config: IoUringConfig { ring_entries: n, ..self.config } }
    }

    /// Buffer ring size (must be power of 2, at most 32768; validated in `build`).
    pub fn buf_ring_count(self, n: usize) -> (builder: IoUringConfigBuilder)
        ensures
            builder.config == (IoUringConfig { buf_ring_count: n, ..self.config }),
    {
        IoUringConfigBuilder { config: IoUringConfig { buf_ring_count: n, ..self.config } }
    }

    /// In-flight send slots (must be > 0).
    pub fn send_pool_size(self, n: usize) -> (builder: IoUringConfigBuilder)
        ensures
            builder.config == (IoUringConfig { send_pool_size: n, ..self.config }),
    {
        IoUringConfigBuilder { config: IoUringConfig { send_pool_size: n, ..self.config } }
    }

    pub fn reuseport(self, enable: bool) -> (builder: IoUringConfigBuilder)
        ensures
            builder.config == (IoUringConfig { reuseport: enable, ..self.config }),
    {
        IoUringConfigBuilder { config: IoUringConfig { reuseport: enable, ..self.config } }
    }

    /// Whether `build` can be called: the ring sizes are powers of 2, the buffer ring has at most
    /// 32768 slots, and there is a send slot.
    pub fn is_valid(&self) -> (valid: bool)
        ensures
            valid == self.config.valid(),
    {
        let entries: u32 = self.config.ring_entries;
        let count: usize = self.config.buf_ring_count;
        entries != 0 && entries & (entries - 1) == 0 && 0 < count && count <= 32768 && (
        count as u32) & (count as u32 - 1) == 0 && self.config.send_pool_size > 0
    }

    /// Produce the config.
    pub fn build(self) -> (config: IoUringConfig)
        requires
            self.config.valid(),
        ensures
            config == self.config,
            config.valid(),
    {
        self.config
    }
}

/// Whether a completion is that of a send.
pub open spec fn is_send(c: Completion) -> bool {
    c.user_data & SEND_TAG != 0
}

/// The send slot of a send completion.
pub open spec fn send_index(c: Completion) -> int {
    (c.user_data & !SEND_TAG) as int
}

/// The ring slot that a completion used.
pub open spec fn slot_of(c: Completion) -> Option<u16> {
    if c.flags & 1u32 != 0 {
        Some((c.flags >> 16u32) as u16)
    } else {
        None
    }
}

/// Whether a receive stays armed.
pub open spec fn stays_armed(c: Completion) -> bool {
    c.flags & 2u32 != 0
}

/// Whether a completion brings a packet that is handed on: one that fits the largest payload,
/// was not cut short, and has a known sender.
pub open spec fn brings_packet(c: Completion, max_payload: usize) -> bool {
    &&& !is_send(c)
    &&& slot_of(c) is Some
    &&& c.result > 0
    &&& c.msg->Some_0.payload_len <= max_payload
    &&& c.msg->Some_0.flags & MSG_TRUNC == 0
    &&& c.msg->Some_0.src is Some
}

/// The metadata of the packet that a completion brings. Control messages that were cut short
/// would yield wrong values and are ignored.
pub open spec fn packet_meta(c: Completion) -> RecvMeta {
    let msg = c.msg->Some_0;
    let whole = msg.flags & MSG_CTRUNC == 0;
    RecvMeta {
        src: msg.src->Some_0,
        dst_ip: if whole {
            msg.dst_ip
        } else {
            None
        },
        ecn: if whole {
            msg.ecn
        } else {
            None
        },
        len: msg.payload_len as usize,
        stride: msg.payload_len as usize,
    }
}

/// A packet that waits in ring slot `bid` until it is received.
#[derive(Debug, Clone, Copy, PartialEq, Eq, Structural)]
pub struct PendingRecv {
    pub meta: RecvMeta,
    pub bid: u16,
}

/// The packets that completions bring, in order.
pub open spec fn packets(cs: Seq<Completion>, max_payload: usize) -> Seq<PendingRecv>
    decreases cs.len(),
{
    if cs.len() == 0 {
        Seq::empty()
    } else if brings_packet(cs.last(), max_payload) {
        packets(cs.drop_last(), max_payload).push(
            PendingRecv { meta: packet_meta(cs.last()), bid: slot_of(cs.last())->Some_0 },
        )
    } else {
        packets(cs.drop_last(), max_payload)
    }
}

/// The slots of completions that bring no packet to hand on, in order.
pub open spec fn dropped_slots(cs: Seq<Completion>, max_payload: usize) -> Seq<u16>
    decreases cs.len(),
{
    if cs.len() == 0 {
        Seq::empty()
    } else if !is_send(cs.last()) && slot_of(cs.last()) is Some && !brings_packet(
        cs.last(),
        max_payload,
    ) {
        dropped_slots(cs.drop_last(), max_payload).push(slot_of(cs.last())->Some_0)
    } else {
        dropped_slots(cs.drop_last(), max_payload)
    }
}

/// The send slots that completions free, in order.
pub open spec fn freed_slots(cs: Seq<Completion>) -> Seq<usize>
    decreases cs.len(),
{
    if cs.len() == 0 {
        Seq::empty()
    } else if is_send(cs.last()) {
        freed_slots(cs.drop_last()).push(send_index(cs.last()) as usize)
    } else {
        freed_slots(cs.drop_last())
    }
}

/// How the sends among completions ended: without error, too large, or with another error.
pub open spec fn send_results(cs: Seq<Completion>) -> (nat, nat, nat)
    decreases cs.len(),
{
    if cs.len() == 0 {
        (0, 0, 0)
    } else {
        let (completed, emsgsize, errors) = send_results(cs.drop_last());
        let c = cs.last();
        if !is_send(c) {
            (completed, emsgsize, errors)
        } else if c.result >= 0 {
            (completed + 1, emsgsize, errors)
        } else if c.result == -EMSGSIZE {
            (completed, emsgsize + 1, errors)
        } else {
            (completed, emsgsize, errors + 1)
        }
    }
}

/// Whether the receive is armed after completions.
pub open spec fn armed_after(armed: bool, cs: Seq<Completion>) -> bool {
    armed && forall|i: int| 0 <= i < cs.len() && !is_send(cs[i]) ==> stays_armed(#[trigger] cs[i])
}

/// The streak of errors that disarmed the receive, after completions: counted on with each
/// error but `ENOBUFS` (which says that the ring is exhausted, and passes), and ended by a
/// packet.
pub open spec fn streak_after(streak: u32, cs: Seq<Completion>) -> u32
    decreases cs.len(),
{
    if cs.len() == 0 {
        streak
    } else {
        let before = streak_after(streak, cs.drop_last());
        let c = cs.last();
        if is_send(c) {
            before
        } else if slot_of(c) is Some && c.result > 0 {
            0
        } else if !stays_armed(c) && c.result < 0 && c.result != -ENOBUFS {
            before.saturating_add(1)
        } else {
            before
        }
    }
}

/// The memories among buffers that are of the pool with a name, in order.
pub open spec fn pooled_memories(bufs: Seq<IoTxBuf>, name: u64) -> Seq<Vec<u8>>
    decreases bufs.len(),
{
    if bufs.len() == 0 {
        Seq::empty()
    } else if bufs.last().pooled && bufs.last().pool == name {
        pooled_memories(bufs.drop_last(), name).push(bufs.last().data)
    } else {
        pooled_memories(bufs.drop_last(), name)
    }
}

/// The buffers that are of other pools than the one with a name, in order.
pub open spec fn stray_bufs(bufs: Seq<IoTxBuf>, name: u64) -> Seq<IoTxBuf>
    decreases bufs.len(),
{
    if bufs.len() == 0 {
        Seq::empty()
    } else if bufs.last().pooled && bufs.last().pool != name {
        stray_bufs(bufs.drop_last(), name).push(bufs.last())
    } else {
        stray_bufs(bufs.drop_last(), name)
    }
}

/// The buffers of a packet, in order.
pub open spec fn packet_bufs(transmit: IoTransmit) -> Seq<IoTxBuf> {
    transmit.contents@.map_values(|s: Segment<IoTxBuf>| s.buf)
}

/// The memories of the pool with a name in the send slots that completions free, in order.
pub open spec fn freed_memories(
    cs: Seq<Completion>,
    slots: Seq<Option<IoTransmit>>,
    name: u64,
) -> Seq<Vec<u8>>
    decreases cs.len(),
{
    if cs.len() == 0 {
        Seq::empty()
    } else if is_send(cs.last()) {
        freed_memories(cs.drop_last(), slots, name) + pooled_memories(
            packet_bufs(slots[send_index(cs.last())]->Some_0),
            name,
        )
    } else {
        freed_memories(cs.drop_last(), slots, name)
    }
}

/// The buffers of other pools in the send slots that completions free, in order.
pub open spec fn freed_strays(
    cs: Seq<Completion>,
    slots: Seq<Option<IoTransmit>>,
    name: u64,
) -> Seq<IoTxBuf>
    decreases cs.len(),
{
    if cs.len() == 0 {
        Seq::empty()
    } else if is_send(cs.last()) {
        freed_strays(cs.drop_last(), slots, name) + stray_bufs(
            packet_bufs(slots[send_index(cs.last())]->Some_0),
            name,
        )
    } else {
        freed_strays(cs.drop_last(), slots, name)
    }
}

/// Whether the buffers of a packet were given back on the thread of the pool's owner, in order:
/// those of the pool to it, those of other pools to the strays.
pub open spec fn packet_released(
    before: IoUringSocket,
    after: IoUringSocket,
    transmit: IoTransmit,
) -> bool {
    let name = before.tx_pool.spec_name();
    &&& after.tx_pool.local() == before.tx_pool.local() + pooled_memories(
        packet_bufs(transmit),
        name,
    )
    &&& after.tx_pool.remote() == before.tx_pool.remote()
    &&& after.tx_pool.spec_max_payload() == before.tx_pool.spec_max_payload()
    &&& after.tx_pool.spec_owner() == before.tx_pool.spec_owner()
    &&& after.tx_pool.spec_name() == name
    &&& after.strays@ == before.strays@ + stray_bufs(packet_bufs(transmit), name)
}

/// How sends that ended change the pool and the strays.
pub open spec fn sends_freed(
    before: IoUringSocket,
    after: IoUringSocket,
    cs: Seq<Completion>,
) -> bool {
    let name = before.tx_pool.spec_name();
    &&& after.tx_pool.local() == before.tx_pool.local() + freed_memories(
        cs,
        before.send_slots@,
        name,
    )
    &&& after.tx_pool.remote() == before.tx_pool.remote()
    &&& after.tx_pool.spec_max_payload() == before.tx_pool.spec_max_payload()
    &&& after.tx_pool.spec_owner() == before.tx_pool.spec_owner()
    &&& after.tx_pool.spec_name() == name
    &&& after.strays@ == before.strays@ + freed_strays(cs, before.send_slots@, name)
}

/// The send slots after completions: freed ones are empty.
pub open spec fn slots_after(slots: Seq<Option<IoTransmit>>, cs: Seq<Completion>) -> Seq<
    Option<IoTransmit>,
>
    decreases cs.len(),
{
    if cs.len() == 0 {
        slots
    } else if is_send(cs.last()) {
        slots_after(slots, cs.drop_last()).update(send_index(cs.last()), None)
    } else {
        slots_after(slots, cs.drop_last())
    }
}

/// The kernel answers each send once: send completions name filled slots, and no two the same.
pub open spec fn answers_sends(cs: Seq<Completion>, slots: Seq<Option<IoTransmit>>) -> bool {
    &&& forall|i: int|
        0 <= i < cs.len() && is_send(#[trigger] cs[i]) ==> send_index(cs[i]) < slots.len()
            && slots[send_index(cs[i])] is Some
    &&& forall|i: int, j: int|
        #![trigger cs[i], cs[j]]
        0 <= i < j < cs.len() && is_send(cs[i]) && is_send(cs[j]) ==> send_index(cs[i])
            != send_index(cs[j])
}

/// Completions with a slot and a positive result bring a message.
pub open spec fn messages_present(cs: Seq<Completion>) -> bool {
    forall|i: int|
        0 <= i < cs.len() && !is_send(#[trigger] cs[i]) && slot_of(cs[i]) is Some && cs[i].result > 0
            ==> cs[i].msg is Some
}

proof fn lemma_slots_after(slots: Seq<Option<IoTransmit>>, cs: Seq<Completion>)
    requires
        answers_sends(cs, slots),
    ensures
        slots_after(slots, cs).len() == slots.len(),
        forall|k: int|
            0 <= k < slots.len() && (forall|i: int|
                0 <= i < cs.len() && is_send(#[trigger] cs[i]) ==> send_index(cs[i]) != k)
                ==> #[trigger] slots_after(slots, cs)[k] == slots[k],
        forall|k: int|
            0 <= k < slots.len() && (exists|i: int|
                0 <= i < cs.len() && is_send(#[trigger] cs[i]) && send_index(cs[i]) == k)
                ==> #[trigger] slots_after(slots, cs)[k] is None,
    decreases cs.len(),
{
    if cs.len() > 0 {
        let rest = cs.drop_last();
        assert(answers_sends(rest, slots)) by {
            assert forall|i: int| 0 <= i < rest.len() && is_send(#[trigger] rest[i]) implies send_index(
                rest[i],
            ) < slots.len() && slots[send_index(rest[i])] is Some by {
                assert(rest[i] == cs[i]);
            }
            assert forall|i: int, j: int|
                #![trigger rest[i], rest[j]]
                0 <= i < j < rest.len() && is_send(rest[i]) && is_send(rest[j]) implies send_index(
                rest[i],
            ) != send_index(rest[j]) by {
                assert(rest[i] == cs[i] && rest[j] == cs[j]);
            }
        }
        lemma_slots_after(slots, rest);
        assert(cs[cs.len() - 1] == cs.last());
        assert forall|k: int|
            0 <= k < slots.len() && (forall|i: int|
                0 <= i < cs.len() && is_send(#[trigger] cs[i]) ==> send_index(cs[i])
                    != k) implies #[trigger] slots_after(slots, cs)[k] == slots[k] by {
            assert forall|i: int| 0 <= i < rest.len() && is_send(#[trigger] rest[i]) implies send_index(
                rest[i],
            ) != k by {
                assert(rest[i] == cs[i]);
            }
        }
        assert forall|k: int|
            0 <= k < slots.len() && (exists|i: int|
                0 <= i < cs.len() && is_send(#[trigger] cs[i]) && send_index(cs[i])
                    == k) implies #[trigger] slots_after(slots, cs)[k] is None by {
            let i = choose|i: int|
                0 <= i < cs.len() && is_send(#[trigger] cs[i]) && send_index(cs[i]) == k;
            if i < rest.len() {
                assert(rest[i] == cs[i]);
            }
        }
    }
}

/// State of the socket: pools, the ring of receive slots, staged packets and send slots.
pub struct IoUringSocket {
    pub rx_pool: IoRxPool,
    pub tx_pool: IoTxPool,
    /// Buffers that were sent and belong to other pools: they are to be given back there.
    pub strays: Vec<IoTxBuf>,
    pub queue_id: u16,
    pub buf_ring: ProvidedBufRing,
    pub reclaimer: RingReclaimer,
    /// Multishot receive still armed?
    pub recv_armed: bool,
    /// Consecutive errors other than `ENOBUFS` that disarmed the receive.
    pub recv_error_streak: u32,
    /// Requests pushed to the submission ring but not yet flushed to the kernel.
    pub sq_dirty: bool,
    /// Packets waiting to be received.
    pub pending_recvs: VecDeque<PendingRecv>,
    /// Packets in flight.
    pub send_slots: Vec<Option<IoTransmit>>,
    /// Stack of free send slots.
    pub send_free: Vec<usize>,
}

/// The free send slots are the empty ones, and none is free twice.
pub open spec fn free_slots_ok(slots: Seq<Option<IoTransmit>>, free: Seq<usize>) -> bool {
    &&& forall|k: int|
        0 <= k < slots.len() && (#[trigger] slots[k]) is None ==> free.contains(k as usize)
    &&& forall|i: int|
        0 <= i < free.len() ==> #[trigger] free[i] < slots.len() && slots[free[i] as int] is None
    &&& forall|i: int, j: int| 0 <= i < j < free.len() ==> #[trigger] free[i] != #[trigger] free[j]
}

impl IoUringSocket {
    pub open spec fn wf(self) -> bool {
        &&& self.tx_pool.wf()
        &&& self.buf_ring.wf()
        &&& self.reclaimer.wf()
        &&& self.tx_pool.spec_owner() == self.reclaimer.owner
        &&& forall|i: int|
            0 <= i < self.send_slots@.len() ==> (#[trigger] self.send_slots@[i] matches Some(t)
                ==> t.contents.wf())
        &&& free_slots_ok(self.send_slots@, self.send_free@)
    }

    /// Gives the buffers of a packet back to the pool, and puts those of other pools aside.
    fn release(&mut self, transmit: IoTransmit)
        requires
            old(self).wf(),
            transmit.contents.wf(),
        ensures
            final(self).wf(),
            packet_released(*old(self), *final(self), transmit),
            *final(self) == (IoUringSocket {
                tx_pool: final(self).tx_pool,
                strays: final(self).strays,
                ..*old(self)
            }),
    {
        let owner: u64 = self.reclaimer.owner;
        let mut bufs: Vec<IoTxBuf> = transmit.contents.into_bufs();
        let ghost all = bufs@;
        let ghost mut n: int = 0;
        let ghost local0 = self.tx_pool.local();
        let ghost strays0 = self.strays@;
        let ghost name = self.tx_pool.spec_name();
        assert(all.take(0) =~= Seq::<IoTxBuf>::empty());
        assert(local0 =~= local0 + pooled_memories(all.take(0), name));
        assert(strays0 =~= strays0 + stray_bufs(all.take(0), name));
        assert(all.skip(0) =~= all);
        while bufs.len() > 0
            invariant
                self.wf(),
                owner == self.reclaimer.owner,
                0 <= n <= all.len(),
                bufs@ == all.skip(n),
                self.tx_pool.local() == local0 + pooled_memories(all.take(n), name),
                self.tx_pool.remote() == old(self).tx_pool.remote(),
                self.tx_pool.spec_max_payload() == old(self).tx_pool.spec_max_payload(),
                self.tx_pool.spec_owner() == old(self).tx_pool.spec_owner(),
                name == self.tx_pool.spec_name() == old(self).tx_pool.spec_name(),
                self.strays@ == strays0 + stray_bufs(all.take(n), name),
                *self == (IoUringSocket {
                    tx_pool: self.tx_pool,
                    strays: self.strays,
                    ..*old(self)
                }),
            decreases bufs@.len(),
        {
            let buf = bufs.remove(0);
            match self.tx_pool.reclaim(buf, owner) {
                Some(stray) => {
                    self.strays.push(stray);
                },
                None => {},
            }
            proof {
                assert(all.skip(n).remove(0) =~= all.skip(n + 1));
                assert(all.take(n + 1).drop_last() =~= all.take(n));
                assert(all.take(n + 1).last() == buf);
                n = n + 1;
                assert(self.tx_pool.local() =~= local0 + pooled_memories(all.take(n), name));
                assert(self.strays@ =~= strays0 + stray_bufs(all.take(n), name));
            }
        }
        assert(all.take(n) =~= all);
    }

    /// Takes in one send completion: frees the slot, and gives the packet's buffers back.
    fn complete_send(&mut self, idx: usize)
        requires
            old(self).wf(),
            idx < old(self).send_slots@.len(),
            old(self).send_slots@[idx as int] is Some,
        ensures
            final(self).wf(),
            final(self).send_slots@ == old(self).send_slots@.update(idx as int, None),
            final(self).send_free@ == old(self).send_free@.push(idx),
            packet_released(*old(self), *final(self), old(self).send_slots@[idx as int]->Some_0),
            *final(self) == (IoUringSocket {
                tx_pool: final(self).tx_pool,
                strays: final(self).strays,
                send_slots: final(self).send_slots,
                send_free: final(self).send_free,
                ..*old(self)
            }),
    {
        let ghost free0 = self.send_free@;
        let ghost slots0 = self.send_slots@;
        let done: Option<IoTransmit> = self.send_slots[idx].take();
        self.send_free.push(idx);
        proof {
            assert(self.send_slots@ =~= slots0.update(idx as int, None));
            assert forall|i: int| 0 <= i < free0.len() implies #[trigger] free0[i] != idx by {
                assert(slots0[free0[i] as int] is None);
            }
            assert forall|k: int|
                0 <= k < self.send_slots@.len() && (#[trigger] self.send_slots@[k]) is None implies self.send_free@.contains(
            k as usize) by {
                if k == idx {
                    assert(self.send_free@[free0.len() as int] == idx);
                } else {
                    assert(slots0[k] is None);
                    let i = choose|i: int| 0 <= i < free0.len() && free0[i] == k as usize;
                    assert(self.send_free@[i] == k as usize);
                }
            }
        }
        match done {
            Some(transmit) => {
                self.release(transmit);
            },
            None => {},
        }
    }
}

/// The slots that buffers `from..from + n` hold, in order.
pub open spec fn replaced_slots(bufs: Seq<IoRxBufMut>, from: int, n: nat) -> Seq<u16>
    decreases n,
{
    if n == 0 {
        Seq::empty()
    } else {
        match crate::iouring::buffers::held_bid(bufs[from + n - 1]) {
            Some(bid) => replaced_slots(bufs, from, (n - 1) as nat).push(bid),
            None => replaced_slots(bufs, from, (n - 1) as nat),
        }
    }
}

/// Whether packets lie in the slots from `from` on: the metadata in one list, in the other the
/// buffers, which hold the packets' slots. Slots elsewhere are as before.
pub open spec fn packets_delivered(
    meta0: Seq<RecvMeta>,
    meta1: Seq<RecvMeta>,
    bufs0: Seq<IoRxBufMut>,
    bufs1: Seq<IoRxBufMut>,
    from: int,
    packets: Seq<PendingRecv>,
    cap: usize,
) -> bool {
    &&& meta1.len() == meta0.len()
    &&& bufs1.len() == bufs0.len()
    &&& forall|j: int|
        0 <= j < meta0.len() ==> #[trigger] meta1[j] == (if from <= j < from + packets.len() {
            packets[j - from].meta
        } else {
            meta0[j]
        })
    &&& forall|j: int|
        0 <= j < bufs0.len() ==> (if from <= j < from + packets.len() {
            (#[trigger] bufs1[j]).repr == (IoRxBufMutRepr::Ring {
                bid: packets[j - from].bid,
                len: packets[j - from].meta.len,
                cap,
            })
        } else {
            bufs1[j] == bufs0[j]
        })
}

/// What draining a batch of completions amounted to: the sends that ended, how many packets
/// are now in the caller's slots, and the tail of the buffer ring to publish if slots went
/// back.
#[derive(Debug, Clone, Copy)]
pub struct BatchResult {
    pub drained: DrainResult,
    pub valid: usize,
    pub publish_tail: Option<u16>,
}

impl IoUringSocket {
    /// Puts a packet into the caller's next slot. What that slot held goes back to the ring.
    fn deliver(
        &mut self,
        packet: PendingRecv,
        out_meta: &mut Vec<RecvMeta>,
        out_bufs: &mut Vec<IoRxBufMut>,
        valid: usize,
    )
        requires
            old(self).wf(),
            valid < old(out_meta)@.len(),
            valid < old(out_bufs)@.len(),
        ensures
            final(self).wf(),
            packets_delivered(
                old(out_meta)@,
                final(out_meta)@,
                old(out_bufs)@,
                final(out_bufs)@,
                valid as int,
                seq![packet],
                old(self).rx_pool.max_payload,
            ),
            final(self).reclaimer.pending@ == (match crate::iouring::buffers::held_bid(
                old(out_bufs)@[valid as int],
            ) {
                Some(bid) => old(self).reclaimer.pending@.push(bid),
                None => old(self).reclaimer.pending@,
            }),
            final(self).reclaimer.remote@ == old(self).reclaimer.remote@,
            final(self).reclaimer.owner == old(self).reclaimer.owner,
            *final(self) == (IoUringSocket { reclaimer: final(self).reclaimer, ..*old(self) }),
    {
        let max_payload: usize = self.rx_pool.max_payload_size();
        if let Some(bid) = out_bufs[valid].bid() {
            let owner: u64 = self.reclaimer.owner;
            self.reclaimer.give_back(bid, owner);
        }
        out_bufs[valid] = IoRxBufMut::from_ring_slot(packet.meta.len, max_payload, packet.bid);
        out_meta[valid] = packet.meta;
    }

    /// Takes in one receive completion. Returns how many of the caller's slots are filled, and
    /// whether a slot went back to the ring.
    fn take_recv(
        &mut self,
        c: &Completion,
        out_meta: &mut Vec<RecvMeta>,
        out_bufs: &mut Vec<IoRxBufMut>,
        valid: usize,
        limit: usize,
    ) -> (result: (usize, bool))
        requires
            old(self).wf(),
            !is_send(*c),
            slot_of(*c) is Some && c.result > 0 ==> c.msg is Some,
            valid <= limit <= old(out_meta)@.len(),
            limit <= old(out_bufs)@.len(),
        ensures
            final(self).wf(),
            final(self).recv_armed == (old(self).recv_armed && stays_armed(*c)),
            final(self).recv_error_streak == streak_after(old(self).recv_error_streak, seq![*c]),
            final(self).tx_pool == old(self).tx_pool,
            final(self).strays == old(self).strays,
            final(self).send_slots == old(self).send_slots,
            final(self).send_free == old(self).send_free,
            final(self).rx_pool == old(self).rx_pool,
            final(self).queue_id == old(self).queue_id,
            final(self).sq_dirty == old(self).sq_dirty,
            final(self).buf_ring.spec_count() == old(self).buf_ring.spec_count(),
            final(self).reclaimer.remote@ == old(self).reclaimer.remote@,
            final(self).reclaimer.owner == old(self).reclaimer.owner,
            ({
                let max_payload = old(self).rx_pool.max_payload;
                let packet = PendingRecv { meta: packet_meta(*c), bid: slot_of(*c)->Some_0 };
                if brings_packet(*c, max_payload) {
                    &&& final(self).buf_ring@ == old(self).buf_ring@
                    &&& !result.1
                    &&& if valid < limit {
                        &&& result.0 == valid + 1
                        &&& packets_delivered(
                            old(out_meta)@,
                            final(out_meta)@,
                            old(out_bufs)@,
                            final(out_bufs)@,
                            valid as int,
                            seq![packet],
                            max_payload,
                        )
                        &&& final(self).pending_recvs@ == old(self).pending_recvs@
                        &&& final(self).reclaimer.pending@ == (match crate::iouring::buffers::held_bid(
                            old(out_bufs)@[valid as int],
                        ) {
                            Some(bid) => old(self).reclaimer.pending@.push(bid),
                            None => old(self).reclaimer.pending@,
                        })
                    } else {
                        &&& result.0 == valid
                        &&& final(out_meta)@ == old(out_meta)@
                        &&& final(out_bufs)@ == old(out_bufs)@
                        &&& final(self).pending_recvs@ == old(self).pending_recvs@.push(packet)
                        &&& final(self).reclaimer.pending@ == old(self).reclaimer.pending@
                    }
                } else {
                    &&& result.0 == valid
                    &&& result.1 == (slot_of(*c) is Some)
                    &&& final(out_meta)@ == old(out_meta)@
                    &&& final(out_bufs)@ == old(out_bufs)@
                    &&& final(self).pending_recvs@ == old(self).pending_recvs@
                    &&& final(self).reclaimer.pending@ == old(self).reclaimer.pending@
                    &&& final(self).buf_ring@ == (match slot_of(*c) {
                        Some(bid) => crate::iouring::ring::ring_push(old(self).buf_ring@, bid),
                        None => old(self).buf_ring@,
                    })
                }
            }),
    {
        proof {
            reveal_with_fuel(streak_after, 2);
            assert(seq![*c].drop_last() =~= Seq::<Completion>::empty());
        }
        if !cqueue::more(c.flags) {
            self.recv_armed = false;
            if c.result < 0 && c.result != -ENOBUFS {
                self.recv_error_streak = self.recv_error_streak.saturating_add(1);
            }
        }
        let bid: u16 = match cqueue::buffer_select(c.flags) {
            Some(bid) => bid,
            None => return (valid, false),
        };
        if c.result > 0 {
            self.recv_error_streak = 0;
            if let Some(msg) = c.msg {
                if msg.payload_len as usize <= self.rx_pool.max_payload_size() && msg.flags
                    & MSG_TRUNC == 0 {
                    if let Some(src) = msg.src {
                        let whole: bool = msg.flags & MSG_CTRUNC == 0;
                        let packet = PendingRecv {
                            meta: RecvMeta {
                                src,
                                dst_ip: if whole {
                                    msg.dst_ip
                                } else {
                                    None
                                },
                                ecn: if whole {
                                    msg.ecn
                                } else {
                                    None
                                },
                                len: msg.payload_len as usize,
                                stride: msg.payload_len as usize,
                            },
                            bid,
                        };
                        if valid < limit {
                            self.deliver(packet, out_meta, out_bufs, valid);
                            return (valid + 1, false);
                        }
                        self.pending_recvs.push_back(packet);
                        return (valid, false);
                    }
                }
            }
        }
        self.buf_ring.replenish_raw(bid);
        (valid, true)
    }
}

/// State in the middle of a batch: what the completions `cs` have done since `before`, whose
/// buffer ring was `ring` after slots had come back. `taken` packets of those that the
/// completions bring went to the caller's slots from `from` on.
spec fn batch_progress(
    before: IoUringSocket,
    ring: crate::iouring::ring::RingState,
    now: IoUringSocket,
    bufs0: Seq<IoRxBufMut>,
    from: int,
    taken: int,
    cs: Seq<Completion>,
) -> bool {
    let max_payload = before.rx_pool.max_payload;
    &&& now.wf()
    &&& now.rx_pool == before.rx_pool
    &&& now.queue_id == before.queue_id
    &&& now.sq_dirty == before.sq_dirty
    &&& now.recv_armed == armed_after(before.recv_armed, cs)
    &&& now.recv_error_streak == streak_after(before.recv_error_streak, cs)
    &&& now.pending_recvs@ == before.pending_recvs@ + packets(cs, max_payload).skip(taken)
    &&& now.send_slots@ == slots_after(before.send_slots@, cs)
    &&& now.send_free@ == before.send_free@ + freed_slots(cs)
    &&& sends_freed(before, now, cs)
    &&& now.buf_ring.spec_count() == before.buf_ring.spec_count()
    &&& now.buf_ring@ == crate::iouring::ring::ring_push_all(
        ring,
        dropped_slots(cs, max_payload),
    )
    &&& now.reclaimer.owner == before.reclaimer.owner
    &&& now.reclaimer.remote@ == Seq::<u16>::empty()
    &&& now.reclaimer.pending@ == replaced_slots(bufs0, from, taken as nat)
}

/// A batch's effect on the socket. Slots go back to the ring in this order: those given back
/// before the batch, those of completions that bring no packet, and those that were in the
/// caller's buffers.
pub open spec fn batch_done(
    before: IoUringSocket,
    after: IoUringSocket,
    bufs0: Seq<IoRxBufMut>,
    from: int,
    taken: int,
    cs: Seq<Completion>,
) -> bool {
    let max_payload = before.rx_pool.max_payload;
    &&& after.rx_pool == before.rx_pool
    &&& after.queue_id == before.queue_id
    &&& after.sq_dirty == before.sq_dirty
    &&& after.recv_armed == armed_after(before.recv_armed, cs)
    &&& after.recv_error_streak == streak_after(before.recv_error_streak, cs)
    &&& after.pending_recvs@ == before.pending_recvs@ + packets(cs, max_payload).skip(taken)
    &&& after.send_slots@ == slots_after(before.send_slots@, cs)
    &&& after.send_free@ == before.send_free@ + freed_slots(cs)
    &&& sends_freed(before, after, cs)
    &&& after.reclaimer.owner == before.reclaimer.owner
    &&& after.reclaimer.waiting() == Seq::<u16>::empty()
    &&& after.buf_ring.spec_count() == before.buf_ring.spec_count()
    &&& after.buf_ring@ == crate::iouring::ring::ring_push_all(
        before.buf_ring@,
        slots_returned(before, bufs0, from, taken, cs),
    )
}

/// The slots that a batch gives back to the ring, in order.
pub open spec fn slots_returned(
    before: IoUringSocket,
    bufs0: Seq<IoRxBufMut>,
    from: int,
    taken: int,
    cs: Seq<Completion>,
) -> Seq<u16> {
    before.reclaimer.waiting() + dropped_slots(cs, before.rx_pool.max_payload) + replaced_slots(
        bufs0,
        from,
        taken as nat,
    )
}

proof fn lemma_send_results_bound(cs: Seq<Completion>)
    ensures
        send_results(cs).0 + send_results(cs).1 + send_results(cs).2 <= cs.len(),
    decreases cs.len(),
{
    if cs.len() > 0 {
        lemma_send_results_bound(cs.drop_last());
    }
}

proof fn lemma_streak_step(streak: u32, cs: Seq<Completion>, c: Completion)
    ensures
        streak_after(streak, cs.push(c)) == streak_after(streak_after(streak, cs), seq![c]),
{
    reveal_with_fuel(streak_after, 2);
    assert(cs.push(c).drop_last() =~= cs);
    assert(seq![c].drop_last() =~= Seq::<Completion>::empty());
}

proof fn lemma_armed_step(armed: bool, cs: Seq<Completion>, c: Completion)
    ensures
        armed_after(armed, cs.push(c)) == (armed_after(armed, cs) && (!is_send(c) ==> stays_armed(
            c,
        ))),
{
    let more = cs.push(c);
    if armed_after(armed, more) {
        assert forall|i: int| 0 <= i < cs.len() && !is_send(cs[i]) implies stays_armed(
            #[trigger] cs[i],
        ) by {
            assert(more[i] == cs[i]);
        }
        assert(more[cs.len() as int] == c);
    }
    if armed_after(armed, cs) && (!is_send(c) ==> stays_armed(c)) {
        assert forall|i: int| 0 <= i < more.len() && !is_send(more[i]) implies stays_armed(
            #[trigger] more[i],
        ) by {
            if i < cs.len() {
                assert(more[i] == cs[i]);
            }
        }
    }
}

impl IoUringSocket {
    /// Takes in a batch of completions. Send completions free slots; the packets that receive
    /// completions bring are written to the caller's slots from `valid` on as far as there are
    /// any, and the rest is staged.
    pub fn drain_batch(
        &mut self,
        completions: &Vec<Completion>,
        out_meta: &mut Vec<RecvMeta>,
        out_bufs: &mut Vec<IoRxBufMut>,
        valid: usize,
    ) -> (result: BatchResult)
        requires
            old(self).wf(),
            valid <= old(out_meta)@.len(),
            valid <= old(out_bufs)@.len(),
            answers_sends(completions@, old(self).send_slots@),
            messages_present(completions@),
        ensures
            final(self).wf(),
            ({
                let cs = completions@;
                let max_payload = old(self).rx_pool.max_payload;
                let limit = vstd::math::min(
                    old(out_meta)@.len() as int,
                    old(out_bufs)@.len() as int,
                );
                let taken = vstd::math::min(
                    packets(cs, max_payload).len() as int,
                    limit - valid,
                );
                &&& result.valid == valid + taken
                &&& packets_delivered(
                    old(out_meta)@,
                    final(out_meta)@,
                    old(out_bufs)@,
                    final(out_bufs)@,
                    valid as int,
                    packets(cs, max_payload).take(taken),
                    max_payload,
                )
                &&& batch_done(*old(self), *final(self), old(out_bufs)@, valid as int, taken, cs)
                &&& result.drained.completed == send_results(cs).0
                &&& result.drained.emsgsize == send_results(cs).1
                &&& result.drained.errors == send_results(cs).2
                &&& result.publish_tail == (if slots_returned(
                    *old(self),
                    old(out_bufs)@,
                    valid as int,
                    taken,
                    cs,
                ).len() > 0 {
                    Some(final(self).buf_ring@.tail)
                } else {
                    None
                })
            }),
    {
        let ghost before = *self;
        let ghost cs = completions@;
        let ghost meta0 = out_meta@;
        let ghost bufs0 = out_bufs@;
        let ghost max_payload = self.rx_pool.max_payload;
        let limit: usize = if out_meta.len() < out_bufs.len() {
            out_meta.len()
        } else {
            out_bufs.len()
        };
        let mut drained = DrainResult::default();
        let mut filled: usize = valid;
        let mut replenished: bool = self.reclaimer.drain_pending(&mut self.buf_ring);
        let ghost ring1 = self.buf_ring@;
        let mut i: usize = 0;
        proof {
            let none = cs.take(0);
            assert(none =~= Seq::<Completion>::empty());
            assert(packets(none, max_payload).take(0) =~= Seq::<PendingRecv>::empty());
            assert(packets(none, max_payload).skip(0) =~= Seq::<PendingRecv>::empty());
            assert(before.pending_recvs@ + Seq::<PendingRecv>::empty() =~= before.pending_recvs@);
            assert(before.send_free@ + freed_slots(none) =~= before.send_free@);
            let name = before.tx_pool.spec_name();
            assert(before.tx_pool.local() + freed_memories(none, before.send_slots@, name)
                =~= before.tx_pool.local());
            assert(before.strays@ + freed_strays(none, before.send_slots@, name)
                =~= before.strays@);
            assert(packets_delivered(
                meta0,
                out_meta@,
                bufs0,
                out_bufs@,
                valid as int,
                packets(none, max_payload).take(0),
                max_payload,
            ));
        }
        while i < completions.len()
            invariant
                cs == completions@,
                i <= cs.len(),
                before == *old(self),
                max_payload == before.rx_pool.max_payload,
                answers_sends(cs, before.send_slots@),
                messages_present(cs),
                limit == vstd::math::min(meta0.len() as int, bufs0.len() as int),
                valid <= limit,
                filled == valid + vstd::math::min(
                    packets(cs.take(i as int), max_payload).len() as int,
                    limit - valid,
                ),
                batch_progress(
                    before,
                    ring1,
                    *self,
                    bufs0,
                    valid as int,
                    filled - valid,
                    cs.take(i as int),
                ),
                packets_delivered(
                    meta0,
                    out_meta@,
                    bufs0,
                    out_bufs@,
                    valid as int,
                    packets(cs.take(i as int), max_payload).take(filled - valid),
                    max_payload,
                ),
                drained.completed == send_results(cs.take(i as int)).0,
                drained.emsgsize == send_results(cs.take(i as int)).1,
                drained.errors == send_results(cs.take(i as int)).2,
                replenished == (before.reclaimer.waiting().len() > 0 || dropped_slots(
                    cs.take(i as int),
                    max_payload,
                ).len() > 0),
            decreases cs.len() - i,
        {
            let c = completions[i];
            let ghost done = cs.take(i as int);
            let ghost next = cs.take(i + 1);
            proof {
                assert(next =~= done.push(c));
                assert(next.drop_last() =~= done);
                lemma_send_results_bound(done);
                lemma_streak_step(before.recv_error_streak, done, c);
                lemma_armed_step(before.recv_armed, done, c);
                assert(cs[i as int] == c);
            }
            let ghost packets0 = packets(done, max_payload);
            if c.user_data & SEND_TAG != 0 {
                assert(send_index(c) < before.send_slots.len());
                let idx: usize = (c.user_data & !SEND_TAG) as usize;
                if c.result < 0 {
                    if c.result == -EMSGSIZE {
                        drained.emsgsize = drained.emsgsize + 1;
                    } else {
                        drained.errors = drained.errors + 1;
                    }
                } else {
                    drained.completed = drained.completed + 1;
                }
                proof {
                    lemma_answers_prefix(cs, before.send_slots@, i as int);
                    lemma_slots_after(before.send_slots@, done);
                    assert(self.send_slots@[send_index(c)] == before.send_slots@[send_index(c)]);
                }
                self.complete_send(idx);
                proof {
                    assert(self.send_free@ =~= before.send_free@ + freed_slots(next));
                    let name = before.tx_pool.spec_name();
                    assert(self.tx_pool.local() =~= before.tx_pool.local() + freed_memories(
                        next,
                        before.send_slots@,
                        name,
                    ));
                    assert(self.strays@ =~= before.strays@ + freed_strays(
                        next,
                        before.send_slots@,
                        name,
                    ));
                }
            } else {
                let ghost meta1 = out_meta@;
                let ghost bufs1 = out_bufs@;
                let (filled_now, returned): (usize, bool) = self.take_recv(
                    &c,
                    out_meta,
                    out_bufs,
                    filled,
                    limit,
                );
                proof {
                    let packets1 = packets(next, max_payload);
                    if brings_packet(c, max_payload) {
                        let packet = PendingRecv { meta: packet_meta(c), bid: slot_of(c)->Some_0 };
                        assert(packets1 == packets0.push(packet));
                        if filled < limit {
                            assert(packets0.take(filled - valid) =~= packets0);
                            assert(packets1.take(filled_now - valid) =~= packets0.push(packet));
                            assert(packets1.skip(filled_now - valid) =~= packets0.skip(
                                filled - valid,
                            ));
                            assert(bufs1[filled as int] == bufs0[filled as int]);
                            let n = (filled_now - valid) as nat;
                            assert(valid + n - 1 == filled);
                            assert(self.reclaimer.pending@ == replaced_slots(
                                bufs0,
                                valid as int,
                                n,
                            ));
                        } else {
                            assert(packets1.take(filled_now - valid) =~= packets0.take(
                                filled - valid,
                            ));
                            assert(packets1.skip(filled_now - valid) =~= packets0.skip(
                                filled - valid,
                            ).push(packet));
                            assert(self.pending_recvs@ =~= before.pending_recvs@ + packets1.skip(
                                filled_now - valid,
                            ));
                        }
                    } else if slot_of(c) is Some {
                        let dropped1 = dropped_slots(next, max_payload);
                        assert(dropped1.drop_last() =~= dropped_slots(done, max_payload));
                    }
                }
                filled = filled_now;
                if returned {
                    replenished = true;
                }
            }
            i += 1;
        }
        assert(cs.take(i as int) =~= cs);
        let ghost ring2 = self.buf_ring@;
        let returned: bool = self.reclaimer.drain_pending(&mut self.buf_ring);
        proof {
            let taken = filled - valid;
            let replaced = replaced_slots(bufs0, valid as int, taken as nat);
            let dropped = dropped_slots(cs, max_payload);
            let waiting = before.reclaimer.waiting();
            assert(replaced + Seq::<u16>::empty() =~= replaced);
            crate::iouring::ring::lemma_push_all_add(before.buf_ring@, waiting, dropped);
            crate::iouring::ring::lemma_push_all_add(
                before.buf_ring@,
                waiting + dropped,
                replaced,
            );
        }
        let publish_tail: Option<u16> = if replenished || returned {
            Some(self.buf_ring.flush_tail())
        } else {
            None
        };
        BatchResult { drained, valid: filled, publish_tail }
    }
}

proof fn lemma_answers_prefix(cs: Seq<Completion>, slots: Seq<Option<IoTransmit>>, n: int)
    requires
        answers_sends(cs, slots),
        0 <= n < cs.len(),
    ensures
        answers_sends(cs.take(n), slots),
        is_send(cs[n]) ==> forall|i: int|
            0 <= i < n && is_send(#[trigger] cs.take(n)[i]) ==> send_index(cs.take(n)[i])
                != send_index(cs[n]),
{
    let done = cs.take(n);
    assert forall|i: int| 0 <= i < done.len() && is_send(#[trigger] done[i]) implies send_index(
        done[i],
    ) < slots.len() && slots[send_index(done[i])] is Some by {
        assert(done[i] == cs[i]);
    }
    assert forall|i: int, j: int|
        #![trigger done[i], done[j]]
        0 <= i < j < done.len() && is_send(done[i]) && is_send(done[j]) implies send_index(done[i])
        != send_index(done[j]) by {
        assert(done[i] == cs[i] && done[j] == cs[j]);
    }
    if is_send(cs[n]) {
        assert forall|i: int| 0 <= i < n && is_send(#[trigger] done[i]) implies send_index(done[i])
            != send_index(cs[n]) by {
            assert(done[i] == cs[i]);
        }
    }
}

/// The slots that receive completions used, in order.
pub open spec fn slots_used(cs: Seq<Completion>) -> Seq<u16>
    decreases cs.len(),
{
    if cs.len() == 0 {
        Seq::empty()
    } else if !is_send(cs.last()) && slot_of(cs.last()) is Some {
        slots_used(cs.drop_last()).push(slot_of(cs.last())->Some_0)
    } else {
        slots_used(cs.drop_last())
    }
}

/// No slot gets lost: each one that a completion used either holds a packet that is handed on
/// or goes straight back to the ring, and never both.
pub proof fn law_no_slot_lost(cs: Seq<Completion>, max_payload: usize)
    ensures
        slots_used(cs).to_multiset() == packets(cs, max_payload).map_values(
            |p: PendingRecv| p.bid,
        ).to_multiset().add(dropped_slots(cs, max_payload).to_multiset()),
    decreases cs.len(),
{
    broadcast use vstd::seq_lib::group_to_multiset_ensures;

    let held = packets(cs, max_payload).map_values(|p: PendingRecv| p.bid);
    let dropped = dropped_slots(cs, max_payload);
    if cs.len() == 0 {
        assert(held =~= Seq::<u16>::empty());
        assert(held.to_multiset() =~= vstd::multiset::Multiset::<u16>::empty());
        assert(held.to_multiset().add(dropped.to_multiset()) =~= slots_used(cs).to_multiset());
    } else {
        let rest = cs.drop_last();
        let held0 = packets(rest, max_payload).map_values(|p: PendingRecv| p.bid);
        let dropped0 = dropped_slots(rest, max_payload);
        law_no_slot_lost(rest, max_payload);
        if !is_send(cs.last()) && slot_of(cs.last()) is Some {
            let bid = slot_of(cs.last())->Some_0;
            assert(slots_used(cs) == slots_used(rest).push(bid));
            if brings_packet(cs.last(), max_payload) {
                assert(held =~= held0.push(bid));
                assert(held.to_multiset() =~= held0.to_multiset().insert(bid));
            } else {
                assert(held =~= held0);
                assert(dropped == dropped0.push(bid));
                assert(dropped.to_multiset() =~= dropped0.to_multiset().insert(bid));
            }
            assert(slots_used(cs).to_multiset() =~= slots_used(rest).to_multiset().insert(bid));
            assert(held.to_multiset().add(dropped.to_multiset()) =~= held0.to_multiset().add(
                dropped0.to_multiset(),
            ).insert(bid));
        } else {
            assert(held =~= held0);
        }
    }
}

/// Packets keep their order across batches: the packets of two batches are those of the first
/// followed by those of the second.
pub proof fn law_packets_in_order(a: Seq<Completion>, b: Seq<Completion>, max_payload: usize)
    ensures
        packets(a + b, max_payload) == packets(a, max_payload) + packets(b, max_payload),
    decreases b.len(),
{
    if b.len() == 0 {
        assert(a + b =~= a);
        assert(packets(a, max_payload) + packets(b, max_payload) =~= packets(a, max_payload));
    } else {
        law_packets_in_order(a, b.drop_last(), max_payload);
        assert((a + b).drop_last() =~= a + b.drop_last());
        assert((a + b).last() == b.last());
        assert(packets(a + b, max_payload) =~= packets(a, max_payload) + packets(b, max_payload));
    }
}

/// The tag of a send request names its slot: reading it back from the completion gives the slot
/// that it was made for, and tells it from a receive.
pub proof fn law_send_tag_round_trip(idx: u64)
    requires
        idx < SEND_TAG,
    ensures
        (SEND_TAG | idx) & SEND_TAG != 0,
        (SEND_TAG | idx) & !SEND_TAG == idx,
        RECV_TAG & SEND_TAG == 0,
{
    assert((0x8000_0000_0000_0000u64 | idx) & 0x8000_0000_0000_0000u64 != 0 && (
    0x8000_0000_0000_0000u64 | idx) & !0x8000_0000_0000_0000u64 == idx && 0u64
        & 0x8000_0000_0000_0000u64 == 0) by (bit_vector)
        requires
            idx < 0x8000_0000_0000_0000u64,
    ;
}

/// Every send slot is either free or holds a packet in flight.
pub proof fn law_send_slot_free_or_in_flight(socket: IoUringSocket, k: int)
    requires
        socket.wf(),
        0 <= k < socket.send_slots@.len(),
        socket.send_slots@.len() <= usize::MAX,
    ensures
        socket.send_slots@[k] is None <==> socket.send_free@.contains(k as usize),
{
    let free = socket.send_free@;
    if free.contains(k as usize) {
        let i = choose|i: int| 0 <= i < free.len() && free[i] == k as usize;
        assert(socket.send_slots@[free[i] as int] is None);
    }
}

/// There are no more free send slots than send slots.
pub proof fn lemma_free_slots_bound(slots: Seq<Option<IoTransmit>>, free: Seq<usize>)
    requires
        free_slots_ok(slots, free),
    ensures
        free.len() <= slots.len(),
{
    let numbers = free.map_values(|x: usize| x as int);
    assert(numbers.no_duplicates());
    numbers.unique_seq_to_set();
    let range = vstd::set_lib::set_int_range(0, slots.len() as int);
    vstd::set_lib::lemma_int_range(0, slots.len() as int);
    assert(numbers.to_set().subset_of(range)) by {
        assert forall|x: int| numbers.to_set().contains(x) implies range.contains(x) by {
            let i = choose|i: int| 0 <= i < numbers.len() && numbers[i] == x;
            assert(free[i] < slots.len());
        }
    }
    vstd::set_lib::lemma_len_subset(numbers.to_set(), range);
}

/// Whether a packet is the empty one that a packet handed over leaves behind.
pub open spec fn is_sentinel(transmit: IoTransmit) -> bool {
    &&& transmit.destination == (SocketAddr { ip: IpAddr::V4(Ipv4Addr { bits: 0 }), port: 0 })
    &&& transmit.ecn is None
    &&& transmit.segment_size is None
    &&& transmit.src_ip is None
    &&& transmit.contents.wf()
    &&& transmit.contents@ == Seq::<Segment<IoTxBuf>>::empty()
}

/// The empty packet that takes the place of one handed over.
pub fn sentinel() -> (transmit: IoTransmit)
    ensures
        is_sentinel(transmit),
{
    Transmit::new(
        ScatterGather::new(),
        SocketAddr { ip: IpAddr::V4(Ipv4Addr { bits: 0 }), port: 0 },
    )
}

/// The address family of a packet's ancillary data; `None` where it needs none, as no ECN
/// codepoint and no source address is set.
pub fn ancillary_family(transmit: &IoTransmit) -> (family: Option<u8>)
    ensures
        family is Some <==> transmit.ecn is Some || transmit.src_ip is Some,
        family matches Some(f) ==> f == (if transmit.destination.ip is V4 {
            crate::sockaddr::AF_INET
        } else {
            crate::sockaddr::AF_INET6
        }),
{
    if transmit.ecn.is_some() || transmit.src_ip.is_some() {
        match transmit.destination.ip {
            IpAddr::V4(_) => Some(crate::sockaddr::AF_INET),
            IpAddr::V6(_) => Some(crate::sockaddr::AF_INET6),
        }
    } else {
        None
    }
}

/// A packet that the socket can send: few enough segments, and no segmentation offload.
pub open spec fn sendable(transmit: IoTransmit) -> bool {
    transmit.contents@.len() <= MAX_SEND_SGS && transmit.segment_size is None
}

/// Whether the socket can send a packet.
pub fn is_sendable(transmit: &IoTransmit) -> (ok: bool)
    requires
        transmit.contents.wf(),
    ensures
        ok == sendable(*transmit),
{
    transmit.contents.segment_count() <= MAX_SEND_SGS && transmit.segment_size.is_none()
}

/// The send slots after packets went into the slots `taken`.
pub open spec fn slots_filled(
    slots: Seq<Option<IoTransmit>>,
    taken: Seq<usize>,
    transmits: Seq<IoTransmit>,
) -> Seq<Option<IoTransmit>>
    decreases taken.len(),
{
    if taken.len() == 0 {
        slots
    } else {
        slots_filled(slots, taken.drop_last(), transmits).update(
            taken.last() as int,
            Some(transmits[taken.len() - 1]),
        )
    }
}

impl IoUringSocket {
    /// State of a socket with the given configuration, bound to `local`, with its pools owned by
    /// thread `owner`: every receive slot with the kernel, every send slot free, and the receive
    /// not yet armed.
    pub fn from_udp(
        local: Option<SocketAddr>,
        queue_id: u16,
        config: &IoUringConfig,
        owner: u64,
    ) -> (socket: IoUringSocket)
        requires
            config.valid(),
        ensures
            socket.wf(),
            socket.queue_id == queue_id,
            socket.rx_pool.max_payload == max_payload_of(local),
            socket.tx_pool.spec_max_payload() == max_payload_of(local),
            socket.tx_pool.spec_owner() == owner,
            socket.tx_pool.spec_name() == 0,
            socket.strays@ == Seq::<IoTxBuf>::empty(),
            socket.tx_pool.local() == Seq::<Vec<u8>>::empty(),
            socket.tx_pool.remote() == Seq::<Vec<u8>>::empty(),
            socket.buf_ring.spec_count() == config.buf_ring_count,
            socket.buf_ring@ == (crate::iouring::ring::RingState {
                entries: crate::iouring::ring::all_bids(config.buf_ring_count as nat),
                tail: config.buf_ring_count as u16,
            }),
            socket.reclaimer.owner == owner,
            socket.reclaimer.waiting() == Seq::<u16>::empty(),
            socket.reclaimer.remote.capacity() == config.buf_ring_count,
            !socket.recv_armed,
            socket.recv_error_streak == 0,
            !socket.sq_dirty,
            socket.pending_recvs@ == Seq::<PendingRecv>::empty(),
            socket.send_slots@.len() == config.send_pool_size,
            forall|i: int|
                0 <= i < socket.send_slots@.len() ==> (#[trigger] socket.send_slots@[i]) is None,
            socket.send_free@ == Seq::new(config.send_pool_size as nat, |i: int| i as usize),
    {
        let max_payload: usize = match local {
            Some(addr) => if addr.is_ipv4() {
                IPV4_MAX_UDP_PAYLOAD
            } else {
                IPV6_MAX_UDP_PAYLOAD
            },
            None => IPV6_MAX_UDP_PAYLOAD,
        };
        let mut buf_ring = ProvidedBufRing::new(config.buf_ring_count);
        buf_ring.fill_all();
        proof {
            crate::iouring::ring::law_filled_ring_holds_every_slot(config.buf_ring_count as u16);
        }
        let mut send_slots: Vec<Option<IoTransmit>> = Vec::with_capacity(config.send_pool_size);
        let mut send_free: Vec<usize> = Vec::with_capacity(config.send_pool_size);
        let mut i: usize = 0;
        while i < config.send_pool_size
            invariant
                i <= config.send_pool_size,
                send_slots@.len() == i,
                send_free@.len() == i,
                forall|j: int| 0 <= j < i ==> (#[trigger] send_slots@[j]) is None,
                forall|j: int| 0 <= j < i ==> #[trigger] send_free@[j] == j,
            decreases config.send_pool_size - i,
        {
            send_slots.push(None);
            send_free.push(i);
            i += 1;
        }
        let socket = IoUringSocket {
            rx_pool: IoRxPool { max_payload },
            tx_pool: IoTxPool::with_max_payload(max_payload, owner),
            strays: Vec::new(),
            queue_id,
            buf_ring,
            reclaimer: RingReclaimer::new(owner, config.buf_ring_count),
            recv_armed: false,
            recv_error_streak: 0,
            sq_dirty: false,
            pending_recvs: VecDeque::new(),
            send_slots,
            send_free,
        };
        assert(socket.reclaimer.waiting() =~= Seq::<u16>::empty());
        assert(socket.send_free@ =~= Seq::new(config.send_pool_size as nat, |j: int| j as usize));
        assert forall|k: int|
            0 <= k < socket.send_slots@.len() && (#[trigger] socket.send_slots@[k]) is None implies socket.send_free@.contains(
        k as usize) by {
            assert(socket.send_free@[k] == k as usize);
        }
        socket
    }

    pub fn set_queue_id(&mut self, id: u16)
        ensures
            *final(self) == (IoUringSocket { queue_id: id, ..*old(self) }),
    {
        self.queue_id = id;
    }

    pub fn queue_id(&self) -> (id: u16)
        ensures
            id == self.queue_id,
    {
        self.queue_id
    }

    /// Records that the multishot receive was pushed to the submission ring.
    pub fn submit_recv_multishot(&mut self)
        ensures
            *final(self) == (IoUringSocket { recv_armed: true, sq_dirty: true, ..*old(self) }),
    {
        self.recv_armed = true;
        self.sq_dirty = true;
    }

    /// Whether the submission ring has to be flushed to the kernel before completions are read;
    /// it then counts as flushed.
    pub fn flush_sqes(&mut self) -> (submit: bool)
        ensures
            submit == old(self).sq_dirty,
            *final(self) == (IoUringSocket { sq_dirty: false, ..*old(self) }),
    {
        let submit: bool = self.sq_dirty;
        self.sq_dirty = false;
        submit
    }

    /// Whether to arm the multishot receive again: the kernel disarmed it, the submission ring
    /// has room, not every slot waits with a staged packet (arming without a free slot would
    /// fail at once and disarm again, forever), and the kernel has not kept rejecting it.
    pub fn should_rearm(&self, sq_full: bool) -> (rearm: bool)
        requires
            self.wf(),
        ensures
            rearm == (!self.recv_armed && !sq_full && self.pending_recvs@.len()
                < self.buf_ring.spec_count() && self.recv_error_streak < MAX_RECV_ERROR_STREAK),
    {
        !self.recv_armed && !sq_full && self.pending_recvs.len() < self.buf_ring.count() as usize
            && self.recv_error_streak < MAX_RECV_ERROR_STREAK
    }

    /// How many packets can be accepted: as many as there are, as there are free send slots, and
    /// as the submission ring has room for.
    pub fn send_limit(&self, transmits: usize, sq_free: usize) -> (n: usize)
        ensures
            n == vstd::math::min(
                vstd::math::min(transmits as int, self.send_free@.len() as int),
                sq_free as int,
            ),
    {
        let n: usize = if transmits < self.send_free.len() {
            transmits
        } else {
            self.send_free.len()
        };
        if n < sq_free {
            n
        } else {
            sq_free
        }
    }

    /// Moves the first packets into free send slots, as many as can be accepted, and returns the
    /// slots; a send request is to be pushed for each. An empty packet takes each one's place,
    /// so the caller can drop the accepted ones.
    pub fn send(&mut self, transmits: &mut Vec<IoTransmit>, sq_free: usize) -> (taken: Vec<usize>)
        requires
            old(self).wf(),
            forall|i: int|
                0 <= i < old(transmits)@.len() ==> (#[trigger] old(transmits)@[i]).contents.wf(),
            forall|i: int|
                0 <= i < vstd::math::min(
                    vstd::math::min(old(transmits)@.len() as int, old(self).send_free@.len() as int),
                    sq_free as int,
                ) ==> sendable(#[trigger] old(transmits)@[i]),
        ensures
            final(self).wf(),
            ({
                let free = old(self).send_free@;
                let n = vstd::math::min(
                    vstd::math::min(old(transmits)@.len() as int, free.len() as int),
                    sq_free as int,
                );
                &&& taken@ == free.skip(free.len() - n).reverse()
                &&& final(self).send_free@ == free.take(free.len() - n)
                &&& final(self).send_slots@ == slots_filled(
                    old(self).send_slots@,
                    taken@,
                    old(transmits)@,
                )
                &&& final(transmits)@.len() == old(transmits)@.len()
                &&& forall|i: int| 0 <= i < n ==> is_sentinel(#[trigger] final(transmits)@[i])
                &&& forall|i: int|
                    n <= i < old(transmits)@.len() ==> #[trigger] final(transmits)@[i] == old(
                        transmits,
                    )@[i]
                &&& final(self).sq_dirty == (old(self).sq_dirty && n == 0)
                &&& *final(self) == (IoUringSocket {
                    send_slots: final(self).send_slots,
                    send_free: final(self).send_free,
                    sq_dirty: final(self).sq_dirty,
                    ..*old(self)
                })
            }),
    {
        let n: usize = self.send_limit(transmits.len(), sq_free);
        let ghost free = self.send_free@;
        let ghost slots0 = self.send_slots@;
        let ghost all = transmits@;
        let mut taken: Vec<usize> = Vec::with_capacity(n);
        let mut i: usize = 0;
        assert(free.take(free.len() - 0) =~= free);
        assert(free.skip(free.len() - 0).reverse() =~= Seq::<usize>::empty());
        while i < n
            invariant
                i <= n <= all.len(),
                n <= free.len(),
                self.wf(),
                free == old(self).send_free@,
                taken@ == free.skip(free.len() - i).reverse(),
                taken@.len() == i,
                self.send_free@ == free.take(free.len() - i),
                self.send_slots@ == slots_filled(slots0, taken@, all),
                slots0.len() == self.send_slots@.len(),
                transmits@.len() == all.len(),
                forall|j: int| 0 <= j < all.len() ==> (#[trigger] all[j]).contents.wf(),
                forall|j: int| 0 <= j < i ==> is_sentinel(#[trigger] transmits@[j]),
                forall|j: int| i <= j < all.len() ==> #[trigger] transmits@[j] == all[j],
                *self == (IoUringSocket {
                    send_slots: self.send_slots,
                    send_free: self.send_free,
                    ..*old(self)
                }),
            decreases n - i,
        {
            let ghost free1 = self.send_free@;
            let ghost taken0 = taken@;
            match self.send_free.pop() {
                Some(idx) => {
                    proof {
                        assert(free1[free1.len() - 1] == idx);
                        assert(free1[free1.len() - 1] < self.send_slots.len());
                        assert(self.send_free@ =~= free.take(free.len() - (i + 1)));
                        assert(free.skip(free.len() - (i + 1)).reverse() =~= taken0.push(idx));
                        assert forall|j: int| 0 <= j < self.send_free@.len() implies #[trigger] self.send_free@[j]
                            != idx by {
                            assert(free1[j] == self.send_free@[j]);
                        }
                    }
                    let mut packet = sentinel();
                    core::mem::swap(&mut transmits[i], &mut packet);
                    assert(packet == all[i as int]);
                    self.send_slots[idx] = Some(packet);
                    taken.push(idx);
                    proof {
                        assert(taken@.drop_last() =~= taken0);
                        assert forall|j: int| 0 <= j < self.send_free@.len() implies #[trigger] self.send_free@[j]
                            < self.send_slots@.len() && self.send_slots@[self.send_free@[j] as int] is None by {
                            assert(free1[j] == self.send_free@[j]);
                        }
                    }
                },
                None => {},
            }
            i += 1;
        }
        if n > 0 {
            self.sq_dirty = false;
        }
        taken
    }

    /// Moves staged packets into the caller's slots, oldest first, before any new ones: packets
    /// arrive in order regardless of how completions were drained.
    pub fn recv_staged(&mut self, meta: &mut Vec<RecvMeta>, bufs: &mut Vec<IoRxBufMut>) -> (valid:
        usize)
        requires
            old(self).wf(),
        ensures
            final(self).wf(),
            valid == vstd::math::min(
                old(self).pending_recvs@.len() as int,
                vstd::math::min(old(meta)@.len() as int, old(bufs)@.len() as int),
            ),
            final(self).pending_recvs@ == old(self).pending_recvs@.skip(valid as int),
            packets_delivered(
                old(meta)@,
                final(meta)@,
                old(bufs)@,
                final(bufs)@,
                0,
                old(self).pending_recvs@.take(valid as int),
                old(self).rx_pool.max_payload,
            ),
            final(self).reclaimer.pending@ == old(self).reclaimer.pending@ + replaced_slots(
                old(bufs)@,
                0,
                valid as nat,
            ),
            final(self).reclaimer.remote@ == old(self).reclaimer.remote@,
            final(self).reclaimer.owner == old(self).reclaimer.owner,
            *final(self) == (IoUringSocket {
                pending_recvs: final(self).pending_recvs,
                reclaimer: final(self).reclaimer,
                ..*old(self)
            }),
    {
        let ghost all = self.pending_recvs@;
        let ghost meta0 = meta@;
        let ghost bufs0 = bufs@;
        let ghost waiting0 = self.reclaimer.pending@;
        let limit: usize = if meta.len() < bufs.len() {
            meta.len()
        } else {
            bufs.len()
        };
        let mut valid: usize = 0;
        assert(all.skip(0) =~= all);
        assert(all.take(0) =~= Seq::<PendingRecv>::empty());
        assert(waiting0 + replaced_slots(bufs0, 0, 0) =~= waiting0);
        while valid < limit
            invariant_except_break
                valid <= limit,
            invariant
                limit == vstd::math::min(meta0.len() as int, bufs0.len() as int),
                valid <= limit,
                valid <= all.len(),
                self.wf(),
                self.pending_recvs@ == all.skip(valid as int),
                packets_delivered(
                    meta0,
                    meta@,
                    bufs0,
                    bufs@,
                    0,
                    all.take(valid as int),
                    old(self).rx_pool.max_payload,
                ),
                self.reclaimer.pending@ == waiting0 + replaced_slots(bufs0, 0, valid as nat),
                self.reclaimer.remote@ == old(self).reclaimer.remote@,
                self.reclaimer.owner == old(self).reclaimer.owner,
                *self == (IoUringSocket {
                    pending_recvs: self.pending_recvs,
                    reclaimer: self.reclaimer,
                    ..*old(self)
                }),
            ensures
                valid == vstd::math::min(all.len() as int, limit as int),
            decreases limit - valid,
        {
            match self.pending_recvs.pop_front() {
                None => {
                    break ;
                },
                Some(packet) => {
                    proof {
                        assert(packet == all[valid as int]);
                        assert(all.skip(valid as int).subrange(1, all.len() - valid) =~= all.skip(
                            valid + 1,
                        ));
                        assert(all.take(valid + 1) =~= all.take(valid as int).push(packet));
                        assert(bufs@[valid as int] == bufs0[valid as int]);
                    }
                    self.deliver(packet, meta, bufs, valid);
                    valid += 1;
                    assert(self.reclaimer.pending@ =~= waiting0 + replaced_slots(
                        bufs0,
                        0,
                        valid as nat,
                    ));
                },
            }
        }
        valid
    }

    /// Takes in completions while the socket is closed: sends that ended free their slots, and a
    /// receive that ended is no longer armed.
    pub fn retire(&mut self, completions: &Vec<Completion>)
        requires
            old(self).wf(),
            answers_sends(completions@, old(self).send_slots@),
        ensures
            final(self).wf(),
            final(self).send_slots@ == slots_after(old(self).send_slots@, completions@),
            final(self).send_free@ == old(self).send_free@ + freed_slots(completions@),
            final(self).recv_armed == armed_after(old(self).recv_armed, completions@),
            sends_freed(*old(self), *final(self), completions@),
            *final(self) == (IoUringSocket {
                send_slots: final(self).send_slots,
                send_free: final(self).send_free,
                recv_armed: final(self).recv_armed,
                tx_pool: final(self).tx_pool,
                strays: final(self).strays,
                ..*old(self)
            }),
    {
        let ghost before = *self;
        let ghost cs = completions@;
        let mut i: usize = 0;
        proof {
            let none = cs.take(0);
            assert(none =~= Seq::<Completion>::empty());
            assert(before.send_free@ + freed_slots(none) =~= before.send_free@);
            let name = before.tx_pool.spec_name();
            assert(before.tx_pool.local() + freed_memories(none, before.send_slots@, name)
                =~= before.tx_pool.local());
            assert(before.strays@ + freed_strays(none, before.send_slots@, name)
                =~= before.strays@);
        }
        while i < completions.len()
            invariant
                cs == completions@,
                before == *old(self),
                i <= cs.len(),
                self.wf(),
                answers_sends(cs, before.send_slots@),
                self.send_slots@ == slots_after(before.send_slots@, cs.take(i as int)),
                self.send_free@ == before.send_free@ + freed_slots(cs.take(i as int)),
                self.recv_armed == armed_after(before.recv_armed, cs.take(i as int)),
                sends_freed(before, *self, cs.take(i as int)),
                *self == (IoUringSocket {
                    send_slots: self.send_slots,
                    send_free: self.send_free,
                    recv_armed: self.recv_armed,
                    tx_pool: self.tx_pool,
                    strays: self.strays,
                    ..before
                }),
            decreases cs.len() - i,
        {
            let c = completions[i];
            let ghost done = cs.take(i as int);
            let ghost next = cs.take(i + 1);
            proof {
                assert(next =~= done.push(c));
                assert(next.drop_last() =~= done);
                lemma_armed_step(before.recv_armed, done, c);
                assert(cs[i as int] == c);
            }
            if c.user_data & SEND_TAG != 0 {
                assert(send_index(c) < before.send_slots.len());
                let idx: usize = (c.user_data & !SEND_TAG) as usize;
                proof {
                    lemma_answers_prefix(cs, before.send_slots@, i as int);
                    lemma_slots_after(before.send_slots@, done);
                    assert(self.send_slots@[send_index(c)] == before.send_slots@[send_index(c)]);
                }
                self.complete_send(idx);
                proof {
                    assert(self.send_free@ =~= before.send_free@ + freed_slots(next));
                    let name = before.tx_pool.spec_name();
                    assert(self.tx_pool.local() =~= before.tx_pool.local() + freed_memories(
                        next,
                        before.send_slots@,
                        name,
                    ));
                    assert(self.strays@ =~= before.strays@ + freed_strays(
                        next,
                        before.send_slots@,
                        name,
                    ));
                }
            } else if !cqueue::more(c.flags) {
                self.recv_armed = false;
            }
            i += 1;
        }
        assert(cs.take(i as int) =~= cs);
    }

    /// How many completions to wait for before memory is freed: one for each send in flight,
    /// and two for a receive that is cancelled.
    pub fn wait_count(&self) -> (n: usize)
        requires
            self.wf(),
            self.send_slots@.len() + 2 <= usize::MAX,
        ensures
            n == self.send_slots@.len() - self.send_free@.len() + (if self.recv_armed {
                2int
            } else {
                0
            }),
    {
        proof {
            lemma_free_slots_bound(self.send_slots@, self.send_free@);
        }
        let outstanding: usize = self.send_slots.len() - self.send_free.len();
        if self.recv_armed {
            outstanding + 2
        } else {
            outstanding
        }
    }
}

pub const IP_RECVTOS: i32 = 13;

pub const IP_PKTINFO: i32 = 8;

pub const IPV6_RECVTCLASS: i32 = 66;

pub const IPV6_RECVPKTINFO: i32 = 49;

/// The options of a socket with the given largest payload. Each has to be set, but for the one
/// that lets a dual-stack socket see the ECN bits of IPv4 packets, which may not apply.
pub open spec fn required_options(max_payload: usize) -> Seq<(SocketOption, bool)> {
    if max_payload == IPV4_MAX_UDP_PAYLOAD {
        seq![
            (SocketOption { level: IPPROTO_IP, name: IP_MTU_DISCOVER, value: IP_PMTUDISC_DO }, true),
            (SocketOption { level: IPPROTO_IP, name: IP_RECVTOS, value: 1 }, true),
            (SocketOption { level: IPPROTO_IP, name: IP_PKTINFO, value: 1 }, true),
        ]
    } else {
        seq![
            (
                SocketOption {
                    level: IPPROTO_IPV6,
                    name: IPV6_MTU_DISCOVER,
                    value: IPV6_PMTUDISC_DO,
                },
                true,
            ),
            (SocketOption { level: IPPROTO_IPV6, name: IPV6_RECVTCLASS, value: 1 }, true),
            (SocketOption { level: IPPROTO_IPV6, name: IPV6_RECVPKTINFO, value: 1 }, true),
            (SocketOption { level: IPPROTO_IP, name: IP_RECVTOS, value: 1 }, false),
        ]
    }
}

/// The options to set, in order, and whether the socket is useless without.
///
/// Fragmentation is forbidden: it would break QUIC's PMTU model and let oversize reassembled
/// payloads hit the fixed-size receive slots. ECN and destination address are asked for:
/// without them QUIC ECN and path selection break.
pub fn socket_options(max_payload: usize) -> (options: Vec<(SocketOption, bool)>)
    ensures
        options@ == required_options(max_payload),
{
    let mut options: Vec<(SocketOption, bool)> = Vec::new();
    options.push((OsSocket::fragmentation_option(max_payload), true));
    if max_payload == IPV4_MAX_UDP_PAYLOAD {
        options.push((SocketOption { level: IPPROTO_IP, name: IP_RECVTOS, value: 1 }, true));
        options.push((SocketOption { level: IPPROTO_IP, name: IP_PKTINFO, value: 1 }, true));
    } else {
        options.push((SocketOption { level: IPPROTO_IPV6, name: IPV6_RECVTCLASS, value: 1 }, true));
        options.push(
            (SocketOption { level: IPPROTO_IPV6, name: IPV6_RECVPKTINFO, value: 1 }, true),
        );
        options.push((SocketOption { level: IPPROTO_IP, name: IP_RECVTOS, value: 1 }, false));
    }
    assert(options@ =~= required_options(max_payload));
    options
}

/// Largest UDP payload of a socket bound to an address, or the smaller of both families' where
/// the address is not known.
pub open spec fn max_payload_of(local: Option<SocketAddr>) -> usize {
    match local {
        Some(addr) => match addr.ip {
            IpAddr::V4(_) => IPV4_MAX_UDP_PAYLOAD,
            IpAddr::V6(_) => IPV6_MAX_UDP_PAYLOAD,
        },
        None => IPV6_MAX_UDP_PAYLOAD,
    }
}

/// A buffer that is given up comes back once: each one that came from a pool goes to this pool or
/// to the strays.
pub proof fn law_memories_come_back_once(bufs: Seq<IoTxBuf>, name: u64)
    ensures
        pooled_memories(bufs, name).len() + stray_bufs(bufs, name).len() == crate::tile::network::pooled_count::<
            IoTxPool,
        >(bufs),
    decreases bufs.len(),
{
    if bufs.len() > 0 {
        law_memories_come_back_once(bufs.drop_last(), name);
    }
}

/// A receive completion in a ring slot whose message is whole is handed on: it fits the largest
/// payload, was not cut short, and has a sender, of whichever family. The packet names that
/// sender, that length, and the slot in the upper half of the flags; what control messages say is
/// kept unless they were cut short. Any other message goes straight back to the ring.
pub proof fn law_whole_messages_are_handed_on(
    cs: Seq<Completion>,
    c: Completion,
    msg: ReceivedMsg,
    max_payload: usize,
)
    requires
        c.user_data & 0x8000_0000_0000_0000 == 0,
        c.flags & 1 != 0,
        c.result > 0,
        c.msg == Some(msg),
    ensures
        ({
            let whole = msg.payload_len <= max_payload && msg.flags & 0x20 == 0 && msg.src is Some;
            let before = packets(cs, max_payload);
            let after = packets(cs.push(c), max_payload);
            let bid = (c.flags >> 16) as u16;
            &&& whole ==> {
                let packet = after.last();
                &&& after.len() == before.len() + 1
                &&& after.drop_last() == before
                &&& packet.bid == bid
                &&& Some(packet.meta.src) == msg.src
                &&& packet.meta.len == msg.payload_len
                &&& packet.meta.stride == msg.payload_len
                &&& msg.flags & 8 == 0 ==> packet.meta.dst_ip == msg.dst_ip && packet.meta.ecn
                    == msg.ecn
                &&& msg.flags & 8 != 0 ==> packet.meta.dst_ip is None && packet.meta.ecn is None
                &&& dropped_slots(cs.push(c), max_payload) == dropped_slots(cs, max_payload)
            }
            &&& !whole ==> {
                &&& after == before
                &&& dropped_slots(cs.push(c), max_payload) == dropped_slots(
                    cs,
                    max_payload,
                ).push(bid)
            }
        }),
{
    let all = cs.push(c);
    assert(all.drop_last() =~= cs);
    assert(all.last() == c);
    if brings_packet(c, max_payload) {
        assert(packets(all, max_payload).drop_last() =~= packets(cs, max_payload));
    }
}

/// Who sent a message decides nothing: with another sender in its place, as many packets are
/// handed on, in the same slots.
pub proof fn law_every_sender_is_heard(
    cs: Seq<Completion>,
    c: Completion,
    msg: ReceivedMsg,
    a: SocketAddr,
    b: SocketAddr,
    max_payload: usize,
)
    requires
        c.user_data & 0x8000_0000_0000_0000 == 0,
        c.flags & 1 != 0,
        c.result > 0,
    ensures
        ({
            let from_a = cs.push(
                Completion { msg: Some(ReceivedMsg { src: Some(a), ..msg }), ..c },
            );
            let from_b = cs.push(
                Completion { msg: Some(ReceivedMsg { src: Some(b), ..msg }), ..c },
            );
            &&& packets(from_a, max_payload).len() == packets(from_b, max_payload).len()
            &&& dropped_slots(from_a, max_payload) == dropped_slots(from_b, max_payload)
            &&& msg.payload_len <= max_payload && msg.flags & 0x20 == 0 ==> packets(
                from_a,
                max_payload,
            ).last().meta.src == a && packets(from_b, max_payload).last().meta.src == b
        }),
{
    let msg_a = ReceivedMsg { src: Some(a), ..msg };
    let msg_b = ReceivedMsg { src: Some(b), ..msg };
    law_whole_messages_are_handed_on(cs, Completion { msg: Some(msg_a), ..c }, msg_a, max_payload);
    law_whole_messages_are_handed_on(cs, Completion { msg: Some(msg_b), ..c }, msg_b, max_payload);
}

/// Completions without a message bring no packet. A receive that used a slot for nothing gives it
/// back; one without a slot, and a send, touch no slot of the ring.
pub proof fn law_other_completions_bring_nothing(
    cs: Seq<Completion>,
    c: Completion,
    max_payload: usize,
)
    requires
        c.user_data & 0x8000_0000_0000_0000 != 0 || c.flags & 1 == 0 || c.result <= 0,
    ensures
        packets(cs.push(c), max_payload) == packets(cs, max_payload),
        dropped_slots(cs.push(c), max_payload) == (if c.user_data & 0x8000_0000_0000_0000 == 0
            && c.flags & 1 != 0 {
            dropped_slots(cs, max_payload).push((c.flags >> 16) as u16)
        } else {
            dropped_slots(cs, max_payload)
        }),
{
    let all = cs.push(c);
    assert(all.drop_last() =~= cs);
    assert(all.last() == c);
}

/// A send completion frees the slot that its tag names, and counts as completed, as too large
/// (90, `EMSGSIZE`) or as failed. A receive completion does neither.
pub proof fn law_send_completions_free_their_slot(
    cs: Seq<Completion>,
    c: Completion,
    slots: Seq<Option<IoTransmit>>,
    k: int,
)
    requires
        0 <= k < slots.len(),
        answers_sends(cs.push(c), slots),
    ensures
        ({
            let all = cs.push(c);
            let (completed, emsgsize, errors) = send_results(cs);
            let (completed1, emsgsize1, errors1) = send_results(all);
            if c.user_data & 0x8000_0000_0000_0000 != 0 {
                let idx = (c.user_data & 0x7fff_ffff_ffff_ffff) as int;
                &&& freed_slots(all) == freed_slots(cs).push(idx as usize)
                &&& k == idx ==> slots_after(slots, all)[k] is None
                &&& k != idx ==> slots_after(slots, all)[k] == slots_after(slots, cs)[k]
                &&& completed1 == completed + if c.result >= 0 {
                    1int
                } else {
                    0
                }
                &&& emsgsize1 == emsgsize + if c.result == -90 {
                    1int
                } else {
                    0
                }
                &&& completed1 + emsgsize1 + errors1 == completed + emsgsize + errors + 1
            } else {
                &&& freed_slots(all) == freed_slots(cs)
                &&& slots_after(slots, all) == slots_after(slots, cs)
                &&& send_results(all) == send_results(cs)
            }
        }),
{
    let all = cs.push(c);
    assert(all.drop_last() =~= cs);
    assert(all.last() == c);
    lemma_answers_prefix(all, slots, cs.len() as int);
    assert(all.take(cs.len() as int) =~= cs);
    lemma_slots_after(slots, cs);
    assert(!0x8000_0000_0000_0000u64 == 0x7fff_ffff_ffff_ffffu64) by (bit_vector);
}

/// The receive stays armed as long as every receive completion says that more will follow. A
/// packet ends a streak of errors; a final error counts on it, unless it is 105 (`ENOBUFS`), which
/// passes; nothing else changes it.
pub proof fn law_receive_is_armed_while_more_follows(
    cs: Seq<Completion>,
    c: Completion,
    armed: bool,
    streak: u32,
)
    ensures
        ({
            let all = cs.push(c);
            let recv = c.user_data & 0x8000_0000_0000_0000 == 0;
            let more = c.flags & 2 != 0;
            let before = streak_after(streak, cs);
            &&& armed_after(armed, Seq::<Completion>::empty()) == armed
            &&& streak_after(streak, Seq::<Completion>::empty()) == streak
            &&& armed_after(armed, all) == (armed_after(armed, cs) && (!recv || more))
            &&& recv && c.flags & 1 != 0 && c.result > 0 ==> streak_after(streak, all) == 0
            &&& recv && !more && c.result < 0 && c.result != -105 ==> streak_after(streak, all)
                == vstd::math::min(before + 1, u32::MAX as int)
            &&& !recv || (c.flags & 1 == 0 || c.result <= 0) && (more || c.result >= 0 || c.result
                == -105) ==> streak_after(streak, all) == before
        }),
{
    let all = cs.push(c);
    assert(all.drop_last() =~= cs);
    assert(all.last() == c);
    assert(forall|i: int| 0 <= i < cs.len() ==> all[i] == cs[i]);
    assert(all[cs.len() as int] == c);
    if armed_after(armed, all) {
        assert forall|i: int| 0 <= i < cs.len() && !is_send(cs[i]) implies stays_armed(
            #[trigger] cs[i],
        ) by {
            assert(stays_armed(all[i]));
        }
    }
}

/// Packets go to the send slots that were taken for them, each to its own, and the other slots
/// stay as they are.
pub proof fn law_packets_go_to_their_slots(
    slots: Seq<Option<IoTransmit>>,
    taken: Seq<usize>,
    transmits: Seq<IoTransmit>,
)
    requires
        taken.no_duplicates(),
        taken.len() <= transmits.len(),
        forall|i: int| 0 <= i < taken.len() ==> #[trigger] taken[i] < slots.len(),
    ensures
        slots_filled(slots, taken, transmits).len() == slots.len(),
        forall|i: int|
            0 <= i < taken.len() ==> slots_filled(slots, taken, transmits)[#[trigger] taken[i] as int]
                == Some(transmits[i]),
        forall|k: int|
            0 <= k < slots.len() && !taken.contains(k as usize) ==> #[trigger] slots_filled(
                slots,
                taken,
                transmits,
            )[k] == slots[k],
    decreases taken.len(),
{
    if taken.len() > 0 {
        let fewer = taken.drop_last();
        assert(forall|i: int| 0 <= i < fewer.len() ==> fewer[i] == taken[i]);
        law_packets_go_to_their_slots(slots, fewer, transmits);
        let all = slots_filled(slots, taken, transmits);
        assert forall|i: int| 0 <= i < taken.len() implies all[#[trigger] taken[i] as int] == Some(
            transmits[i],
        ) by {
            if i < fewer.len() {
                assert(fewer[i] == taken[i]);
                assert(taken[i] != taken[taken.len() - 1]);
            }
        }
        assert forall|k: int|
            0 <= k < slots.len() && !taken.contains(k as usize) implies #[trigger] all[k]
            == slots[k] by {
            if fewer.contains(k as usize) {
                let i = choose|i: int| 0 <= i < fewer.len() && fewer[i] == k as usize;
                assert(taken[i] == k as usize);
            }
            assert(taken[taken.len() - 1] != k as usize);
        }
    }
}

/// The options of a socket, by the kernel's numbers. Over IPv4: 10 (do not fragment), 13 (type of
/// service) and 8 (destination) of level 0. Over IPv6: 23, 66 and 49 of level 41, all needed; and
/// 13 of level 0 for packets of IPv4, which may not apply.
pub proof fn law_options_of_both_families(max_payload: usize)
    ensures
        ({
            let options = required_options(max_payload);
            let level = if max_payload == 1472 {
                0i32
            } else {
                41i32
            };
            let (fragment, class, info) = if max_payload == 1472 {
                (10i32, 13i32, 8i32)
            } else {
                (23i32, 66i32, 49i32)
            };
            &&& options.contains((SocketOption { level, name: fragment, value: 2 }, true))
            &&& options.contains((SocketOption { level, name: class, value: 1 }, true))
            &&& options.contains((SocketOption { level, name: info, value: 1 }, true))
            &&& max_payload == 1472 ==> options.len() == 3
            &&& max_payload != 1472 ==> options.len() == 4 && options.contains(
                (SocketOption { level: 0, name: 13, value: 1 }, false),
            )
        }),
{
    let options = required_options(max_payload);
    assert(options[0] == options[0] && options[1] == options[1] && options[2] == options[2]);
    if max_payload != 1472 {
        assert(options[3] == options[3]);
    }
}

/// The largest payload is what an Ethernet frame of 1500 bytes leaves behind the headers of IP (20
/// or 40 bytes) and UDP (8), and that of IPv6 where the family is not known.
pub proof fn law_payload_fits_ethernet(ip: IpAddr, port: u16)
    ensures
        ip is V4 ==> max_payload_of(Some(SocketAddr { ip, port })) == 1500 - 20 - 8,
        ip is V6 ==> max_payload_of(Some(SocketAddr { ip, port })) == 1500 - 40 - 8,
        max_payload_of(None) == 1500 - 40 - 8,
{
}

/// Numbers in a receive slot are little-endian.
pub proof fn law_header_numbers_are_little_endian(slot: Seq<u8>, at: int, n: u32)
    requires
        0 <= at <= at + 4 <= slot.len(),
        slot[at] == n % 0x100,
        slot[at + 1] == n / 0x100 % 0x100,
        slot[at + 2] == n / 0x1_0000 % 0x100,
        slot[at + 3] == n / 0x100_0000,
    ensures
        le32(slot, at) == n,
{
}

/// A receive slot is laid out as the kernel does it: 16 bytes of header, room for a socket address
/// and for control messages of 128 bytes each, and then the payload, which a full Ethernet frame
/// fits in.
pub proof fn law_slot_layout()
    ensures
        RECV_OUT_SIZE == 16,
        RECV_NAME_MAX == 128,
        RECV_CMSG_MAX == 128,
        RECV_PAYLOAD_OFF == 16 + 128 + 128,
        RECV_BUF_SIZE == RECV_PAYLOAD_OFF + 2048,
        MSG_TRUNC == 0x20,
        MSG_CTRUNC == 8,
        EMSGSIZE == 90,
        ENOBUFS == 105,
        SEND_TAG == 0x8000_0000_0000_0000,
        RECV_TAG == 0,
{
}

/// Delivered packets fill the caller's places from the first free one on, in order: what is said
/// of each, and the slot that it lies in, with as many bytes as it has and room for a largest
/// payload. Other places stay as they are.
pub proof fn law_delivered_packets_fill_the_lists(
    meta0: Seq<RecvMeta>,
    meta1: Seq<RecvMeta>,
    bufs0: Seq<IoRxBufMut>,
    bufs1: Seq<IoRxBufMut>,
    from: int,
    packets: Seq<PendingRecv>,
    cap: usize,
    i: int,
    j: int,
)
    requires
        packets_delivered(meta0, meta1, bufs0, bufs1, from, packets, cap),
        0 <= from,
        from + packets.len() <= meta0.len(),
        from + packets.len() <= bufs0.len(),
        0 <= i < packets.len(),
    ensures
        meta1.len() == meta0.len() && bufs1.len() == bufs0.len(),
        meta1[from + i] == packets[i].meta,
        crate::iouring::buffers::held_bid(bufs1[from + i]) == Some(packets[i].bid),
        crate::iouring::buffers::filled_count(bufs1[from + i]) == packets[i].meta.len,
        bufs1[from + i].repr->cap == cap,
        (0 <= j < from || from + packets.len() <= j) && j < meta0.len() ==> meta1[j] == meta0[j],
        (0 <= j < from || from + packets.len() <= j) && j < bufs0.len() ==> bufs1[j] == bufs0[j],
{
    let k = from + i;
    assert(meta1[k] == packets[k - from].meta);
    assert(bufs1[k].repr == (IoRxBufMutRepr::Ring {
        bid: packets[k - from].bid,
        len: packets[k - from].meta.len,
        cap,
    }));
}

/// The slots behind the caller's buffers come back when packets take their places: one for each
/// buffer that holds one.
pub proof fn law_replaced_slots_come_back(bufs: Seq<IoRxBufMut>, from: int, n: nat)
    ensures
        replaced_slots(bufs, from, 0) == Seq::<u16>::empty(),
        replaced_slots(bufs, from, n + 1) == (match bufs[from + n].repr {
            IoRxBufMutRepr::Ring { bid, len, cap } => replaced_slots(bufs, from, n).push(bid),
            IoRxBufMutRepr::Empty => replaced_slots(bufs, from, n),
        }),
{
}

/// A batch loses no slot: those that waited to go back, those that completions used and no packet
/// lies in, and those that packets replaced are all handed to the kernel again; and every packet
/// that found no place waits for one.
pub proof fn law_batch_returns_every_slot(
    before: IoUringSocket,
    after: IoUringSocket,
    bufs0: Seq<IoRxBufMut>,
    from: int,
    taken: int,
    cs: Seq<Completion>,
)
    requires
        batch_done(before, after, bufs0, from, taken, cs),
        0 <= taken <= packets(cs, before.rx_pool.max_payload).len(),
    ensures
        ({
            let brought = packets(cs, before.rx_pool.max_payload);
            let replaced = replaced_slots(bufs0, from, taken as nat);
            let back = before.reclaimer.waiting().len() + (slots_used(cs).len() - brought.len())
                + replaced.len();
            &&& after.buf_ring@.tail == (before.buf_ring@.tail + back) % 0x1_0000
            &&& after.reclaimer.pending@.len() == 0 && after.reclaimer.remote@.len() == 0
            &&& after.pending_recvs@.len() == before.pending_recvs@.len() + brought.len() - taken
            &&& after.pending_recvs@.take(before.pending_recvs@.len() as int)
                == before.pending_recvs@
            &&& forall|i: int|
                0 <= i < brought.len() - taken ==> #[trigger] after.pending_recvs@[before.pending_recvs@.len()
                    + i] == brought[taken + i]
        }),
{
    let max_payload = before.rx_pool.max_payload;
    lemma_slots_counted(cs, max_payload);
    crate::iouring::ring::lemma_tail_after(
        before.buf_ring@,
        slots_returned(before, bufs0, from, taken, cs),
    );
    assert(after.reclaimer.waiting().len() == 0);
    assert(after.pending_recvs@.take(before.pending_recvs@.len() as int)
        =~= before.pending_recvs@);
}

proof fn lemma_slots_counted(cs: Seq<Completion>, max_payload: usize)
    ensures
        slots_used(cs).len() == packets(cs, max_payload).len() + dropped_slots(
            cs,
            max_payload,
        ).len(),
    decreases cs.len(),
{
    if cs.len() > 0 {
        lemma_slots_counted(cs.drop_last(), max_payload);
    }
}

/// The slots that receive completions use are those in the upper half of their flags.
pub proof fn law_slots_of_completions(cs: Seq<Completion>, c: Completion)
    ensures
        slots_used(cs.push(c)) == (if c.user_data & 0x8000_0000_0000_0000 == 0 && c.flags & 1 != 0 {
            slots_used(cs).push((c.flags >> 16) as u16)
        } else {
            slots_used(cs)
        }),
{
    assert(cs.push(c).drop_last() =~= cs);
    assert(cs.push(c).last() == c);
}

/// A batch frees the slot of every send that ended, and of no other.
pub proof fn law_batch_frees_ended_sends(
    before: IoUringSocket,
    after: IoUringSocket,
    bufs0: Seq<IoRxBufMut>,
    from: int,
    taken: int,
    cs: Seq<Completion>,
    k: int,
)
    requires
        batch_done(before, after, bufs0, from, taken, cs),
        answers_sends(cs, before.send_slots@),
        0 <= k < before.send_slots@.len(),
    ensures
        ({
            let ended = exists|i: int|
                0 <= i < cs.len() && #[trigger] cs[i].user_data & 0x8000_0000_0000_0000 != 0
                    && cs[i].user_data & 0x7fff_ffff_ffff_ffff == k;
            &&& ended ==> after.send_slots@[k] is None
            &&& !ended ==> after.send_slots@[k] == before.send_slots@[k]
            &&& after.send_free@.take(before.send_free@.len() as int) == before.send_free@
        }),
{
    assert(!0x8000_0000_0000_0000u64 == 0x7fff_ffff_ffff_ffffu64) by (bit_vector);
    lemma_slots_after(before.send_slots@, cs);
    let ended = exists|i: int|
        0 <= i < cs.len() && #[trigger] cs[i].user_data & 0x8000_0000_0000_0000 != 0
            && cs[i].user_data & 0x7fff_ffff_ffff_ffff == k;
    if ended {
        let i = choose|i: int|
            0 <= i < cs.len() && #[trigger] cs[i].user_data & 0x8000_0000_0000_0000 != 0
                && cs[i].user_data & 0x7fff_ffff_ffff_ffff == k;
        assert(is_send(cs[i]) && send_index(cs[i]) == k);
    } else {
        assert forall|i: int| 0 <= i < cs.len() && is_send(#[trigger] cs[i]) implies send_index(
            cs[i],
        ) != k by {
            assert(cs[i].user_data & 0x8000_0000_0000_0000 != 0);
        }
    }
    assert(after.send_free@.take(before.send_free@.len() as int) =~= before.send_free@);
}

/// A packet can be sent exactly where it has at most eight segments and asks for no offload.
pub proof fn law_what_can_be_sent(transmit: IoTransmit)
    ensures
        sendable(transmit) <==> transmit.contents@.len() <= 8 && transmit.segment_size is None,
{
}

/// Where a memory goes that is given up: to the pool that it came from, or, where that is another,
/// to the strays. One that came from no pool goes nowhere.
pub proof fn law_memories_go_where_they_came_from(bufs: Seq<IoTxBuf>, buf: IoTxBuf, name: u64)
    ensures
        pooled_memories(bufs.push(buf), name) == (if buf.pooled && buf.pool == name {
            pooled_memories(bufs, name).push(buf.data)
        } else {
            pooled_memories(bufs, name)
        }),
        stray_bufs(bufs.push(buf), name) == (if buf.pooled && buf.pool != name {
            stray_bufs(bufs, name).push(buf)
        } else {
            stray_bufs(bufs, name)
        }),
{
    assert(bufs.push(buf).drop_last() =~= bufs);
    assert(bufs.push(buf).last() == buf);
}

/// A send that ended gives up all buffers of its packet, and a receive gives up none.
pub proof fn law_ended_sends_give_up_their_buffers(
    cs: Seq<Completion>,
    c: Completion,
    slots: Seq<Option<IoTransmit>>,
    transmit: IoTransmit,
    name: u64,
)
    requires
        c.user_data & 0x8000_0000_0000_0000 != 0 ==> slots[(c.user_data & 0x7fff_ffff_ffff_ffff)
            as int] == Some(transmit),
    ensures
        ({
            let bufs = transmit.contents@.map_values(|s: Segment<IoTxBuf>| s.buf);
            let send = c.user_data & 0x8000_0000_0000_0000 != 0;
            &&& send ==> freed_memories(cs.push(c), slots, name) == freed_memories(cs, slots, name)
                + pooled_memories(bufs, name)
            &&& send ==> freed_strays(cs.push(c), slots, name) == freed_strays(cs, slots, name)
                + stray_bufs(bufs, name)
            &&& !send ==> freed_memories(cs.push(c), slots, name) == freed_memories(
                cs,
                slots,
                name,
            ) && freed_strays(cs.push(c), slots, name) == freed_strays(cs, slots, name)
        }),
{
    assert(!0x8000_0000_0000_0000u64 == 0x7fff_ffff_ffff_ffffu64) by (bit_vector);
    assert(cs.push(c).drop_last() =~= cs);
    assert(cs.push(c).last() == c);
}

/// The default configuration: 1024 entries, 256 receive slots, 128 send slots, and no sharing of
/// the port.
pub proof fn law_default_configuration()
    ensures
        default_config().ring_entries == 1024,
        default_config().buf_ring_count == 256,
        default_config().send_pool_size == 128,
        !default_config().reuseport,
        default_config().valid(),
        MAX_RECV_ERROR_STREAK == 8,
{
    assert(1024u32 & 1023u32 == 0 && 256u32 & 255u32 == 0) by (bit_vector);
}

/// A configuration is valid exactly where the rings are powers of two, the one of receive slots
/// has at most 32768, and there is a send slot.
pub proof fn law_valid_configurations(config: IoUringConfig)
    ensures
        config.valid() <==> {
            &&& exists|k: nat|
                k < 32 && config.ring_entries == #[trigger] vstd::arithmetic::power2::pow2(k)
            &&& config.buf_ring_count <= 32768
            &&& exists|k: nat|
                k < 32 && config.buf_ring_count == #[trigger] vstd::arithmetic::power2::pow2(k)
            &&& config.send_pool_size > 0
        },
{
    crate::xdp::ring::law_powers_of_two(config.ring_entries);
    if config.buf_ring_count <= 32768 {
        crate::xdp::ring::law_powers_of_two(config.buf_ring_count as u32);
    }
}

/// What a batch does to the receive and to the sender's buffers. The receive stays armed where
/// every receive completion says that more will follow; packets in flight give up their buffers
/// when they have ended; and nothing else of the socket changes.
pub proof fn law_batch_tells_of_the_receive(
    before: IoUringSocket,
    after: IoUringSocket,
    bufs0: Seq<IoRxBufMut>,
    from: int,
    taken: int,
    cs: Seq<Completion>,
)
    requires
        batch_done(before, after, bufs0, from, taken, cs),
    ensures
        after.recv_armed <==> before.recv_armed && forall|i: int|
            0 <= i < cs.len() && (#[trigger] cs[i]).user_data & 0x8000_0000_0000_0000 == 0
                ==> cs[i].flags & 2 != 0,
        after.recv_error_streak == streak_after(before.recv_error_streak, cs),
        ({
            let name = before.tx_pool.spec_name();
            let memories = freed_memories(cs, before.send_slots@, name);
            let strays = freed_strays(cs, before.send_slots@, name);
            &&& after.tx_pool.local().len() == before.tx_pool.local().len() + memories.len()
            &&& after.tx_pool.local().skip(before.tx_pool.local().len() as int) == memories
            &&& after.tx_pool.local().take(before.tx_pool.local().len() as int)
                == before.tx_pool.local()
            &&& after.strays@.skip(before.strays@.len() as int) == strays
            &&& after.strays@.take(before.strays@.len() as int) == before.strays@
        }),
        after.queue_id == before.queue_id,
        after.sq_dirty == before.sq_dirty,
        after.rx_pool == before.rx_pool,
{
    let more = forall|i: int|
        0 <= i < cs.len() && (#[trigger] cs[i]).user_data & 0x8000_0000_0000_0000 == 0
            ==> cs[i].flags & 2 != 0;
    assert(armed_after(before.recv_armed, cs) <==> before.recv_armed && more) by {
        if more {
            assert forall|i: int| 0 <= i < cs.len() && !is_send(cs[i]) implies stays_armed(
                #[trigger] cs[i],
            ) by {
                assert(cs[i].user_data & 0x8000_0000_0000_0000 == 0);
            }
        }
        if armed_after(before.recv_armed, cs) {
            assert forall|i: int|
                0 <= i < cs.len() && (#[trigger] cs[i]).user_data & 0x8000_0000_0000_0000
                    == 0 implies cs[i].flags & 2 != 0 by {
                assert(stays_armed(cs[i]));
            }
        }
    }
    let n = before.tx_pool.local().len() as int;
    let name = before.tx_pool.spec_name();
    assert(after.tx_pool.local().take(n) =~= before.tx_pool.local());
    assert(after.tx_pool.local().skip(n) =~= freed_memories(cs, before.send_slots@, name));
    let m = before.strays@.len() as int;
    assert(after.strays@.take(m) =~= before.strays@);
    assert(after.strays@.skip(m) =~= freed_strays(cs, before.send_slots@, name));
}

/// The empty packet that is left behind holds no buffer.
pub proof fn law_empty_packet_holds_nothing(transmit: IoTransmit)
    requires
        is_sentinel(transmit),
    ensures
        transmit.contents@.len() == 0,
        packet_bufs(transmit).len() == 0,
{
}

} // verus!
