//! The XDP redirect program's rules. It parses Eth, IPv4 and UDP, looks up the destination port
//! in `BOUND_PORTS`, and redirects matching packets to the AF_XDP socket
//! registered in `XSKMAP` for the receive queue.
//!
//! ```text
//! Eth  -> if !IPv4                          -> XDP_PASS
//! IPv4 -> if proto != UDP                   -> XDP_PASS
//! UDP  -> if IHL != 5                       -> XDP_DROP + DROP_COUNTERS[UDP_OPTIONS]
//!      -> if MF=1 or frag_offset > 0        -> XDP_DROP + DROP_COUNTERS[UDP_FRAGMENT]
//!      -> if dport not in BOUND_PORTS       -> XDP_PASS
//!      -> else                              -> XDP_REDIRECT to XSKMAP[queue]
//! ```
//!
//! Malformed UDP (options / fragments) is dropped rather than passed: QUIC
//! peers never produce it, and passing it to a bound port would leak ICMP
//! port-unreachable.

use vstd::prelude::*;

verus! {

broadcast use vstd::slice::group_slice_axioms;

/// Max receive queues with a socket. Covers typical
/// high-queue-count server NICs.
pub const MAX_QUEUES: u32 = 64;

/// Number of UDP destination-port membership slots in `BOUND_PORTS`: one per 16-bit port.
pub const BOUND_PORTS_LEN: u32 = 65536;

/// Alias for callers that use this as the `BOUND_PORTS` map length.
pub const MAX_BOUND_PORTS: u32 = BOUND_PORTS_LEN;

/// Number of drop-reason buckets in the `DROP_COUNTERS` map.
pub const DROP_COUNTERS_LEN: u32 = 2;

/// IPv4 UDP with IHL > 5 (IP options).
pub const DROP_REASON_UDP_OPTIONS: u32 = 0;

/// IPv4 UDP fragment (MF=1 or offset>0).
pub const DROP_REASON_UDP_FRAGMENT: u32 = 1;

pub const XDP_DROP: u32 = 1;

pub const XDP_PASS: u32 = 2;

/// What becomes of a frame.
#[derive(Debug, Clone, Copy, PartialEq, Eq, Structural)]
pub enum Verdict {
    Pass,
    /// Dropped, and counted under a reason.
    Drop { reason: u32 },
    /// For the socket of the receive queue.
    Redirect,
}

/// Whether a frame is long enough for an IPv4 header and says that it has one.
pub open spec fn is_ipv4(frame: Seq<u8>) -> bool {
    frame.len() >= 34 && crate::xdp::packet::be16(frame, 12) == crate::xdp::packet::ETH_TYPE_IPV4
}

/// Whether a frame is UDP over IPv4.
pub open spec fn is_udp(frame: Seq<u8>) -> bool {
    is_ipv4(frame) && frame[23] == crate::xdp::packet::IP_PROTO_UDP
}

/// Whether a frame's IPv4 header has options, or is too short.
pub open spec fn has_options(frame: Seq<u8>) -> bool {
    frame[14] % 16 != 5
}

/// Whether a frame is a fragment: MF or an offset. DF and the reserved bit do not count.
pub open spec fn is_fragment(frame: Seq<u8>) -> bool {
    crate::xdp::packet::be16(frame, 20) % 0x4000 != 0
}

/// A frame's destination port.
pub open spec fn dst_port(frame: Seq<u8>) -> int {
    crate::xdp::packet::be16(frame, 36)
}

/// Whether a port has a socket.
pub open spec fn is_bound(bound_ports: Seq<u8>, port: int) -> bool {
    port < bound_ports.len() && bound_ports[port] != 0
}

/// What becomes of a frame.
pub open spec fn verdict(frame: Seq<u8>, bound_ports: Seq<u8>) -> Verdict {
    if !is_udp(frame) {
        Verdict::Pass
    } else if has_options(frame) {
        Verdict::Drop { reason: DROP_REASON_UDP_OPTIONS }
    } else if is_fragment(frame) {
        Verdict::Drop { reason: DROP_REASON_UDP_FRAGMENT }
    } else if frame.len() >= 42 && is_bound(bound_ports, dst_port(frame)) {
        Verdict::Redirect
    } else {
        Verdict::Pass
    }
}

fn read_be16(frame: &[u8], at: usize) -> (n: u16)
    requires
        at + 2 <= frame@.len(),
    ensures
        n == crate::xdp::packet::be16(frame@, at as int),
{
    frame[at] as u16 * 0x100 + frame[at + 1] as u16
}

/// Decides on a frame. `bound_ports` has a flag per port. `Err` where the frame ends before a
/// header that has to be read.
pub fn try_redirect(frame: &[u8], bound_ports: &[u8]) -> (decided: Result<Verdict, ()>)
    ensures
        decided matches Ok(v) ==> v == verdict(frame@, bound_ports@),
        decided is Err ==> verdict(frame@, bound_ports@) is Pass,
        decided is Err <==> frame@.len() < 14 || (crate::xdp::packet::be16(frame@, 12)
            == crate::xdp::packet::ETH_TYPE_IPV4 && frame@.len() < 34) || (is_udp(frame@)
            && !has_options(frame@) && !is_fragment(frame@) && frame@.len() < 42),
{
    if frame.len() < 14 {
        return Err(());
    }
    if read_be16(frame, 12) != crate::xdp::packet::ETH_TYPE_IPV4 {
        return Ok(Verdict::Pass);
    }
    if frame.len() < 34 {
        return Err(());
    }
    if frame[23] != crate::xdp::packet::IP_PROTO_UDP {
        return Ok(Verdict::Pass);
    }
    if frame[14] % 16 != 5 {
        return Ok(Verdict::Drop { reason: DROP_REASON_UDP_OPTIONS });
    }
    if read_be16(frame, 20) % 0x4000 != 0 {
        return Ok(Verdict::Drop { reason: DROP_REASON_UDP_FRAGMENT });
    }
    if frame.len() < 42 {
        return Err(());
    }
    let port: usize = read_be16(frame, 36) as usize;
    if port >= bound_ports.len() || bound_ports[port] == 0 {
        return Ok(Verdict::Pass);
    }
    Ok(Verdict::Redirect)
}

/// Counts a drop.
pub fn bump_drop(counters: &mut Vec<u64>, reason: u32)
    ensures
        final(counters)@ == (if reason < old(counters)@.len() {
            old(counters)@.update(
                reason as int,
                old(counters)@[reason as int].wrapping_add(1),
            )
        } else {
            old(counters)@
        }),
{
    let i: usize = reason as usize;
    if i < counters.len() {
        let n: u64 = counters[i].wrapping_add(1);
        counters.set(i, n);
    }
}

/// The action for a frame. `redirected` is what handing the frame to the receive queue's socket
/// gives; it fails if no socket is registered for the
/// queue or the ring is full, and the frame passes then. Frames too short to
/// parse pass, so that unrelated traffic is not lost.
pub fn quac_xdp(
    frame: &[u8],
    bound_ports: &[u8],
    counters: &mut Vec<u64>,
    redirected: Result<u32, u32>,
) -> (action: u32)
    ensures
        action == match verdict(frame@, bound_ports@) {
            Verdict::Pass => XDP_PASS,
            Verdict::Drop { reason } => XDP_DROP,
            Verdict::Redirect => match redirected {
                Ok(taken) => taken,
                Err(e) => XDP_PASS,
            },
        },
        final(counters)@ == match verdict(frame@, bound_ports@) {
            Verdict::Drop { reason } => if reason < old(counters)@.len() {
                old(counters)@.update(
                    reason as int,
                    old(counters)@[reason as int].wrapping_add(1),
                )
            } else {
                old(counters)@
            },
            _ => old(counters)@,
        },
{
    match try_redirect(frame, bound_ports) {
        Ok(Verdict::Drop { reason }) => {
            bump_drop(counters, reason);
            XDP_DROP
        },
        Ok(Verdict::Redirect) => match redirected {
            Ok(taken) => taken,
            Err(_) => XDP_PASS,
        },
        _ => XDP_PASS,
    }
}

/// Only IPv4 UDP without options, not fragmented and for a bound port is redirected. What a
/// redirected frame holds is a packet to the receiver wherever its header says version 4 and its
/// UDP length fits the frame.
pub proof fn law_redirected_frames_are_udp(frame: Seq<u8>, bound_ports: Seq<u8>)
    requires
        verdict(frame, bound_ports) is Redirect,
    ensures
        is_udp(frame) && !has_options(frame) && !is_fragment(frame),
        is_bound(bound_ports, dst_port(frame)),
        crate::xdp::packet::is_udp_frame(frame) <==> frame[14] / 16 == 4 && 8
            <= crate::xdp::packet::be16(frame, 38) <= frame.len() - 34,
{
}

/// UDP is dropped only for options or fragments; everything else that is not for a bound port
/// passes to the kernel.
pub proof fn law_dropped_frames_are_malformed(frame: Seq<u8>, bound_ports: Seq<u8>)
    ensures
        verdict(frame, bound_ports) is Drop <==> is_udp(frame) && (has_options(frame) || is_fragment(
            frame,
        )),
        !is_udp(frame) ==> verdict(frame, bound_ports) is Pass,
{
}

/// What this library sends to a bound port of a peer is redirected there: it has no options and
/// is no fragment.
#[verifier::rlimit(30)]
pub proof fn law_sent_frames_are_redirected(
    src_mac: Seq<u8>,
    dst_mac: Seq<u8>,
    src: crate::addr::Ipv4Addr,
    src_port: u16,
    dst: crate::addr::Ipv4Addr,
    port: u16,
    payload: Seq<u8>,
    bound_ports: Seq<u8>,
)
    requires
        src_mac.len() == 6,
        dst_mac.len() == 6,
        28 + payload.len() <= 0xffff,
        is_bound(bound_ports, port as int),
    ensures
        verdict(
            crate::xdp::packet::headers(
                src_mac,
                dst_mac,
                src,
                src_port,
                dst,
                port,
                payload.len() as u16,
            ) + payload,
            bound_ports,
        ) is Redirect,
{
    let n = payload.len() as u16;
    let eth = crate::xdp::packet::eth_header(src_mac, dst_mac);
    let ip = crate::xdp::packet::ip_header(src, dst, (8 + n) as u16);
    let udp = crate::xdp::packet::udp_header(src_port, port, n);
    let frame = crate::xdp::packet::headers(src_mac, dst_mac, src, src_port, dst, port, n)
        + payload;
    crate::xdp::packet::lemma_frame_parts(eth, ip, udp, payload);
    crate::xdp::packet::lemma_fixed_fields(src, dst, src_port, port, n);
    assert(frame == eth + ip + udp + payload);
    assert(frame[12] == eth[12] && frame[13] == eth[13]);
    assert(frame[14] == ip[0] && frame[20] == ip[6] && frame[21] == ip[7] && frame[23] == ip[9]);
    assert(frame[36] == udp[2] && frame[37] == udp[3]);
    assert(eth[12] == 8 && eth[13] == 0);
    assert(dst_port(frame) == port);
}

/// A frame is a fragment exactly where MF is set or its 13-bit offset is not zero.
pub proof fn law_fragment_is_mf_or_offset(frame: Seq<u8>)
    requires
        frame.len() >= 34,
    ensures
        is_fragment(frame) <==> frame[20] & 0x20 != 0 || frame[20] & 0x1f != 0 || frame[21] != 0,
{
    let hi = frame[20];
    assert(hi % 64 == 0 <==> hi & 0x20 == 0 && hi & 0x1f == 0) by (bit_vector);
}

/// Neither DF nor the reserved bit changes what becomes of a frame.
pub proof fn law_df_and_reserved_do_not_count(frame: Seq<u8>, bound_ports: Seq<u8>)
    requires
        frame.len() >= 34,
    ensures
        verdict(frame.update(20, frame[20] ^ 0x40), bound_ports) == verdict(frame, bound_ports),
        verdict(frame.update(20, frame[20] ^ 0x80), bound_ports) == verdict(frame, bound_ports),
{
    let hi = frame[20];
    assert((hi ^ 0x40) & 0x20 == hi & 0x20 && (hi ^ 0x40) & 0x1f == hi & 0x1f && (hi ^ 0x80) & 0x20
        == hi & 0x20 && (hi ^ 0x80) & 0x1f == hi & 0x1f) by (bit_vector);
    law_fragment_is_mf_or_offset(frame);
    law_fragment_is_mf_or_offset(frame.update(20, hi ^ 0x40));
    law_fragment_is_mf_or_offset(frame.update(20, hi ^ 0x80));
}

/// What becomes of a frame, by its bytes. UDP over IPv4 with a header of other than five words is
/// dropped as having options, and one of five words as a fragment where it is one. What is whole
/// and for a port with a socket is redirected. All else passes.
pub proof fn law_verdict_by_bytes(frame: Seq<u8>, bound_ports: Seq<u8>)
    ensures
        ({
            let udp = frame.len() >= 34 && frame[12] == 8 && frame[13] == 0 && frame[23] == 17;
            let five_words = frame[14] & 0x0f == 5;
            let fragment = frame[20] & 0x20 != 0 || frame[20] & 0x1f != 0 || frame[21] != 0;
            let port = frame[36] * 0x100 + frame[37];
            let v = verdict(frame, bound_ports);
            &&& v == Verdict::Drop { reason: 0 } <==> udp && !five_words
            &&& v == Verdict::Drop { reason: 1 } <==> udp && five_words && fragment
            &&& v is Redirect <==> udp && five_words && !fragment && frame.len() >= 42 && port
                < bound_ports.len() && bound_ports[port] != 0
            &&& v is Pass <==> !(v is Redirect) && !(udp && (!five_words || fragment))
        }),
{
    let first = frame[14];
    assert(first % 16 == first & 0x0f) by (bit_vector);
    if frame.len() >= 34 {
        law_fragment_is_mf_or_offset(frame);
    }
}

/// Only the headers decide: frames with the same first 42 bytes have the same verdict.
pub proof fn law_payload_does_not_decide(a: Seq<u8>, b: Seq<u8>, bound_ports: Seq<u8>)
    requires
        a.len() >= 42,
        b.len() >= 42,
        a.take(42) == b.take(42),
    ensures
        verdict(a, bound_ports) == verdict(b, bound_ports),
{
    assert forall|i: int| 0 <= i < 42 implies #[trigger] a[i] == b[i] by {
        assert(a.take(42)[i] == a[i]);
        assert(b.take(42)[i] == b[i]);
    }
}

/// A frame to one port is not touched by the sockets of other ports.
pub proof fn law_other_ports_do_not_decide(frame: Seq<u8>, bound_ports: Seq<u8>, port: int, flag: u8)
    requires
        0 <= port < bound_ports.len(),
        frame.len() >= 42,
        frame[36] * 0x100 + frame[37] != port,
    ensures
        verdict(frame, bound_ports.update(port, flag)) == verdict(frame, bound_ports),
{
}

/// The kernel's numbers: 1 drops a frame and 2 passes it. Options and fragments are counted apart.
pub proof fn law_actions_of_the_kernel()
    ensures
        XDP_DROP == 1,
        XDP_PASS == 2,
        DROP_REASON_UDP_OPTIONS == 0,
        DROP_REASON_UDP_FRAGMENT == 1,
        DROP_COUNTERS_LEN == 2,
        BOUND_PORTS_LEN == 0x1_0000,
{
}

} // verus!
