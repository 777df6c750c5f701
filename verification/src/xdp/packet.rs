//! Ethernet, IPv4 and UDP headers of a datagram.

use crate::addr::{IpAddr, Ipv4Addr, SocketAddr};
use crate::interface::{EcnCodepoint, RecvMeta};
use vstd::prelude::*;

verus! {

broadcast use vstd::slice::group_slice_axioms;

pub const ETH_HEADER_SIZE: usize = 14;

/// Without options.
pub const IP_HEADER_SIZE: usize = 20;

pub const UDP_HEADER_SIZE: usize = 8;

pub const ETH_TYPE_IPV4: u16 = 0x0800;

pub const IP_PROTO_UDP: u8 = 17;

/// Time to live of the packets sent.
pub const IP_TTL: u8 = 64;

/// The number that two bytes spell, most significant first.
pub open spec fn be16(bytes: Seq<u8>, at: int) -> int {
    bytes[at] * 0x100 + bytes[at + 1]
}

/// The two bytes that spell a number, most significant first.
pub open spec fn be16_bytes(n: u16) -> Seq<u8> {
    seq![(n / 0x100) as u8, (n % 0x100) as u8]
}

/// The number that four bytes spell, most significant first.
pub open spec fn be32(bytes: Seq<u8>, at: int) -> int {
    crate::addr::ipv4_bits(bytes[at], bytes[at + 1], bytes[at + 2], bytes[at + 3])
}

/// The four bytes that spell an address.
pub open spec fn addr_bytes(addr: Ipv4Addr) -> Seq<u8> {
    seq![
        (addr.bits / 0x100_0000) as u8,
        ((addr.bits / 0x1_0000) % 0x100) as u8,
        ((addr.bits / 0x100) % 0x100) as u8,
        (addr.bits % 0x100) as u8,
    ]
}

fn read_be16(bytes: &[u8], at: usize) -> (n: u16)
    requires
        at + 2 <= bytes@.len(),
    ensures
        n == be16(bytes@, at as int),
{
    bytes[at] as u16 * 0x100 + bytes[at + 1] as u16
}

fn push_be16(out: &mut Vec<u8>, n: u16)
    ensures
        final(out)@ == old(out)@ + be16_bytes(n),
{
    out.push((n / 0x100) as u8);
    out.push((n % 0x100) as u8);
    assert(out@ =~= old(out)@ + be16_bytes(n));
}

fn push_addr(out: &mut Vec<u8>, addr: &Ipv4Addr)
    ensures
        final(out)@ == old(out)@ + addr_bytes(*addr),
{
    out.push((addr.bits / 0x100_0000) as u8);
    out.push(((addr.bits / 0x1_0000) % 0x100) as u8);
    out.push(((addr.bits / 0x100) % 0x100) as u8);
    out.push((addr.bits % 0x100) as u8);
    assert(out@ =~= old(out)@ + addr_bytes(*addr));
}

/// The Ethernet header of an IPv4 packet.
pub open spec fn eth_header(src_mac: Seq<u8>, dst_mac: Seq<u8>) -> Seq<u8> {
    dst_mac + src_mac + be16_bytes(ETH_TYPE_IPV4)
}

/// Appends the Ethernet header of an IPv4 packet.
pub fn write_eth_header(out: &mut Vec<u8>, src_mac: &[u8; 6], dst_mac: &[u8; 6])
    ensures
        final(out)@ == old(out)@ + eth_header(src_mac@, dst_mac@),
{
    let mut i: usize = 0;
    while i < 6
        invariant
            i <= 6,
            out@ == old(out)@ + dst_mac@.take(i as int),
        decreases 6 - i,
    {
        out.push(dst_mac[i]);
        i += 1;
        assert(out@ =~= old(out)@ + dst_mac@.take(i as int));
    }
    assert(dst_mac@.take(6) =~= dst_mac@);
    let ghost half = out@;
    let mut j: usize = 0;
    while j < 6
        invariant
            j <= 6,
            out@ == half + src_mac@.take(j as int),
        decreases 6 - j,
    {
        out.push(src_mac[j]);
        j += 1;
        assert(out@ =~= half + src_mac@.take(j as int));
    }
    assert(src_mac@.take(6) =~= src_mac@);
    push_be16(out, ETH_TYPE_IPV4);
    assert(out@ =~= old(out)@ + eth_header(src_mac@, dst_mac@));
}

/// The sum of a number's 16-bit halves, with the carry of that added in.
pub open spec fn ones_complement_fold(sum: int) -> int {
    let once = sum % 0x1_0000 + sum / 0x1_0000;
    once % 0x1_0000 + once / 0x1_0000
}

/// The sum of the 16-bit words of an IPv4 header for UDP, without its checksum.
pub open spec fn ip_header_sum(src: Ipv4Addr, dst: Ipv4Addr, total_len: int) -> int {
    0x4500 + total_len + 0x4000 + (IP_TTL * 0x100 + IP_PROTO_UDP) + src.bits / 0x1_0000 + src.bits
        % 0x1_0000 + dst.bits / 0x1_0000 + dst.bits % 0x1_0000
}

/// The checksum of an IPv4 header for UDP.
pub open spec fn ip_checksum(src: Ipv4Addr, dst: Ipv4Addr, total_len: int) -> int {
    0xffff - ones_complement_fold(ip_header_sum(src, dst, total_len))
}

/// The IPv4 header of a UDP datagram whose UDP header and payload take `udp_len` bytes: no
/// options, not to be fragmented.
pub open spec fn ip_header(src: Ipv4Addr, dst: Ipv4Addr, udp_len: u16) -> Seq<u8> {
    let total_len = IP_HEADER_SIZE + udp_len;
    seq![0x45u8, 0u8] + be16_bytes(total_len as u16) + be16_bytes(0) + be16_bytes(0x4000) + seq![
        IP_TTL,
        IP_PROTO_UDP,
    ] + be16_bytes(ip_checksum(src, dst, total_len) as u16) + addr_bytes(src) + addr_bytes(dst)
}

/// Appends the IPv4 header of a UDP datagram.
#[verifier::rlimit(30)]
pub fn write_ip_header_for_udp(out: &mut Vec<u8>, src: &Ipv4Addr, dst: &Ipv4Addr, udp_len: u16)
    requires
        IP_HEADER_SIZE + udp_len <= 0xffff,
    ensures
        final(out)@ == old(out)@ + ip_header(*src, *dst, udp_len),
{
    let total_len: u32 = IP_HEADER_SIZE as u32 + udp_len as u32;
    let sum: u32 = 0x4500 + total_len + 0x4000 + 0x4011 + src.bits / 0x1_0000 + src.bits % 0x1_0000
        + dst.bits / 0x1_0000 + dst.bits % 0x1_0000;
    let once: u32 = sum % 0x1_0000 + sum / 0x1_0000;
    let folded: u32 = once % 0x1_0000 + once / 0x1_0000;
    out.push(0x45);
    out.push(0);
    push_be16(out, total_len as u16);
    push_be16(out, 0);
    push_be16(out, 0x4000);
    out.push(IP_TTL);
    out.push(IP_PROTO_UDP);
    push_be16(out, (0xffff - folded) as u16);
    push_addr(out, src);
    push_addr(out, dst);
    assert(out@ =~= old(out)@ + ip_header(*src, *dst, udp_len));
}

/// The UDP header of a datagram, without a checksum.
pub open spec fn udp_header(src_port: u16, dst_port: u16, payload_len: u16) -> Seq<u8> {
    be16_bytes(src_port) + be16_bytes(dst_port) + be16_bytes((UDP_HEADER_SIZE + payload_len) as u16)
        + be16_bytes(0)
}

/// Appends the UDP header of a datagram. The checksum is off: most NICs offload it, and the
/// kernel doesn't verify on RX unless explicitly enabled.
pub fn write_udp_header(out: &mut Vec<u8>, src_port: u16, dst_port: u16, payload_len: u16)
    requires
        UDP_HEADER_SIZE + payload_len <= 0xffff,
    ensures
        final(out)@ == old(out)@ + udp_header(src_port, dst_port, payload_len),
{
    push_be16(out, src_port);
    push_be16(out, dst_port);
    push_be16(out, UDP_HEADER_SIZE as u16 + payload_len);
    push_be16(out, 0);
    assert(out@ =~= old(out)@ + udp_header(src_port, dst_port, payload_len));
}

/// The three headers of a datagram.
pub open spec fn headers(
    src_mac: Seq<u8>,
    dst_mac: Seq<u8>,
    src: Ipv4Addr,
    src_port: u16,
    dst: Ipv4Addr,
    dst_port: u16,
    payload_len: u16,
) -> Seq<u8> {
    eth_header(src_mac, dst_mac) + ip_header(src, dst, (UDP_HEADER_SIZE + payload_len) as u16)
        + udp_header(src_port, dst_port, payload_len)
}

/// Length of a frame's IPv4 header.
pub open spec fn ip_header_len(frame: Seq<u8>) -> int {
    (frame[14] % 16) * 4
}

/// Whether a frame holds a whole UDP datagram over IPv4.
pub open spec fn is_udp_frame(frame: Seq<u8>) -> bool {
    &&& frame.len() >= ETH_HEADER_SIZE + IP_HEADER_SIZE + UDP_HEADER_SIZE
    &&& be16(frame, 12) == ETH_TYPE_IPV4
    &&& frame[14] / 16 == 4
    &&& ip_header_len(frame) >= IP_HEADER_SIZE
    &&& frame.len() >= ETH_HEADER_SIZE + ip_header_len(frame) + UDP_HEADER_SIZE
    &&& frame[23] == IP_PROTO_UDP
    &&& be16(frame, 18 + ip_header_len(frame)) >= UDP_HEADER_SIZE
    &&& ETH_HEADER_SIZE + ip_header_len(frame) + be16(frame, 18 + ip_header_len(frame))
        <= frame.len()
}

/// Where the payload of a UDP frame starts.
pub open spec fn payload_start(frame: Seq<u8>) -> int {
    ETH_HEADER_SIZE + ip_header_len(frame) + UDP_HEADER_SIZE
}

/// Number of payload bytes of a UDP frame.
pub open spec fn payload_length(frame: Seq<u8>) -> int {
    be16(frame, 18 + ip_header_len(frame)) - UDP_HEADER_SIZE
}

/// The ECN codepoint in the low two bits of the TOS byte.
pub open spec fn tos_ecn(tos: u8) -> Option<EcnCodepoint> {
    if tos % 4 == 1 {
        Some(EcnCodepoint::Ect1)
    } else if tos % 4 == 2 {
        Some(EcnCodepoint::Ect0)
    } else if tos % 4 == 3 {
        Some(EcnCodepoint::Ce)
    } else {
        None
    }
}

/// The metadata of a UDP frame.
pub open spec fn frame_meta(frame: Seq<u8>) -> RecvMeta {
    RecvMeta {
        src: SocketAddr {
            ip: IpAddr::V4(Ipv4Addr { bits: be32(frame, 26) as u32 }),
            port: be16(frame, 14 + ip_header_len(frame)) as u16,
        },
        dst_ip: Some(IpAddr::V4(Ipv4Addr { bits: be32(frame, 30) as u32 })),
        ecn: tos_ecn(frame[15]),
        len: payload_length(frame) as usize,
        stride: payload_length(frame) as usize,
    }
}

/// Decode the low two bits of the IPv4 TOS byte (== ECN field per RFC 3168).
pub fn ecn_from_tos(tos: u8) -> (ecn: Option<EcnCodepoint>)
    ensures
        ecn == tos_ecn(tos),
{
    match tos % 4 {
        1 => Some(EcnCodepoint::Ect1),
        2 => Some(EcnCodepoint::Ect0),
        3 => Some(EcnCodepoint::Ce),
        _ => None,
    }
}

/// Parse the ETH/IPv4/UDP headers in `frame` and return
/// `(RecvMeta, payload_offset, payload_len)`. Returns `None` for malformed
/// or non-IPv4/UDP frames.
pub fn parse_ipv4_udp(frame: &[u8]) -> (parsed: Option<(RecvMeta, u32, u32)>)
    ensures
        parsed is Some <==> is_udp_frame(frame@),
        parsed matches Some(p) ==> {
            &&& p.0 == frame_meta(frame@)
            &&& p.1 == payload_start(frame@)
            &&& p.2 == payload_length(frame@)
        },
{
    if frame.len() < ETH_HEADER_SIZE + IP_HEADER_SIZE + UDP_HEADER_SIZE {
        return None;
    }
    let ether_type: u16 = read_be16(frame, 12);
    if ether_type != ETH_TYPE_IPV4 {
        return None;
    }
    let version_ihl: u8 = frame[14];
    if version_ihl / 16 != 4 {
        return None;
    }
    let ihl: usize = (version_ihl % 16) as usize * 4;
    if ihl < IP_HEADER_SIZE || frame.len() < ETH_HEADER_SIZE + ihl + UDP_HEADER_SIZE {
        return None;
    }
    if frame[23] != IP_PROTO_UDP {
        return None;
    }
    let src_ip = Ipv4Addr::new(frame[26], frame[27], frame[28], frame[29]);
    let dst_ip = Ipv4Addr::new(frame[30], frame[31], frame[32], frame[33]);
    let src_port: u16 = read_be16(frame, ETH_HEADER_SIZE + ihl);
    let udp_len: usize = read_be16(frame, ETH_HEADER_SIZE + ihl + 4) as usize;
    if udp_len < UDP_HEADER_SIZE {
        return None;
    }
    let payload_len: usize = udp_len - UDP_HEADER_SIZE;
    let payload_offset: usize = ETH_HEADER_SIZE + ihl + UDP_HEADER_SIZE;
    if payload_offset + payload_len > frame.len() {
        return None;
    }
    let meta = RecvMeta {
        src: SocketAddr { ip: IpAddr::V4(src_ip), port: src_port },
        dst_ip: Some(IpAddr::V4(dst_ip)),
        ecn: ecn_from_tos(frame[15]),
        len: payload_len,
        stride: payload_len,
    };
    Some((meta, payload_offset as u32, payload_len as u32))
}

/// A frame with the headers of a datagram in front of its payload is read back as that datagram:
/// its source, its destination address and its payload.
pub proof fn law_headers_read_back(
    src_mac: Seq<u8>,
    dst_mac: Seq<u8>,
    src: Ipv4Addr,
    src_port: u16,
    dst: Ipv4Addr,
    dst_port: u16,
    payload: Seq<u8>,
)
    requires
        src_mac.len() == 6,
        dst_mac.len() == 6,
        IP_HEADER_SIZE + UDP_HEADER_SIZE + payload.len() <= 0xffff,
    ensures
        ({
            let frame = headers(
                src_mac,
                dst_mac,
                src,
                src_port,
                dst,
                dst_port,
                payload.len() as u16,
            ) + payload;
            &&& is_udp_frame(frame)
            &&& frame_meta(frame).src == (SocketAddr { ip: IpAddr::V4(src), port: src_port })
            &&& frame_meta(frame).dst_ip == Some(IpAddr::V4(dst))
            &&& frame_meta(frame).ecn is None
            &&& frame_meta(frame).len == payload.len()
            &&& frame.subrange(
                payload_start(frame),
                payload_start(frame) + payload_length(frame),
            ) == payload
        }),
{
    let n = payload.len() as u16;
    let udp_len = (UDP_HEADER_SIZE + n) as u16;
    let eth = eth_header(src_mac, dst_mac);
    let ip = ip_header(src, dst, udp_len);
    let udp = udp_header(src_port, dst_port, n);
    let frame = headers(src_mac, dst_mac, src, src_port, dst, dst_port, n) + payload;
    lemma_eth_header(src_mac, dst_mac);
    lemma_ip_header(src, dst, udp_len);
    lemma_udp_header(src_port, dst_port, n);
    lemma_frame_parts(eth, ip, udp, payload);
    assert(frame == eth + ip + udp + payload);
    assert(frame[12] == eth[12] && frame[13] == eth[13]);
    assert(frame[14] == ip[0] && frame[15] == ip[1] && frame[23] == ip[9]);
    assert(frame[26] == ip[12] && frame[27] == ip[13] && frame[28] == ip[14] && frame[29] == ip[15]);
    assert(frame[30] == ip[16] && frame[31] == ip[17] && frame[32] == ip[18] && frame[33] == ip[19]);
    assert(frame[34] == udp[0] && frame[35] == udp[1] && frame[38] == udp[4] && frame[39] == udp[5]);
    assert(ip_header_len(frame) == 20);
    assert(be16(frame, 12) == ETH_TYPE_IPV4);
    assert(be32(frame, 26) == be32(ip, 12));
    assert(be32(frame, 30) == be32(ip, 16));
    assert(be16(frame, 34) == src_port);
    assert(be16(frame, 38) == udp_len);
}

/// The parts of a frame keep their bytes.
pub proof fn lemma_frame_parts(eth: Seq<u8>, ip: Seq<u8>, udp: Seq<u8>, payload: Seq<u8>)
    requires
        eth.len() == 14,
        ip.len() == 20,
        udp.len() == 8,
    ensures
        ({
            let frame = eth + ip + udp + payload;
            &&& frame.len() == 42 + payload.len()
            &&& forall|i: int| 0 <= i < 14 ==> #[trigger] frame[i] == eth[i]
            &&& forall|i: int| 14 <= i < 34 ==> #[trigger] frame[i] == ip[i - 14]
            &&& forall|i: int| 34 <= i < 42 ==> #[trigger] frame[i] == udp[i - 34]
            &&& frame.subrange(42, 42 + payload.len() as int) == payload
        }),
{
    let frame = eth + ip + udp + payload;
    assert(frame.subrange(42, 42 + payload.len() as int) =~= payload);
}

proof fn lemma_eth_header(src_mac: Seq<u8>, dst_mac: Seq<u8>)
    requires
        src_mac.len() == 6,
        dst_mac.len() == 6,
    ensures
        eth_header(src_mac, dst_mac).len() == 14,
        be16(eth_header(src_mac, dst_mac), 12) == ETH_TYPE_IPV4,
{
}

proof fn lemma_ip_header(src: Ipv4Addr, dst: Ipv4Addr, udp_len: u16)
    ensures
        ({
            let ip = ip_header(src, dst, udp_len);
            &&& ip.len() == 20
            &&& ip[0] == 0x45
            &&& ip[1] == 0
            &&& ip[9] == IP_PROTO_UDP
            &&& be32(ip, 12) == src.bits
            &&& be32(ip, 16) == dst.bits
        }),
{
    let ip = ip_header(src, dst, udp_len);
    let head = seq![0x45u8, 0u8] + be16_bytes((IP_HEADER_SIZE + udp_len) as u16) + be16_bytes(0)
        + be16_bytes(0x4000) + seq![IP_TTL, IP_PROTO_UDP] + be16_bytes(
        ip_checksum(src, dst, IP_HEADER_SIZE + udp_len) as u16,
    );
    assert(head.len() == 12 && head[0] == 0x45 && head[1] == 0 && head[9] == IP_PROTO_UDP);
    assert(ip == head + addr_bytes(src) + addr_bytes(dst));
    assert(forall|i: int| 0 <= i < 12 ==> ip[i] == head[i]);
    lemma_addr_bytes(src);
    lemma_addr_bytes(dst);
    assert(forall|i: int| 12 <= i < 16 ==> #[trigger] ip[i] == addr_bytes(src)[i - 12]);
    assert(forall|i: int| 16 <= i < 20 ==> #[trigger] ip[i] == addr_bytes(dst)[i - 16]);
}

#[verifier::rlimit(30)]
proof fn lemma_addr_bytes(addr: Ipv4Addr)
    ensures
        addr_bytes(addr).len() == 4,
        be32(addr_bytes(addr), 0) == addr.bits,
{
}

proof fn lemma_udp_header(src_port: u16, dst_port: u16, payload_len: u16)
    requires
        UDP_HEADER_SIZE + payload_len <= 0xffff,
    ensures
        ({
            let udp = udp_header(src_port, dst_port, payload_len);
            &&& udp.len() == 8
            &&& be16(udp, 0) == src_port
            &&& be16(udp, 4) == UDP_HEADER_SIZE + payload_len
        }),
{
}

/// The fields that tell what to do with a packet.
pub proof fn lemma_fixed_fields(
    src: Ipv4Addr,
    dst: Ipv4Addr,
    src_port: u16,
    dst_port: u16,
    payload_len: u16,
)
    requires
        UDP_HEADER_SIZE + payload_len <= 0xffff,
    ensures
        ({
            let ip = ip_header(src, dst, (UDP_HEADER_SIZE + payload_len) as u16);
            let udp = udp_header(src_port, dst_port, payload_len);
            &&& ip.len() == 20
            &&& udp.len() == 8
            &&& ip[0] == 0x45
            &&& ip[6] == 0x40
            &&& ip[7] == 0
            &&& ip[9] == IP_PROTO_UDP
            &&& be16(udp, 2) == dst_port
        }),
{
    let udp_len = (UDP_HEADER_SIZE + payload_len) as u16;
    let ip = ip_header(src, dst, udp_len);
    let head = seq![0x45u8, 0u8] + be16_bytes((IP_HEADER_SIZE + udp_len) as u16) + be16_bytes(0)
        + be16_bytes(0x4000) + seq![IP_TTL, IP_PROTO_UDP];
    assert(head.len() == 10 && head[0] == 0x45 && head[6] == 0x40 && head[7] == 0 && head[9]
        == IP_PROTO_UDP);
    let tail = be16_bytes(ip_checksum(src, dst, IP_HEADER_SIZE + udp_len) as u16) + addr_bytes(src)
        + addr_bytes(dst);
    assert(ip =~= head + tail);
    assert(ip[0] == head[0] && ip[6] == head[6] && ip[7] == head[7] && ip[9] == head[9]);
}

/// A header carries a checksum that fits it: the ones' complement sum of its ten 16-bit words,
/// with the checksum among them, is all ones.
pub proof fn law_ip_header_sums_to_ones(src: Ipv4Addr, dst: Ipv4Addr, udp_len: u16)
    requires
        20 + udp_len <= 0xffff,
    ensures
        ({
            let h = ip_header(src, dst, udp_len);
            let sum = (h[0] * 0x100 + h[1]) + (h[2] * 0x100 + h[3]) + (h[4] * 0x100 + h[5]) + (h[6]
                * 0x100 + h[7]) + (h[8] * 0x100 + h[9]) + (h[10] * 0x100 + h[11]) + (h[12] * 0x100
                + h[13]) + (h[14] * 0x100 + h[15]) + (h[16] * 0x100 + h[17]) + (h[18] * 0x100
                + h[19]);
            let once = sum % 0x1_0000 + sum / 0x1_0000;
            &&& h.len() == 20
            &&& sum % 0xffff == 0
            &&& once % 0x1_0000 + once / 0x1_0000 == 0xffff
        }),
{
    let total = 20 + udp_len;
    let h = ip_header(src, dst, udp_len);
    let s = ip_header_sum(src, dst, total as int);
    let folded = ones_complement_fold(s);
    law_headers_on_the_wire(seq![0u8, 0, 0, 0, 0, 0], seq![0u8, 0, 0, 0, 0, 0], src, 0, dst, 0, udp_len);
    lemma_fold(s);
    lemma_checksum_bytes(src, dst, udp_len);
    lemma_halves(src);
    lemma_halves(dst);
    let sum = s + 0xffff - folded;
    assert(sum % 0xffff == 0);
    assert(0 < sum < 0x10_0000);
    lemma_multiple_of_ones(sum);
}

/// Folding a sum keeps it modulo 0xffff.
proof fn lemma_fold(s: int)
    requires
        0 < s < 0x10_0000,
    ensures
        0 < ones_complement_fold(s) <= 0xffff,
        (s - ones_complement_fold(s)) % 0xffff == 0,
{
    let hi = s / 0x1_0000;
    let lo = s % 0x1_0000;
    assert(s == hi * 0x1_0000 + lo);
    let once = lo + hi;
    assert(s - once == hi * 0xffff);
    if once < 0x1_0000 {
        assert(ones_complement_fold(s) == once);
        assert((hi * 0xffff) % 0xffff == 0) by (nonlinear_arith);
    } else {
        assert(once / 0x1_0000 == 1 && once % 0x1_0000 == once - 0x1_0000);
        assert(ones_complement_fold(s) == once - 0xffff);
        assert(s - (once - 0xffff) == (hi + 1) * 0xffff);
        assert(((hi + 1) * 0xffff) % 0xffff == 0) by (nonlinear_arith);
    }
}

proof fn lemma_multiple_of_ones(sum: int)
    requires
        0 < sum < 0x10_0000,
        sum % 0xffff == 0,
    ensures
        ({
            let once = sum % 0x1_0000 + sum / 0x1_0000;
            once % 0x1_0000 + once / 0x1_0000 == 0xffff
        }),
{
    let k = sum / 0xffff;
    assert(sum == k * 0xffff);
    assert(1 <= k <= 16);
    assert(sum == (k - 1) * 0x1_0000 + (0x1_0000 - k));
    assert(sum / 0x1_0000 == k - 1);
    assert(sum % 0x1_0000 == 0x1_0000 - k);
}

proof fn lemma_halves(addr: Ipv4Addr)
    ensures
        ((addr.bits / 0x100_0000) % 0x100) * 0x100 + (addr.bits / 0x1_0000) % 0x100 == addr.bits
            / 0x1_0000,
        ((addr.bits / 0x100) % 0x100) * 0x100 + addr.bits % 0x100 == addr.bits % 0x1_0000,
{
}

/// The bytes of a header's checksum field.
proof fn lemma_checksum_bytes(src: Ipv4Addr, dst: Ipv4Addr, udp_len: u16)
    requires
        20 + udp_len <= 0xffff,
    ensures
        ip_header(src, dst, udp_len)[10] * 0x100 + ip_header(src, dst, udp_len)[11]
            == ip_checksum(src, dst, 20 + udp_len),
{
    let total = 20 + udp_len;
    lemma_fold(ip_header_sum(src, dst, total as int));
    let sum = ip_checksum(src, dst, total as int) as u16;
    let head = seq![0x45u8, 0u8] + be16_bytes(total as u16) + be16_bytes(0) + be16_bytes(0x4000)
        + seq![IP_TTL, IP_PROTO_UDP];
    assert(head.len() == 10);
    let tail = addr_bytes(src) + addr_bytes(dst);
    assert(ip_header(src, dst, udp_len) =~= head + be16_bytes(sum) + tail);
    assert((head + be16_bytes(sum) + tail)[10] == be16_bytes(sum)[0]);
    assert((head + be16_bytes(sum) + tail)[11] == be16_bytes(sum)[1]);
}

/// What the headers of a datagram are on the wire. Ethernet: destination, source, type 0x0800.
/// IPv4: version 4 and five words, no type of service, its length, no identification, not to be
/// fragmented, 64 hops, UDP, and the two addresses. UDP: the ports, its length, no checksum.
pub proof fn law_headers_on_the_wire(
    src_mac: Seq<u8>,
    dst_mac: Seq<u8>,
    src: Ipv4Addr,
    src_port: u16,
    dst: Ipv4Addr,
    dst_port: u16,
    udp_len: u16,
)
    requires
        src_mac.len() == 6,
        dst_mac.len() == 6,
        20 + udp_len <= 0xffff,
    ensures
        ({
            let e = eth_header(src_mac, dst_mac);
            &&& e.len() == 14
            &&& e.take(6) == dst_mac
            &&& e.subrange(6, 12) == src_mac
            &&& e[12] == 8 && e[13] == 0
        }),
        ({
            let h = ip_header(src, dst, udp_len);
            &&& h.len() == 20
            &&& h[0] == 0x45 && h[1] == 0
            &&& h[2] * 0x100 + h[3] == 20 + udp_len
            &&& h[4] == 0 && h[5] == 0 && h[6] == 0x40 && h[7] == 0
            &&& h[8] == 64 && h[9] == 17
            &&& h[12] == (src.bits / 0x100_0000) % 0x100 && h[13] == (src.bits / 0x1_0000) % 0x100
            &&& h[14] == (src.bits / 0x100) % 0x100 && h[15] == src.bits % 0x100
            &&& h[16] == (dst.bits / 0x100_0000) % 0x100 && h[17] == (dst.bits / 0x1_0000) % 0x100
            &&& h[18] == (dst.bits / 0x100) % 0x100 && h[19] == dst.bits % 0x100
        }),
        8 <= udp_len ==> ({
            let u = udp_header(src_port, dst_port, (udp_len - 8) as u16);
            &&& u.len() == 8
            &&& u[0] * 0x100 + u[1] == src_port
            &&& u[2] * 0x100 + u[3] == dst_port
            &&& u[4] * 0x100 + u[5] == udp_len
            &&& u[6] == 0 && u[7] == 0
        }),
{
    let e = eth_header(src_mac, dst_mac);
    assert(e.take(6) =~= dst_mac);
    assert(e.subrange(6, 12) =~= src_mac);
    let total = 20 + udp_len;
    let h = ip_header(src, dst, udp_len);
    let head = seq![0x45u8, 0u8] + be16_bytes(total as u16) + be16_bytes(0) + be16_bytes(0x4000)
        + seq![IP_TTL, IP_PROTO_UDP] + be16_bytes(
        ip_checksum(src, dst, IP_HEADER_SIZE + udp_len) as u16,
    );
    assert(head.len() == 12);
    assert(h == head + addr_bytes(src) + addr_bytes(dst));
    assert(forall|i: int| 0 <= i < 12 ==> #[trigger] h[i] == head[i]);
    assert(forall|i: int| 12 <= i < 16 ==> #[trigger] h[i] == addr_bytes(src)[i - 12]);
    assert(forall|i: int| 16 <= i < 20 ==> #[trigger] h[i] == addr_bytes(dst)[i - 16]);
}

/// A frame holds a datagram exactly where its bytes say so: type 0x0800, version 4 with a header
/// of five words or more, protocol 17, and a UDP length that covers its header and lies in the
/// frame. The addresses, the ports and the payload are read from behind each other, options or
/// not.
pub proof fn law_frames_are_read_from_the_wire(frame: Seq<u8>)
    ensures
        frame.len() < 42 ==> !is_udp_frame(frame),
        frame.len() >= 42 ==> ({
            let udp = 14 + 4 * (frame[14] - 0x40);
            let len = frame[udp + 4] * 0x100 + frame[udp + 5];
            &&& is_udp_frame(frame) <==> {
                &&& frame[12] == 8 && frame[13] == 0
                &&& 0x45 <= frame[14] <= 0x4f
                &&& frame[23] == 17
                &&& udp + 8 <= frame.len()
                &&& 8 <= len
                &&& udp + len <= frame.len()
            }
            &&& is_udp_frame(frame) ==> {
                let meta = frame_meta(frame);
                &&& payload_start(frame) == udp + 8
                &&& payload_length(frame) == len - 8
                &&& meta.len == len - 8
                &&& meta.stride == len - 8
                &&& meta.src.port == frame[udp] * 0x100 + frame[udp + 1]
                &&& meta.src.ip matches IpAddr::V4(a)
                &&& a.bits == ((frame[26] * 0x100 + frame[27]) * 0x100 + frame[28]) * 0x100
                    + frame[29]
                &&& meta.dst_ip matches Some(IpAddr::V4(b))
                &&& b.bits == ((frame[30] * 0x100 + frame[31]) * 0x100 + frame[32]) * 0x100
                    + frame[33]
            }
        }),
{
}

/// The codepoint of a frame is that of the low two bits of its TOS byte, and nothing else that is
/// read of a frame depends on that byte.
pub proof fn law_ecn_follows_tos(frame: Seq<u8>, tos: u8)
    requires
        is_udp_frame(frame),
    ensures
        ({
            let marked = frame.update(15, tos);
            let ecn = frame_meta(marked).ecn;
            &&& is_udp_frame(marked)
            &&& tos % 4 == 0 <==> ecn is None
            &&& tos % 4 == 1 <==> ecn == Some(EcnCodepoint::Ect1)
            &&& tos % 4 == 2 <==> ecn == Some(EcnCodepoint::Ect0)
            &&& tos % 4 == 3 <==> ecn == Some(EcnCodepoint::Ce)
            &&& tos_ecn(tos) == ecn
            &&& frame_meta(marked) == (RecvMeta { ecn, ..frame_meta(frame) })
            &&& payload_start(marked) == payload_start(frame)
            &&& payload_length(marked) == payload_length(frame)
        }),
{
}

/// Bytes behind a datagram do not change what is read of its frame.
pub proof fn law_padding_is_ignored(frame: Seq<u8>, padding: Seq<u8>)
    requires
        is_udp_frame(frame),
    ensures
        is_udp_frame(frame + padding),
        frame_meta(frame + padding) == frame_meta(frame),
        payload_start(frame + padding) == payload_start(frame),
        payload_length(frame + padding) == payload_length(frame),
{
    let longer = frame + padding;
    assert(forall|i: int| 0 <= i < frame.len() ==> #[trigger] longer[i] == frame[i]);
}

} // verus!
