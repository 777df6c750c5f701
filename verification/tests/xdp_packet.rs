//! Packet headers, and the program that steers frames.

use quac::addr::{IpAddr, Ipv4Addr, SocketAddr};
use quac::interface::EcnCodepoint;
use quac::xdp::ebpf::{
    bump_drop, quac_xdp, try_redirect, Verdict, DROP_REASON_UDP_FRAGMENT, DROP_REASON_UDP_OPTIONS,
    MAX_BOUND_PORTS, XDP_DROP, XDP_PASS,
};
use quac::xdp::packet::{
    ecn_from_tos, parse_ipv4_udp, write_eth_header, write_ip_header_for_udp, write_udp_header,
};

fn frame(payload: &[u8]) -> Vec<u8> {
    let mut out = Vec::new();
    let len = payload.len() as u16;
    write_eth_header(&mut out, &[2, 0, 0, 0, 0, 1], &[2, 0, 0, 0, 0, 2]);
    write_ip_header_for_udp(
        &mut out,
        &Ipv4Addr::new(192, 168, 0, 1),
        &Ipv4Addr::new(192, 168, 0, 199),
        8 + len,
    );
    write_udp_header(&mut out, 5000, 4433, len);
    out.extend_from_slice(payload);
    out
}

#[test]
fn headers_have_their_bytes() {
    let bytes = frame(b"hi");
    assert_eq!(&bytes[..14], &[2, 0, 0, 0, 0, 2, 2, 0, 0, 0, 0, 1, 8, 0]);
    assert_eq!(&bytes[14..24], &[0x45, 0, 0, 30, 0, 0, 0x40, 0, 64, 17]);
    assert_eq!(&bytes[26..34], &[192, 168, 0, 1, 192, 168, 0, 199]);
    assert_eq!(&bytes[34..42], &[0x13, 0x88, 0x11, 0x51, 0, 10, 0, 0]);
    assert_eq!(&bytes[42..], b"hi");
}

#[test]
fn the_checksum_makes_the_header_sum_to_ones() {
    for payload in [&b""[..], b"x", &[7u8; 1400]] {
        let bytes = frame(payload);
        let mut sum: u32 = 0;
        for i in (14..34).step_by(2) {
            sum += (bytes[i] as u32) * 256 + bytes[i + 1] as u32;
        }
        while sum > 0xffff {
            sum = (sum & 0xffff) + (sum >> 16);
        }
        assert_eq!(sum, 0xffff);
    }
}

#[test]
fn the_checksum_of_a_known_header() {
    // 4500 0073 0000 4000 4011 b861 c0a8 0001 c0a8 00c7
    let mut out = Vec::new();
    write_ip_header_for_udp(
        &mut out,
        &Ipv4Addr::new(192, 168, 0, 1),
        &Ipv4Addr::new(192, 168, 0, 199),
        95,
    );
    assert_eq!(&out[2..4], &[0x00, 0x73]);
    assert_eq!(&out[10..12], &[0xb8, 0x61]);
}

#[test]
fn a_written_frame_reads_back() {
    let bytes = frame(b"payload");
    let (meta, offset, len) = parse_ipv4_udp(&bytes).expect("a UDP frame");
    assert_eq!((offset, len), (42, 7));
    assert_eq!(meta.src, SocketAddr::new(IpAddr::V4(Ipv4Addr::new(192, 168, 0, 1)), 5000));
    assert_eq!(meta.dst_ip, Some(IpAddr::V4(Ipv4Addr::new(192, 168, 0, 199))));
    assert_eq!(meta.ecn, None);
    assert_eq!((meta.len, meta.stride), (7, 7));
}

#[test]
fn frames_that_are_no_udp_datagram() {
    let good = frame(b"payload");
    assert!(parse_ipv4_udp(&good[..41]).is_none());
    let mut other_type = good.clone();
    other_type[12] = 0x86;
    other_type[13] = 0xdd;
    assert!(parse_ipv4_udp(&other_type).is_none());
    let mut tcp = good.clone();
    tcp[23] = 6;
    assert!(parse_ipv4_udp(&tcp).is_none());
    let mut short_header = good.clone();
    short_header[14] = 0x44;
    assert!(parse_ipv4_udp(&short_header).is_none());
    let mut long_header = good.clone();
    long_header[14] = 0x4f;
    assert!(parse_ipv4_udp(&long_header).is_none());
    let mut too_long = good.clone();
    too_long[39] = 200;
    assert!(parse_ipv4_udp(&too_long).is_none());
    let mut too_short = good;
    too_short[39] = 7;
    assert!(parse_ipv4_udp(&too_short).is_none());
}

#[test]
fn ip_options_move_the_payload() {
    let mut bytes = frame(b"payload");
    // Four bytes of options.
    bytes[14] = 0x46;
    for _ in 0..4 {
        bytes.insert(34, 1);
    }
    bytes[15] = 3;
    let (meta, offset, len) = parse_ipv4_udp(&bytes).expect("a UDP frame");
    assert_eq!((offset, len), (46, 7));
    assert_eq!(meta.ecn, Some(EcnCodepoint::Ce));
}

#[test]
fn congestion_marks() {
    assert_eq!(ecn_from_tos(0b00), None);
    assert_eq!(ecn_from_tos(0b01), Some(EcnCodepoint::Ect1));
    assert_eq!(ecn_from_tos(0b10), Some(EcnCodepoint::Ect0));
    assert_eq!(ecn_from_tos(0b11), Some(EcnCodepoint::Ce));
    assert_eq!(ecn_from_tos(0b1011_1010), Some(EcnCodepoint::Ect0));
}

fn ports(bound: &[u16]) -> Vec<u8> {
    let mut ports = vec![0u8; MAX_BOUND_PORTS as usize];
    for port in bound {
        ports[*port as usize] = 1;
    }
    ports
}

#[test]
fn frames_for_a_bound_port_are_redirected() {
    let bound = ports(&[4433]);
    let good = frame(b"payload");
    assert_eq!(try_redirect(&good, &bound), Ok(Verdict::Redirect));
    assert_eq!(try_redirect(&good, &ports(&[4434])), Ok(Verdict::Pass));
    assert_eq!(try_redirect(&good[..41], &bound), Err(()));
    assert_eq!(try_redirect(&good[..33], &bound), Err(()));
    assert_eq!(try_redirect(&good[..13], &bound), Err(()));
    let mut arp = good.clone();
    arp[13] = 6;
    assert_eq!(try_redirect(&arp[..20], &bound), Ok(Verdict::Pass));
    let mut tcp = good.clone();
    tcp[23] = 6;
    assert_eq!(try_redirect(&tcp, &bound), Ok(Verdict::Pass));
}

#[test]
fn options_and_fragments_are_dropped() {
    let bound = ports(&[4433]);
    let good = frame(b"payload");
    let mut options = good.clone();
    options[14] = 0x46;
    assert_eq!(
        try_redirect(&options, &bound),
        Ok(Verdict::Drop { reason: DROP_REASON_UDP_OPTIONS })
    );
    let mut more = good.clone();
    more[20] = 0x20;
    assert_eq!(
        try_redirect(&more, &bound),
        Ok(Verdict::Drop { reason: DROP_REASON_UDP_FRAGMENT })
    );
    let mut offset = good.clone();
    offset[21] = 1;
    assert_eq!(
        try_redirect(&offset, &bound),
        Ok(Verdict::Drop { reason: DROP_REASON_UDP_FRAGMENT })
    );
    let mut reserved = good;
    reserved[20] = 0xc0;
    assert_eq!(try_redirect(&reserved, &bound), Ok(Verdict::Redirect));
}

#[test]
fn actions_and_counters() {
    let bound = ports(&[4433]);
    let good = frame(b"payload");
    let mut counters = vec![0u64, u64::MAX];
    assert_eq!(quac_xdp(&good, &bound, &mut counters, Ok(4)), 4);
    assert_eq!(quac_xdp(&good, &bound, &mut counters, Err(2)), XDP_PASS);
    assert_eq!(quac_xdp(&good[..10], &bound, &mut counters, Ok(4)), XDP_PASS);
    let mut options = good.clone();
    options[14] = 0x46;
    assert_eq!(quac_xdp(&options, &bound, &mut counters, Ok(4)), XDP_DROP);
    let mut more = good;
    more[20] = 0x20;
    assert_eq!(quac_xdp(&more, &bound, &mut counters, Ok(4)), XDP_DROP);
    assert_eq!(counters, vec![1, 0]);
    bump_drop(&mut counters, 7);
    assert_eq!(counters, vec![1, 0]);
}
