//! The OS socket: batches, zerocopy and received messages.

use quac::addr::{IpAddr, Ipv4Addr, Ipv6Addr, SocketAddr};
use quac::interface::{PacketBufMut, RecvMeta, ScatterGather, Segment, Transmit};
use quac::net::{IPV4_MAX_UDP_PAYLOAD, IPV6_MAX_UDP_PAYLOAD};
use quac::os::buffers::{OsBuf, OsBufMut, SLAB_SIZE};
use quac::os::debug::{datagram_prefix, hex_prefix, TRACE_MAX};
use quac::os::socket::{
    check_transmit_invariants, compact_received, segment_ranges, OsSocket, OsTransmit,
    RecvOutcome, RecvSlot, RecvStep, SendOutcome, SendStep, SockExtendedErr, SocketOption, TransmitViolation, EAGAIN, ENOBUFS, IPPROTO_IP,
    IPPROTO_IPV6, IPV6_MTU_DISCOVER, IPV6_PMTUDISC_DO, IP_MTU_DISCOVER, IP_PMTUDISC_DO, MAX_BATCH,
    MAX_GSO, MAX_SEGMENTS, MSG_DONTWAIT, MSG_TRUNC, MSG_ZEROCOPY, SO_EE_CODE_ZEROCOPY_COPIED,
    SO_EE_ORIGIN_ZEROCOPY,
};

const OWNER: u64 = 1;

fn v4(port: u16) -> SocketAddr {
    SocketAddr::new(IpAddr::V4(Ipv4Addr::new(127, 0, 0, 1)), port)
}

fn v6(port: u16) -> SocketAddr {
    SocketAddr::new(IpAddr::V6(Ipv6Addr { bits: 1 }), port)
}

fn packet(parts: &[&[u8]]) -> OsTransmit {
    let mut contents = ScatterGather::new();
    for part in parts {
        let len = part.len();
        contents.push(Segment { buf: OsBuf::from_slice(part), offset: 0, len });
    }
    Transmit::new(contents, v4(1))
}

/// A packet in a buffer of the socket's pool.
fn pooled_packet(socket: &mut OsSocket) -> OsTransmit {
    let mut bufs = Vec::new();
    socket.pool.allocate(64, 1, &mut bufs);
    let mut buf = bufs.pop().unwrap();
    buf.append(b"data");
    let mut contents = ScatterGather::new();
    contents.push(Segment { buf: buf.freeze(), offset: 0, len: 4 });
    Transmit::new(contents, v4(1))
}

fn zerocopy_err(ee_info: u32, ee_data: u32, ee_code: u8) -> SockExtendedErr {
    SockExtendedErr {
        ee_errno: 0,
        ee_origin: SO_EE_ORIGIN_ZEROCOPY,
        ee_type: 0,
        ee_code,
        ee_pad: 0,
        ee_info,
        ee_data,
    }
}

#[test]
fn numbers_of_the_kernel() {
    assert_eq!(MSG_TRUNC, libc::MSG_TRUNC);
    assert_eq!(MSG_DONTWAIT, libc::MSG_DONTWAIT);
    assert_eq!(MSG_ZEROCOPY, 0x400_0000);
    assert_eq!(ENOBUFS, libc::ENOBUFS);
    assert_eq!(IPPROTO_IP, libc::IPPROTO_IP);
    assert_eq!(IPPROTO_IPV6, libc::IPPROTO_IPV6);
    assert_eq!(IP_MTU_DISCOVER, libc::IP_MTU_DISCOVER);
    assert_eq!(IP_PMTUDISC_DO, libc::IP_PMTUDISC_DO);
    assert_eq!(IPV6_MTU_DISCOVER, libc::IPV6_MTU_DISCOVER);
    assert_eq!(IPV6_PMTUDISC_DO, libc::IPV6_PMTUDISC_DO);
}

#[test]
fn payload_limit_follows_the_address_family() {
    assert_eq!(OsSocket::max_payload_for(Some(v4(0))), 1472);
    assert_eq!(OsSocket::max_payload_for(Some(v6(0))), 1452);
    assert_eq!(OsSocket::max_payload_for(None), 1452);
    assert_eq!(
        OsSocket::fragmentation_option(IPV4_MAX_UDP_PAYLOAD),
        SocketOption { level: 0, name: 10, value: 2 }
    );
    assert_eq!(
        OsSocket::fragmentation_option(IPV6_MAX_UDP_PAYLOAD),
        SocketOption { level: 41, name: 23, value: 2 }
    );
}

#[test]
fn socket_ipv4_socket_pool_reports_ipv4_max_payload() {
    let socket = OsSocket::from_udp(Some(v4(0)), false, 0, OWNER);
    assert_eq!(socket.pool.max_payload_size(), IPV4_MAX_UDP_PAYLOAD);
}

#[test]
fn socket_ipv6_socket_pool_reports_ipv6_max_payload() {
    let socket = OsSocket::from_udp(Some(v6(0)), false, 0, OWNER);
    assert_eq!(socket.pool.max_payload_size(), IPV6_MAX_UDP_PAYLOAD);
}

#[test]
fn set_queue_id_round_trips_via_trait() {
    let mut socket = OsSocket::from_udp(Some(v4(0)), false, 0, OWNER);
    assert_eq!(socket.queue_id(), 0);
    socket.set_queue_id(42);
    assert_eq!(socket.queue_id(), 42);
}

#[test]
fn packets_beyond_the_limits_are_named() {
    let mut many: Vec<&[u8]> = Vec::new();
    for _ in 0..65 {
        many.push(b"x");
    }
    let fine = vec![packet(&[b"a"]), packet(&[b"b", b"c"])];
    assert_eq!(check_transmit_invariants(&fine, MAX_SEGMENTS, MAX_GSO), Ok(()));
    let segments = vec![packet(&[b"a"]), packet(&many)];
    assert_eq!(
        check_transmit_invariants(&segments, MAX_SEGMENTS, MAX_GSO),
        Err(TransmitViolation::TooManySegments { index: 1, segments: 65 })
    );
    let mut gso = packet(&[b"hello"]);
    gso.segment_size = Some(1200);
    let batch = vec![gso];
    assert_eq!(
        check_transmit_invariants(&batch, MAX_SEGMENTS, MAX_GSO),
        Err(TransmitViolation::GsoUnsupported { index: 0, segment_size: 1200 })
    );
    assert_eq!(check_transmit_invariants(&batch, MAX_SEGMENTS, 64), Ok(()));
}

#[test]
fn segments_of_a_batch_lie_one_after_the_other() {
    let batch = vec![packet(&[b"AAA"]), packet(&[b"B", b"B"]), packet(&[b"CCC"])];
    assert_eq!(segment_ranges(&batch, 3), vec![(0, 1), (1, 2), (3, 1)]);
    assert_eq!(segment_ranges(&batch, 2), vec![(0, 1), (1, 2)]);
}

#[test]
fn a_batch_has_at_most_64_packets() {
    let copying = OsSocket::from_udp(Some(v4(0)), false, 0, OWNER);
    let mut transmits = vec![packet(&[b"a"])];
    assert_eq!(copying.next_batch(&transmits).n, 1);
    assert_eq!(copying.next_batch(&transmits).flags, MSG_DONTWAIT);
    for _ in 0..100 {
        transmits.push(packet(&[b"a"]));
    }
    assert_eq!(copying.next_batch(&transmits).n, MAX_BATCH);
    let zerocopy = OsSocket::from_udp(Some(v4(0)), true, 0, OWNER);
    assert_eq!(zerocopy.next_batch(&transmits).flags, MSG_DONTWAIT | MSG_ZEROCOPY);
}

#[test]
fn copied_packets_free_their_buffers_at_once() {
    let mut socket = OsSocket::from_udp(Some(v4(0)), false, 0, OWNER);
    let mut transmits = Vec::new();
    for _ in 0..3 {
        let t = pooled_packet(&mut socket);
        transmits.push(t);
    }
    assert_eq!(socket.pool.available(), SLAB_SIZE - 3);
    let step = socket.after_send(&mut transmits, 3, SendOutcome::Sent { count: 2 });
    assert_eq!(step, SendStep::Done { sent: 2 });
    assert_eq!(transmits.len(), 1);
    assert_eq!(socket.pool.available(), SLAB_SIZE - 1);
    assert!(socket.zc_in_flight.is_empty());
    let step = socket.after_send(&mut transmits, 1, SendOutcome::Sent { count: 1 });
    assert_eq!(step, SendStep::Done { sent: 1 });
    assert_eq!(socket.pool.available(), SLAB_SIZE);
}

#[test]
fn a_full_batch_is_followed_by_the_next() {
    let mut socket = OsSocket::from_udp(Some(v4(0)), false, 0, OWNER);
    let mut transmits = vec![packet(&[b"a"]), packet(&[b"b"]), packet(&[b"c"])];
    let step = socket.after_send(&mut transmits, 2, SendOutcome::Sent { count: 2 });
    assert_eq!(step, SendStep::Again { sent: 2 });
    assert_eq!(transmits.len(), 1);
}

#[test]
fn zerocopy_packets_are_held_until_their_notification() {
    let mut socket = OsSocket::from_udp(Some(v4(0)), true, 0, OWNER);
    let mut transmits = Vec::new();
    for _ in 0..4 {
        let t = pooled_packet(&mut socket);
        transmits.push(t);
    }
    socket.after_send(&mut transmits, 4, SendOutcome::Sent { count: 4 });
    assert_eq!(socket.zc_in_flight.len(), 4);
    assert_eq!(socket.pool.available(), SLAB_SIZE - 4);
    // Notifications cover inclusive ranges, across the wrap of the counter too.
    assert_eq!(socket.complete(&zerocopy_err(u32::MAX, 0, 0)), 2);
    assert_eq!(socket.pool.available(), SLAB_SIZE - 2);
    assert!(socket.zerocopy_enabled);
    // A notification of another origin is none of ours.
    let mut other = zerocopy_err(1, 2, 0);
    other.ee_origin = 2;
    assert_eq!(socket.complete(&other), 0);
    // The kernel copied: no zerocopy any more.
    assert_eq!(socket.complete(&zerocopy_err(1, 9, SO_EE_CODE_ZEROCOPY_COPIED)), 2);
    assert!(!socket.zerocopy_enabled);
    assert!(socket.zc_in_flight.is_empty());
    assert_eq!(socket.pool.available(), SLAB_SIZE);
}

#[test]
fn exhausted_notifications_turn_zerocopy_off() {
    let mut socket = OsSocket::from_udp(Some(v4(0)), true, 0, OWNER);
    let mut transmits = vec![packet(&[b"a"])];
    let step = socket.after_send(&mut transmits, 1, SendOutcome::Failed { errno: ENOBUFS });
    assert_eq!(step, SendStep::Again { sent: 0 });
    assert!(!socket.zerocopy_enabled);
    assert_eq!(transmits.len(), 1);
    let step = socket.after_send(&mut transmits, 1, SendOutcome::Failed { errno: ENOBUFS });
    assert_eq!(step, SendStep::Done { sent: 0 });
    let mut zerocopy = OsSocket::from_udp(Some(v4(0)), true, 0, OWNER);
    let step = zerocopy.after_send(&mut transmits, 1, SendOutcome::Failed { errno: 11 });
    assert_eq!(step, SendStep::Done { sent: 0 });
    assert!(zerocopy.zerocopy_enabled);
}

#[test]
fn recv_honors_the_shorter_slice() {
    assert_eq!(OsSocket::recv_limit(4, 2), 2);
    assert_eq!(OsSocket::recv_limit(2, 4), 2);
    assert_eq!(OsSocket::recv_limit(0, 4), 0);
    assert_eq!(OsSocket::recv_limit(500, 400), 64);
}

#[test]
fn cut_and_unknown_messages_are_dropped() {
    let mut socket = OsSocket::from_udp(Some(v4(0)), false, 0, OWNER);
    let mut bufs: Vec<OsBufMut> = Vec::new();
    socket.pool.allocate(1472, 4, &mut bufs);
    for (i, buf) in bufs.iter_mut().enumerate() {
        for byte in buf.memory_mut().iter_mut() {
            *byte = i as u8;
        }
        buf.append(&vec![i as u8; 10 + i]);
    }
    let slots = [
        RecvSlot { msg_flags: MSG_TRUNC, msg_len: 1472, src: Some(v4(1)) },
        RecvSlot { msg_flags: 0, msg_len: 3, src: Some(v4(2)) },
        RecvSlot { msg_flags: 0, msg_len: 5, src: None },
        RecvSlot { msg_flags: 0, msg_len: 2, src: Some(v6(4)) },
    ];
    let mut meta = vec![RecvMeta::default(); 4];
    let lens: Vec<(u64, usize)> = bufs.iter().map(|b| (b.node.id, b.filled().len())).collect();
    assert_eq!(compact_received(&slots, &mut meta, &mut bufs), 2);
    // What was not handed on holds as many bytes as before.
    for buf in &bufs[2..] {
        assert!(lens.contains(&(buf.node.id, buf.filled().len())));
    }
    assert_eq!(meta[0].src, v4(2));
    assert_eq!((meta[0].len, meta[0].stride), (3, 3));
    assert_eq!((meta[0].ecn, meta[0].dst_ip), (None, None));
    assert_eq!(bufs[0].filled(), &[1, 1, 1]);
    assert_eq!(meta[1].src, v6(4));
    assert_eq!(bufs[1].filled(), &[3, 3]);
    // Every buffer is still there.
    let mut ids: Vec<u64> = bufs.iter().map(|b| b.node.id).collect();
    ids.sort();
    ids.dedup();
    assert_eq!(ids.len(), 4);
}

#[test]
fn traces_gather_the_first_bytes_of_all_segments() {
    let mut packet: ScatterGather<OsBuf> = ScatterGather::new();
    assert!(datagram_prefix(&packet).is_empty());
    packet.push(Segment { buf: OsBuf::from_slice(b"abcdef"), offset: 2, len: 3 });
    packet.push(Segment { buf: OsBuf::from_slice(b"xyz"), offset: 0, len: 2 });
    assert_eq!(datagram_prefix(&packet), b"cdexy");
    packet.push(Segment { buf: OsBuf::from_slice(&[7; 300]), offset: 0, len: 300 });
    packet.push(Segment { buf: OsBuf::from_slice(b"behind"), offset: 0, len: 6 });
    let prefix = datagram_prefix(&packet);
    assert_eq!(prefix.len(), TRACE_MAX);
    assert_eq!(&prefix[..6], b"cdexy\x07");
    assert!(prefix[5..].iter().all(|b| *b == 7));
}

#[test]
fn traces_show_the_first_bytes() {
    assert_eq!(hex_prefix(&[0x00, 0x1f, 0xab], 8), "00 1f ab");
    assert_eq!(hex_prefix(&[0x00, 0x1f, 0xab], 2), "00 1f \u{2026}");
    assert_eq!(hex_prefix(&[], 2), "");
    assert_eq!(hex_prefix(&[1], 0), " \u{2026}");
}

#[test]
fn a_socket_that_would_block_has_nothing() {
    assert_eq!(
        OsSocket::after_recv(RecvOutcome::Received { count: 3 }),
        RecvStep::Received { count: 3 }
    );
    assert_eq!(EAGAIN, libc::EAGAIN);
    assert_eq!(EAGAIN, libc::EWOULDBLOCK);
    assert_eq!(OsSocket::after_recv(RecvOutcome::Failed { errno: 11 }), RecvStep::Nothing);
    assert_eq!(
        OsSocket::after_recv(RecvOutcome::Failed { errno: 9 }),
        RecvStep::Fail { errno: 9 }
    );
}
