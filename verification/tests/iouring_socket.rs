//! The io_uring socket: completions, staged packets and send slots.

use quac::addr::{IpAddr, Ipv4Addr, Ipv6Addr, SocketAddr};
use quac::interface::{EcnCodepoint, PacketBufMut, RecvMeta, ScatterGather, Segment, Transmit};
use quac::iouring::buffers::{IoRxBufMut, IoRxBufMutRepr, IoTxBuf, IoTxPool};
use quac::iouring::socket::{
    ancillary_family, is_sendable, received_msg, sentinel, slot_ranges, socket_options, Completion,
    DrainResult, IoTransmit, IoUringConfig, IoUringSocket, ReceivedMsg, RecvMsgOut, EMSGSIZE, ENOBUFS, IPV6_RECVPKTINFO, IPV6_RECVTCLASS,
    IP_PKTINFO, IP_RECVTOS, MAX_RECV_ERROR_STREAK, MSG_CTRUNC, MSG_TRUNC, RECV_BUF_SIZE,
    RECV_CMSG_MAX, RECV_NAME_MAX, RECV_OUT_SIZE, RECV_PAYLOAD_OFF, RECV_TAG, SEND_TAG,
};
use quac::net::{IPV4_MAX_UDP_PAYLOAD, IPV6_MAX_UDP_PAYLOAD, MAX_BUF_SIZE};
use quac::os::socket::SocketOption;

const OWNER: u64 = 1;
const BUFFER: u32 = 1;
const MORE: u32 = 2;

fn v4(port: u16) -> SocketAddr {
    SocketAddr::new(IpAddr::V4(Ipv4Addr::new(127, 0, 0, 1)), port)
}

fn v6(port: u16) -> SocketAddr {
    SocketAddr::new(IpAddr::V6(Ipv6Addr { bits: 1 }), port)
}

fn socket(slots: usize, sends: usize) -> IoUringSocket {
    let config = IoUringConfig::builder().buf_ring_count(slots).send_pool_size(sends);
    assert!(config.is_valid());
    IoUringSocket::from_udp(Some(v4(0)), 0, &config.build(), OWNER)
}

fn message(len: u32, port: u16) -> ReceivedMsg {
    ReceivedMsg {
        payload_len: len,
        flags: 0,
        src: Some(v4(port)),
        dst_ip: Some(v4(0).ip),
        ecn: Some(EcnCodepoint::Ce),
    }
}

/// A packet in ring slot `bid`.
fn received(bid: u16, msg: ReceivedMsg) -> Completion {
    Completion {
        user_data: RECV_TAG,
        result: 300,
        flags: (bid as u32) << 16 | BUFFER | MORE,
        msg: Some(msg),
    }
}

fn sent(slot: usize, result: i32) -> Completion {
    Completion { user_data: SEND_TAG | slot as u64, result, flags: 0, msg: None }
}

fn empty_bufs(socket: &IoUringSocket, n: usize) -> Vec<IoRxBufMut> {
    let mut bufs = Vec::new();
    socket.rx_pool.allocate(0, n, &mut bufs);
    bufs
}

fn packet(socket: &mut IoUringSocket, data: &[u8]) -> IoTransmit {
    let mut bufs = Vec::new();
    socket.tx_pool.allocate(64, 1, &mut bufs);
    let mut buf = bufs.pop().unwrap();
    buf.append(data);
    let mut contents = ScatterGather::new();
    contents.push(Segment { buf: buf.freeze(), offset: 0, len: data.len() });
    Transmit::new(contents, v4(9))
}

#[test]
fn numbers_of_the_io_uring_kernel_interface() {
    assert_eq!(EMSGSIZE, libc::EMSGSIZE);
    assert_eq!(ENOBUFS, libc::ENOBUFS);
    assert_eq!(MSG_TRUNC as i32, libc::MSG_TRUNC);
    assert_eq!(MSG_CTRUNC as i32, libc::MSG_CTRUNC);
    assert_eq!(IP_RECVTOS, libc::IP_RECVTOS);
    assert_eq!(IP_PKTINFO, libc::IP_PKTINFO);
    assert_eq!(IPV6_RECVTCLASS, libc::IPV6_RECVTCLASS);
    assert_eq!(IPV6_RECVPKTINFO, libc::IPV6_RECVPKTINFO);
    assert_eq!(RECV_NAME_MAX, std::mem::size_of::<libc::sockaddr_storage>());
    assert_eq!(RECV_PAYLOAD_OFF, RECV_OUT_SIZE + RECV_NAME_MAX + RECV_CMSG_MAX);
    assert_eq!(RECV_BUF_SIZE, RECV_PAYLOAD_OFF + MAX_BUF_SIZE);
    // The bits that the completion queue uses.
    assert_eq!(io_uring::cqueue::buffer_select(0x0005_0001), Some(5));
    assert_eq!(io_uring::cqueue::buffer_select(0x0005_0002), None);
    assert!(io_uring::cqueue::more(2));
    assert!(!io_uring::cqueue::more(1));
}

#[test]
fn slot_headers_are_little_endian() {
    let mut slot = [0u8; 16];
    slot[0] = 16;
    slot[4] = 32;
    slot[8] = 0xdc;
    slot[9] = 0x05;
    slot[12] = 0x28;
    slot[15] = 0x01;
    let header = RecvMsgOut::parse(&slot);
    assert_eq!(header.namelen, 16);
    assert_eq!(header.controllen, 32);
    assert_eq!(header.payloadlen, 1500);
    assert_eq!(header.flags, 0x0100_0028);
}

#[test]
fn a_receive_slot_has_its_parts_at_fixed_places() {
    let mut slot = [0u8; RECV_BUF_SIZE];
    slot[0] = 16;
    slot[4] = 32;
    slot[8] = 3;
    slot[12] = 0x20;
    // 10.0.0.7:4433 as the kernel writes it.
    slot[16..24].copy_from_slice(&[2, 0, 0x11, 0x51, 10, 0, 0, 7]);
    let parts = slot_ranges(&slot);
    assert_eq!(parts.header.flags, 0x20);
    assert_eq!(parts.name, (16, 32));
    assert_eq!(parts.control, (144, 176));
    assert_eq!(parts.payload, (272, 275));
    let dst_ip = Some(IpAddr::V4(Ipv4Addr::new(10, 0, 0, 1)));
    let msg = received_msg(&slot, dst_ip, Some(EcnCodepoint::Ce));
    let src = SocketAddr::new(IpAddr::V4(Ipv4Addr::new(10, 0, 0, 7)), 4433);
    assert_eq!(
        msg,
        ReceivedMsg {
            payload_len: 3,
            flags: 0x20,
            src: Some(src),
            dst_ip,
            ecn: Some(EcnCodepoint::Ce)
        }
    );
    // Lengths beyond the room are cut, and an address that is not complete is none.
    slot[..12].copy_from_slice(&[0xff; 12]);
    let parts = slot_ranges(&slot);
    assert_eq!(parts.name, (16, 144));
    assert_eq!(parts.control, (144, 272));
    assert_eq!(parts.payload, (272, 2320));
    slot[..4].copy_from_slice(&[8, 0, 0, 0]);
    assert_eq!(received_msg(&slot, None, None).src, None);
    assert_eq!(received_msg(&slot, None, None).payload_len, u32::MAX);
}

#[test]
fn configurations_are_checked() {
    let config = IoUringConfig::default();
    assert_eq!(
        (config.ring_entries, config.buf_ring_count, config.send_pool_size, config.reuseport),
        (1024, 256, 128, false)
    );
    let builder = IoUringConfig::builder();
    assert!(builder.is_valid());
    assert!(!builder.ring_entries(0).is_valid());
    assert!(!builder.ring_entries(1000).is_valid());
    assert!(!builder.buf_ring_count(0).is_valid());
    assert!(!builder.buf_ring_count(65536).is_valid());
    assert!(!builder.buf_ring_count(100).is_valid());
    assert!(builder.buf_ring_count(32768).is_valid());
    assert!(!builder.send_pool_size(0).is_valid());
    let built = builder.ring_entries(64).reuseport(true).build();
    assert_eq!((built.ring_entries, built.reuseport), (64, true));
}

#[test]
fn set_queue_id_round_trips() {
    let mut socket = socket(4, 2);
    assert_eq!(socket.queue_id(), 0);
    socket.set_queue_id(7);
    assert_eq!(socket.queue_id(), 7);
}

#[test]
fn payload_limits_and_options_follow_the_family() {
    let config = IoUringConfig::default();
    let four = IoUringSocket::from_udp(Some(v4(0)), 0, &config, OWNER);
    assert_eq!(four.rx_pool.max_payload_size(), IPV4_MAX_UDP_PAYLOAD);
    assert_eq!(four.tx_pool.max_payload_size(), IPV4_MAX_UDP_PAYLOAD);
    let six = IoUringSocket::from_udp(Some(v6(0)), 0, &config, OWNER);
    assert_eq!(six.rx_pool.max_payload_size(), IPV6_MAX_UDP_PAYLOAD);
    let options = socket_options(IPV4_MAX_UDP_PAYLOAD);
    assert_eq!(
        options,
        vec![
            (SocketOption { level: 0, name: 10, value: 2 }, true),
            (SocketOption { level: 0, name: 13, value: 1 }, true),
            (SocketOption { level: 0, name: 8, value: 1 }, true),
        ]
    );
    let options = socket_options(IPV6_MAX_UDP_PAYLOAD);
    assert_eq!(options.len(), 4);
    assert_eq!(options[0], (SocketOption { level: 41, name: 23, value: 2 }, true));
    assert_eq!(options[3], (SocketOption { level: 0, name: 13, value: 1 }, false));
}

#[test]
fn packets_come_in_order_and_the_surplus_is_staged() {
    let mut socket = socket(8, 2);
    socket.submit_recv_multishot();
    let completions: Vec<Completion> =
        (0..4u16).map(|i| received(i, message(10 + i as u32, i))).collect();
    let mut meta = vec![RecvMeta::default(); 3];
    let mut bufs = empty_bufs(&socket, 3);
    let result = socket.drain_batch(&completions, &mut meta, &mut bufs, 0);
    assert_eq!(result.valid, 3);
    assert_eq!(result.publish_tail, None);
    assert_eq!(result.drained, DrainResult::default());
    assert_eq!(socket.pending_recvs.len(), 1);
    assert_eq!(meta[1].src, v4(1));
    assert_eq!(meta[1].len, 11);
    assert_eq!(meta[1].ecn, Some(EcnCodepoint::Ce));
    assert_eq!(meta[1].dst_ip, Some(v4(0).ip));
    assert_eq!(bufs[2].repr, IoRxBufMutRepr::Ring { bid: 2, len: 12, cap: 1472 });

    // The staged one comes first, and the slot that it replaces goes back to the ring.
    let mut later = vec![RecvMeta::default(); 2];
    let valid = socket.recv_staged(&mut later, &mut bufs);
    assert_eq!(valid, 1);
    assert_eq!(later[0].len, 13);
    assert_eq!(bufs[0].bid(), Some(3));
    let more = vec![received(4, message(20, 4))];
    let result = socket.drain_batch(&more, &mut later, &mut bufs, valid);
    assert_eq!(result.valid, 2);
    assert_eq!(later[1].len, 20);
    // Slots 0 and 1 went back.
    assert_eq!(result.publish_tail, Some(10));
    assert_eq!((socket.buf_ring.entry(0), socket.buf_ring.entry(1)), (0, 1));
    assert!(socket.recv_armed);
}

#[test]
fn oversize_and_cut_packets_are_dropped() {
    let mut socket = socket(8, 2);
    socket.submit_recv_multishot();
    let mut cut = message(100, 1);
    cut.flags = MSG_TRUNC;
    let mut unknown = message(100, 1);
    unknown.src = None;
    let mut control_cut = message(100, 2);
    control_cut.flags = MSG_CTRUNC;
    let completions = vec![
        received(0, message(1473, 1)),
        received(1, cut),
        received(2, unknown),
        received(3, message(1472, 1)),
        received(4, control_cut),
    ];
    let mut meta = vec![RecvMeta::default(); 8];
    let mut bufs = empty_bufs(&socket, 8);
    let result = socket.drain_batch(&completions, &mut meta, &mut bufs, 0);
    assert_eq!(result.valid, 2);
    assert_eq!(meta[0].len, 1472);
    assert_eq!(bufs[0].bid(), Some(3));
    // Control data that was cut short is not believed.
    assert_eq!((meta[1].ecn, meta[1].dst_ip), (None, None));
    // The three dropped slots are back in the ring.
    assert_eq!(result.publish_tail, Some(11));
    let back: Vec<u16> = (0..3).map(|i| socket.buf_ring.entry(i)).collect();
    assert_eq!(back, vec![0, 1, 2]);
}

#[test]
fn a_disarmed_receive_is_armed_again_unless_it_keeps_failing() {
    let mut socket = socket(2, 2);
    assert!(socket.should_rearm(false));
    assert!(!socket.should_rearm(true));
    socket.submit_recv_multishot();
    assert!(socket.flush_sqes());
    assert!(!socket.flush_sqes());
    assert!(!socket.should_rearm(false));
    let mut meta = Vec::new();
    let mut bufs = Vec::new();
    // Out of slots: disarmed, but no error of the socket.
    let starved = vec![Completion { user_data: RECV_TAG, result: -ENOBUFS, flags: 0, msg: None }];
    socket.drain_batch(&starved, &mut meta, &mut bufs, 0);
    assert!(!socket.recv_armed);
    assert_eq!(socket.recv_error_streak, 0);
    assert!(socket.should_rearm(false));
    let failed = vec![Completion { user_data: RECV_TAG, result: -22, flags: 0, msg: None }];
    for i in 0..MAX_RECV_ERROR_STREAK {
        assert_eq!(socket.recv_error_streak, i);
        socket.drain_batch(&failed, &mut meta, &mut bufs, 0);
    }
    assert!(!socket.should_rearm(false));
    // A packet ends the streak; with every slot staged there is nothing to arm for.
    let packets = vec![received(0, message(1, 1)), received(1, message(1, 1))];
    socket.drain_batch(&packets, &mut meta, &mut bufs, 0);
    assert_eq!(socket.recv_error_streak, 0);
    assert_eq!(socket.pending_recvs.len(), 2);
    assert!(!socket.should_rearm(false));
}

#[test]
fn sends_take_slots_until_there_are_none() {
    let mut socket = socket(4, 3);
    let mut transmits = Vec::new();
    for i in 0..5u8 {
        let t = packet(&mut socket, &[i; 4]);
        transmits.push(t);
    }
    assert_eq!(socket.send_limit(5, 2), 2);
    let taken = socket.send(&mut transmits, 2);
    assert_eq!(taken, vec![2, 1]);
    assert_eq!(transmits.len(), 5);
    assert_eq!(transmits[0].contents.segment_count(), 0);
    assert_eq!(transmits[2].contents.segment_count(), 1);
    transmits.drain(..2);
    assert_eq!(socket.send(&mut transmits, 100), vec![0]);
    transmits.drain(..1);
    // All slots are in flight: the rest stays.
    assert!(socket.send(&mut transmits, 100).is_empty());
    assert_eq!(transmits.len(), 2);
    assert_eq!(socket.wait_count(), 3);

    let completions = vec![sent(1, 4), sent(2, -EMSGSIZE), sent(0, -1)];
    let mut meta = Vec::new();
    let mut bufs = Vec::new();
    let result = socket.drain_batch(&completions, &mut meta, &mut bufs, 0);
    assert_eq!(result.drained, DrainResult { completed: 1, emsgsize: 1, errors: 1 });
    assert_eq!(socket.send_free, vec![1, 2, 0]);
    assert_eq!(socket.wait_count(), 0);
    assert!(socket.send_slots.iter().all(|s| s.is_none()));
}

#[test]
fn memories_of_other_pools_are_put_aside() {
    let mut socket = socket(4, 2);
    let mut other = IoTxPool::new(OWNER);
    other.set_name(1);
    let mut transmits = vec![packet(&mut socket, b"own")];
    let mut bufs = Vec::new();
    other.allocate(64, 1, &mut bufs);
    let mut contents = ScatterGather::new();
    contents.push(Segment { buf: bufs.pop().unwrap().freeze(), offset: 0, len: 0 });
    transmits.push(Transmit::new(contents, v4(1)));
    let taken = socket.send(&mut transmits, 8);
    let free = socket.tx_pool.available();
    let completions = taken.iter().map(|i| sent(*i, 0)).collect();
    socket.drain_batch(&completions, &mut Vec::new(), &mut Vec::new(), 0);
    assert_eq!(socket.tx_pool.available(), free + 1);
    assert_eq!(socket.strays.len(), 1);
    for stray in socket.strays {
        assert!(other.reclaim(stray, OWNER).is_none());
    }
    assert_eq!(other.available(), 1);
}

#[test]
fn closing_waits_for_what_is_in_flight() {
    let mut socket = socket(4, 2);
    socket.submit_recv_multishot();
    let mut transmits = vec![packet(&mut socket, b"last words")];
    socket.send(&mut transmits, 8);
    assert_eq!(socket.wait_count(), 3);
    let ended = Completion { user_data: RECV_TAG, result: -125, flags: 0, msg: None };
    socket.retire(&vec![ended, sent(1, 10)]);
    assert_eq!(socket.wait_count(), 0);
}

#[test]
fn ancillary_data_only_where_it_is_asked_for() {
    let plain: IoTransmit = Transmit::new(ScatterGather::new(), v4(1));
    assert_eq!(ancillary_family(&plain), None);
    let mut ecn: IoTransmit = Transmit::new(ScatterGather::new(), v4(1));
    ecn.ecn = Some(EcnCodepoint::Ect0);
    assert_eq!(ancillary_family(&ecn), Some(libc::AF_INET as u8));
    let mut source: IoTransmit = Transmit::new(ScatterGather::new(), v6(1));
    source.src_ip = Some(v6(0).ip);
    assert_eq!(ancillary_family(&source), Some(libc::AF_INET6 as u8));
    let empty = sentinel();
    assert_eq!(empty.contents.segment_count(), 0);
    assert_eq!(empty.destination.port, 0);
    assert!(!IoTxBuf::from_slice(b"loose").pooled);
}

#[test]
fn the_tag_of_a_send_names_its_slot() {
    for idx in [0u64, 1, 127, 0x7fff_ffff_ffff_ffff] {
        let tag = SEND_TAG | idx;
        assert_ne!(tag & SEND_TAG, 0);
        assert_eq!(tag & !SEND_TAG, idx);
    }
    assert_eq!(RECV_TAG & SEND_TAG, 0);
}

#[test]
fn receive_buffers_read_and_write_their_slot() {
    let mut area = [0u8; 16];
    area[..4].copy_from_slice(b"data");
    let mut buf = IoRxBufMut::from_ring_slot(4, 8, 6);
    assert_eq!(buf.filled(&area), b"data");
    buf.filled_mut(&mut area)[0] = b'D';
    buf.uninit_mut(&mut area).copy_from_slice(b"gram");
    buf.set_filled(8);
    assert_eq!(buf.filled(&area), b"Datagram");
    assert_eq!(buf.freeze().as_ref(&area), b"Datagram");
    let empty = IoRxBufMut { repr: IoRxBufMutRepr::Empty };
    assert_eq!(empty.filled(&area), b"");
    assert!(empty.uninit_mut(&mut area).is_empty());
}

#[test]
fn few_segments_without_offload_can_be_sent() {
    let of = |segments: usize| {
        let mut contents = ScatterGather::new();
        for _ in 0..segments {
            contents.push(Segment { buf: IoTxBuf::from_slice(b"x"), offset: 0, len: 1 });
        }
        Transmit::new(contents, v4(9))
    };
    assert!(is_sendable(&of(0)));
    assert!(is_sendable(&of(8)));
    assert!(!is_sendable(&of(9)));
    let mut offloaded = of(1);
    offloaded.segment_size = Some(1200);
    assert!(!is_sendable(&offloaded));
}
