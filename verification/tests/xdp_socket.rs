//! The AF_XDP socket: set-up, sending, receiving and its frames.

use quac::addr::{IpAddr, Ipv4Addr, Ipv6Addr, SocketAddr};
use quac::interface::{RecvMeta, ScatterGather, Segment, Transmit};
use quac::tile::network::retire_sent;
use quac::xdp::buffers::{XdpRxBufMut, XdpRxBufMutRepr, HEADROOM};
use quac::xdp::packet::{
    parse_ipv4_udp, write_eth_header, write_ip_header_for_udp, write_udp_header,
};
use quac::xdp::program::AttachMode;
use quac::xdp::raw_socket::{
    MmapOffsets, RawXdpSocket, RingSizes, SetupAction, SetupEvent, SetupStep, XdpMode, XdpSetup,
    EAGAIN, EBUSY, XDP_COPY, XDP_PGOFF_RX_RING, XDP_PGOFF_TX_RING, XDP_RX_RING, XDP_TX_RING,
    XDP_UMEM_COMPLETION_RING, XDP_UMEM_FILL_RING, XDP_UMEM_PGOFF_COMPLETION_RING,
    XDP_UMEM_PGOFF_FILL_RING, XDP_USE_NEED_WAKEUP, XDP_ZEROCOPY,
};
use quac::xdp::ring::{RingConsumer, RingOffsets, RingProducer, XdpDesc};
use quac::xdp::socket::{
    payload_capacity, sentinel_transmit, split_frames, NextHop, OpenStep, XdpConfig, XdpSocket,
    XdpTransmit,
};
use quac::xdp::umem::Umem;

const OWNER: u64 = 1;
const OTHER: u64 = 2;
const FRAME: u32 = 2048;
const MAC: [u8; 6] = [2, 0, 0, 0, 0, 1];
const PEER_MAC: [u8; 6] = [2, 0, 0, 0, 0, 2];

fn ip(last: u8) -> Ipv4Addr {
    Ipv4Addr::new(10, 0, 0, last)
}

fn addr(last: u8, port: u16) -> SocketAddr {
    SocketAddr::new(IpAddr::V4(ip(last)), port)
}

const EMPTY: XdpDesc = XdpDesc { addr: 0, len: 0, options: 0 };

fn open(bound: SocketAddr) -> XdpSocket {
    open_with_frames(bound, FRAME)
}

fn open_with_frames(bound: SocketAddr, frame_size: u32) -> XdpSocket {
    let sizes = RingSizes { fill: 8, completion: 8, rx: 8, tx: 4 };
    let raw = RawXdpSocket {
        if_index: 3,
        queue_id: 0,
        sizes,
        mode: XdpMode::Copy,
        fill_prod: RingProducer::new(0, 0, 8),
        comp_cons: RingConsumer::new(0, 0),
        rx_cons: RingConsumer::new(0, 0),
        tx_prod: RingProducer::new(0, 0, 4),
    };
    let umem = Umem::new(frame_size, 16, 4096, false).expect("UMEM alloc");
    let (_, tx_frames) = split_frames(&umem);
    XdpSocket::new(raw, umem, tx_frames, MAC, bound, 7, 99, OWNER)
}

fn hop() -> Option<NextHop> {
    Some(NextHop { mac_addr: Some(PEER_MAC), preferred_src_ip: Some(ip(9)) })
}

fn packet(socket: &mut XdpSocket, data: &[u8], to: SocketAddr) -> XdpTransmit {
    let mut bufs = Vec::new();
    socket.tx_pool.allocate(0, 1, &mut bufs);
    let mut buf = bufs.pop().expect("a free frame");
    buf.append(&mut socket.umem, data);
    let mut contents = ScatterGather::new();
    contents.push(Segment { buf: buf.freeze(), offset: 0, len: data.len() });
    Transmit::new(contents, to)
}

#[test]
fn frames_are_split_in_half() {
    let umem = Umem::new(FRAME, 16, 4096, false).expect("UMEM alloc");
    let (rx, tx) = split_frames(&umem);
    assert_eq!(rx, (0..8).map(|i| i * 2048).collect::<Vec<u64>>());
    assert_eq!(tx, (8..16).map(|i| i * 2048).collect::<Vec<u64>>());
    assert_eq!(payload_capacity(FRAME), 2006);
}

#[test]
fn a_sent_packet_can_be_read_from_its_frame() {
    let mut socket = open(addr(1, 4433));
    let mut transmits = vec![packet(&mut socket, b"hello xdp", addr(2, 5000))];
    let frame_addr = transmits[0].contents.segment(0).0.frame_addr;
    let mut slots = [EMPTY; 4];
    assert_eq!(socket.send(&mut transmits, &[hop()], 0, &mut slots), (1, Some(1)));
    assert_eq!(slots[0].addr, frame_addr);
    assert_eq!(slots[0].len, 42 + 9);
    let frame = socket.umem.slice_at(frame_addr, slots[0].len as usize);
    assert_eq!(&frame[..12], &[2, 0, 0, 0, 0, 2, 2, 0, 0, 0, 0, 1]);
    let (meta, offset, len) = parse_ipv4_udp(frame).expect("a UDP frame");
    assert_eq!(meta.src, addr(1, 4433));
    assert_eq!(meta.dst_ip, Some(IpAddr::V4(ip(2))));
    assert_eq!(&frame[offset as usize..(offset + len) as usize], b"hello xdp");
    // An empty packet stands in its place.
    assert_eq!(transmits.len(), 1);
    assert_eq!(transmits[0].contents.segment_count(), 0);
    assert_eq!(sentinel_transmit().contents.segment_count(), 0);
    // The kernel is done: the frame can be used again.
    assert_eq!(socket.tx_pool.available(), 7);
    let done = [frame_addr, 0, 0, 0, 0, 0, 0, 0];
    assert_eq!(socket.drain_completions(1, &done), (1, Some(1)));
    assert_eq!(socket.tx_pool.available(), 8);
    assert_eq!(socket.drain_completions(1, &done), (0, None));
    assert_eq!(socket.local_addr(), addr(1, 4433));
    assert_eq!(socket.queue_id(), 7);
}

#[test]
fn the_largest_payload_fills_the_length_fields() {
    let mut socket = open_with_frames(addr(1, 4433), 131072);
    let payload = vec![7u8; 65507];
    let mut transmits = vec![packet(&mut socket, &payload, addr(2, 5000))];
    let mut slots = [EMPTY; 4];
    assert_eq!(socket.send(&mut transmits, &[hop()], 0, &mut slots), (1, Some(1)));
    assert_eq!(slots[0].len, 42 + 65507);
    let frame = socket.umem.slice_at(slots[0].addr, slots[0].len as usize);
    assert_eq!(&frame[16..18], &[0xff, 0xff]);
    assert_eq!(&frame[38..40], &[0xff, 0xeb]);
    let (meta, offset, len) = parse_ipv4_udp(frame).expect("a UDP frame");
    assert_eq!(meta.len, 65507);
    assert_eq!(&frame[offset as usize..(offset + len) as usize], &payload[..]);
}

#[test]
fn packets_that_cannot_be_sent_are_consumed_or_kept() {
    let mut socket = open(addr(1, 4433));
    let v6 = SocketAddr::new(IpAddr::V6(Ipv6Addr { bits: 1 }), 1);
    let to_v6 = packet(&mut socket, b"v6", v6);
    assert!(socket.plan_send(&to_v6, &hop()).is_none());
    let fine = packet(&mut socket, b"fine", addr(2, 1));
    assert!(socket.plan_send(&fine, &None).is_none());
    let unknown = Some(NextHop { mac_addr: None, preferred_src_ip: None });
    assert!(socket.plan_send(&fine, &unknown).is_none());
    assert!(socket.plan_send(&fine, &hop()).is_some());
    let mut from_v6 = packet(&mut socket, b"from", addr(2, 1));
    from_v6.src_ip = Some(v6.ip);
    assert!(socket.plan_send(&from_v6, &hop()).is_none());
    assert!(socket.plan_send(&sentinel_transmit(), &hop()).is_none());
    let mut bufs = Vec::new();
    socket.tx_pool.allocate(0, 1, &mut bufs);
    let mut contents = ScatterGather::new();
    contents.push(Segment { buf: bufs.pop().unwrap().freeze(), offset: 1, len: 0 });
    let shifted = Transmit::new(contents, addr(2, 1));
    assert!(socket.plan_send(&shifted, &hop()).is_none());
    // A packet to an IPv6 address is consumed, and nothing is sent of it.
    let mut slots = [EMPTY; 4];
    let mut transmits = vec![to_v6];
    assert_eq!(socket.send(&mut transmits, &[hop()], 0, &mut slots), (1, None));
    assert_eq!(slots[0], EMPTY);
    transmits.push(fine);
    assert_eq!(socket.send(&mut transmits, &[hop(), hop()], 0, &mut slots), (2, Some(1)));
    assert_eq!(slots[0].len, 42 + 4);
    assert_eq!(slots[1], EMPTY);
    // Without a route a packet stays for a later attempt.
    let mut transmits = vec![from_v6, shifted];
    assert_eq!(socket.send(&mut transmits, &[None, None], 0, &mut slots), (0, None));
    assert_eq!(transmits[0].contents.segment_count(), 1);
}

#[test]
fn consumed_packets_move_to_the_front() {
    let mut socket = open(addr(1, 4433));
    let v6 = SocketAddr::new(IpAddr::V6(Ipv6Addr { bits: 1 }), 1);
    let mut slots = [EMPTY; 4];
    // The IPv6 packet is the one consumed; the one without a route is kept.
    let mut transmits =
        vec![packet(&mut socket, b"kept", addr(2, 1)), packet(&mut socket, b"v6", v6)];
    let frames: Vec<u64> =
        transmits.iter().map(|t| t.contents.segment(0).0.frame_addr).collect();
    assert_eq!(socket.send(&mut transmits, &[None, None], 0, &mut slots), (1, None));
    let gone = retire_sent(&mut transmits, Some(1));
    assert_eq!(gone[0].contents.segment(0).0.frame_addr, frames[1]);
    assert_eq!(transmits[0].contents.segment(0).0.frame_addr, frames[0]);
    assert_eq!(socket.tx_pool.available(), 6);
    for transmit in gone {
        for buf in transmit.contents.into_bufs() {
            socket.tx_pool.reclaim_frame(buf.frame_addr, OWNER);
        }
    }
    assert_eq!(socket.tx_pool.available(), 7);

    // Sent packets come first as well, and the others keep their order.
    transmits.push(packet(&mut socket, b"sent", addr(2, 2)));
    transmits.push(packet(&mut socket, b"also kept", addr(2, 3)));
    transmits.push(packet(&mut socket, b"also sent", addr(2, 4)));
    let hops = [None, hop(), None, hop()];
    assert_eq!(socket.send(&mut transmits, &hops, 0, &mut slots), (2, Some(2)));
    assert_eq!((slots[0].len, slots[1].len), (42 + 4, 42 + 9));
    let gone = retire_sent(&mut transmits, Some(2));
    assert!(gone.iter().all(|t| t.contents.segment_count() == 0));
    let ports: Vec<u16> = transmits.iter().map(|t| t.destination.port).collect();
    assert_eq!(ports, vec![1, 3]);
}

#[test]
fn the_source_address_is_the_callers_or_the_sockets_or_the_routes() {
    let mut socket = open(addr(1, 4433));
    let mut t = packet(&mut socket, b"x", addr(2, 1));
    assert_eq!(socket.plan_send(&t, &hop()).unwrap().src, ip(1));
    t.src_ip = Some(IpAddr::V4(ip(5)));
    assert_eq!(socket.plan_send(&t, &hop()).unwrap().src, ip(5));
    let mut any = open(SocketAddr::new(IpAddr::V4(Ipv4Addr::new(0, 0, 0, 0)), 4433));
    let t = packet(&mut any, b"x", addr(2, 1));
    assert_eq!(any.plan_send(&t, &hop()).unwrap().src, ip(9));
    let bare = Some(NextHop { mac_addr: Some(PEER_MAC), preferred_src_ip: None });
    assert_eq!(any.plan_send(&t, &bare).unwrap().src, Ipv4Addr::new(0, 0, 0, 0));
}

#[test]
fn a_full_ring_leaves_the_rest() {
    let mut socket = open(addr(1, 4433));
    let mut transmits = Vec::new();
    let mut hops = Vec::new();
    for _ in 0..6 {
        let t = packet(&mut socket, b"x", addr(2, 1));
        transmits.push(t);
        hops.push(hop());
    }
    let mut slots = [EMPTY; 4];
    assert_eq!(socket.send(&mut transmits, &hops, 0, &mut slots), (4, Some(4)));
    assert_eq!(transmits[3].contents.segment_count(), 0);
    assert_eq!(transmits[4].contents.segment_count(), 1);
    transmits.drain(..4);
    hops.truncate(2);
    assert_eq!(socket.send(&mut transmits, &hops, 0, &mut slots), (0, None));
    assert_eq!(socket.send(&mut transmits, &hops, 2, &mut slots), (2, Some(6)));
}

/// Writes a frame as a peer would.
fn arrive(socket: &mut XdpSocket, at: u64, payload: &[u8]) -> XdpDesc {
    let mut frame = Vec::new();
    let len = payload.len() as u16;
    write_eth_header(&mut frame, &PEER_MAC, &MAC);
    write_ip_header_for_udp(&mut frame, &ip(2), &ip(1), 8 + len);
    write_udp_header(&mut frame, 6000, 4433, len);
    frame.extend_from_slice(payload);
    socket.umem.write_at(at, &frame);
    XdpDesc { addr: at, len: frame.len() as u32, options: 0 }
}

#[test]
fn received_frames_come_up_and_go_back_to_fill() {
    let mut socket = open(addr(1, 4433));
    let mut rx = [EMPTY; 8];
    rx[0] = arrive(&mut socket, 0, b"first");
    rx[1] = XdpDesc { addr: 2048, len: 20, options: 0 };
    rx[2] = arrive(&mut socket, 4096, b"second");
    let mut fill = [0u64; 8];
    let mut meta = vec![RecvMeta::default(); 4];
    let mut bufs = Vec::new();
    socket.rx_pool.allocate(0, 4, &mut bufs);
    let result = socket.recv(0, &mut fill, 3, &rx, &mut meta, &mut bufs);
    assert_eq!(result.received, 2);
    assert_eq!(result.publish_rx, Some(3));
    assert_eq!(result.publish_fill, None);
    assert_eq!(meta[0].src, addr(2, 6000));
    assert_eq!(meta[1].len, 6);
    assert_eq!(bufs[0].filled(&socket.umem), b"first");
    assert_eq!(bufs[1].filled(&socket.umem), b"second");
    assert_eq!(bufs[1].frame_addr(), Some(4096));
    assert_eq!(bufs[1].capacity(), 2006);
    assert!(matches!(bufs[2].repr, XdpRxBufMutRepr::Empty));
    // The frame without a packet is given back at the next call, with what other threads
    // gave back.
    socket.reclaimer.give_back(0, OTHER);
    let result = socket.recv(0, &mut fill, 3, &rx, &mut meta, &mut bufs);
    assert_eq!(result.received, 0);
    assert_eq!(result.publish_rx, None);
    assert_eq!(result.publish_fill, Some(2));
    assert_eq!(&fill[..2], &[2048, 0]);
}

#[test]
fn a_packet_replaces_the_buffer_of_an_earlier_one() {
    let mut socket = open(addr(1, 4433));
    let mut rx = [EMPTY; 8];
    rx[0] = arrive(&mut socket, 2048, b"new");
    let mut fill = [0u64; 8];
    let mut meta = vec![RecvMeta::default()];
    let mut bufs = vec![XdpRxBufMut::from_ring_frame(4096, HEADROOM, 3, 2006)];
    let result = socket.recv(0, &mut fill, 1, &rx, &mut meta, &mut bufs);
    assert_eq!(result.received, 1);
    assert_eq!(bufs[0].frame_addr(), Some(2048));
    assert_eq!(socket.reclaimer.pending, vec![4096]);
    assert_eq!(socket.replenish_fill(0, &mut fill), Some(1));
    assert_eq!(fill[0], 4096);
    assert_eq!(socket.replenish_fill(0, &mut fill), None);
}

#[test]
fn fill_takes_what_it_has_room_for() {
    let mut socket = open(addr(1, 4433));
    for i in 0..10u64 {
        socket.reclaimer.give_back(i * 2048, OWNER);
    }
    let mut fill = [0u64; 8];
    assert_eq!(socket.replenish_fill(0, &mut fill), Some(8));
    assert_eq!(socket.reclaimer.pending, vec![8 * 2048, 9 * 2048]);
    // The kernel took three: the rest fits.
    assert_eq!(socket.replenish_fill(3, &mut fill), Some(10));
    assert_eq!(&fill[..3], &[8 * 2048, 9 * 2048, 2 * 2048]);
}

#[test]
fn tx_buffers_are_written_in_place() {
    let mut socket = open(addr(1, 4433));
    let mut bufs = Vec::new();
    socket.tx_pool.allocate(0, 1, &mut bufs);
    let mut buf = bufs.pop().unwrap();
    assert_eq!(buf.uninit_mut(&mut socket.umem).len(), 2006);
    buf.uninit_mut(&mut socket.umem)[..5].copy_from_slice(b"hello");
    buf.set_filled(5);
    buf.filled_mut(&mut socket.umem)[0] = b'H';
    assert_eq!(buf.filled(&socket.umem), b"Hello");
    assert_eq!(buf.capacity(), 2006);
    let mut rx = XdpRxBufMut::from_ring_frame(0, HEADROOM, 2, 4);
    rx.filled_mut(&mut socket.umem).copy_from_slice(b"ab");
    rx.uninit_mut(&mut socket.umem).copy_from_slice(b"cd");
    rx.set_filled(4);
    assert_eq!(rx.filled(&socket.umem), b"abcd");
    assert_eq!(rx.freeze().as_ref(&socket.umem), b"abcd");
}

fn offsets(base: u64) -> RingOffsets {
    RingOffsets { producer: base, consumer: base + 64, desc: base + 192, flags: base + 128 }
}

#[test]
fn a_socket_is_set_up_step_by_step() {
    let sizes = RingSizes { fill: 4, completion: 8, rx: 16, tx: 32 };
    let mut setup = XdpSetup::new(3, 5, 32768, 2048, sizes, XdpMode::ZeroCopy);
    let mut sized = Vec::new();
    let mut mapped = Vec::new();
    let mut slots = [0u64; 4];
    let frames = [0u64, 2048, 4096];
    let mut bound = None;
    loop {
        match setup.action() {
            SetupAction::OpenSocket => setup.advance(SetupEvent::Done),
            SetupAction::RegisterUmem { len, chunk_size, headroom } => {
                assert_eq!((len, chunk_size, headroom), (32768, 2048, 0));
                setup.advance(SetupEvent::Done);
            }
            SetupAction::SetRingSize { option, size } => {
                sized.push((option, size));
                setup.advance(SetupEvent::Done);
            }
            SetupAction::QueryOffsets => setup.advance(SetupEvent::Offsets(MmapOffsets {
                fill: offsets(0),
                completion: offsets(1000),
                rx: offsets(2000),
                tx: offsets(3000),
            })),
            SetupAction::MapRing { layout, page_offset } => {
                mapped.push((page_offset, layout.mmap_len, layout.desc));
                setup.advance(SetupEvent::Mapped { producer: 0, consumer: 0 });
            }
            SetupAction::PreFill => {
                assert_eq!(setup.pre_fill(&mut slots, &frames), Some(3));
            }
            SetupAction::Bind { flags, if_index, queue_id } => {
                bound = Some((flags, if_index, queue_id));
                setup.advance(SetupEvent::Done);
            }
            SetupAction::Finish => break,
            SetupAction::GiveUp { .. } => panic!("nothing failed"),
        }
    }
    assert_eq!(
        sized,
        vec![
            (XDP_UMEM_COMPLETION_RING, 8),
            (XDP_UMEM_FILL_RING, 4),
            (XDP_TX_RING, 32),
            (XDP_RX_RING, 16),
        ]
    );
    assert_eq!(
        mapped,
        vec![
            (XDP_UMEM_PGOFF_FILL_RING, 192 + 4 * 8, 192),
            (XDP_UMEM_PGOFF_COMPLETION_RING, 1192 + 8 * 8, 1192),
            (XDP_PGOFF_RX_RING, 2192 + 16 * 16, 2192),
            (XDP_PGOFF_TX_RING, 3192 + 32 * 16, 3192),
        ]
    );
    assert_eq!(bound, Some((XDP_ZEROCOPY | XDP_USE_NEED_WAKEUP, 3, 5)));
    assert_eq!(&slots[..3], &frames);
    let mut raw = setup.finish();
    assert_eq!((raw.if_index, raw.queue_id), (3, 5));
    assert_eq!(raw.sizes().tx, 32);
    assert_eq!(raw.tx_available(0), 32);
}

#[test]
fn a_failed_step_ends_the_set_up() {
    let sizes = RingSizes::default();
    let mut setup = XdpSetup::new(3, 5, 32768, 2048, sizes, XdpMode::Copy);
    setup.advance(SetupEvent::Done);
    setup.advance(SetupEvent::Failed { errno: 1 });
    assert_eq!(setup.step, SetupStep::Failed);
    assert!(matches!(setup.action(), SetupAction::GiveUp { errno: 1 }));
    assert_eq!(sizes.fill, 2048);
    assert_eq!((XdpMode::Copy.flag(), XDP_COPY), (2, 2));
}

#[test]
fn rings_drain_and_queue_descriptors() {
    let mut socket = open(addr(1, 1));
    let raw = &mut socket.raw;
    let mut out = vec![9u64];
    let slots = [1u64, 2, 3, 4, 5, 6, 7, 8];
    assert_eq!(raw.drain_completion(3, &slots, &mut out, 2), (2, Some(2)));
    assert_eq!(out, vec![9, 1, 2]);
    assert_eq!(raw.drain_completion(3, &slots, &mut out, 8), (1, Some(3)));
    assert_eq!(raw.drain_completion(3, &slots, &mut out, 8), (0, None));
    let mut tx = [EMPTY; 4];
    assert_eq!(raw.tx_available(0), 4);
    for i in 0..4u64 {
        assert!(raw.enqueue_tx(&mut tx, XdpDesc { addr: i, len: 1, options: 0 }));
    }
    assert!(!raw.enqueue_tx(&mut tx, EMPTY));
    assert_eq!(raw.commit_tx(), 4);
    assert_eq!(tx[3].addr, 3);
    assert!(raw.tx_needs_wakeup(1) && !raw.tx_needs_wakeup(2) && raw.fill_needs_wakeup(3));
    assert_eq!(raw.wake_tx(EAGAIN), Ok(()));
    assert_eq!(raw.wake_tx(EBUSY), Ok(()));
    assert_eq!(raw.wake_tx(105), Err(105));
    assert_eq!((EAGAIN, EBUSY), (libc::EAGAIN, libc::EBUSY));
}

#[test]
fn numbers_of_the_xdp_kernel_interface() {
    assert_eq!(XDP_COPY, libc::XDP_COPY);
    assert_eq!(XDP_ZEROCOPY, libc::XDP_ZEROCOPY);
    assert_eq!(XDP_USE_NEED_WAKEUP, libc::XDP_USE_NEED_WAKEUP);
    assert_eq!(XDP_RX_RING, libc::XDP_RX_RING);
    assert_eq!(XDP_TX_RING, libc::XDP_TX_RING);
    assert_eq!(XDP_UMEM_FILL_RING, libc::XDP_UMEM_FILL_RING);
    assert_eq!(XDP_UMEM_COMPLETION_RING, libc::XDP_UMEM_COMPLETION_RING);
    assert_eq!(XDP_PGOFF_RX_RING, libc::XDP_PGOFF_RX_RING as u64);
    assert_eq!(XDP_PGOFF_TX_RING, libc::XDP_PGOFF_TX_RING as u64);
    assert_eq!(XDP_UMEM_PGOFF_FILL_RING, libc::XDP_UMEM_PGOFF_FILL_RING as u64);
    assert_eq!(XDP_UMEM_PGOFF_COMPLETION_RING, libc::XDP_UMEM_PGOFF_COMPLETION_RING as u64);
}

#[test]
fn xdp_configurations_are_checked() {
    let config = XdpConfig::default();
    assert!(config.program_bytes.is_none());
    let builder = XdpConfig::builder;
    assert!(builder().is_valid());
    assert!(!builder().frame_count(0).is_valid());
    assert!(!builder().frame_count(3000).is_valid());
    assert!(builder().frame_size(42).is_valid());
    assert!(!builder().frame_size(41).is_valid());
    let odd = RingSizes { fill: 2048, completion: 2048, rx: 2047, tx: 2048 };
    assert!(!builder().ring_sizes(odd).is_valid());
    let built = builder()
        .frame_size(4096)
        .frame_count(64)
        .mode(XdpMode::Copy)
        .attach_mode(AttachMode::Skb)
        .program_bytes(b"object")
        .ring_sizes(RingSizes { fill: 32, completion: 32, rx: 32, tx: 32 });
    assert!(built.is_valid());
    let config = built.build();
    assert_eq!((config.frame_size, config.frame_count), (4096, 64));
    assert_eq!(config.mode, XdpMode::Copy);
    assert_eq!(config.program_bytes, Some(&b"object"[..]));
}

#[test]
fn opening_undoes_what_it_registered() {
    let mut step = OpenStep::LoadProgram;
    let mut steps = 0;
    while step != OpenStep::Open {
        // Every step before the port can fail without trace.
        if step != OpenStep::BindPort {
            assert_eq!(step.next(false), OpenStep::Failed);
        }
        step = step.next(true);
        steps += 1;
    }
    assert_eq!(steps, 7);
    assert_eq!(OpenStep::BindPort.next(false), OpenStep::UnregisterSocket);
    assert_eq!(OpenStep::UnregisterSocket.next(true), OpenStep::Failed);
}
