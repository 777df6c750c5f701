//! The OS-socket network tile.

use bytes::BytesMut;
use quac::addr::{IpAddr, Ipv4Addr, SocketAddr};
use quac::interface::{EcnCodepoint, PacketBuf, RecvMeta, ScatterGather, Segment};
use quac::mpsc::MpscQueue;
use quac::os::buffers::OsBuf;
use quac::tile::os_tile::{
    assemble_payload, route_or, route_packet, to_transmit, OsNetworkTile, TxPacket,
};

fn addr(port: u16) -> SocketAddr {
    SocketAddr::new(IpAddr::V4(Ipv4Addr::new(127, 0, 0, 1)), port)
}

fn packet(parts: &[&[u8]]) -> ScatterGather<OsBuf> {
    let mut packet = ScatterGather::new();
    for part in parts {
        let len = part.len();
        packet.push(Segment { buf: OsBuf::from_slice(part), offset: 0, len });
    }
    packet
}

#[test]
fn route_packet_uses_cid_for_short_header() {
    assert_eq!(route_packet(Some(3), 8), 3);
}

#[test]
fn route_packet_uses_cid_for_long_header() {
    assert_eq!(route_packet(Some(2), 4), 2);
}

#[test]
fn route_packet_random_for_initial() {
    let idx = route_packet(None, 4);
    assert!(idx < 4);
}

#[test]
fn route_packet_wraps_queue_id_mod_num_tiles() {
    assert_eq!(route_packet(Some(7), 4), 3);
}

#[test]
fn datagrams_without_a_queue_reach_every_tile() {
    let mut seen = [false; 4];
    for _ in 0..1000 {
        seen[route_packet(None, 4)] = true;
    }
    assert_eq!(seen, [true; 4]);
    assert_eq!(route_or(None, 4, 2), 2);
    assert_eq!(route_or(Some(9), 4, 2), 1);
}

#[test]
fn payloads_are_joined() {
    let one = assemble_payload(&packet(&[b"whole"]));
    assert_eq!(&one[..], b"whole");
    let many = assemble_payload(&packet(&[b"S1-", b"S2-", b"S3-", b"S4-", b"END"]));
    assert_eq!(&many[..], b"S1-S2-S3-S4-END");
    assert_eq!(assemble_payload(&packet(&[])).len(), 0);
    let mut part = ScatterGather::new();
    part.push(Segment { buf: OsBuf::from_slice(b"abcdef"), offset: 2, len: 3 });
    assert_eq!(&assemble_payload(&part)[..], b"cde");
}

fn tile(engines: usize) -> OsNetworkTile {
    let rx = (0..engines).map(|_| MpscQueue::new(2)).collect();
    let tx = (0..engines).map(|_| MpscQueue::new(8)).collect();
    OsNetworkTile::new(addr(4433), rx, tx)
}

#[test]
fn a_parked_engine_is_unparked_by_a_queued_datagram() {
    let mut tile = tile(3);
    let meta = RecvMeta { src: addr(9), len: 2, ..RecvMeta::default() };
    assert_eq!(tile.receive(Some(4), meta, &packet(&[b"hi"])), (1, false));
    tile.engine_is_parked[1] = true;
    assert_eq!(tile.receive(Some(4), meta, &packet(&[b"yo"])), (1, true));
    // The queue holds two: the third is dropped, and nobody is unparked.
    assert_eq!(tile.receive(Some(1), meta, &packet(&[b"no"])), (1, false));
    let first = tile.rx_queues[1].pop().unwrap();
    assert_eq!(&first.payload[..], b"hi");
    assert_eq!(first.meta.src, addr(9));
    let second = tile.rx_queues[1].pop().unwrap();
    assert_eq!(&second.payload[..], b"yo");
    assert!(tile.rx_queues[1].pop().is_none());
    let (index, _) = tile.receive(None, meta, &packet(&[b"any"]));
    assert!(index < 3);
    assert_eq!(tile.rx_queues[index].len(), 1);
}

#[test]
fn the_writer_takes_one_queue_after_the_other() {
    let mut tile = tile(2);
    for (queue, port) in [(1usize, 3u16), (0, 1), (0, 2)] {
        let sent = TxPacket {
            destination: addr(port),
            ecn: None,
            payload: BytesMut::from(&b"x"[..]),
            segment_size: None,
            src_ip: None,
        };
        assert!(tile.tx_queues[queue].push(sent).is_ok());
    }
    let mut order = Vec::new();
    let mut from = 0;
    while let Some((queue, packet)) = tile.next_packet(from) {
        order.push((queue, packet.destination.port));
        from = queue;
    }
    assert_eq!(order, vec![(0, 1), (0, 2), (1, 3)]);
}

#[test]
fn a_datagram_becomes_a_packet_of_one_segment() {
    let src_ip = IpAddr::V4(Ipv4Addr::new(10, 0, 0, 7));
    let packet = TxPacket {
        destination: addr(5),
        ecn: Some(EcnCodepoint::Ect0),
        payload: BytesMut::from(&b"payload"[..]),
        segment_size: Some(3),
        src_ip: Some(src_ip),
    };
    let transmit = to_transmit(&packet);
    assert_eq!(transmit.destination, addr(5));
    assert_eq!(transmit.ecn, Some(EcnCodepoint::Ect0));
    assert_eq!(transmit.segment_size, Some(3));
    assert_eq!(transmit.src_ip, Some(src_ip));
    assert_eq!(transmit.contents.segment_count(), 1);
    let (buf, offset, len) = transmit.contents.segment(0);
    assert_eq!(&buf.as_ref()[offset..offset + len], b"payload");
}
