//! Packets, buffers and the queue between threads.

use bytes::BytesMut;
use quac::addr::{IpAddr, Ipv4Addr, Ipv6Addr, SocketAddr};
use quac::interface::{PacketBuf, RecvBuf, RecvMeta, ScatterGather, Segment, Transmit};
use quac::mpsc::MpscQueue;
use quac::os::buffers::OsBuf;
use quac::sockaddr::{
    sockaddr_from_socketaddr, socketaddr_from_raw, AF_INET, AF_INET6, SOCKADDR_IN6_LEN,
    SOCKADDR_IN_LEN,
};

#[test]
fn a_queue_gives_items_in_order_and_refuses_beyond_its_capacity() {
    let mut queue: MpscQueue<String> = MpscQueue::new(3);
    assert!(queue.is_empty());
    for text in ["a", "b", "c"] {
        assert_eq!(queue.push(text.to_string()), Ok(()));
    }
    assert_eq!(queue.push("d".to_string()), Err("d".to_string()));
    assert_eq!(queue.len(), 3);
    assert_eq!(queue.pop(), Some("a".to_string()));
    assert_eq!(queue.push("e".to_string()), Ok(()));
    let mut rest = vec!["z".to_string()];
    queue.drain_into(&mut rest);
    assert_eq!(rest, vec!["z", "b", "c", "e"]);
    assert_eq!(queue.pop(), None);
    assert!(queue.is_empty());
}

#[test]
fn a_long_lived_queue_reuses_its_slots() {
    let mut queue: MpscQueue<u32> = MpscQueue::new(4);
    for i in 0..1000u32 {
        assert_eq!(queue.push(i), Ok(()));
        assert_eq!(queue.push(i + 1), Ok(()));
        assert_eq!(queue.pop(), Some(i));
        assert_eq!(queue.pop(), Some(i + 1));
    }
}

#[test]
fn the_two_parts_of_a_split_are_the_whole() {
    let mut buf = BytesMut::from(&b"datagram"[..]);
    let head = RecvBuf::split_to(&mut buf, 4);
    assert_eq!(&head[..], b"data");
    assert_eq!(&buf[..], b"gram");
    let tail = RecvBuf::split_off(&mut buf, 1);
    assert_eq!(&buf[..], b"g");
    assert_eq!(&tail[..], b"ram");
    assert_eq!(RecvBuf::len(&tail), 3);
    assert!(!RecvBuf::is_empty(&tail));
    let mut tail = tail;
    RecvBuf::truncate(&mut tail, 9);
    assert_eq!(&tail[..], b"ram");
    RecvBuf::truncate(&mut tail, 1);
    assert_eq!(&tail[..], b"r");
    RecvBuf::truncate(&mut tail, 0);
    assert!(RecvBuf::is_empty(&tail));
}

#[test]
fn a_segment_stays_in_its_buffer() {
    let whole = Segment::new(OsBuf::from_slice(b"abcdef"), 2, 3).ok().expect("in bounds");
    assert_eq!(whole.as_slice(), b"cde");
    // A buffer that is too short is handed back.
    let back = Segment::new(OsBuf::from_slice(b"abcdef"), 2, 5).err().expect("out of bounds");
    assert_eq!(back.as_ref(), b"abcdef");
    assert!(Segment::new(OsBuf::from_slice(b"abcdef"), usize::MAX, 1).is_err());
    assert!(Segment::new(OsBuf::from_slice(b"abcdef"), 6, 0).is_ok());
}

#[test]
fn packets_of_many_segments() {
    let mut packet = ScatterGather::new();
    assert!(packet.as_contiguous().is_none());
    packet.push(Segment { buf: OsBuf::from_slice(b"first"), offset: 1, len: 3 });
    assert!(packet.as_contiguous().is_none());
    // More segments than are held inline.
    for i in 0..6usize {
        packet.push(Segment { buf: OsBuf::from_slice(&[i as u8; 8]), offset: i, len: 2 });
    }
    assert!(packet.as_contiguous().is_none());
    assert_eq!(packet.segment_count(), 7);
    assert_eq!(packet.total_len(), 15);
    let (buf, offset, len) = packet.segment(6);
    assert_eq!((buf.as_ref(), offset, len), (&[5u8; 8][..], 5, 2));
    let (buf, offset, len) = packet.segment(0);
    assert_eq!(&buf.as_ref()[offset..offset + len], b"irs");
    let bufs = packet.into_bufs();
    assert_eq!(bufs.len(), 7);
    assert_eq!(bufs[0].as_ref(), b"first");
}

#[test]
fn a_fresh_transmit_is_one_datagram() {
    let to = SocketAddr::new(IpAddr::V4(Ipv4Addr::new(1, 2, 3, 4)), 5);
    let transmit = Transmit::new(7u8, to);
    assert_eq!(transmit.contents, 7);
    assert_eq!(transmit.destination, to);
    assert!(transmit.ecn.is_none() && transmit.segment_size.is_none() && transmit.src_ip.is_none());
    let meta = RecvMeta::default();
    assert_eq!((meta.len, meta.stride), (0, 0));
    assert_eq!(meta.src, SocketAddr::new(IpAddr::V4(Ipv4Addr::new(0, 0, 0, 0)), 0));
}

#[test]
fn addresses_as_the_kernel_writes_them() {
    let v4 = SocketAddr::new(IpAddr::V4(Ipv4Addr::new(192, 168, 1, 2)), 0x1234);
    let bytes = sockaddr_from_socketaddr(&v4);
    assert_eq!(bytes, vec![2, 0, 0x12, 0x34, 192, 168, 1, 2, 0, 0, 0, 0, 0, 0, 0, 0]);
    assert_eq!(socketaddr_from_raw(&bytes), Some(v4));
    let bits = 0x2001_0db8_0000_0000_0000_0000_0000_0001u128;
    let v6 = SocketAddr::new(IpAddr::V6(Ipv6Addr { bits }), 443);
    let bytes = sockaddr_from_socketaddr(&v6);
    assert_eq!(bytes.len(), 28);
    assert_eq!(&bytes[..10], &[10, 0, 1, 187, 0, 0, 0, 0, 0x20, 0x01]);
    assert_eq!(&bytes[22..], &[0, 1, 0, 0, 0, 0]);
    assert_eq!(socketaddr_from_raw(&bytes), Some(v6));
}

#[test]
fn unknown_and_short_addresses_are_refused() {
    assert_eq!(socketaddr_from_raw(&[]), None);
    assert_eq!(socketaddr_from_raw(&[2, 0, 0, 0, 1, 2, 3, 4, 0, 0, 0, 0, 0, 0, 0]), None);
    let mut unix = vec![0u8; 128];
    unix[0] = 1;
    assert_eq!(socketaddr_from_raw(&unix), None);
    let mut v6 = vec![0u8; 27];
    v6[0] = 10;
    assert_eq!(socketaddr_from_raw(&v6), None);
}

#[test]
fn address_sizes_of_the_kernel() {
    assert_eq!(AF_INET as i32, libc::AF_INET);
    assert_eq!(AF_INET6 as i32, libc::AF_INET6);
    assert_eq!(SOCKADDR_IN_LEN, std::mem::size_of::<libc::sockaddr_in>());
    assert_eq!(SOCKADDR_IN6_LEN, std::mem::size_of::<libc::sockaddr_in6>());
    assert_eq!(Ipv4Addr::new(1, 2, 3, 4).octets(), [1, 2, 3, 4]);
    assert_eq!(Ipv4Addr::new(1, 2, 3, 4).to_bits(), 0x0102_0304);
}

#[test]
fn only_a_segment_that_covers_its_buffer_is_contiguous() {
    let of = |offset: usize, len: usize| {
        let mut packet = ScatterGather::new();
        packet.push(Segment { buf: OsBuf::from_slice(&[1, 2, 3, 4]), offset, len });
        packet.as_contiguous().map(|data| data.to_vec())
    };
    assert_eq!(of(0, 4), Some(vec![1, 2, 3, 4]));
    assert_eq!(of(1, 2), None);
    assert_eq!(of(1, 3), None);
    assert_eq!(of(0, 3), None);
}
