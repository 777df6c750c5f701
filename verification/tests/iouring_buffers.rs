//! Buffers of the io_uring socket, their pool and the ring of receive slots.

use quac::interface::{PacketBuf, PacketBufMut};
use quac::iouring::buffers::{IoRxBufMut, IoRxBufMutRepr, IoRxPool, IoTxBuf, IoTxBufMut, IoTxPool};
use quac::iouring::ring::{ProvidedBufRing, RingReclaimer};
use quac::net::{IPV4_MAX_UDP_PAYLOAD, IPV6_MAX_UDP_PAYLOAD};

const OWNER: u64 = 1;
const OTHER: u64 = 2;

#[test]
fn tx_pool_default_max_payload_is_ipv6() {
    let pool = IoTxPool::new(OWNER);
    assert_eq!(pool.max_payload_size(), IPV6_MAX_UDP_PAYLOAD);
}

#[test]
fn tx_pool_with_max_payload_ipv4() {
    let pool = IoTxPool::with_max_payload(IPV4_MAX_UDP_PAYLOAD, OWNER);
    assert_eq!(pool.max_payload_size(), IPV4_MAX_UDP_PAYLOAD);
}

#[test]
fn tx_pool_zerocopy_threshold_is_zero() {
    let pool = IoTxPool::new(OWNER);
    assert_eq!(pool.zerocopy_threshold(), 0);
}

#[test]
fn tx_alloc_returns_count_and_appends_without_clearing() {
    let mut pool = IoTxPool::new(OWNER);
    let mut bufs = Vec::new();

    assert_eq!(pool.allocate(64, 4, &mut bufs), 4);
    assert_eq!(bufs.len(), 4);

    assert_eq!(pool.allocate(64, 3, &mut bufs), 3);
    assert_eq!(bufs.len(), 7);
}

#[test]
fn tx_alloc_zero_count_is_noop() {
    let mut pool = IoTxPool::new(OWNER);
    let mut bufs = Vec::new();
    let mut tmp = Vec::new();
    pool.allocate(8, 1, &mut tmp);
    bufs.push(tmp.pop().unwrap());
    assert_eq!(pool.allocate(64, 0, &mut bufs), 0);
    assert_eq!(bufs.len(), 1);
}

#[test]
fn tx_alloc_provides_requested_capacity_when_within_max_payload() {
    let mut pool = IoTxPool::new(OWNER);
    let max = pool.max_payload_size();
    let mut bufs = Vec::new();
    pool.allocate(max, 1, &mut bufs);
    assert!(bufs[0].capacity() >= max);
    assert!(bufs[0].filled().is_empty());
    let capacity = bufs[0].capacity();
    assert_eq!(bufs[0].uninit_mut().len(), capacity);
}

#[test]
fn tx_alloc_clamps_request_to_max_payload() {
    let mut pool = IoTxPool::new(OWNER);
    let max = pool.max_payload_size();
    let mut bufs = Vec::new();
    pool.allocate(max + 1024, 1, &mut bufs);
    assert_eq!(bufs[0].capacity(), max);
}

#[test]
fn tx_drop_then_alloc_recycles_same_allocation() {
    let mut pool = IoTxPool::new(OWNER);
    let mut bufs = Vec::new();
    pool.allocate(64, 1, &mut bufs);
    let original_ptr = bufs[0].data.as_ptr();
    pool.reclaim_mut(bufs.pop().unwrap(), OWNER);

    pool.allocate(64, 1, &mut bufs);
    let recycled_ptr = bufs[0].data.as_ptr();
    assert_eq!(original_ptr, recycled_ptr);
}

#[test]
fn tx_freeze_preserves_data_and_recycles_on_drop() {
    let mut pool = IoTxPool::new(OWNER);
    let mut bufs = Vec::new();
    pool.allocate(64, 1, &mut bufs);
    let mut buf = bufs.pop().unwrap();

    let payload = b"freeze-test";
    let uninit = buf.uninit_mut();
    for (i, &b) in payload.iter().enumerate() {
        uninit[i] = b;
    }
    buf.set_filled(payload.len());

    let original_ptr = buf.data.as_ptr();
    let frozen = buf.freeze();
    assert_eq!(frozen.as_ref(), payload);
    assert_eq!(frozen.data.as_ptr(), original_ptr);
    pool.reclaim(frozen, OWNER);

    let mut more = Vec::new();
    pool.allocate(64, 1, &mut more);
    assert_eq!(more[0].data.as_ptr(), original_ptr);
}

#[test]
fn tx_from_slice_is_pool_less() {
    let buf = IoTxBuf::from_slice(b"hello");
    assert_eq!(buf.as_ref(), b"hello");
    assert!(!buf.pooled);
}

#[test]
fn tx_cross_thread_drop_recycles_via_remote_queue() {
    let mut pool = IoTxPool::with_max_payload(IPV4_MAX_UDP_PAYLOAD, OWNER);
    let mut bufs = Vec::new();
    pool.allocate(64, 1, &mut bufs);
    let original_ptr = bufs[0].data.as_ptr();
    let frozen = bufs.pop().unwrap().freeze();

    pool.reclaim(frozen, OTHER);

    let mut more = Vec::new();
    pool.allocate(64, 1, &mut more);
    assert_eq!(more[0].data.as_ptr(), original_ptr);
}

#[test]
fn rx_pool_alloc_returns_empty_placeholders() {
    let pool = IoRxPool { max_payload: IPV4_MAX_UDP_PAYLOAD };
    let mut bufs = Vec::new();
    assert_eq!(pool.allocate(64, 3, &mut bufs), 3);
    for b in &bufs {
        assert!(matches!(b.repr, IoRxBufMutRepr::Empty));
        assert_eq!(b.capacity(), 0);
        assert_eq!(b.filled_len(), 0);
    }
}

#[test]
fn callers_handle_partial_alloc_returns() {
    struct PartialPool {
        inner: IoTxPool,
        limit: usize,
    }

    impl PartialPool {
        fn allocate(&mut self, capacity: usize, count: usize, bufs: &mut Vec<IoTxBufMut>) -> usize {
            let allowed = self.limit.min(count);
            if allowed == 0 {
                return 0;
            }
            self.inner.allocate(capacity, allowed, bufs);
            self.limit -= allowed;
            allowed
        }
    }

    let mut pp = PartialPool { inner: IoTxPool::new(OWNER), limit: 7 };

    let want = 10;
    let mut bufs = Vec::new();
    loop {
        let n = pp.allocate(64, want - bufs.len(), &mut bufs);
        if n == 0 || bufs.len() >= want {
            break;
        }
    }
    assert_eq!(bufs.len(), 7);
    assert_eq!(pp.allocate(64, 1, &mut bufs), 0);
}

#[test]
fn from_rx_copies_the_payload_of_a_slot() {
    let mut pool = IoTxPool::new(OWNER);
    let rx = IoRxBufMut::from_ring_slot(5, 64, 3);
    let mut slot = [0u8; 64];
    slot[..5].copy_from_slice(b"tiles");
    let tx = pool.from_rx(&rx, &slot);
    assert_eq!(tx.filled(), b"tiles");
    assert_eq!(rx.bid(), Some(3));
}

#[test]
fn a_filled_ring_holds_every_slot() {
    let mut ring = ProvidedBufRing::new(8);
    assert_eq!(ring.fill_all(), 8);
    let mut bids: Vec<u16> = (0..8).map(|i| ring.entry(i)).collect();
    bids.sort();
    assert_eq!(bids, vec![0, 1, 2, 3, 4, 5, 6, 7]);
    ring.replenish_raw(5);
    assert_eq!(ring.flush_tail(), 9);
    assert_eq!(ring.entry(0), 5);
}

#[test]
fn slots_given_back_go_to_the_ring() {
    let mut ring = ProvidedBufRing::new(4);
    ring.fill_all();
    let mut reclaimer = RingReclaimer::new(OWNER, 4);
    assert!(!reclaimer.drain_pending(&mut ring));
    reclaimer.give_back(2, OWNER);
    reclaimer.give_back(1, OTHER);
    assert!(reclaimer.drain_pending(&mut ring));
    assert_eq!(ring.flush_tail(), 6);
    let mut bids = vec![ring.entry(0), ring.entry(1)];
    bids.sort();
    assert_eq!(bids, vec![1, 2]);
}

#[test]
fn filled_bytes_can_be_rewritten_in_place() {
    let mut pool = IoTxPool::new(OWNER);
    let mut bufs = Vec::new();
    pool.allocate(64, 1, &mut bufs);
    let mut buf = bufs.pop().unwrap();
    buf.append(b"abcd");
    let data = buf.filled_mut();
    assert_eq!(data.len(), 4);
    data[1] = b'X';
    assert_eq!(buf.filled(), b"aXcd");
}

#[test]
fn a_copy_of_a_received_packet_has_room_for_a_largest_payload() {
    let mut pool = IoTxPool::with_max_payload(IPV4_MAX_UDP_PAYLOAD, OWNER);
    let rx = IoRxBufMut::from_ring_slot(4, IPV4_MAX_UDP_PAYLOAD, 0);
    let tx = pool.from_rx(&rx, b"pingpong");
    assert_eq!(tx.filled(), b"ping");
    assert!(tx.capacity() >= IPV4_MAX_UDP_PAYLOAD);
}
