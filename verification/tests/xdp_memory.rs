//! UMEM, rings and buffers of the AF_XDP socket.

use quac::xdp::buffers::{
    XdpRxBufMut, XdpRxBufMutRepr, XdpRxPool, XdpTxBufMut, XdpTxPool, HEADROOM,
};
use quac::xdp::reclaimer::Reclaimer;
use quac::xdp::ring::{mmap_ring, RingConsumer, RingOffsets, RingProducer};
use quac::xdp::umem::{AllocError, PageAlignedMemory, Umem, UmemStep};

const OWNER: u64 = 1;
const OTHER: u64 = 2;

#[test]
fn umem_layout() {
    let frame_size = 2048u32;
    let frame_count = 16u32;
    let umem = Umem::new(frame_size, frame_count, 4096, false).expect("UMEM alloc");

    assert_eq!(umem.frame_size(), frame_size);
    assert_eq!(umem.frame_count(), frame_count);
    assert!(umem.len() >= (frame_size * frame_count) as usize);

    // Frame offsets are contiguous and span exactly frame_size each.
    for i in 0..frame_count {
        assert_eq!(umem.frame_offset(i), u64::from(i) * u64::from(frame_size));
        assert_eq!(umem.frame(i).len(), frame_size as usize);
    }
}

#[test]
fn umem_writeable_frame_round_trips() {
    let mut umem = Umem::new(2048, 8, 4096, false).expect("UMEM alloc");
    // Write a sentinel into frame 3.
    let buf = umem.frame_mut(3);
    for (i, b) in buf.iter_mut().enumerate() {
        *b = (i & 0xff) as u8;
    }
    // Read it back via slice_at using the kernel-style offset.
    let addr = umem.frame_offset(3);
    let view = umem.slice_at(addr, 2048);
    for (i, b) in view.iter().enumerate() {
        assert_eq!(*b, (i & 0xff) as u8);
    }
}

#[test]
fn umem_is_aligned_and_zeroed() {
    let umem = Umem::new(4096, 4, 4096, false).expect("UMEM alloc");
    assert_eq!(umem.as_slice().as_ptr() as usize % 4096, 0);
    assert!(umem.as_slice().iter().all(|b| *b == 0));
    assert!(!umem.is_empty());
    let memory = PageAlignedMemory::allocate(512, 4, 4096).expect("memory");
    assert_eq!(memory.len(), 4096);
    assert_eq!(memory.as_slice().as_ptr() as usize % 4096, 0);
    let large = PageAlignedMemory::alloc_with_page_size(512, 4, 8192, true).expect("memory");
    assert_eq!(large.len(), 8192);
    assert!(PageAlignedMemory::alloc_with_page_size(512, 4, 8192, false).is_err());
    assert_eq!(umem.len(), 16384);
    let huge = Umem::new(4096, 4, 4096, true).expect("UMEM alloc");
    assert_eq!(huge.len(), 2 * 1024 * 1024);
    assert_eq!(huge.as_slice().as_ptr() as usize % (2 * 1024 * 1024), 0);
    assert_eq!(AllocError.message(), "mmap failed (UMEM allocation)");
}

#[test]
fn umem_writes_stay_in_their_range() {
    let mut umem = Umem::new(2048, 4, 4096, false).expect("UMEM alloc");
    umem.write_at(2048, b"frame one");
    assert_eq!(&umem.frame(1)[..9], b"frame one");
    assert!(umem.frame(0).iter().all(|b| *b == 0));
    assert!(umem.frame(2).iter().all(|b| *b == 0));
    umem.as_mut_slice()[0] = 7;
    assert_eq!(umem.frame(0)[0], 7);
}

#[test]
fn ring_producer_basic() {
    let size = 16;
    let mut ring = RingProducer::new(0, 0, size);
    assert_eq!(ring.available(), size);
    assert_eq!(ring.size(), size);

    for i in 0..size {
        assert_eq!(ring.produce(), Some(i));
        assert_eq!(ring.available(), size - i - 1);
    }
    assert_eq!(ring.produce(), None);

    // Kernel consumes one slot; it is not seen until sync().
    let consumer = 1;
    assert_eq!(ring.produce(), None);
    ring.commit();
    assert_eq!(ring.produce(), None);
    assert_eq!(ring.sync(true, consumer), Some(16));
    assert_eq!(ring.produce(), Some(16));
    assert_eq!(ring.produce(), None);

    let consumer = 2;
    ring.sync(true, consumer);
    assert_eq!(ring.produce(), Some(17));
}

#[test]
fn ring_producer_wrap_around() {
    let size = 16;
    let mut consumer = u32::MAX - size - 1;
    let mut ring = RingProducer::new(u32::MAX - 1, consumer, size);
    assert_eq!(ring.available(), 0);

    consumer = consumer.wrapping_add(1);
    ring.sync(true, consumer);
    assert_eq!(ring.produce(), Some(u32::MAX - 1));

    consumer = consumer.wrapping_add(1);
    ring.sync(true, consumer);
    assert_eq!(ring.produce(), Some(u32::MAX));

    consumer = consumer.wrapping_add(1);
    ring.sync(true, consumer);
    assert_eq!(ring.produce(), Some(0));

    consumer = consumer.wrapping_add(1);
    ring.sync(true, consumer);
    assert_eq!(ring.produce(), Some(1));
}

#[test]
fn ring_consumer_basic() {
    let size = 16;
    let mut ring = RingConsumer::new(0, 0);
    assert_eq!(ring.available(), 0);

    let producer = 1;
    assert_eq!(ring.available(), 0);
    ring.sync(true, producer);
    assert_eq!(ring.available(), 1);

    let producer = size;
    ring.sync(true, producer);

    for i in 0..size {
        assert_eq!(ring.consume(), Some(i));
        assert_eq!(ring.available(), size - i - 1);
    }
    assert_eq!(ring.consume(), None);
    assert_eq!(ring.commit(), size);
}

#[test]
fn ring_consumer_wrap_around() {
    let mut ring = RingConsumer::new(u32::MAX - 1, u32::MAX - 1);
    assert_eq!(ring.available(), 0);
    assert_eq!(ring.consume(), None);

    ring.sync(true, u32::MAX);
    assert_eq!(ring.consume(), Some(u32::MAX - 1));

    ring.sync(true, 0);
    assert_eq!(ring.available(), 1);
    assert_eq!(ring.consume(), Some(u32::MAX));

    ring.sync(true, 1);
    assert_eq!(ring.consume(), Some(0));

    ring.sync(true, 2);
    assert_eq!(ring.consume(), Some(1));
}

#[test]
fn ring_mapping_covers_its_descriptors() {
    let offsets = RingOffsets { producer: 0, consumer: 64, desc: 192, flags: 128 };
    let ring = mmap_ring(16 * 2048, &offsets);
    assert_eq!(ring.mmap_len, 192 + 16 * 2048);
    assert_eq!((ring.producer, ring.consumer, ring.desc, ring.flags), (0, 64, 192, 128));
    let flags_last = RingOffsets { producer: 0, consumer: 64, desc: 128, flags: 4096 };
    assert_eq!(mmap_ring(512, &flags_last).mmap_len, 4100);
}

/// A UMEM of 16 frames and a pool of all of them.
fn fresh_pool() -> (Umem, XdpTxPool) {
    let umem = Umem::new(2048, 16, 4096, false).expect("UMEM alloc");
    let frames: Vec<u64> = (0..16).map(|i| umem.frame_offset(i)).collect();
    let pool = XdpTxPool::new(
        9,
        OWNER,
        umem.frame_size(),
        HEADROOM,
        (umem.frame_size() - HEADROOM) as usize,
        frames,
        64,
    );
    (umem, pool)
}

fn give_back(pool: &mut XdpTxPool, bufs: &mut Vec<XdpTxBufMut>, thread: u64) {
    while let Some(buf) = bufs.pop() {
        pool.reclaim_frame(buf.frame_addr, thread);
    }
}

#[test]
fn buffers_rx_pool_alloc_returns_empty_placeholders() {
    let pool = XdpRxPool::new(1472);
    let mut bufs = Vec::new();
    assert_eq!(pool.allocate(1472, 4, &mut bufs), 4);
    assert_eq!(bufs.len(), 4);
    for b in &bufs {
        assert_eq!(b.capacity(), 0);
        assert!(matches!(b.repr, XdpRxBufMutRepr::Empty));
    }
    assert_eq!(pool.max_payload_size(), 1472);
}

#[test]
fn tx_pool_alloc_drop_recycles() {
    let (_umem, mut pool) = fresh_pool();
    assert_eq!(pool.available(), 16);

    let mut bufs = Vec::new();
    assert_eq!(pool.allocate(0, 16, &mut bufs), 16);
    assert_eq!(pool.available(), 0);

    let mut frame_addrs: Vec<u64> = bufs.iter().map(|b| b.frame_addr).collect();
    frame_addrs.sort();
    give_back(&mut pool, &mut bufs, OWNER);

    // Round-trips: same set of addresses, same count.
    let mut bufs2 = Vec::new();
    assert_eq!(pool.allocate(0, 16, &mut bufs2), 16);
    let mut frame_addrs2: Vec<u64> = bufs2.iter().map(|b| b.frame_addr).collect();
    frame_addrs2.sort();
    assert_eq!(frame_addrs, frame_addrs2);
}

#[test]
fn tx_pool_alloc_returns_partial_when_exhausted() {
    let (_umem, mut pool) = fresh_pool();
    let mut bufs = Vec::new();
    assert_eq!(pool.allocate(0, 16, &mut bufs), 16);
    // Pool is empty: the next allocation returns 0.
    let n = pool.allocate(0, 4, &mut bufs);
    assert_eq!(n, 0);
    assert_eq!(bufs.len(), 16);
}

#[test]
fn tx_buf_freeze_round_trip() {
    let (mut umem, mut pool) = fresh_pool();
    let mut bufs = Vec::new();
    pool.allocate(0, 1, &mut bufs);
    let mut buf = bufs.pop().unwrap();
    let frame_addr = buf.frame_addr;

    // Write a payload, freeze, give the frozen buffer up: the frame returns
    // to the pool.
    let payload = b"hello xdp";
    buf.append(&mut umem, payload);

    let frozen = buf.freeze();
    assert_eq!(frozen.frame_addr, frame_addr);
    assert_eq!(frozen.payload_len, payload.len() as u32);
    assert_eq!(frozen.as_ref(&umem), payload);
    assert!(pool.owns(&frozen));
    pool.reclaim_frame(frozen.frame_addr, OWNER);

    // Frame returned: pool now has 16 again.
    assert_eq!(pool.available(), 16);
}

#[test]
fn cross_thread_drop_reclaims_via_remote() {
    let (_umem, mut pool) = fresh_pool();
    let mut bufs = Vec::new();
    pool.allocate(0, 4, &mut bufs);

    let buf = bufs.pop().unwrap();
    let owner_dropped_addr = buf.frame_addr;

    pool.reclaim_frame(buf.frame_addr, OTHER);

    // available() drains remote into local before counting.
    assert_eq!(pool.available(), 16 - 3);
    // Re-alloc: we should get back the address that was returned remotely.
    let mut bufs2 = Vec::new();
    pool.allocate(0, 16 - 3, &mut bufs2);
    let addrs: Vec<u64> = bufs2.iter().map(|b| b.frame_addr).collect();
    assert!(addrs.contains(&owner_dropped_addr));
}

#[test]
fn from_rx_exhausted_pool_returns_err_with_rx() {
    let mut umem = Umem::new(2048, 4, 4096, false).expect("UMEM alloc");
    let mut pool = XdpTxPool::new(9, OWNER, 2048, HEADROOM, 2006, Vec::new(), 4);
    let mut reclaimer = Reclaimer::new(OWNER, 4);
    let rx = XdpRxBufMut::from_ring_frame(2048, 42, 5, 2006);
    match pool.from_rx(rx, &mut umem, &mut reclaimer) {
        Err(rx) => assert_eq!(rx.frame_addr(), Some(2048)),
        Ok(_) => panic!("expected Err"),
    }
    assert!(reclaimer.pending.is_empty());
}

#[test]
fn from_rx_copies_to_a_free_frame() {
    let mut umem = Umem::new(2048, 4, 4096, false).expect("UMEM alloc");
    let mut pool = XdpTxPool::new(9, OWNER, 2048, HEADROOM, 2006, vec![0], 4);
    let mut reclaimer = Reclaimer::new(OWNER, 4);
    umem.write_at(2048 + 42, b"frame");
    let rx = XdpRxBufMut::from_ring_frame(2048, 42, 5, 2006);
    match pool.from_rx(rx, &mut umem, &mut reclaimer) {
        Ok(tx) => {
            assert_eq!(tx.frame_addr, 0);
            assert_eq!(tx.filled(&umem), b"frame");
        }
        Err(_) => panic!("a frame was free"),
    }
    assert_eq!(reclaimer.pending, vec![2048]);
}

#[test]
fn a_full_return_queue_drops_frames() {
    let mut pool = XdpTxPool::new(9, OWNER, 2048, HEADROOM, 2006, vec![], 2);
    for i in 0..5 {
        pool.reclaim_frame(i * 2048, OTHER);
    }
    assert_eq!(pool.available(), 2);
    pool.reclaim_completed(4096);
    assert_eq!(pool.available(), 3);
    assert_eq!(pool.zerocopy_threshold(), 0);
    assert_eq!(pool.max_payload_size(), 2006);
}

#[test]
fn the_reclaimer_tells_threads_apart() {
    let mut reclaimer = Reclaimer::new(OWNER, 4);
    reclaimer.give_back(2048, OWNER);
    reclaimer.give_back(4096, OTHER);
    assert_eq!(reclaimer.pending, vec![2048]);
    assert_eq!(reclaimer.remote.len(), 1);
    assert_eq!(reclaimer.remote.pop(), Some(4096));
}

#[test]
fn only_the_owner_owns_the_reclaimer() {
    let reclaimer = Reclaimer::new(OWNER, 4);
    assert!(reclaimer.current_thread_owns(OWNER));
    assert!(!reclaimer.current_thread_owns(OWNER + 1));
}

#[test]
fn an_allocation_becomes_memory_where_it_is_long_enough() {
    assert_eq!(PageAlignedMemory::allocation_size(512, 4, 4096), 8192);
    assert_eq!(PageAlignedMemory::allocation_size(2048, 4, 4096), 12288);

    let memory = PageAlignedMemory::in_allocation(Some(vec![1, 2, 3, 4]), 1, 3).expect("memory");
    assert_eq!(memory.as_slice(), &[2, 3, 4]);
    assert_eq!(memory.len(), 3);
    assert!(PageAlignedMemory::in_allocation(Some(vec![1, 2, 3, 4]), 2, 3).is_err());
    assert!(PageAlignedMemory::in_allocation(Some(vec![1, 2, 3, 4]), usize::MAX, 3).is_err());
    assert!(PageAlignedMemory::in_allocation(None, 0, 0).is_err());
}

#[test]
fn regular_pages_are_tried_after_huge_ones() {
    let memory = PageAlignedMemory::in_allocation(Some(vec![7; 8]), 0, 8);
    match Umem::after_attempt(4, 2, true, memory) {
        UmemStep::Ready(umem) => {
            assert_eq!(umem.frame_size(), 4);
            assert_eq!(umem.frame_count(), 2);
            assert_eq!(umem.as_slice(), &[7; 8]);
        }
        _ => panic!("the memory is there"),
    }
    assert!(matches!(Umem::after_attempt(4, 2, true, Err(AllocError)), UmemStep::RegularPages));
    assert!(matches!(
        Umem::after_attempt(4, 2, false, Err(AllocError)),
        UmemStep::Failed(AllocError)
    ));
}
