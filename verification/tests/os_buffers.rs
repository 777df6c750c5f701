//! Buffers of the OS socket and their pool.

use quac::interface::{PacketBuf, PacketBufMut};
use quac::net::{IPV4_MAX_UDP_PAYLOAD, IPV6_MAX_UDP_PAYLOAD, MAX_BUF_SIZE};
use quac::os::buffers::{OsBuf, OsBufMut, OsPool, SLAB_SIZE};
use std::collections::HashSet;

const OWNER: u64 = 1;
const OTHER: u64 = 2;

fn node_id(b: &OsBufMut) -> u64 {
    b.node.id
}

/// Gives all buffers back on a thread.
fn give_back(pool: &mut OsPool, bufs: &mut Vec<OsBufMut>, thread: u64) {
    while let Some(buf) = bufs.pop() {
        pool.reclaim_mut(buf, thread);
    }
}

#[test]
fn pool_alloc_then_drop_recycles() {
    let mut pool = OsPool::new(OWNER);

    let mut bufs1 = Vec::new();
    pool.allocate(64, SLAB_SIZE, &mut bufs1);
    let mut ids1: Vec<_> = bufs1.iter().map(node_id).collect();
    give_back(&mut pool, &mut bufs1, OWNER);

    let mut bufs2 = Vec::new();
    pool.allocate(64, SLAB_SIZE, &mut bufs2);
    let mut ids2: Vec<_> = bufs2.iter().map(node_id).collect();

    ids1.sort();
    ids2.sort();
    assert_eq!(ids1, ids2, "every node should be recycled - no fresh slab grown");
}

#[test]
fn pool_alloc_appends_without_clearing() {
    let mut pool = OsPool::new(OWNER);
    let mut bufs = Vec::new();
    pool.allocate(8, 2, &mut bufs);
    assert_eq!(bufs.len(), 2);
    pool.allocate(8, 3, &mut bufs);
    assert_eq!(bufs.len(), 5);
}

#[test]
fn pool_alloc_grows_capacity() {
    let mut pool = OsPool::new(OWNER);
    let mut bufs = Vec::new();

    pool.allocate(64, 1, &mut bufs);
    assert!(bufs[0].capacity() >= 64);
    give_back(&mut pool, &mut bufs, OWNER);

    pool.allocate(MAX_BUF_SIZE, 1, &mut bufs);
    assert!(bufs[0].capacity() >= MAX_BUF_SIZE);
    assert!(bufs[0].uninit_mut().len() >= MAX_BUF_SIZE);
    give_back(&mut pool, &mut bufs, OWNER);

    pool.allocate(MAX_BUF_SIZE * 4, 1, &mut bufs);
    assert!(bufs[0].capacity() >= MAX_BUF_SIZE);
}

#[test]
fn pool_drop_drains_queued_nodes() {
    let mut pool = OsPool::new(OWNER);
    let mut bufs = Vec::new();
    pool.allocate(128, 32, &mut bufs);
    give_back(&mut pool, &mut bufs, OWNER);
    drop(pool);
}

#[test]
fn pool_second_slab_grown_on_exhaustion() {
    let mut pool = OsPool::new(OWNER);

    let mut held = Vec::new();
    pool.allocate(64, SLAB_SIZE, &mut held);
    assert_eq!(held.len(), SLAB_SIZE);
    let first_slab_ids: HashSet<_> = held.iter().map(node_id).collect();

    let mut extra = Vec::new();
    pool.allocate(64, 1, &mut extra);
    assert_eq!(extra.len(), 1, "alloc must succeed by growing a second slab");
    assert!(
        !first_slab_ids.contains(&node_id(&extra[0])),
        "node from second slab must not alias any first-slab node"
    );
}

#[test]
fn pool_multi_slab_recycles_all_nodes() {
    let mut pool = OsPool::new(OWNER);

    let mut round1 = Vec::new();
    pool.allocate(64, SLAB_SIZE, &mut round1);
    pool.allocate(64, SLAB_SIZE, &mut round1);
    assert_eq!(round1.len(), 2 * SLAB_SIZE);

    let mut ids1: Vec<_> = round1.iter().map(node_id).collect();
    give_back(&mut pool, &mut round1, OWNER);

    let mut round2 = Vec::new();
    pool.allocate(64, 2 * SLAB_SIZE, &mut round2);
    assert_eq!(round2.len(), 2 * SLAB_SIZE);
    let mut ids2: Vec<_> = round2.iter().map(node_id).collect();

    ids1.sort();
    ids2.sort();
    assert_eq!(ids1, ids2, "all nodes from both slabs must be recycled");
}

#[test]
fn pool_multi_slab_drop() {
    let mut pool = OsPool::new(OWNER);
    let mut bufs = Vec::new();
    pool.allocate(64, SLAB_SIZE, &mut bufs);
    pool.allocate(64, SLAB_SIZE, &mut bufs);
    assert_eq!(bufs.len(), 2 * SLAB_SIZE);
    give_back(&mut pool, &mut bufs, OWNER);
    drop(pool);
}

#[test]
fn pool_max_payload_size_default_is_ipv6() {
    let pool = OsPool::new(OWNER);
    assert_eq!(pool.max_payload_size(), IPV6_MAX_UDP_PAYLOAD);
}

#[test]
fn pool_max_payload_size_ipv4() {
    let pool = OsPool::with_max_payload(IPV4_MAX_UDP_PAYLOAD, OWNER);
    assert_eq!(pool.max_payload_size(), IPV4_MAX_UDP_PAYLOAD);
}

#[test]
fn cross_thread_drop_recycles_via_remote_queue() {
    let mut pool = OsPool::with_max_payload(IPV4_MAX_UDP_PAYLOAD, OWNER);

    let mut bufs = Vec::new();
    pool.allocate(64, SLAB_SIZE, &mut bufs);
    let originals: HashSet<_> = bufs.iter().map(node_id).collect();

    let buf = bufs.pop().unwrap();
    let id = node_id(&buf);
    give_back(&mut pool, &mut bufs, OWNER);

    let frozen = buf.freeze();
    pool.reclaim(frozen, OTHER);

    let mut drained = Vec::new();
    pool.allocate(64, SLAB_SIZE, &mut drained);
    let drained_ids: HashSet<_> = drained.iter().map(node_id).collect();
    assert_eq!(drained_ids, originals, "all slab nodes recycled");
    assert!(
        drained_ids.contains(&id),
        "cross-thread-dropped node must round-trip through the pool"
    );
}

#[test]
fn osbuf_from_slice_round_trip() {
    let payload = b"hello-pool-less";
    let buf = OsBuf::from_slice(payload);
    assert_eq!(buf.as_ref(), payload);
    assert!(!buf.pooled);
}

#[test]
fn osbufmut_init_uninit_split() {
    let mut pool = OsPool::new(OWNER);
    let mut bufs = Vec::new();
    pool.allocate(256, 1, &mut bufs);
    let b = &mut bufs[0];

    assert!(b.filled().is_empty(), "fresh buffer should have len=0");
    assert!(b.capacity() >= 256, "capacity at least the requested 256");
    let capacity = b.capacity();
    assert_eq!(
        b.uninit_mut().len(),
        capacity,
        "uninit covers the full capacity when filled is empty"
    );
}

#[test]
fn osbufmut_set_filled_and_freeze() {
    let mut pool = OsPool::new(OWNER);
    let mut bufs = Vec::new();
    pool.allocate(64, 1, &mut bufs);
    let mut b = bufs.pop().unwrap();
    let pre_id = node_id(&b);

    let bytes = b"hello";
    let uninit = b.uninit_mut();
    for (i, &x) in bytes.iter().enumerate() {
        uninit[i] = x;
    }
    b.set_filled(5);
    assert_eq!(b.filled(), bytes);
    let capacity = b.capacity();
    assert_eq!(b.uninit_mut().len(), capacity - 5);

    b.filled_mut()[0] = b'H';
    assert_eq!(b.filled(), b"Hello");

    let frozen = b.freeze();
    assert_eq!(frozen.as_ref(), b"Hello");
    assert_eq!(
        frozen.node.id, pre_id,
        "freeze must preserve node identity for pool return"
    );
}

#[test]
fn available_zero_on_fresh_pool() {
    let mut pool = OsPool::new(OWNER);
    assert_eq!(pool.available(), 0, "fresh pool has no slabs yet");
}

#[test]
fn available_reflects_same_thread_reclaim() {
    let mut pool = OsPool::new(OWNER);
    let mut bufs = Vec::new();
    pool.allocate(64, SLAB_SIZE, &mut bufs);
    assert_eq!(pool.available(), 0, "all nodes are live");
    give_back(&mut pool, &mut bufs, OWNER);
    assert_eq!(pool.available(), SLAB_SIZE);
}

#[test]
fn available_does_not_count_live_buffers() {
    let mut pool = OsPool::new(OWNER);
    let mut bufs = Vec::new();
    pool.allocate(64, SLAB_SIZE, &mut bufs);
    assert_eq!(pool.available(), 0);
    assert_eq!(bufs.len(), SLAB_SIZE);
}

#[test]
fn available_drains_cross_thread_returns() {
    let mut pool = OsPool::with_max_payload(IPV4_MAX_UDP_PAYLOAD, OWNER);
    let mut bufs = Vec::new();
    pool.allocate(64, SLAB_SIZE, &mut bufs);
    assert_eq!(pool.available(), 0);

    let mut half: Vec<_> = bufs.drain(..SLAB_SIZE / 2).collect();
    give_back(&mut pool, &mut half, OTHER);

    assert_eq!(
        pool.available(),
        SLAB_SIZE / 2,
        "cross-thread returns must be visible via available()"
    );
}

#[test]
fn nodes_in_use_are_all_different() {
    let mut pool = OsPool::new(OWNER);
    let mut bufs = Vec::new();
    pool.allocate(16, 3 * SLAB_SIZE + 5, &mut bufs);
    let ids: HashSet<_> = bufs.iter().map(node_id).collect();
    assert_eq!(ids.len(), 3 * SLAB_SIZE + 5);
}

#[test]
fn a_buffer_of_no_pool_is_just_freed() {
    let mut pool = OsPool::new(OWNER);
    pool.reclaim(OsBuf::from_slice(b"loose"), OWNER);
    assert_eq!(pool.available(), 0);
}

#[test]
fn appending_fills_a_buffer_and_from_rx_hands_it_on() {
    let mut pool = OsPool::new(OWNER);
    let mut bufs = Vec::new();
    pool.allocate(16, 1, &mut bufs);
    let mut buf = bufs.pop().unwrap();
    buf.append(b"ab");
    buf.append(b"cd");
    assert_eq!(buf.filled(), b"abcd");
    let id = node_id(&buf);
    match pool.from_rx(buf) {
        Ok(tx) => {
            assert_eq!(node_id(&tx), id);
            assert_eq!(tx.filled(), b"abcd");
        }
        Err(_) => panic!("a pool shared by both sides hands the buffer on"),
    }
    assert_eq!(pool.zerocopy_threshold(), 0);
    assert_eq!(pool.owner(), OWNER);
}
