//! Network tiles: scratch buffers, routing, queues and pinning.

use quac::addr::{IpAddr, Ipv4Addr, Ipv6Addr, SocketAddr};
use quac::interface::{PacketBufMut, RecvMeta, ScatterGather, Segment, Transmit};
use quac::iouring::buffers::{IoRxBufMut, IoTxBuf, IoTxBufMut, IoTxPool};
use quac::os::buffers::{OsBuf, OsBufMut, OsPool};
use quac::os::socket::{OsSocket, SendOutcome};
use quac::tile::network::{
    bucket_transmits, can_refill, find_target, pin_policy, recv_batch, refill_tx_bufs,
    retire_sent, send_home, NetworkTileImpl, Pinning, RecvMetaConfig, RxPacket, TileError,
    TX_BUF_REFILL_WATERMARK,
};
use quac::tile::queue::{
    clear_all_sleeping, wait_any_non_empty, wait_any_non_empty_combined, Park, Queue, Spin, Wait,
};
use quac::tile::router::{mix64, FourTupleRouter, PacketRouter, SrcAddrRouter};
use quac::xdp::buffers::{XdpRxBufMut, XdpTxBuf, XdpTxBufMut, XdpTxPool, HEADROOM};
use quac::xdp::umem::Umem;
use std::collections::VecDeque;

const OWNER: u64 = 1;
const OTHER: u64 = 2;

type OsTile = NetworkTileImpl<OsBufMut, OsBuf, OsBufMut, Spin, FourTupleRouter>;

fn make_tile() -> OsTile {
    NetworkTileImpl::new(FourTupleRouter, 1)
}

fn give_back(pool: &mut OsPool, bufs: &mut Vec<OsBufMut>, thread: u64) {
    while let Some(buf) = bufs.pop() {
        pool.reclaim_mut(buf, thread);
    }
}

fn addr(a: u8, port: u16) -> SocketAddr {
    SocketAddr::new(IpAddr::V4(Ipv4Addr::new(10, 0, 0, a)), port)
}

fn meta_from(src: SocketAddr, len: usize) -> RecvMeta {
    RecvMeta { src, len, stride: len, ..RecvMeta::default() }
}

fn filled(pool: &mut OsPool, data: &[u8]) -> OsBufMut {
    let mut bufs = Vec::new();
    pool.allocate(64, 1, &mut bufs);
    let mut buf = bufs.pop().unwrap();
    buf.append(data);
    buf
}

#[test]
fn refill_bootstraps_from_empty_pool() {
    let mut pools = vec![OsPool::new(OWNER)];
    let mut tile = make_tile();

    assert_eq!(pools[0].available(), 0);
    assert_eq!(tile.tx_buf_queue.len(), 0);

    refill_tx_bufs(&mut tile, &mut pools);

    assert!(
        tile.tx_buf_queue.len() > 0,
        "tx_buf_queue must be seeded even when the pool starts empty"
    );
}

#[test]
fn refill_caps_at_half_of_available() {
    let mut pools = vec![OsPool::new(OWNER)];

    // Warm the pool: alloc a full slab then return all buffers same-thread.
    let mut warmup: Vec<OsBufMut> = Vec::new();
    let cap = pools[0].max_payload_size();
    pools[0].allocate(cap, 64, &mut warmup);
    give_back(&mut pools[0], &mut warmup, OWNER);

    let avail_before = pools[0].available();
    assert!(avail_before > 0);

    let mut tile = make_tile();
    refill_tx_bufs(&mut tile, &mut pools);

    let tx_taken = tile.tx_buf_queue.len();
    let avail_after = pools[0].available();

    assert!(
        tx_taken <= avail_before / 2,
        "TX took {tx_taken}, max allowed is {}/2={}",
        avail_before,
        avail_before / 2
    );
    assert!(
        avail_after >= avail_before / 2,
        "pool must retain >= half for RX: before={avail_before} after={avail_after}"
    );
}

#[test]
fn rx_can_alloc_full_batch_after_refill() {
    let mut pools = vec![OsPool::new(OWNER)];
    const BATCH: usize = 64;

    // Two batches worth of free buffers so 50% split leaves one full batch.
    let mut warmup: Vec<OsBufMut> = Vec::new();
    let cap = pools[0].max_payload_size();
    pools[0].allocate(cap, BATCH * 2, &mut warmup);
    give_back(&mut pools[0], &mut warmup, OWNER);

    let mut tile = make_tile();
    refill_tx_bufs(&mut tile, &mut pools);

    let avail_after_refill = pools[0].available();
    assert!(
        avail_after_refill >= BATCH,
        "RX would need a new slab after refill; avail={avail_after_refill} < batch={BATCH}"
    );
}

#[test]
fn refill_skips_when_exactly_one_buffer_free() {
    let mut pools = vec![OsPool::new(OWNER)];

    // Alloc a full slab; keep all but one alive so only 1 returns to local.
    let mut bufs: Vec<OsBufMut> = Vec::new();
    let cap = pools[0].max_payload_size();
    pools[0].allocate(cap, 64, &mut bufs);
    let _live = bufs.split_off(1);
    give_back(&mut pools[0], &mut bufs, OWNER);

    assert_eq!(pools[0].available(), 1, "setup: exactly 1 free buffer");

    let mut tile = make_tile();
    refill_tx_bufs(&mut tile, &mut pools);

    assert_eq!(
        tile.tx_buf_queue.len(),
        0,
        "with 1 free buffer, TX gets nothing - buffer reserved for RX"
    );
    assert_eq!(pools[0].available(), 1, "the single buffer must remain in pool");
}

#[test]
fn refill_handles_cross_thread_returns_via_available() {
    let mut pools = vec![OsPool::new(OWNER)];

    // Alloc then drop a batch cross-thread: buffers go to `remote`.
    let mut bufs: Vec<OsBufMut> = Vec::new();
    let cap = pools[0].max_payload_size();
    pools[0].allocate(cap, 64, &mut bufs);
    let frozen: Vec<_> = bufs.into_iter().map(|b: OsBufMut| b.freeze()).collect();
    for buf in frozen {
        pools[0].reclaim(buf, OTHER);
    }

    let avail = pools[0].available();
    assert!(avail > 0, "available() must drain remote; got 0");

    let mut tile = make_tile();
    refill_tx_bufs(&mut tile, &mut pools);

    // TX may take at most half; the rest stays available for RX.
    assert!(
        tile.tx_buf_queue.len() <= avail / 2,
        "TX must not exceed 50% of the cross-thread-returned buffers"
    );
}

#[test]
fn refill_draws_on_every_pool_up_to_the_watermark() {
    let mut pools = vec![OsPool::new(OWNER), OsPool::new(OWNER), OsPool::new(OWNER)];
    let mut held = Vec::new();
    for pool in pools.iter_mut() {
        let mut bufs = Vec::new();
        pool.allocate(64, 128, &mut bufs);
        give_back(pool, &mut bufs, OWNER);
    }
    let mut tile = make_tile();
    // ceil(64 / 3) each
    assert_eq!(refill_tx_bufs(&mut tile, &mut pools), vec![22, 22, 22]);
    assert_eq!(tile.tx_buf_queue.len(), 66);
    assert_eq!(pools[1].available(), 106);
    while tile.tx_buf_queue.len() < TX_BUF_REFILL_WATERMARK {
        let mut bufs = Vec::new();
        pools[0].allocate(64, 1, &mut bufs);
        assert!(tile.tx_buf_queue.push(bufs.pop().unwrap()).is_ok());
    }
    assert!(refill_tx_bufs(&mut tile, &mut pools).is_empty());
    assert_eq!(tile.alloc_tx_bufs(64, 300, &mut held), 256);
    assert_eq!(tile.alloc_tx_bufs(64, 1, &mut held), 0);
    assert_eq!(held.len(), 256);
}

#[test]
fn a_pool_that_makes_no_buffers_gives_what_it_has() {
    type Tile = NetworkTileImpl<OsBufMut, XdpTxBuf, quac::xdp::buffers::XdpTxBufMut, Spin, SrcAddrRouter>;
    let mut tile: Tile = NetworkTileImpl::new(SrcAddrRouter, 1);
    let mut pools = vec![
        XdpTxPool::new(1, OWNER, 2048, 42, 2006, vec![], 8),
        XdpTxPool::new(2, OWNER, 2048, 42, 2006, vec![0, 2048, 4096, 6144, 8192], 8),
    ];
    assert_eq!(refill_tx_bufs(&mut tile, &mut pools), vec![0, 2]);
    assert_eq!(pools[1].available(), 3);
}

#[test]
fn same_client_goes_to_the_same_tile() {
    let router = SrcAddrRouter;
    for count in [1usize, 2, 7, 64] {
        let a = router.route(&meta_from(addr(1, 5000), 10), b"one", count);
        let b = router.route(&meta_from(addr(1, 5000), 20), b"other", count);
        assert_eq!(a, b);
        assert!(a < count);
    }
    let v6 = SocketAddr::new(IpAddr::V6(Ipv6Addr { bits: 1 }), 7);
    assert!(router.route(&meta_from(v6, 1), b"", 5) < 5);
}

#[test]
fn the_mix_has_its_known_values() {
    // Reference outputs of the splitmix finalizer.
    assert_eq!(mix64(0), 0);
    let golden = 0x9e37_79b9_7f4a_7c15u64;
    assert_eq!(mix64(golden), 0xe220_a839_7b1d_cdaf);
    assert_eq!(mix64(golden.wrapping_add(golden)), 0x6e78_9e6a_a1b9_65f4);
    let key = 0x0a00_0001u64 ^ (5000u64 << 32);
    assert_eq!(
        SrcAddrRouter.route(&meta_from(addr(1, 5000), 0), b"", 1000),
        (mix64(key) % 1000) as usize
    );
}

#[test]
fn routing_reads_the_high_groups_of_an_ipv6_source() {
    // 2001:0db8:0001:0002:0003:0004:0005:0006
    let bits = 0x2001_0db8_0001_0002_0003_0004_0005_0006u128;
    let src = SocketAddr::new(IpAddr::V6(Ipv6Addr { bits }), 443);
    let key = 0x2001_0db8_0003_0004u64 ^ (443u64 << 32);
    assert_eq!(
        SrcAddrRouter.route(&meta_from(src, 0), b"", 997),
        (mix64(key) % 997) as usize
    );
}

#[test]
fn received_buffers_reach_their_engine_tile() {
    let mut pool = OsPool::new(OWNER);
    let mut tile: NetworkTileImpl<OsBufMut, OsBuf, OsBufMut, Park, SrcAddrRouter> =
        NetworkTileImpl::with_queue_cap(SrcAddrRouter, 1, 2);
    tile.rx_queues[0].register_consumer(77);
    tile.rx_queues[0].set_sleeping();
    let meta = vec![
        meta_from(addr(1, 1), 3),
        meta_from(addr(2, 1), 3),
        meta_from(addr(3, 1), 3),
        meta_from(addr(4, 1), 3),
    ];
    let mut bufs = vec![
        filled(&mut pool, b"one"),
        filled(&mut pool, b"two"),
        filled(&mut pool, b"six"),
        filled(&mut pool, b"ten"),
    ];
    // The third does not fit: two wake-ups, one drop, one buffer left over.
    let dropped_id = bufs[2].node.id;
    let (wakes, refused) = tile.deliver(&meta, &mut bufs, 3, 5);
    assert_eq!(wakes, vec![77, 77]);
    assert_eq!(refused.len(), 1);
    assert_eq!(refused[0].meta.src, addr(3, 1));
    assert_eq!(refused[0].payload.segment(0).0.node.id, dropped_id);
    assert_eq!(tile.rx_drops(), 1);
    assert_eq!(bufs.len(), 1);
    let first = tile.rx_queues[0].pop().unwrap();
    assert_eq!(first.meta.src, addr(1, 1));
    assert_eq!(first.source_socket, 5);
    let (buf, offset, len) = first.payload.segment(0);
    assert_eq!(&buf.filled()[offset..offset + len], b"one");
    let second = tile.rx_queues[0].pop().unwrap();
    assert_eq!(second.meta.src, addr(2, 1));
    assert!(tile.rx_queues[0].pop().is_none());

    let mut payload = ScatterGather::new();
    payload.push(Segment { buf: bufs.pop().unwrap(), offset: 0, len: 3 });
    let packet = RxPacket { meta: meta[3], payload, source_socket: 0 };
    tile.rx_queues[0].clear_sleeping();
    assert!(matches!(tile.push_rx(packet), Ok(None)));
    assert_eq!(tile.rx_queues[0].len(), 1);
}

#[test]
fn packets_of_all_engine_tiles_are_drained_in_order() {
    let mut tile: NetworkTileImpl<OsBufMut, OsBuf, OsBufMut, Spin, SrcAddrRouter> =
        NetworkTileImpl::new(SrcAddrRouter, 2);
    for (queue, port) in [(1usize, 9u16), (0, 1), (0, 2), (1, 8)] {
        let transmit = Transmit::new(ScatterGather::new(), addr(1, port));
        assert!(matches!(tile.tx_queues[queue].push(transmit), Ok(None)));
    }
    let mut out = VecDeque::new();
    tile.drain_tx(&mut out);
    let ports: Vec<u16> = out.iter().map(|t| t.destination.port).collect();
    assert_eq!(ports, vec![1, 2, 9, 8]);
}

#[test]
fn conversion_copies_into_a_scratch_buffer() {
    let mut pool = OsPool::new(OWNER);
    let mut tile = make_tile();
    let rx = filled(&mut pool, b"datagram");
    // No scratch buffer: the receive buffer comes back.
    let rx = match tile.convert_rx_to_tx(rx) {
        Err((rx, None)) => rx,
        _ => panic!("no scratch buffer was queued"),
    };
    let mut scratch = Vec::new();
    pool.allocate(64, 1, &mut scratch);
    let (id, capacity) = (scratch[0].node.id, scratch[0].capacity());
    assert!(tile.tx_buf_queue.push(scratch.pop().unwrap()).is_ok());
    match tile.convert_rx_to_tx(rx) {
        Ok((tx, rx)) => {
            assert_eq!(tx.filled(), b"datagram");
            assert_eq!((tx.node.id, tx.capacity()), (id, capacity));
            assert_eq!(rx.filled(), b"datagram");
            assert_ne!(tx.node.id, rx.node.id);
            let same = tile.convert_rx_to_tx_unified(rx);
            assert_eq!(same.filled(), b"datagram");
        }
        Err(_) => panic!("the scratch buffer is large enough"),
    }
}

#[test]
fn conversion_refuses_what_does_not_fit() {
    type Tile = NetworkTileImpl<OsBufMut, OsBuf, quac::iouring::buffers::IoTxBufMut, Spin, SrcAddrRouter>;
    let mut pool = OsPool::new(OWNER);
    let mut tx_pool = quac::iouring::buffers::IoTxPool::with_max_payload(4, OWNER);
    let mut tile: Tile = NetworkTileImpl::new(SrcAddrRouter, 1);
    let mut scratch = Vec::new();
    tx_pool.allocate(4, 1, &mut scratch);
    assert!(tile.tx_buf_queue.push(scratch.pop().unwrap()).is_ok());
    match tile.convert_rx_to_tx(filled(&mut pool, b"datagram")) {
        Err((rx, Some(tx))) => {
            assert_eq!(rx.filled(), b"datagram");
            assert_eq!(tx.capacity(), 4);
        }
        _ => panic!("eight bytes do not fit four"),
    }
}

fn xdp_transmit(umem_id: u64, port: u16) -> Transmit<ScatterGather<XdpTxBuf>> {
    let buf = XdpTxBuf { umem_id, frame_addr: 0, payload_offset: 42, payload_len: 1 };
    let mut contents = ScatterGather::new();
    contents.push(Segment { buf, offset: 0, len: 1 });
    Transmit::new(contents, addr(1, port))
}

#[test]
fn packets_go_to_the_socket_that_owns_their_memory() {
    let pools = vec![
        XdpTxPool::new(10, OWNER, 2048, 42, 2006, vec![], 8),
        XdpTxPool::new(11, OWNER, 2048, 42, 2006, vec![], 8),
    ];
    assert_eq!(find_target(&pools, &xdp_transmit(11, 0)), 1);
    assert_eq!(find_target(&pools, &xdp_transmit(10, 0)), 0);
    // Memory of nobody, and a packet without memory: the first socket.
    assert_eq!(find_target(&pools, &xdp_transmit(12, 0)), 0);
    assert_eq!(find_target(&pools, &Transmit::new(ScatterGather::new(), addr(1, 1))), 0);

    let mut transmits = VecDeque::new();
    for (umem_id, port) in [(11u64, 1u16), (10, 2), (11, 3), (12, 4)] {
        transmits.push_back(xdp_transmit(umem_id, port));
    }
    let mut pending = vec![vec![xdp_transmit(10, 0)], Vec::new()];
    bucket_transmits(&pools, &mut transmits, &mut pending);
    assert!(transmits.is_empty());
    let ports: Vec<Vec<u16>> = pending
        .iter()
        .map(|p| p.iter().map(|t| t.destination.port).collect())
        .collect();
    assert_eq!(ports, vec![vec![0, 2, 4], vec![1, 3]]);
}

#[test]
fn sent_packets_leave_and_a_failure_drops_all() {
    let mut pending = vec![1, 2, 3, 4];
    assert_eq!(retire_sent(&mut pending, Some(3)), vec![1, 2, 3]);
    assert_eq!(pending, vec![4]);
    assert!(retire_sent(&mut pending, Some(0)).is_empty());
    assert_eq!(pending, vec![4]);
    assert_eq!(retire_sent(&mut pending, None), vec![4]);
    assert!(pending.is_empty());
}

fn of_one<B>(buf: B, len: usize, src: SocketAddr) -> RxPacket<B> {
    let mut payload = ScatterGather::new();
    payload.push(Segment { buf, offset: 0, len });
    RxPacket { meta: meta_from(src, len), payload, source_socket: 0 }
}

#[test]
fn a_full_tile_queue_loses_no_node() {
    let mut pool = OsPool::new(OWNER);
    let mut tile: NetworkTileImpl<OsBufMut, OsBuf, OsBufMut, Spin, SrcAddrRouter> =
        NetworkTileImpl::with_queue_cap(SrcAddrRouter, 1, 1);
    let first = filled(&mut pool, b"one");
    let second = filled(&mut pool, b"two");
    let id = second.node.id;
    assert_eq!(pool.available(), 62);
    assert!(matches!(tile.push_rx(of_one(first, 3, addr(1, 1))), Ok(None)));
    let back = tile.push_rx(of_one(second, 3, addr(2, 1))).err().expect("the queue is full");
    assert_eq!(tile.rx_drops(), 1);
    for buf in back.payload.into_bufs() {
        assert_eq!(buf.node.id, id);
        pool.reclaim_mut(buf, OWNER);
    }
    assert_eq!(pool.available(), 63);

    // The same with a batch: what is refused and what is queued are all there are.
    let meta = vec![meta_from(addr(1, 1), 3); 3];
    let mut bufs: Vec<OsBufMut> = (0..3).map(|_| filled(&mut pool, b"six")).collect();
    let (wakes, refused) = tile.deliver(&meta, &mut bufs, 2, 0);
    assert!(wakes.is_empty());
    assert_eq!((refused.len(), bufs.len(), tile.rx_drops()), (2, 1, 3));
    give_back(&mut pool, &mut bufs, OWNER);
    for packet in refused {
        give_back(&mut pool, &mut packet.payload.into_bufs(), OTHER);
    }
    assert_eq!(pool.available(), 63);
    let queued = tile.rx_queues[0].pop().unwrap();
    give_back(&mut pool, &mut queued.payload.into_bufs(), OTHER);
    assert_eq!(pool.available(), 64);
}

#[test]
fn a_full_tile_queue_loses_no_slot_and_no_frame() {
    let mut tile: NetworkTileImpl<IoRxBufMut, IoTxBuf, IoTxBufMut, Spin, SrcAddrRouter> =
        NetworkTileImpl::with_queue_cap(SrcAddrRouter, 1, 1);
    let slot = |bid: u16| of_one(IoRxBufMut::from_ring_slot(4, 1472, bid), 4, addr(1, 1));
    assert!(matches!(tile.push_routed(slot(3), b"ping"), Ok(None)));
    let back = tile.push_routed(slot(5), b"ping").err().expect("the queue is full");
    assert_eq!(back.payload.segment(0).0.bid(), Some(5));
    assert_eq!(tile.rx_drops(), 1);

    let mut tile: NetworkTileImpl<XdpRxBufMut, XdpTxBuf, XdpTxBufMut, Spin, SrcAddrRouter> =
        NetworkTileImpl::with_queue_cap(SrcAddrRouter, 1, 1);
    let frame =
        |at: u64| of_one(XdpRxBufMut::from_ring_frame(at, HEADROOM, 4, 2006), 4, addr(1, 1));
    assert!(matches!(tile.push_to(0, frame(0)), Ok(None)));
    let back = tile.push_to(0, frame(2048)).err().expect("the queue is full");
    assert_eq!(back.payload.segment(0).0.frame_addr(), Some(2048));
    assert_eq!(tile.rx_drops(), 1);
}

#[test]
fn buffers_go_home_to_the_pool_that_made_them() {
    let mut pools = vec![OsPool::new(OWNER), OsPool::new(OWNER)];
    assert!(pools[1].is_fresh());
    pools[1].set_name(1);
    let own = filled(&mut pools[0], b"own").freeze();
    let other = filled(&mut pools[1], b"other").freeze();
    assert!(!pools[1].is_fresh());
    assert_eq!((pools[0].available(), pools[1].available()), (63, 63));
    // The first socket sends both; only its own buffer joins its pool.
    let mut socket = OsSocket::from_udp(Some(addr(1, 1)), false, 0, OWNER);
    std::mem::swap(&mut socket.pool, &mut pools[0]);
    let mut transmits: Vec<_> = [own, other, OsBuf::from_slice(b"free")]
        .into_iter()
        .map(|buf| {
            let mut contents = ScatterGather::new();
            contents.push(Segment { buf, offset: 0, len: 3 });
            Transmit::new(contents, addr(2, 2))
        })
        .collect();
    socket.after_send(&mut transmits, 3, SendOutcome::Sent { count: 3 });
    assert!(transmits.is_empty());
    assert_eq!(socket.pool.available(), 64);
    assert_eq!(socket.strays.len(), 1);
    std::mem::swap(&mut socket.pool, &mut pools[0]);
    assert!(send_home(&mut pools, socket.strays).is_empty());
    assert_eq!((pools[0].available(), pools[1].available()), (64, 64));

    // Buffers of no pool among these are handed back.
    let mut stranger = OsPool::new(OWNER);
    stranger.set_name(7);
    let lost = filled(&mut stranger, b"lost").freeze();
    let back = send_home(&mut pools, vec![lost, OsBuf::from_slice(b"free")]);
    assert_eq!(back.len(), 1);
    assert_eq!(back[0].node.pool, 7);
    assert_eq!((pools[0].available(), pools[1].available()), (64, 64));
}

#[test]
fn frames_and_memories_go_home() {
    let frames = |from: u64| (from..from + 4).map(|i| i * 2048).collect::<Vec<u64>>();
    let mut pools = vec![
        XdpTxPool::new(9, OWNER, 2048, HEADROOM, 2006, frames(0), 8),
        XdpTxPool::new(10, OWNER, 2048, HEADROOM, 2006, frames(4), 8),
    ];
    let mut bufs = Vec::new();
    pools[1].allocate(0, 2, &mut bufs);
    let gone = bufs.into_iter().map(|b| b.freeze()).collect();
    assert!(send_home(&mut pools, gone).is_empty());
    assert_eq!((pools[0].available(), pools[1].available()), (4, 4));
    let foreign =
        XdpTxBuf { umem_id: 11, frame_addr: 0, payload_offset: 42, payload_len: 1 };
    assert_eq!(send_home(&mut pools, vec![foreign]).len(), 1);

    let mut pools = vec![IoTxPool::new(OWNER), IoTxPool::new(OWNER)];
    pools[1].set_name(1);
    let mut bufs = Vec::new();
    pools[0].allocate(64, 1, &mut bufs);
    pools[1].allocate(64, 2, &mut bufs);
    let gone = bufs.into_iter().map(|b| b.freeze()).collect();
    assert!(send_home(&mut pools, gone).is_empty());
    assert_eq!((pools[0].available(), pools[1].available()), (1, 2));
}

#[test]
fn a_pool_without_names_is_not_refilled_from() {
    let pools = vec![OsPool::new(OWNER), OsPool::new(OWNER)];
    assert!(can_refill(&pools));
    assert!(pools[0].has_names(1000));
    if usize::BITS == 64 {
        assert!(!pools[0].has_names(usize::MAX));
        assert!(!pools[0].has_names(usize::MAX - 63));
        assert!(pools[0].has_names(usize::MAX - 64));
    }
}

#[test]
fn all_sockets_or_none_are_aligned() {
    assert!(matches!(pin_policy(&[], &[]), Err(TileError::NoSockets)));
    let many = vec![false; 257];
    let none = vec![None; 257];
    assert!(matches!(
        pin_policy(&many, &none),
        Err(TileError::TooManySockets { count: 257 })
    ));
    assert!(matches!(
        pin_policy(&[true, false], &[Some(1), Some(1)]),
        Err(TileError::MixedAlignment)
    ));
    assert!(matches!(
        pin_policy(&[true, true], &[Some(1), Some(2)]),
        Err(TileError::DifferentCpus)
    ));
    assert!(matches!(
        pin_policy(&[true, true], &[Some(3), Some(3)]),
        Ok(Pinning::Pin { cpu: 3 })
    ));
    assert!(matches!(pin_policy(&[true], &[None]), Ok(Pinning::NoCpuKnown)));
    assert!(matches!(
        pin_policy(&[true, true, true], &[Some(3), None, Some(4)]),
        Ok(Pinning::SomeCpusKnown { known: 2 })
    ));
    assert!(matches!(
        pin_policy(&[false, false], &[Some(3), Some(4)]),
        Ok(Pinning::Unpinned)
    ));
}

#[test]
fn batches_are_bounded() {
    assert_eq!(recv_batch(8), 8);
    assert_eq!(recv_batch(64), 64);
    assert_eq!(recv_batch(1000), 64);
}

#[test]
fn meta_extras_can_be_turned_off() {
    assert_eq!(RecvMetaConfig::default(), RecvMetaConfig::on());
    assert_eq!(RecvMetaConfig::on().no_ecn().no_dst_ip(), RecvMetaConfig::off());
    assert_eq!(RecvMetaConfig::on().no_ecn(), RecvMetaConfig { ecn: false, dst_ip: true });
}

#[test]
fn a_sleeping_consumer_is_woken_by_every_push() {
    let mut queue: Queue<u32, Park> = Queue::new(2);
    assert_eq!(queue.push(1), Ok(None));
    queue.register_consumer(5);
    queue.register_consumer(6);
    assert_eq!(queue.push(2), Ok(None));
    queue.set_sleeping();
    assert_eq!(queue.push(3), Err(3));
    assert_eq!(queue.pop(), Some(1));
    assert_eq!(queue.push(4), Ok(Some(5)));
    queue.clear_sleeping();
    assert_eq!(queue.pop(), Some(2));
    assert_eq!(queue.push(7), Ok(None));
    assert_eq!(queue.pop(), Some(4));
    assert_eq!(queue.pop(), Some(7));
    assert_eq!(queue.pop(), None);
}

#[test]
fn an_item_before_the_announcement_is_not_missed() {
    let mut queue: Queue<u32, Park> = Queue::new(2);
    queue.register_consumer(5);
    assert_eq!(queue.wait_if_empty(), Some(Wait::Park));
    assert_eq!(queue.push(1), Ok(Some(5)));
    queue.clear_sleeping();
    assert_eq!(queue.wait_if_empty(), None);
    let mut spin: Queue<u32, Spin> = Queue::new(2);
    assert_eq!(spin.wait_if_empty(), Some(Wait::Spin));
    assert_eq!(spin.push(1), Ok(None));
    assert_eq!(spin.len(), 1);
    assert!(!spin.is_empty());
}

#[test]
fn waiting_on_several_queues() {
    let mut queues: Vec<Queue<u32, Park>> = vec![Queue::new(2), Queue::new(2)];
    for queue in queues.iter_mut() {
        queue.register_consumer(9);
    }
    assert_eq!(wait_any_non_empty(&mut queues), Some(Wait::Park));
    assert_eq!(queues[1].push(3), Ok(Some(9)));
    clear_all_sleeping(&mut queues);
    assert_eq!(queues[0].push(3), Ok(None));
    assert_eq!(wait_any_non_empty(&mut queues), None);
    clear_all_sleeping(&mut queues);
    let mut empty: Vec<Queue<u32, Park>> = vec![Queue::new(2)];
    assert_eq!(
        wait_any_non_empty_combined(&mut empty),
        Some(Wait::ParkTimeout { micros: 50 })
    );
}

#[test]
fn the_io_thread_waits_a_bounded_time_and_only_when_idle() {
    let mut tile: NetworkTileImpl<OsBufMut, OsBuf, OsBufMut, Park, SrcAddrRouter> =
        NetworkTileImpl::new(SrcAddrRouter, 1);
    tile.tx_queues[0].register_consumer(9);
    assert_eq!(tile.idle(true), None);
    assert_eq!(tile.idle(false), Some(Wait::ParkTimeout { micros: 50 }));
    let destination = SocketAddr::new(IpAddr::V4(Ipv4Addr::new(10, 0, 0, 1)), 1);
    let pushed = tile.tx_queues[0].push(Transmit::new(ScatterGather::new(), destination));
    assert!(matches!(pushed, Ok(Some(9))));
    assert_eq!(tile.idle(false), None);
    tile.awake();
    let pushed = tile.tx_queues[0].push(Transmit::new(ScatterGather::new(), destination));
    assert!(matches!(pushed, Ok(None)));

    let mut spinning: NetworkTileImpl<OsBufMut, OsBuf, OsBufMut, Spin, SrcAddrRouter> =
        NetworkTileImpl::new(SrcAddrRouter, 1);
    assert_eq!(spinning.idle(false), Some(Wait::Spin));
}

#[test]
fn refilled_buffers_are_empty_and_hold_a_largest_payload() {
    let mut pools = vec![
        OsPool::with_max_payload(1472, OWNER),
        OsPool::with_max_payload(1452, OWNER),
    ];
    let mut tile = make_tile();
    assert_eq!(refill_tx_bufs(&mut tile, &mut pools), vec![32, 0]);
    // The first pool made a slab; the second one was not asked.
    assert_eq!(pools[0].available(), 32);
    assert_eq!(pools[1].available(), 0);
    let mut bufs = Vec::new();
    assert_eq!(tile.alloc_tx_bufs(0, 64, &mut bufs), 32);
    assert!(bufs.iter().all(|b| b.filled().is_empty() && b.capacity() >= 1472));
}

#[test]
fn a_tile_over_io_uring_buffers() {
    let mut pools = vec![IoTxPool::with_max_payload(1472, OWNER)];
    let mut tile: NetworkTileImpl<IoRxBufMut, IoTxBuf, IoTxBufMut, Spin, SrcAddrRouter> =
        NetworkTileImpl::new(SrcAddrRouter, 1);
    assert_eq!(refill_tx_bufs(&mut tile, &mut pools), vec![64]);
    assert_eq!(pools[0].available(), 0);

    // A receive slot reaches its engine tile by the bytes that the socket holds.
    let mut payload = ScatterGather::new();
    payload.push(Segment { buf: IoRxBufMut::from_ring_slot(4, 1472, 3), offset: 0, len: 4 });
    let packet = RxPacket { meta: meta_from(addr(1, 1), 4), payload, source_socket: 0 };
    assert!(matches!(tile.push_routed(packet, b"ping"), Ok(None)));
    assert_eq!(tile.rx_queues[0].len(), 1);

    let tx = match tile.fill_scratch(b"ping") {
        Ok(tx) => tx,
        Err(_) => panic!("scratch is there"),
    };
    assert_eq!(tx.filled(), b"ping");
    assert!(tx.capacity() >= 1472);
    assert!(matches!(tile.fill_scratch(&[0; 2000]), Err(Some(_))));
    assert_eq!(tile.tx_buf_queue.len(), 62);
    pools[0].reclaim_mut(tx, OWNER);
    assert_eq!(pools[0].available(), 1);
    // With one free buffer and scratch left, that one is kept for RX.
    assert_eq!(refill_tx_bufs(&mut tile, &mut pools), vec![0]);
}

#[test]
fn a_tile_over_umem_frames() {
    let mut umem = Umem::new(2048, 8, 4096, false).expect("UMEM alloc");
    let payload = 2048 - HEADROOM as usize;
    let frames = (0..4).map(|i| umem.frame_offset(i)).collect();
    let mut pools = vec![XdpTxPool::new(9, OWNER, 2048, HEADROOM, payload, frames, 8)];
    let mut tile: NetworkTileImpl<XdpRxBufMut, XdpTxBuf, XdpTxBufMut, Spin, SrcAddrRouter> =
        NetworkTileImpl::new(SrcAddrRouter, 1);
    assert!(matches!(tile.fill_scratch_frame(&mut umem, b"ping"), Err(None)));
    assert_eq!(refill_tx_bufs(&mut tile, &mut pools), vec![2]);
    assert!(matches!(tile.fill_scratch_frame(&mut umem, &[1; 2048]), Err(Some(_))));
    assert!(umem.as_slice().iter().all(|b| *b == 0));
    let tx = match tile.fill_scratch_frame(&mut umem, b"ping") {
        Ok(tx) => tx,
        Err(_) => panic!("scratch is there"),
    };
    assert_eq!(tx.filled(&umem), b"ping");
    assert_eq!(tx.capacity(), payload);
    assert_eq!(umem.as_slice().iter().filter(|b| **b != 0).count(), 4);
}
