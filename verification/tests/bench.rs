//! The benchmark programs' decisions.

use quac::bench::{
    after_ping, after_read, bind_addr, check_echo, drive_until_stop, parse_port, plan_bench,
    pong, tokio_worker_threads, BenchCommand, EchoError, EchoRead, EchoStep, EchoStreams, Listen,
    LocalCount, PingOutcome, PingStep, RunEvent, Stats, StopReason, StreamEvent,
};
use quac::addr::{IpAddr, Ipv4Addr, SocketAddr};
use quac::interface::{EcnCodepoint, PacketBufMut, RecvMeta};
use quac::os::buffers::OsPool;

#[test]
fn worker_threads_have_limits() {
    assert_eq!(tokio_worker_threads(Some(3), Some(8)), 3);
    assert_eq!(tokio_worker_threads(None, Some(8)), 8);
    assert_eq!(tokio_worker_threads(None, None), 4);
    assert_eq!(tokio_worker_threads(Some(0), None), 1);
    assert_eq!(tokio_worker_threads(Some(9999), None), 256);
}

#[test]
fn ports_are_read_as_integers_are() {
    for text in ["0", "1", "443", "65535", "65536", "99999999999", "", "+", "+80", "-1", "8o", " 1", "007", "\u{0663}"] {
        assert_eq!(parse_port(text), text.parse::<u16>().ok(), "{text:?}");
    }
}

#[test]
fn listen_addresses() {
    match bind_addr(None, None) {
        Listen::Port { port } => assert_eq!(port, 4433),
        _ => panic!("the default port"),
    }
    match bind_addr(None, Some(9)) {
        Listen::Port { port } => assert_eq!(port, 9),
        _ => panic!("a port"),
    }
    match bind_addr(Some("5000"), Some(9)) {
        Listen::Port { port } => assert_eq!(port, 5000),
        _ => panic!("a port"),
    }
    match bind_addr(Some("127.0.0.1:5000"), None) {
        Listen::HostPort { host, port } => assert_eq!((host.as_str(), port), ("127.0.0.1", 5000)),
        _ => panic!("a host and a port"),
    }
    match bind_addr(Some("[::1]:5000"), None) {
        Listen::HostPort { host, port } => assert_eq!((host.as_str(), port), ("[::1]", 5000)),
        _ => panic!("a host and a port"),
    }
    match bind_addr(Some("host:http"), None) {
        Listen::BadPort { text } => assert_eq!(text, "http"),
        _ => panic!("no port"),
    }
    match bind_addr(Some("host:"), None) {
        Listen::BadPort { text } => assert_eq!(text, ""),
        _ => panic!("no port"),
    }
}

#[test]
fn plans_of_the_commands() {
    let plan = plan_bench(BenchCommand::StreamPing { connections: 0 }, 2);
    assert_eq!((plan.connections, plan.streams, plan.strict), (1, 1, true));
    let plan = plan_bench(BenchCommand::ConnectChurn, 6);
    assert_eq!((plan.churn_workers, plan.connections), (6, 0));
    let plan = plan_bench(BenchCommand::MultiStreamPing { connections: 3, streams: 0 }, 2);
    assert_eq!((plan.connections, plan.streams, plan.total_streams()), (3, 1, Some(3)));
    let churn = BenchCommand::ChurnPing { connections: 2, streams: 5, churn: true };
    let plan = plan_bench(churn, 2);
    assert_eq!((plan.total_streams(), plan.churn, plan.strict), (Some(10), true, false));
    let huge = BenchCommand::MultiStreamPing { connections: usize::MAX, streams: 2 };
    assert_eq!(plan_bench(huge, 2).total_streams(), None);
}

#[test]
fn ping_loops() {
    assert_eq!(after_ping(PingOutcome::Read { bytes: 8 }, true), PingStep::Count);
    assert_eq!(after_ping(PingOutcome::Read { bytes: 7 }, true), PingStep::Abort);
    assert_eq!(after_ping(PingOutcome::Read { bytes: 7 }, false), PingStep::Count);
    assert_eq!(after_ping(PingOutcome::Closed, true), PingStep::Stop);
    assert_eq!(after_ping(PingOutcome::WriteFailed, true), PingStep::Abort);
    assert_eq!(after_ping(PingOutcome::WriteFailed, false), PingStep::Stop);
    assert_eq!(after_ping(PingOutcome::ReadFailed, true), PingStep::Abort);
    assert_eq!(after_ping(PingOutcome::ReadFailed, false), PingStep::Stop);
}

#[test]
fn a_run_ends_for_a_reason() {
    assert_eq!(drive_until_stop(RunEvent::Interrupted), Some(StopReason::Interrupt));
    assert_eq!(drive_until_stop(RunEvent::DeadlineReached), Some(StopReason::Deadline));
    assert_eq!(drive_until_stop(RunEvent::NoTasks), Some(StopReason::Finished));
    assert_eq!(drive_until_stop(RunEvent::TaskEnded { ok: false }), None);
}

#[test]
fn echoes_are_compared() {
    assert_eq!(check_echo(b"ping", b"ping"), Ok(()));
    assert_eq!(check_echo(b"ping", b"pin"), Err(EchoError::ShortRead { got: 3 }));
    assert_eq!(check_echo(b"ping", b"pong"), Err(EchoError::Mismatch));
    assert_eq!(after_read(EchoRead::Bytes { count: 5 }), EchoStep::Write { count: 5 });
    assert_eq!(after_read(EchoRead::Bytes { count: 0 }), EchoStep::Again);
    assert_eq!(after_read(EchoRead::Finished), EchoStep::Finish);
    assert_eq!(after_read(EchoRead::Failed), EchoStep::Finish);
}

#[test]
fn data_is_echoed_on_open_streams_only() {
    let mut streams = EchoStreams::new();
    assert_eq!(streams.handle(StreamEvent::Data { id: 4 }), None);
    assert_eq!(streams.handle(StreamEvent::Opened { id: 4, writable: true }), None);
    assert_eq!(streams.handle(StreamEvent::Opened { id: 8, writable: false }), None);
    assert_eq!(streams.handle(StreamEvent::Data { id: 4 }), Some(4));
    assert_eq!(streams.handle(StreamEvent::Data { id: 8 }), None);
    assert_eq!(streams.handle(StreamEvent::Finished { id: 4 }), None);
    assert_eq!(streams.handle(StreamEvent::Data { id: 4 }), None);
    assert_eq!(streams.handle(StreamEvent::Opened { id: 5, writable: true }), None);
    assert_eq!(streams.handle(StreamEvent::Reset { id: 5 }), None);
    assert_eq!(streams.handle(StreamEvent::Data { id: 5 }), None);
}

#[test]
fn counts_are_reported_once_a_second() {
    let mut stats = Stats::new(100);
    stats.record(5);
    stats.record(3);
    assert_eq!((stats.packets, stats.batch_sum, stats.recv_calls), (8, 8, 2));
    assert!(stats.maybe_print(1099).is_none());
    let report = stats.maybe_print(1100).expect("a report");
    assert_eq!((report.packets, report.recv_calls), (8, 2));
    assert_eq!((stats.packets, stats.recv_calls, stats.last_print), (0, 0, 1100));
    let mut local = LocalCount { local: 7, last: 0 };
    assert_eq!(local.maybe_flush(1), None);
    assert!(local.maybe_flush(1_000_000).is_some());
    assert_eq!(local.local, 0);
}

#[test]
fn a_pong_carries_the_payload_back_to_its_sender() {
    let src = SocketAddr::new(IpAddr::V4(Ipv4Addr::new(10, 0, 0, 7)), 4000);
    let mut pool = OsPool::new(1);
    let mut bufs = Vec::new();
    pool.allocate(64, 2, &mut bufs);
    for keep_ecn in [true, false] {
        let mut buf = bufs.pop().unwrap();
        buf.append(b"ping");
        let mut meta = RecvMeta::default();
        meta.src = src;
        meta.ecn = Some(EcnCodepoint::Ect0);
        meta.len = 4;
        let transmit = pong(&meta, buf, keep_ecn);
        assert_eq!(transmit.destination, src);
        assert_eq!(transmit.ecn, if keep_ecn { Some(EcnCodepoint::Ect0) } else { None });
        assert_eq!(transmit.segment_size, None);
        assert_eq!(transmit.src_ip, None);
        assert_eq!(transmit.contents.as_contiguous(), Some(&b"ping"[..]));
    }
}
