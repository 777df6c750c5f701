//! Programs, their registry, and the route monitor.

use aya::programs::xdp::XdpFlags;
use quac::addr::{IpAddr, Ipv4Addr, Ipv6Addr};
use quac::xdp::program::{
    hash_program_bytes, load_err, with_permission_hint, AttachMode, LoadStep, MapError, MapOutcome,
    ProgramChoice, ProgramRegistry, XdpProgram,
};
use quac::xdp::route_monitor::{
    nlmsg_type_name, DumpAction, DumpOutcome, NetlinkMessage, PendingEvents, PollAction,
    PollOutcome, ReadAction, ReadOutcome, RouteMonitor, RouteMonitorState, MAX_REBUILD_ATTEMPTS,
    POLLERR, POLLHUP, POLLIN, RTM_DELLINK, RTM_DELNEIGH, RTM_DELROUTE, RTM_NEWLINK, RTM_NEWNEIGH,
    RTM_NEWROUTE,
};
use std::collections::hash_map::DefaultHasher;
use std::hash::{Hash, Hasher};

#[test]
fn attach_flags_are_those_of_the_loader() {
    assert_eq!(AttachMode::Default.flags(), XdpFlags::default().bits());
    assert_eq!(AttachMode::Skb.flags(), XdpFlags::SKB_MODE.bits());
    assert_eq!(AttachMode::Drv.flags(), XdpFlags::DRV_MODE.bits());
    assert_eq!(AttachMode::Hw.flags(), XdpFlags::HW_MODE.bits());
    assert_eq!(AttachMode::Default.flags(), 0);
    assert_eq!(AttachMode::Skb.flags(), 2);
    assert_eq!(AttachMode::Drv.flags(), 4);
    assert_eq!(AttachMode::Hw.flags(), 8);
}

#[test]
fn the_hash_is_that_of_a_byte_slice() {
    for bytes in [&b""[..], b"object", &[7u8; 1000]] {
        let mut hasher = DefaultHasher::new();
        bytes.hash(&mut hasher);
        assert_eq!(hash_program_bytes(bytes), hasher.finish());
    }
    assert_ne!(hash_program_bytes(b"a"), hash_program_bytes(b"b"));
}

#[test]
fn the_first_program_of_an_interface_decides() {
    let mut registry = ProgramRegistry::new();
    let embedded = b"embedded";
    let hash = hash_program_bytes(embedded);
    assert_eq!(registry.get_or_load(3, None, embedded), ProgramChoice::Load { hash });
    registry.attached(3, hash);
    assert_eq!(registry.get_or_load(3, None, embedded), ProgramChoice::Reuse);
    assert_eq!(registry.get_or_load(3, Some(b"embedded"), b"other"), ProgramChoice::Reuse);
    let wanted = hash_program_bytes(b"mine");
    assert_eq!(
        registry.get_or_load(3, Some(b"mine"), embedded),
        ProgramChoice::Mismatch { existing: hash, wanted }
    );
    assert_eq!(registry.get_or_load(4, Some(b"mine"), embedded), ProgramChoice::Load { hash: wanted });
    assert_eq!(registry.choose_by_hash(3, hash), ProgramChoice::Reuse);
}

#[test]
fn loading_checks_the_maps_before_it_attaches() {
    let mut step = LoadStep::Parse;
    let mut missing = Vec::new();
    while step != LoadStep::Attached {
        if let Some(text) = step.missing_message() {
            missing.push(text);
        }
        assert_eq!(step.next(false), LoadStep::Failed);
        step = step.next(true);
    }
    assert_eq!(missing.len(), 3);
    assert!(missing[0].contains("BOUND_PORTS"));
    assert!(missing[1].contains("XSKMAP"));
    assert!(missing[2].contains("quac_xdp"));
    assert_eq!(LoadStep::Failed.next(true), LoadStep::Failed);
}

#[test]
fn ports_and_sockets_of_a_program() {
    let mut program = XdpProgram::new(3, 77);
    assert_eq!(program.if_index(), 3);
    assert_eq!(program.bind_port(4433, MapOutcome::Refused), Err(MapError::Refused));
    assert!(!program.is_bound(4433));
    assert_eq!(program.bind_port(4433, MapOutcome::Missing), Err(MapError::Missing));
    assert_eq!(program.bind_port(4433, MapOutcome::WrongType), Err(MapError::WrongType));
    assert_eq!(program.bind_port(4433, MapOutcome::Done), Ok(()));
    assert!(program.is_bound(4433));
    assert_eq!(program.unbind_port(4433, MapOutcome::Missing), Err(MapError::Missing));
    assert!(program.is_bound(4433));
    assert_eq!(program.unbind_port(4433, MapOutcome::Done), Ok(()));
    assert!(!program.is_bound(4433));
    // A port that the map does not hold is unbound already.
    assert_eq!(program.unbind_port(4433, MapOutcome::Refused), Ok(()));
    assert_eq!(program.register_socket(2, MapOutcome::Done), Ok(()));
    assert!(program.is_registered(2));
    program.unregister_socket(2);
    assert!(!program.is_registered(2));
}

#[test]
fn permission_errors_get_a_hint() {
    let plain = load_err("no such file");
    assert!(plain.contains("no such file"));
    let denied = load_err("Operation not permitted (EPERM)");
    assert!(denied.contains("Operation not permitted (EPERM)"));
    assert!(denied.len() > "Operation not permitted (EPERM)".len() + plain.len() - "no such file".len());
    // Whatever its case.
    assert_eq!(
        load_err("PERMISSION DENIED").replace("PERMISSION DENIED", "x"),
        load_err("permission denied").replace("permission denied", "x")
    );
    assert_eq!(with_permission_hint("MSG", "msg"), load_err("MSG"));
}

fn message(nlmsg_type: u16) -> NetlinkMessage {
    NetlinkMessage { nlmsg_type, route: None, neighbor: None }
}

#[test]
fn numbers_of_netlink() {
    assert_eq!(RTM_NEWLINK, libc::RTM_NEWLINK);
    assert_eq!(RTM_DELLINK, libc::RTM_DELLINK);
    assert_eq!(RTM_NEWROUTE, libc::RTM_NEWROUTE);
    assert_eq!(RTM_DELROUTE, libc::RTM_DELROUTE);
    assert_eq!(RTM_NEWNEIGH, libc::RTM_NEWNEIGH);
    assert_eq!(RTM_DELNEIGH, libc::RTM_DELNEIGH);
    assert_eq!((POLLIN, POLLERR, POLLHUP), (libc::POLLIN, libc::POLLERR, libc::POLLHUP));
}

#[test]
fn events_of_the_table_are_counted() {
    let mut state = RouteMonitorState::new_with_socket(254, 1000);
    let v4 = IpAddr::V4(Ipv4Addr::new(10, 0, 0, 1));
    let v6 = IpAddr::V6(Ipv6Addr { bits: 1 });
    let messages = [
        NetlinkMessage { route: Some(Some(254)), ..message(RTM_NEWROUTE) },
        NetlinkMessage { route: Some(Some(254)), ..message(RTM_DELROUTE) },
        NetlinkMessage { route: Some(Some(255)), ..message(RTM_NEWROUTE) },
        NetlinkMessage { route: Some(None), ..message(RTM_NEWROUTE) },
        message(RTM_NEWROUTE),
        NetlinkMessage { neighbor: Some(Some(v4)), ..message(RTM_NEWNEIGH) },
        NetlinkMessage { neighbor: Some(Some(v6)), ..message(RTM_DELNEIGH) },
        message(RTM_DELNEIGH),
        message(RTM_NEWLINK),
        message(RTM_DELLINK),
        message(999),
    ];
    state.update(&messages);
    assert_eq!(
        state.pending_events,
        PendingEvents { routes: 2, neighbors: 1, links: 2, errors: 0 }
    );
    assert_eq!(nlmsg_type_name(RTM_NEWROUTE), "RTM_NEWROUTE");
    assert_eq!(nlmsg_type_name(RTM_DELNEIGH), "RTM_DELNEIGH");
}

#[test]
fn a_router_is_published_when_due() {
    let mut state = RouteMonitorState::new_with_socket(254, 1000);
    assert!(!state.publish_if_needed(5000, 100));
    state.update(&[message(RTM_NEWLINK)]);
    assert!(!state.publish_if_needed(1099, 100));
    assert!(state.publish_if_needed(1100, 100));
    // A clock that goes back makes nothing due.
    assert!(!state.publish_if_needed(0, 100));
    // The rebuild failed: the events are kept for the next interval.
    state.finish_publish(false, 1100);
    assert_eq!(state.pending_events.links, 1);
    assert!(!state.publish_if_needed(1150, 100));
    assert!(state.publish_if_needed(1200, 100));
    state.finish_publish(true, 1200);
    assert!(state.pending_events.is_empty());
    assert!(!state.publish_if_needed(9999, 100));
}

#[test]
fn an_overflow_resets() {
    let mut state = RouteMonitorState::new_with_socket(254, 0);
    state.begin_reset();
    assert_eq!(state.pending_events.errors, 1);
    state.finish_reset(false, 50);
    assert_eq!((state.pending_events.errors, state.last_publish), (1, 0));
    state.finish_reset(true, 60);
    assert!(state.pending_events.is_empty());
    assert_eq!(state.last_publish, 60);
    assert_eq!(RouteMonitor::after_poll(PollOutcome::TimedOut), PollAction::Wait);
    assert_eq!(RouteMonitor::after_poll(PollOutcome::Failed), PollAction::Reset);
    assert_eq!(
        RouteMonitor::after_poll(PollOutcome::Ready { revents: POLLERR | POLLIN }),
        PollAction::Reset
    );
    assert_eq!(
        RouteMonitor::after_poll(PollOutcome::Ready { revents: POLLHUP }),
        PollAction::Reset
    );
    assert_eq!(
        RouteMonitor::after_poll(PollOutcome::Ready { revents: POLLIN }),
        PollAction::Drain
    );
    assert_eq!(RouteMonitor::after_read(ReadOutcome::Messages { count: 3 }), ReadAction::Update);
    assert_eq!(RouteMonitor::after_read(ReadOutcome::Empty), ReadAction::Stop);
    assert_eq!(RouteMonitor::after_read(ReadOutcome::Failed), ReadAction::Reset);
}

#[test]
fn an_interrupted_dump_is_tried_again_a_few_times() {
    let mut retries = 0u8;
    let mut dumps = 0;
    loop {
        dumps += 1;
        let (action, next) = RouteMonitor::rebuild_router(retries, DumpOutcome::Interrupted);
        retries = next;
        if action != DumpAction::Retry {
            assert_eq!(action, DumpAction::GiveUp);
            break;
        }
    }
    assert_eq!(dumps, MAX_REBUILD_ATTEMPTS as i32);
    assert_eq!(RouteMonitor::rebuild_router(0, DumpOutcome::Dumped).0, DumpAction::Build);
    assert_eq!(RouteMonitor::rebuild_router(0, DumpOutcome::Failed).0, DumpAction::Fail);
}
