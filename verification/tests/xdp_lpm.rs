//! Longest-prefix matching.

use quac::addr::Ipv4Addr;
use quac::xdp::lpm::Ipv4Lpm;
use quac::xdp::route::Route;

fn route(destination: Option<Ipv4Addr>, dst_len: u8) -> Route<Ipv4Addr> {
    Route {
        destination,
        gateway: None,
        preferred_src: None,
        out_if_index: Some(1),
        priority: None,
        type_: 0,
        dst_len,
    }
}

#[test]
fn test_default_route() {
    let routes = vec![route(None, 0)];
    let lpm = Ipv4Lpm::build(&routes);

    assert_eq!(lpm.default_route(), Some(0));
    assert_eq!(lpm.lookup(Ipv4Addr::new(10, 0, 0, 0)), Some(0));
}

#[test]
fn test_non_default_route() {
    let routes = vec![route(None, 0), route(Some(Ipv4Addr::new(10, 0, 0, 1)), 24)];
    let lpm = Ipv4Lpm::build(&routes);

    assert_eq!(lpm.lookup(Ipv4Addr::new(10, 0, 0, 1)), Some(1));
    assert_eq!(lpm.lookup(Ipv4Addr::new(10, 0, 1, 0)), Some(0));
}

#[test]
fn test_longer_prefix_wins_order_descending() {
    let routes = vec![
        route(None, 0),
        route(Some(Ipv4Addr::new(10, 1, 1, 0)), 24),
        route(Some(Ipv4Addr::new(10, 1, 0, 0)), 16),
        route(Some(Ipv4Addr::new(10, 0, 0, 0)), 8),
    ];
    let lpm = Ipv4Lpm::build(&routes);

    assert_eq!(lpm.lookup(Ipv4Addr::new(10, 1, 1, 0)), Some(1));
    assert_eq!(lpm.lookup(Ipv4Addr::new(10, 1, 0, 0)), Some(2));
    assert_eq!(lpm.lookup(Ipv4Addr::new(10, 0, 0, 0)), Some(3));
    assert_eq!(lpm.lookup(Ipv4Addr::new(11, 0, 0, 0)), Some(0));
}

#[test]
fn test_longer_prefix_wins_order_ascending() {
    let routes = vec![
        route(None, 0),
        route(Some(Ipv4Addr::new(10, 0, 0, 0)), 8),
        route(Some(Ipv4Addr::new(10, 1, 0, 0)), 16),
        route(Some(Ipv4Addr::new(10, 1, 1, 0)), 24),
    ];
    let lpm = Ipv4Lpm::build(&routes);

    assert_eq!(lpm.lookup(Ipv4Addr::new(10, 1, 1, 0)), Some(3));
    assert_eq!(lpm.lookup(Ipv4Addr::new(10, 1, 0, 0)), Some(2));
    assert_eq!(lpm.lookup(Ipv4Addr::new(10, 0, 0, 0)), Some(1));
    assert_eq!(lpm.lookup(Ipv4Addr::new(11, 0, 0, 0)), Some(0));
}

#[test]
fn test_partial_nibble_prefixes() {
    let routes = vec![route(None, 0), route(Some(Ipv4Addr::new(10, 0, 0, 0)), 17)];
    let lpm = Ipv4Lpm::build(&routes);

    for i in 0x00..=0x7F {
        let addr = Ipv4Addr::new(10, 0, i, 0);
        assert_eq!(
            lpm.lookup(addr),
            Some(1),
            "addr {addr:?} should match the /17 route"
        );
    }
    assert_eq!(lpm.lookup(Ipv4Addr::new(10, 0, 0x80, 0)), Some(0));
}

#[test]
fn test_equal_len_prefixes_first_wins() {
    let routes = vec![
        route(Some(Ipv4Addr::new(10, 0, 0, 0)), 8),
        route(Some(Ipv4Addr::new(10, 0, 0, 0)), 8),
    ];
    let lpm = Ipv4Lpm::build(&routes);

    assert_eq!(lpm.lookup(Ipv4Addr::new(10, 0, 0, 0)), Some(0));
}

#[test]
fn no_route_matches_nothing() {
    let lpm = Ipv4Lpm::build(&Vec::new());
    assert_eq!(lpm.default_route(), None);
    assert_eq!(lpm.lookup(Ipv4Addr::new(10, 0, 0, 0)), None);
    let host = vec![route(Some(Ipv4Addr::new(192, 168, 1, 77)), 32)];
    let lpm = Ipv4Lpm::build(&host);
    assert_eq!(lpm.lookup(Ipv4Addr::new(192, 168, 1, 77)), Some(0));
    assert_eq!(lpm.lookup(Ipv4Addr::new(192, 168, 1, 76)), None);
}

/// The best of the routes by comparing prefixes one by one.
fn best(routes: &[Route<Ipv4Addr>], addr: Ipv4Addr) -> Option<usize> {
    let mut found: Option<usize> = None;
    for (i, r) in routes.iter().enumerate() {
        let dst = match r.destination {
            Some(d) => d.bits,
            None => 0,
        };
        let mask: u32 = if r.dst_len == 0 { 0 } else { u32::MAX << (32 - r.dst_len as u32) };
        let len = if r.destination.is_none() { 0 } else { r.dst_len };
        let mask = if r.destination.is_none() { 0 } else { mask };
        if addr.bits & mask == dst & mask {
            let better = match found {
                None => true,
                Some(j) => {
                    let other = if routes[j].destination.is_none() { 0 } else { routes[j].dst_len };
                    len > other
                }
            };
            if better {
                found = Some(i);
            }
        }
    }
    found
}

#[test]
fn lookups_agree_with_a_scan_of_all_routes() {
    let mut seed: u32 = 12345;
    let mut next = || {
        seed = seed.wrapping_mul(1664525).wrapping_add(1013904223);
        seed >> 4
    };
    let mut routes = vec![route(None, 0)];
    for _ in 0..200 {
        let len = (next() % 33) as u8;
        let bits = next() << 4;
        routes.push(route(Some(Ipv4Addr { bits }), len));
    }
    let lpm = Ipv4Lpm::build(&routes);
    for _ in 0..2000 {
        let addr = Ipv4Addr { bits: next() << 4 };
        let got = lpm.lookup(addr).map(|r| r as usize);
        let want = best(&routes, addr);
        let len_of = |r: Option<usize>| r.map(|i| {
            if routes[i].destination.is_none() { 0 } else { routes[i].dst_len }
        });
        assert_eq!(len_of(got), len_of(want));
    }
}
