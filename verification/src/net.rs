//! Packet size limits.

use vstd::prelude::*;

verus! {

/// Largest UDP payload in an unfragmented IPv4 packet on Ethernet: 1500 - 20 - 8.
pub const IPV4_MAX_UDP_PAYLOAD: usize = 1472;

/// Largest UDP payload in an unfragmented IPv6 packet on Ethernet: 1500 - 40 - 8.
pub const IPV6_MAX_UDP_PAYLOAD: usize = 1452;

/// Largest packet buffer.
pub const MAX_BUF_SIZE: usize = 2048;

} // verus!
