//! IP and socket addresses as plain values.

use vstd::prelude::*;

verus! {

/// An IPv4 address, held as the 32-bit number that its octets spell in network order.
#[derive(Clone, Copy, Debug, PartialEq, Eq, Structural, Hash)]
pub struct Ipv4Addr {
    pub bits: u32,
}

/// The number that four octets spell, most significant first.
pub open spec fn ipv4_bits(a: u8, b: u8, c: u8, d: u8) -> int {
    a * 0x100_0000 + b * 0x1_0000 + c * 0x100 + d
}

impl Ipv4Addr {
    /// The address `a.b.c.d`.
    pub fn new(a: u8, b: u8, c: u8, d: u8) -> (addr: Ipv4Addr)
        ensures
            addr.bits == ipv4_bits(a, b, c, d),
    {
        Ipv4Addr { bits: a as u32 * 0x100_0000 + b as u32 * 0x1_0000 + c as u32 * 0x100 + d as u32 }
    }

    /// The address as a number.
    pub fn to_bits(&self) -> (bits: u32)
        ensures
            bits == self.bits,
    {
        self.bits
    }

    /// The four octets, most significant first.
    pub fn octets(&self) -> (octets: [u8; 4])
        ensures
            ipv4_bits(octets[0], octets[1], octets[2], octets[3]) == self.bits,
    {
        let a: u32 = self.bits / 0x100_0000;
        let b: u32 = (self.bits / 0x1_0000) % 0x100;
        let c: u32 = (self.bits / 0x100) % 0x100;
        let d: u32 = self.bits % 0x100;
        [a as u8, b as u8, c as u8, d as u8]
    }
}

/// An IPv6 address, held as the 128-bit number that its octets spell in network order.
#[derive(Clone, Copy, Debug, PartialEq, Eq, Structural, Hash)]
pub struct Ipv6Addr {
    pub bits: u128,
}

/// An IP address of either family.
#[derive(Clone, Copy, Debug, PartialEq, Eq, Structural, Hash)]
pub enum IpAddr {
    V4(Ipv4Addr),
    V6(Ipv6Addr),
}

/// An IP address and a port.
#[derive(Clone, Copy, Debug, PartialEq, Eq, Structural, Hash)]
pub struct SocketAddr {
    pub ip: IpAddr,
    pub port: u16,
}

impl SocketAddr {
    pub fn new(ip: IpAddr, port: u16) -> (addr: SocketAddr)
        ensures
            addr == (SocketAddr { ip, port }),
    {
        SocketAddr { ip, port }
    }

    /// Whether the address is of the IPv4 family.
    pub fn is_ipv4(&self) -> (v4: bool)
        ensures
            v4 == (self.ip is V4),
    {
        matches!(self.ip, IpAddr::V4(_))
    }
}

/// The four octets of an address, from the first on, are its bytes from the highest on.
pub proof fn law_octets_from_the_highest(a: u8, b: u8, c: u8, d: u8)
    ensures
        0 <= ipv4_bits(a, b, c, d) <= u32::MAX,
        ipv4_bits(a, b, c, d) / 0x100_0000 == a,
        ipv4_bits(a, b, c, d) / 0x1_0000 % 0x100 == b,
        ipv4_bits(a, b, c, d) / 0x100 % 0x100 == c,
        ipv4_bits(a, b, c, d) % 0x100 == d,
{
}

} // verus!
