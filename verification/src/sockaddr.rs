//! Socket addresses as the kernel lays them out on a little-endian machine.

use crate::addr::{IpAddr, Ipv4Addr, Ipv6Addr, SocketAddr};
use vstd::prelude::*;

verus! {

broadcast use vstd::slice::group_slice_axioms;

pub const AF_INET: u8 = 2;

pub const AF_INET6: u8 = 10;

/// Size of `sockaddr_in`.
pub const SOCKADDR_IN_LEN: usize = 16;

/// Size of `sockaddr_in6`.
pub const SOCKADDR_IN6_LEN: usize = 28;

/// The `n` low bytes of a number, most significant first.
pub open spec fn be_bytes(x: int, n: nat) -> Seq<u8>
    decreases n,
{
    if n == 0 {
        Seq::empty()
    } else {
        be_bytes(x / 256, (n - 1) as nat).push((x % 256) as u8)
    }
}

/// The number that bytes spell, most significant first.
pub open spec fn be_value(bytes: Seq<u8>) -> int
    decreases bytes.len(),
{
    if bytes.len() == 0 {
        0
    } else {
        be_value(bytes.drop_last()) * 256 + bytes.last()
    }
}

/// `n` zero bytes.
pub open spec fn zeros(n: nat) -> Seq<u8> {
    Seq::new(n, |i: int| 0u8)
}

/// The layout of an address: `sockaddr_in` or `sockaddr_in6`.
pub open spec fn sockaddr_bytes(addr: SocketAddr) -> Seq<u8> {
    match addr.ip {
        IpAddr::V4(v4) => seq![AF_INET, 0u8] + be_bytes(addr.port as int, 2) + be_bytes(
            v4.bits as int,
            4,
        ) + zeros(8),
        IpAddr::V6(v6) => seq![AF_INET6, 0u8] + be_bytes(addr.port as int, 2) + zeros(4) + be_bytes(
            v6.bits as int,
            16,
        ) + zeros(4),
    }
}

/// The address that bytes hold, if any.
pub open spec fn sockaddr_value(bytes: Seq<u8>) -> Option<SocketAddr> {
    if bytes.len() < 2 || bytes[1] != 0 {
        None
    } else if bytes[0] == AF_INET && bytes.len() >= SOCKADDR_IN_LEN {
        Some(
            SocketAddr {
                ip: IpAddr::V4(Ipv4Addr { bits: be_value(bytes.subrange(4, 8)) as u32 }),
                port: be_value(bytes.subrange(2, 4)) as u16,
            },
        )
    } else if bytes[0] == AF_INET6 && bytes.len() >= SOCKADDR_IN6_LEN {
        Some(
            SocketAddr {
                ip: IpAddr::V6(Ipv6Addr { bits: be_value(bytes.subrange(8, 24)) as u128 }),
                port: be_value(bytes.subrange(2, 4)) as u16,
            },
        )
    } else {
        None
    }
}

/// 256 to the power `n`.
spec fn range(n: nat) -> int
    decreases n,
{
    if n == 0 {
        1
    } else {
        range((n - 1) as nat) * 256
    }
}

proof fn lemma_ranges()
    ensures
        range(2) == 0x1_0000,
        range(4) == 0x1_0000_0000,
        range(16) == 0x1_0000_0000_0000_0000_0000_0000_0000_0000,
{
    reveal_with_fuel(range, 17);
}

proof fn lemma_be_round_trip(x: int, n: nat)
    requires
        0 <= x < range(n),
    ensures
        be_bytes(x, n).len() == n,
        be_value(be_bytes(x, n)) == x,
    decreases n,
{
    if n > 0 {
        assert(0 <= x / 256 < range((n - 1) as nat));
        lemma_be_round_trip(x / 256, (n - 1) as nat);
        assert(be_bytes(x, n).drop_last() =~= be_bytes(x / 256, (n - 1) as nat));
    }
}

proof fn lemma_be_value_bound(bytes: Seq<u8>)
    ensures
        0 <= be_value(bytes) < range(bytes.len()),
    decreases bytes.len(),
{
    if bytes.len() > 0 {
        lemma_be_value_bound(bytes.drop_last());
    }
}

/// Appends the `n` low bytes of a number, most significant first.
fn push_be(out: &mut Vec<u8>, x: u128, n: usize)
    requires
        n <= 16,
        x < range(n as nat),
    ensures
        final(out)@ == old(out)@ + be_bytes(x as int, n as nat),
{
    let mut bytes: Vec<u8> = Vec::new();
    bytes.resize(n, 0);
    let mut rest: u128 = x;
    let mut k: usize = n;
    assert(be_bytes(x as int, n as nat) =~= be_bytes(rest as int, k as nat) + bytes@.skip(
        k as int,
    ));
    while k > 0
        invariant
            k <= n,
            bytes@.len() == n,
            be_bytes(x as int, n as nat) == be_bytes(rest as int, k as nat) + bytes@.skip(k as int),
        decreases k,
    {
        let ghost bytes0 = bytes@;
        k -= 1;
        bytes.set(k, (rest % 256) as u8);
        proof {
            assert(be_bytes(rest as int, (k + 1) as nat) == be_bytes(
                rest as int / 256,
                k as nat,
            ).push((rest % 256) as u8));
            assert(bytes@.skip(k as int) =~= seq![(rest % 256) as u8] + bytes0.skip(k + 1));
            assert(be_bytes(rest as int / 256, k as nat) + bytes@.skip(k as int) =~= be_bytes(
                rest as int,
                (k + 1) as nat,
            ) + bytes0.skip(k + 1));
        }
        rest = rest / 256;
    }
    assert(be_bytes(x as int, n as nat) =~= bytes@);
    out.append(&mut bytes);
}

/// Appends zero bytes.
fn push_zeros(out: &mut Vec<u8>, n: usize)
    ensures
        final(out)@ == old(out)@ + zeros(n as nat),
{
    let ghost before = out@;
    let mut i: usize = 0;
    assert(before + zeros(0) =~= before);
    while i < n
        invariant
            i <= n,
            out@ == before + zeros(i as nat),
        decreases n - i,
    {
        out.push(0);
        i += 1;
        assert(out@ =~= before + zeros(i as nat));
    }
}

/// The layout of an address.
pub fn sockaddr_from_socketaddr(addr: &SocketAddr) -> (bytes: Vec<u8>)
    ensures
        bytes@ == sockaddr_bytes(*addr),
{
    proof {
        lemma_ranges();
    }
    let mut bytes: Vec<u8> = Vec::new();
    match addr.ip {
        IpAddr::V4(v4) => {
            bytes.push(AF_INET);
            bytes.push(0);
            push_be(&mut bytes, addr.port as u128, 2);
            push_be(&mut bytes, v4.bits as u128, 4);
            push_zeros(&mut bytes, 8);
        },
        IpAddr::V6(v6) => {
            bytes.push(AF_INET6);
            bytes.push(0);
            push_be(&mut bytes, addr.port as u128, 2);
            push_zeros(&mut bytes, 4);
            push_be(&mut bytes, v6.bits, 16);
            push_zeros(&mut bytes, 4);
        },
    }
    assert(bytes@ =~= sockaddr_bytes(*addr));
    bytes
}

/// The number that the bytes from `from` up to `to` spell.
fn read_be(bytes: &[u8], from: usize, to: usize) -> (x: u128)
    requires
        from <= to <= bytes@.len(),
        to - from <= 16,
    ensures
        x == be_value(bytes@.subrange(from as int, to as int)),
        x < range((to - from) as nat),
{
    proof {
        lemma_ranges();
    }
    let mut x: u128 = 0;
    let mut i: usize = from;
    while i < to
        invariant
            from <= i <= to <= bytes@.len(),
            to - from <= 16,
            x == be_value(bytes@.subrange(from as int, i as int)),
        decreases to - i,
    {
        let ghost more = bytes@.subrange(from as int, i + 1);
        proof {
            assert(more.drop_last() =~= bytes@.subrange(from as int, i as int));
            lemma_be_value_bound(more);
            lemma_range_monotonic(more.len(), 16);
            lemma_ranges();
        }
        x = x * 256 + bytes[i] as u128;
        i += 1;
    }
    proof {
        lemma_be_value_bound(bytes@.subrange(from as int, to as int));
    }
    x
}

proof fn lemma_range_monotonic(a: nat, b: nat)
    requires
        a <= b,
    ensures
        0 < range(a) <= range(b),
    decreases b,
{
    if a < b {
        lemma_range_monotonic(a, (b - 1) as nat);
    } else if a > 0 {
        lemma_range_monotonic((a - 1) as nat, (a - 1) as nat);
    }
}

/// The address that the kernel wrote, if it is one of IPv4 or IPv6 and complete.
pub fn socketaddr_from_raw(bytes: &[u8]) -> (addr: Option<SocketAddr>)
    ensures
        addr == sockaddr_value(bytes@),
{
    proof {
        lemma_ranges();
    }
    if bytes.len() < 2 || bytes[1] != 0 {
        return None;
    }
    if bytes[0] == AF_INET && bytes.len() >= SOCKADDR_IN_LEN {
        let port: u16 = read_be(bytes, 2, 4) as u16;
        let bits: u32 = read_be(bytes, 4, 8) as u32;
        Some(SocketAddr { ip: IpAddr::V4(Ipv4Addr { bits }), port })
    } else if bytes[0] == AF_INET6 && bytes.len() >= SOCKADDR_IN6_LEN {
        let port: u16 = read_be(bytes, 2, 4) as u16;
        let bits: u128 = read_be(bytes, 8, 24);
        Some(SocketAddr { ip: IpAddr::V6(Ipv6Addr { bits }), port })
    } else {
        None
    }
}

/// An address written for the kernel reads back as itself.
pub proof fn law_sockaddr_round_trip(addr: SocketAddr)
    ensures
        sockaddr_value(sockaddr_bytes(addr)) == Some(addr),
        sockaddr_bytes(addr).len() == (if addr.ip is V4 {
            SOCKADDR_IN_LEN
        } else {
            SOCKADDR_IN6_LEN
        }),
{
    lemma_ranges();
    let bytes = sockaddr_bytes(addr);
    lemma_be_round_trip(addr.port as int, 2);
    match addr.ip {
        IpAddr::V4(v4) => {
            lemma_be_round_trip(v4.bits as int, 4);
            assert(bytes.subrange(2, 4) =~= be_bytes(addr.port as int, 2));
            assert(bytes.subrange(4, 8) =~= be_bytes(v4.bits as int, 4));
        },
        IpAddr::V6(v6) => {
            lemma_be_round_trip(v6.bits as int, 16);
            assert(bytes.subrange(2, 4) =~= be_bytes(addr.port as int, 2));
            assert(bytes.subrange(8, 24) =~= be_bytes(v6.bits as int, 16));
        },
    }
}

/// What an address is to the kernel. IPv4: 16 bytes, family 2, the port with its higher byte first,
/// the four bytes of the address, and zeros.
pub proof fn law_ipv4_address_on_the_wire(addr: SocketAddr)
    requires
        addr.ip is V4,
    ensures
        ({
            let b = sockaddr_bytes(addr);
            let bits = addr.ip->V4_0.bits;
            &&& b.len() == 16
            &&& b[0] == 2 && b[1] == 0
            &&& b[2] == addr.port / 0x100 && b[3] == addr.port % 0x100
            &&& b[4] == bits / 0x100_0000 && b[5] == bits / 0x1_0000 % 0x100
            &&& b[6] == bits / 0x100 % 0x100 && b[7] == bits % 0x100
            &&& forall|i: int| 8 <= i < 16 ==> #[trigger] b[i] == 0
        }),
{
    let b = sockaddr_bytes(addr);
    let bits = addr.ip->V4_0.bits as int;
    let port = be_bytes(addr.port as int, 2);
    let ip = be_bytes(bits, 4);
    lemma_be_byte(addr.port as int, 2, 0);
    lemma_be_byte(addr.port as int, 2, 1);
    lemma_be_byte(bits, 4, 0);
    lemma_be_byte(bits, 4, 1);
    lemma_be_byte(bits, 4, 2);
    lemma_be_byte(bits, 4, 3);
    assert(b[2] == port[0] && b[3] == port[1]);
    assert(b[4] == ip[0] && b[5] == ip[1] && b[6] == ip[2] && b[7] == ip[3]);
    reveal_with_fuel(shifted, 4);
}

/// What an address is to the kernel. IPv6: 28 bytes, family 10, the port with its higher byte
/// first, no flow, the sixteen bytes of the address from the highest on, and no scope.
pub proof fn law_ipv6_address_on_the_wire(addr: SocketAddr, i: int)
    requires
        addr.ip is V6,
        0 <= i < 16,
    ensures
        ({
            let b = sockaddr_bytes(addr);
            let bits = addr.ip->V6_0.bits as int;
            &&& b.len() == 28
            &&& b[0] == 10 && b[1] == 0
            &&& b[2] == addr.port / 0x100 && b[3] == addr.port % 0x100
            &&& b[4] == 0 && b[5] == 0 && b[6] == 0 && b[7] == 0
            &&& b[8 + i] == bits / vstd::arithmetic::power::pow(256, (15 - i) as nat) % 256
            &&& b[24] == 0 && b[25] == 0 && b[26] == 0 && b[27] == 0
        }),
{
    let b = sockaddr_bytes(addr);
    let bits = addr.ip->V6_0.bits as int;
    let port = be_bytes(addr.port as int, 2);
    lemma_be_byte(addr.port as int, 2, 0);
    lemma_be_byte(addr.port as int, 2, 1);
    lemma_be_byte(bits, 16, i);
    assert(b[2] == port[0] && b[3] == port[1]);
    assert(b[8 + i] == be_bytes(bits, 16)[i]);
    lemma_shifted_is_power(bits, (15 - i) as nat);
    reveal_with_fuel(shifted, 2);
}

/// A number without its `n` lowest bytes.
spec fn shifted(x: int, n: nat) -> int
    decreases n,
{
    if n == 0 {
        x
    } else {
        shifted(x / 256, (n - 1) as nat)
    }
}

proof fn lemma_be_byte(x: int, n: nat, i: int)
    requires
        0 <= i < n,
    ensures
        be_bytes(x, n).len() == n,
        be_bytes(x, n)[i] == (shifted(x, (n - 1 - i) as nat) % 256) as u8,
        0 <= shifted(x, (n - 1 - i) as nat) % 256 < 256,
    decreases n,
{
    reveal_with_fuel(be_bytes, 2);
    if n > 1 {
        if i < n - 1 {
            lemma_be_byte(x / 256, (n - 1) as nat, i);
        } else {
            lemma_be_byte(x / 256, (n - 1) as nat, 0);
        }
    }
}

proof fn lemma_shifted_is_power(x: int, n: nat)
    requires
        0 <= x,
    ensures
        shifted(x, n) == x / vstd::arithmetic::power::pow(256, n),
    decreases n,
{
    reveal(vstd::arithmetic::power::pow);
    if n > 0 {
        lemma_shifted_is_power(x / 256, (n - 1) as nat);
        let p = vstd::arithmetic::power::pow(256, (n - 1) as nat);
        vstd::arithmetic::power::lemma_pow_positive(256, (n - 1) as nat);
        vstd::arithmetic::div_mod::lemma_div_denominator(x, 256, p);
    }
}

/// Which bytes are an address: those of family 2 or 10 that are long enough for it. More bytes
/// behind it do not matter.
pub proof fn law_known_families_are_read(bytes: Seq<u8>, more: Seq<u8>)
    ensures
        sockaddr_value(bytes) is Some <==> {
            &&& bytes.len() >= 16 && bytes[0] == 2 && bytes[1] == 0 || bytes.len() >= 28 && bytes[0]
                == 10 && bytes[1] == 0
        },
        sockaddr_value(bytes) is Some ==> sockaddr_value(bytes + more) == sockaddr_value(bytes),
        sockaddr_value(bytes) matches Some(addr) ==> (addr.ip is V4 <==> bytes[0] == 2),
{
    let longer = bytes + more;
    if bytes.len() >= 16 {
        assert(longer[0] == bytes[0] && longer[1] == bytes[1]);
        assert(longer.subrange(2, 4) =~= bytes.subrange(2, 4));
        assert(longer.subrange(4, 8) =~= bytes.subrange(4, 8));
        if bytes.len() >= 28 {
            assert(longer.subrange(8, 24) =~= bytes.subrange(8, 24));
        }
    }
}

} // verus!
