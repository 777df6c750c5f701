//! Which engine tile a received datagram goes to.

use crate::addr::{IpAddr, SocketAddr};
use crate::interface::RecvMeta;
use vstd::prelude::*;

/// Deprecated alias; kept for source compatibility.
pub use self::SrcAddrRouter as FourTupleRouter;

verus! {

/// Routes a received datagram to one of N engine-tile RX queues.
///
/// Both `meta` (source/dest addresses) and `payload` (raw bytes) are available
/// so implementations can use either for routing decisions.
pub trait PacketRouter {
    /// Which engine tiles the router may choose.
    spec fn may_choose(&self, meta: RecvMeta, payload: Seq<u8>, engine_count: int, index: int) -> bool;

    fn route(&self, meta: &RecvMeta, payload: &[u8], engine_count: usize) -> (index: usize)
        requires
            engine_count > 0,
        ensures
            index < engine_count,
            self.may_choose(*meta, payload@, engine_count as int, index as int),
    ;
}

/// Routes by splitmix-mixing the source `(IP, port)`. Same client, same
/// engine tile.
#[derive(Clone, Copy, Debug, Default)]
pub struct SrcAddrRouter;

/// A step of the mix: `x ^ (x >> n)`.
pub open spec fn xorshift(x: u64, n: u64) -> u64 {
    x ^ (x >> n)
}

/// The splitmix finalizer.
pub open spec fn mixed(x: u64) -> u64 {
    let a = xorshift(x, 30).wrapping_mul(0xbf58_476d_1ce4_e5b9);
    let b = xorshift(a, 27).wrapping_mul(0x94d0_49bb_1331_11eb);
    xorshift(b, 31)
}

pub fn mix64(x: u64) -> (y: u64)
    ensures
        y == mixed(x),
{
    let a: u64 = (x ^ (x >> 30)).wrapping_mul(0xbf58_476d_1ce4_e5b9);
    let b: u64 = (a ^ (a >> 27)).wrapping_mul(0x94d0_49bb_1331_11eb);
    b ^ (b >> 31)
}

/// The part of a source address that is mixed: an IPv4 address as it is, and of an IPv6 address
/// the groups 0, 1, 4 and 5.
pub open spec fn ip_key(ip: IpAddr) -> int {
    match ip {
        IpAddr::V4(v4) => v4.bits as int,
        IpAddr::V6(v6) => ((v6.bits / 0x1_0000_0000_0000_0000_0000_0000_0000) % 0x1_0000)
            * 0x1_0000_0000_0000 + ((v6.bits / 0x1_0000_0000_0000_0000_0000_0000) % 0x1_0000)
            * 0x1_0000_0000 + ((v6.bits / 0x1_0000_0000_0000) % 0x1_0000) * 0x1_0000 + (v6.bits
            / 0x1_0000_0000) % 0x1_0000,
    }
}

/// What is mixed of a source: its address, with the port in the bits above an IPv4 address.
pub open spec fn source_key(src: SocketAddr) -> u64 {
    (ip_key(src.ip) as u64) ^ ((src.port as u64) << 32)
}

impl PacketRouter for SrcAddrRouter {
    open spec fn may_choose(
        &self,
        meta: RecvMeta,
        payload: Seq<u8>,
        engine_count: int,
        index: int,
    ) -> bool {
        index == mixed(source_key(meta.src)) as int % engine_count
    }

    fn route(&self, meta: &RecvMeta, _payload: &[u8], engine_count: usize) -> (index: usize) {
        let ip: u64 = match meta.src.ip {
            IpAddr::V4(v4) => v4.bits as u64,
            IpAddr::V6(v6) => ((v6.bits / 0x1_0000_0000_0000_0000_0000_0000_0000) % 0x1_0000) as u64
                * 0x1_0000_0000_0000 + ((v6.bits / 0x1_0000_0000_0000_0000_0000_0000)
                % 0x1_0000) as u64 * 0x1_0000_0000 + ((v6.bits / 0x1_0000_0000_0000)
                % 0x1_0000) as u64 * 0x1_0000 + ((v6.bits / 0x1_0000_0000) % 0x1_0000) as u64,
        };
        // The port lies outside the IPv4 bit range to avoid (ip ^ port) collisions.
        let h: u64 = ip ^ ((meta.src.port as u64) << 32);
        (mix64(h) % (engine_count as u64)) as usize
    }
}

/// The same client reaches the same engine tile, whatever it sends and wherever to.
pub proof fn law_same_client_same_tile(
    router: SrcAddrRouter,
    a: RecvMeta,
    b: RecvMeta,
    payload_a: Seq<u8>,
    payload_b: Seq<u8>,
    engine_count: int,
    i: int,
    j: int,
)
    requires
        a.src == b.src,
        router.may_choose(a, payload_a, engine_count, i),
        router.may_choose(b, payload_b, engine_count, j),
    ensures
        i == j,
{
}

/// Different IPv4 sources are mixed from different keys.
pub proof fn law_ipv4_sources_distinct(a: SocketAddr, b: SocketAddr)
    requires
        a.ip is V4,
        b.ip is V4,
        source_key(a) == source_key(b),
    ensures
        a == b,
{
    let x = a.ip->V4_0.bits;
    let y = b.ip->V4_0.bits;
    let p = a.port;
    let q = b.port;
    assert((x as u64) ^ ((p as u64) << 32) == (y as u64) ^ ((q as u64) << 32) ==> x == y && p == q)
        by (bit_vector);
}

/// The mix is the finalizer of splitmix64: two rounds of a xor-shift and a multiplication modulo
/// 2^64, and a last xor-shift.
pub proof fn law_mix_is_splitmix(x: u64)
    ensures
        ({
            let a = ((x ^ x >> 30) as int * 0xbf58_476d_1ce4_e5b9) % 0x1_0000_0000_0000_0000;
            let a = a as u64;
            let b = ((a ^ a >> 27) as int * 0x94d0_49bb_1331_11eb) % 0x1_0000_0000_0000_0000;
            let b = b as u64;
            mixed(x) == b ^ b >> 31
        }),
{
}

/// Mixing loses nothing: different keys stay different.
pub proof fn law_mix_loses_nothing(x: u64, y: u64)
    requires
        mixed(x) == mixed(y),
    ensures
        x == y,
{
    let a = xorshift(x, 30).wrapping_mul(0xbf58_476d_1ce4_e5b9);
    let b = xorshift(y, 30).wrapping_mul(0xbf58_476d_1ce4_e5b9);
    let c = xorshift(a, 27).wrapping_mul(0x94d0_49bb_1331_11eb);
    let d = xorshift(b, 27).wrapping_mul(0x94d0_49bb_1331_11eb);
    assert(c ^ c >> 31 == d ^ d >> 31 ==> c == d) by (bit_vector);
    lemma_odd_factor(xorshift(a, 27), xorshift(b, 27), 0x94d0_49bb_1331_11eb, 0x3196_42b2_d24d_8ec3);
    assert(a ^ a >> 27 == b ^ b >> 27 ==> a == b) by (bit_vector);
    lemma_odd_factor(xorshift(x, 30), xorshift(y, 30), 0xbf58_476d_1ce4_e5b9, 0x96de_1b17_3f11_9089);
    assert(x ^ x >> 30 == y ^ y >> 30 ==> x == y) by (bit_vector);
}

/// A factor that has an inverse modulo 2^64 keeps numbers apart.
proof fn lemma_odd_factor(x: u64, y: u64, factor: u64, inverse: u64)
    requires
        factor * inverse % 0x1_0000_0000_0000_0000 == 1,
        x.wrapping_mul(factor) == y.wrapping_mul(factor),
    ensures
        x == y,
{
    lemma_undone(x, factor, inverse);
    lemma_undone(y, factor, inverse);
}

proof fn lemma_undone(x: u64, factor: u64, inverse: u64)
    requires
        factor * inverse % 0x1_0000_0000_0000_0000 == 1,
    ensures
        x.wrapping_mul(factor) * inverse % 0x1_0000_0000_0000_0000 == x,
{
    let m = 0x1_0000_0000_0000_0000int;
    let product = x * factor;
    assert(x.wrapping_mul(factor) == product % m);
    vstd::arithmetic::div_mod::lemma_mul_mod_noop_left(product, inverse as int, m);
    assert(product * inverse == x * (factor * inverse)) by (nonlinear_arith)
        requires
            product == x * factor,
    ;
    vstd::arithmetic::div_mod::lemma_mul_mod_noop_right(x as int, factor * inverse, m);
    vstd::arithmetic::div_mod::lemma_small_mod(x as nat, m as nat);
}

/// A client is told by its address and its port. The port counts in units of 2^32, above an IPv4
/// address; of an IPv6 address, groups 0, 1, 4 and 5 count.
pub proof fn law_client_is_address_and_port(
    v4: u32,
    port: u16,
    g: Seq<u16>,
    bits: u128,
)
    requires
        g.len() == 8,
        bits == g[0] * 0x1_0000_0000_0000_0000_0000_0000_0000 + g[1]
            * 0x1_0000_0000_0000_0000_0000_0000 + g[2] * 0x1_0000_0000_0000_0000_0000 + g[3]
            * 0x1_0000_0000_0000_0000 + g[4] * 0x1_0000_0000_0000 + g[5] * 0x1_0000_0000 + g[6]
            * 0x1_0000 + g[7],
    ensures
        source_key(SocketAddr { ip: IpAddr::V4(crate::addr::Ipv4Addr { bits: v4 }), port }) == port
            * 0x1_0000_0000 + v4,
        source_key(SocketAddr { ip: IpAddr::V6(crate::addr::Ipv6Addr { bits }), port }) == ((g[0]
            * 0x1_0000_0000_0000 + g[1] * 0x1_0000_0000 + g[4] * 0x1_0000 + g[5]) as u64) ^ ((port
            * 0x1_0000_0000) as u64),
{
    assert((v4 as u64) ^ ((port as u64) << 32) == (port as u64) * 0x1_0000_0000u64 + v4 as u64
        && (port as u64) << 32 == (port as u64) * 0x1_0000_0000u64) by (bit_vector);
    let b = bits as int;
    let g0 = g[0] as int;
    let g1 = g[1] as int;
    let g4 = g[4] as int;
    let g5 = g[5] as int;
    let t0 = 0x1_0000_0000_0000_0000_0000_0000_0000int;
    let t1 = 0x1_0000_0000_0000_0000_0000_0000int;
    let t4 = 0x1_0000_0000_0000int;
    let t5 = 0x1_0000_0000int;
    let low0 = b - g0 * t0;
    lemma_group(b, 0, g0, low0, t0);
    lemma_group(b, g0, g1, low0 - g1 * t1, t1);
    let high4 = ((g0 * 0x1_0000 + g1) * 0x1_0000 + g[2]) * 0x1_0000 + g[3];
    lemma_group(b, high4, g4, g5 * t5 + g[6] * 0x1_0000 + g[7], t4);
    lemma_group(b, high4 * 0x1_0000 + g4, g5, g[6] * 0x1_0000 + g[7], t5);
}

/// The group of a number that stands at a unit.
proof fn lemma_group(b: int, high: int, group: int, low: int, unit: int)
    requires
        0 < unit,
        0 <= low < unit,
        0 <= group < 0x1_0000,
        b == (high * 0x1_0000 + group) * unit + low,
    ensures
        (b / unit) % 0x1_0000 == group,
{
    let q = high * 0x1_0000 + group;
    vstd::arithmetic::div_mod::lemma_fundamental_div_mod_converse(b, unit, q, low);
    vstd::arithmetic::div_mod::lemma_fundamental_div_mod_converse(q, 0x1_0000, high, group);
}

/// Every client has one engine tile, and it is one of those that there are.
pub proof fn law_every_client_has_a_tile(
    router: SrcAddrRouter,
    meta: RecvMeta,
    payload: Seq<u8>,
    engine_count: int,
    index: int,
)
    requires
        engine_count > 0,
        router.may_choose(meta, payload, engine_count, index),
    ensures
        0 <= index < engine_count,
        engine_count == 1 ==> index == 0,
{
}

} // verus!
