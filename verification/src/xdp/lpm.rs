//! IPv4 longest-prefix match over a nibble trie.

use crate::addr::Ipv4Addr;
use crate::xdp::route::Route;
use vstd::prelude::*;

verus! {

pub const EMPTY_SLOT: u32 = u32::MAX;

const ROOT_NODE_INDEX: u32 = 0;

const NIBBLE_BITS: u8 = 4;

const IPV4_NIBBLES: usize = 8;

const CHILDREN_PER_NODE: usize = 16;

/// The leading `n` bits of `bits`.
pub open spec fn leading_bits(bits: u32, n: u64) -> u64 {
    (bits as u64) >> ((32 - n) as u64)
}

/// Whether `addr` lies in the network of the first `n` bits of `net`.
pub open spec fn in_network(net: u32, n: u8, addr: u32) -> bool {
    leading_bits(net, n as u64) == leading_bits(addr, n as u64)
}

/// A route's network address: the destination, or zero for a route without one.
pub open spec fn route_network(route: Route<Ipv4Addr>) -> u32 {
    match route.destination {
        None => 0,
        Some(addr) => addr.bits,
    }
}

/// A route's prefix length; anything past 32 counts as 32.
pub open spec fn route_prefix_len(route: Route<Ipv4Addr>) -> u8 {
    if route.dst_len <= 32 {
        route.dst_len
    } else {
        32
    }
}

/// Whether `addr` lies in the route's network.
pub open spec fn route_matches(route: Route<Ipv4Addr>, addr: u32) -> bool {
    in_network(route_network(route), route_prefix_len(route), addr)
}

/// Whether route `i` is preferred to route `j`: the longer prefix, and among equals the earlier.
pub open spec fn route_preferred(routes: Seq<Route<Ipv4Addr>>, i: int, j: int) -> bool {
    ||| route_prefix_len(routes[i]) > route_prefix_len(routes[j])
    ||| route_prefix_len(routes[i]) == route_prefix_len(routes[j]) && i <= j
}

/// Whether `found` is the answer to a lookup of `addr` in `routes`: the index of the matching
/// route preferred to all other matching ones, or nothing when none matches.
pub open spec fn is_best_route(
    routes: Seq<Route<Ipv4Addr>>,
    addr: u32,
    found: Option<u32>,
) -> bool {
    match found {
        None => forall|j: int| 0 <= j < routes.len() ==> !#[trigger] route_matches(routes[j], addr),
        Some(i) => {
            &&& i < routes.len()
            &&& route_matches(routes[i as int], addr)
            &&& forall|j: int|
                0 <= j < routes.len() && #[trigger] route_matches(routes[j], addr)
                    ==> route_preferred(routes, i as int, j)
        },
    }
}

/// Number of ones among the low `n` bits of `x`.
pub open spec fn ones_below(x: u16, n: nat) -> nat
    decreases n,
{
    if n == 0 {
        0
    } else {
        ones_below(x, (n - 1) as nat) + if has_bit(x, (n - 1) as u16) {
            1nat
        } else {
            0nat
        }
    }
}

/// Whether bit `i` of `x` is set.
pub open spec fn has_bit(x: u16, i: u16) -> bool {
    x & (1u16 << i) != 0
}

/// `u16::count_ones`: the number of ones in the binary representation.
pub assume_specification[ u16::count_ones ](x: u16) -> (n: u32)
    ensures
        n == ones_below(x, 16),
;

/// The nibble of an address at a depth, most significant first.
pub open spec fn nibble_of(addr_bits: u32, depth: u64) -> u64 {
    leading_bits(addr_bits, (4 * depth + 4) as u64) & 0xf
}

fn nibble_at(addr_bits: u32, depth: usize) -> (nibble: u8)
    requires
        depth < IPV4_NIBBLES,
    ensures
        nibble == nibble_of(addr_bits, depth as u64),
        nibble < 16,
{
    let shift: u32 = 28u32 - (depth as u32) * 4;
    let depth64: u64 = depth as u64;
    let nibble: u8 = ((addr_bits >> shift) & 0x0f) as u8;
    assert(nibble == nibble_of(addr_bits, depth64) && nibble < 16) by (bit_vector)
        requires
            depth64 < 8,
            shift == 28 - depth64 * 4,
            nibble == ((addr_bits >> shift) & 0x0f) as u8,
    ;
    nibble
}

/// A trie node's position: its depth in nibbles, and those nibbles as a number.
pub type Position = (u64, u64);

/// The position of `addr` at a depth.
spec fn position_of(addr: u32, depth: u64) -> Position {
    (depth, leading_bits(addr, (4 * depth) as u64))
}

/// The depth at which a prefix of `n` bits is stored.
spec fn prefix_depth(n: u8) -> u64 {
    ((n + 3) / 4) as u64
}

/// Whether a position lies in the trie of 32-bit addresses.
spec fn valid_position(at: Position) -> bool {
    at.0 <= 8 && at.1 < 1u64 << ((4 * at.0) as u64)
}

proof fn lemma_child_position(at: Position, nibble: u64)
    requires
        valid_position(at),
        at.0 < 8,
        nibble < 16,
    ensures
        at.1 * 16 + nibble <= u64::MAX,
        valid_position(((at.0 + 1) as u64, (at.1 * 16 + nibble) as u64)),
{
    let (d, p) = at;
    let s = (4 * d) as u64;
    assert(p < 0x1_0000_0000 && p * 16 + nibble < 1u64 << ((s + 4) as u64)) by (bit_vector)
        requires
            p < 1u64 << s,
            s < 32,
            nibble < 16,
    ;
}

/// Whether a route is stored at a position.
spec fn stored_at(route: Route<Ipv4Addr>, at: Position) -> bool {
    let n = route_prefix_len(route);
    &&& at.0 == prefix_depth(n)
    &&& at.1 >> ((4 * at.0 - n) as u64) == leading_bits(route_network(route), n as u64)
}

struct BuilderNode {
    value_idx: u32,
    value_prefix_len: u8,
    children: [u32; 16],
}

impl BuilderNode {
    fn new() -> (node: BuilderNode)
        ensures
            node.value_idx == EMPTY_SLOT,
            forall|n: int| 0 <= n < 16 ==> node.children[n] == EMPTY_SLOT,
    {
        BuilderNode { value_idx: EMPTY_SLOT, value_prefix_len: 0, children: [EMPTY_SLOT; 16] }
    }

    /// The link by nibble `n`.
    spec fn link(self, n: int) -> u32 {
        self.children[n]
    }

    /// Number of children among the first `n` nibbles.
    spec fn count(self, n: nat) -> nat
        decreases n,
    {
        if n == 0 {
            0
        } else {
            self.count((n - 1) as nat) + if self.children[n - 1] != EMPTY_SLOT {
                1nat
            } else {
                0nat
            }
        }
    }

    /// Whether the value is the route preferred among the first `k` routes stored at `at`.
    spec fn holds_best(self, routes: Seq<Route<Ipv4Addr>>, k: int, at: Position) -> bool {
        if self.value_idx == EMPTY_SLOT {
            forall|j: int| 0 <= j < k ==> !#[trigger] stored_at(routes[j], at)
        } else {
            &&& self.value_idx < k
            &&& stored_at(routes[self.value_idx as int], at)
            &&& self.value_prefix_len == route_prefix_len(routes[self.value_idx as int])
            &&& forall|j: int|
                0 <= j < k && #[trigger] stored_at(routes[j], at) ==> route_preferred(
                    routes,
                    self.value_idx as int,
                    j,
                )
        }
    }
}

/// Number of children over all nodes.
spec fn total_children(nodes: Seq<BuilderNode>) -> nat
    decreases nodes.len(),
{
    if nodes.len() == 0 {
        0
    } else {
        total_children(nodes.drop_last()) + nodes.last().count(16)
    }
}

/// Whether some node has the position.
spec fn has_position(positions: Seq<Position>, at: Position) -> bool {
    exists|i: int| 0 <= i < positions.len() && #[trigger] positions[i] == at
}

/// The position of a node's child.
spec fn child_position(at: Position, nibble: int) -> Position {
    ((at.0 + 1) as u64, (at.1 * 16 + nibble) as u64)
}

/// Every link leads to the node one nibble further.
spec fn links_sound(nodes: Seq<BuilderNode>, positions: Seq<Position>) -> bool {
    forall|i: int, n: int|
        0 <= i < nodes.len() && 0 <= n < 16 && (#[trigger] nodes[i].children[n]) != EMPTY_SLOT ==> {
            let c = nodes[i].children[n] as int;
            &&& c < nodes.len()
            &&& positions[i].0 < 8
            &&& positions[c] == child_position(positions[i], n)
        }
}

/// Every node one nibble further is linked.
spec fn links_complete(nodes: Seq<BuilderNode>, positions: Seq<Position>) -> bool {
    forall|i: int, n: int, c: int|
        #![trigger nodes[i].children[n], positions[c]]
        0 <= i < nodes.len() && 0 <= n < 16 && 0 <= c < nodes.len() && positions[i].0 < 8
            && positions[c] == child_position(positions[i], n) ==> nodes[i].children[n] == c
}

/// No two nodes share a position.
spec fn positions_distinct(positions: Seq<Position>) -> bool {
    forall|i: int, j: int|
        0 <= i < j < positions.len() ==> #[trigger] positions[i] != #[trigger] positions[j]
}

/// The parent position of every node but the root has a node.
spec fn parents_exist(positions: Seq<Position>) -> bool {
    forall|c: int|
        0 <= c < positions.len() && (#[trigger] positions[c]).0 > 0 ==> has_position(
            positions,
            ((positions[c].0 - 1) as u64, positions[c].1 / 16),
        )
}

/// The nodes form a trie in which node `i` has position `positions[i]`.
#[verifier::opaque]
spec fn is_trie(nodes: Seq<BuilderNode>, positions: Seq<Position>) -> bool {
    &&& 1 <= nodes.len() == positions.len()
    &&& nodes.len() <= EMPTY_SLOT
    &&& positions[0] == (0u64, 0u64)
    &&& forall|i: int| 0 <= i < positions.len() ==> valid_position(#[trigger] positions[i])
    &&& positions_distinct(positions)
    &&& links_sound(nodes, positions)
    &&& links_complete(nodes, positions)
    &&& parents_exist(positions)
    &&& total_children(nodes) == nodes.len() - 1
}

/// Hanging a fresh node under a free link keeps the trie.
proof fn lemma_trie_grows(
    nodes: Seq<BuilderNode>,
    positions: Seq<Position>,
    i: int,
    n: int,
    parent: BuilderNode,
    fresh: BuilderNode,
)
    requires
        is_trie(nodes, positions),
        nodes.len() < EMPTY_SLOT,
        0 <= i < nodes.len(),
        0 <= n < 16,
        positions[i].0 < 8,
        nodes[i].children[n] == EMPTY_SLOT,
        forall|l: int| 0 <= l < 16 && l != n ==> parent.children[l] == nodes[i].children[l],
        parent.children[n] == nodes.len(),
        forall|l: int| 0 <= l < 16 ==> fresh.children[l] == EMPTY_SLOT,
    ensures
        is_trie(
            nodes.push(fresh).update(i, parent),
            positions.push(child_position(positions[i], n)),
        ),
        !has_position(positions, child_position(positions[i], n)),
{
    reveal(is_trie);
    let at = child_position(positions[i], n);
    let nodes1 = nodes.push(fresh).update(i, parent);
    let positions1 = positions.push(at);
    lemma_child_position(positions[i], n as u64);
    assert(!has_position(positions, at)) by {
        if has_position(positions, at) {
            let c = choose|c: int| 0 <= c < positions.len() && #[trigger] positions[c] == at;
            assert(nodes[i].children[n] == c);
        }
    }
    assert(positions_distinct(positions1)) by {
        assert forall|a: int, b: int| 0 <= a < b < positions1.len() implies #[trigger] positions1[a]
            != #[trigger] positions1[b] by {
            if b == positions.len() {
                assert(positions[a] != at);
            }
        }
    }
    assert(links_sound(nodes1, positions1)) by {
        assert forall|a: int, m: int|
            0 <= a < nodes1.len() && 0 <= m < 16 && (#[trigger] nodes1[a].children[m])
                != EMPTY_SLOT implies {
            let c = nodes1[a].children[m] as int;
            &&& c < nodes1.len()
            &&& positions1[a].0 < 8
            &&& positions1[c] == child_position(positions1[a], m)
        } by {
            if a == i && m == n {
            } else if a < nodes.len() {
                assert(nodes1[a].children[m] == nodes[a].children[m]);
            }
        }
    }
    assert(links_complete(nodes1, positions1)) by {
        assert forall|a: int, m: int, c: int|
            #![trigger nodes1[a].children[m], positions1[c]]
            0 <= a < nodes1.len() && 0 <= m < 16 && 0 <= c < nodes1.len() && positions1[a].0 < 8
                && positions1[c] == child_position(
                positions1[a],
                m,
            ) implies nodes1[a].children[m] == c by {
            lemma_child_position(positions1[a], m as u64);
            if c == nodes.len() {
                if a == nodes.len() {
                } else {
                    assert(positions1[a] == positions[a]);
                    assert(positions[a].1 * 16 + m == positions[i].1 * 16 + n);
                    assert(positions[a] == positions[i]);
                    assert(a == i);
                }
            } else if a == nodes.len() {
                // A child of the fresh node would have an older parent at the same position.
                assert(positions[c] == child_position(at, m));
                assert(at.1 * 16 + m <= u64::MAX);
                assert(has_position(positions, at)) by {
                    assert(((positions[c].0 - 1) as u64, positions[c].1 / 16) == at);
                }
            } else {
                assert(positions[c] == child_position(positions[a], m));
                assert(nodes[a].children[m] == c);
            }
        }
    }
    assert(parents_exist(positions1)) by {
        assert forall|c: int|
            0 <= c < positions1.len() && (#[trigger] positions1[c]).0 > 0 implies has_position(
            positions1,
            ((positions1[c].0 - 1) as u64, positions1[c].1 / 16),
        ) by {
            if c == positions.len() {
                assert(positions1[i] == ((at.0 - 1) as u64, at.1 / 16));
            } else {
                assert(positions1[c] == positions[c]);
                let up = ((positions[c].0 - 1) as u64, positions[c].1 / 16);
                assert(has_position(positions, up));
                let j = choose|j: int| 0 <= j < positions.len() && #[trigger] positions[j] == up;
                assert(positions1[j] == up);
            }
        }
    }
    lemma_count_empty(fresh, 16);
    lemma_count_update(nodes[i], parent, n as nat, 16);
    lemma_total_update(nodes.push(fresh), i, parent);
    assert(nodes.push(fresh).drop_last() =~= nodes);
    assert(nodes.push(fresh)[i] == nodes[i]);
}

/// The trie holds the first `k` routes.
spec fn holds_routes(
    nodes: Seq<BuilderNode>,
    positions: Seq<Position>,
    routes: Seq<Route<Ipv4Addr>>,
    k: int,
) -> bool {
    &&& forall|i: int|
        0 <= i < nodes.len() ==> (#[trigger] nodes[i]).holds_best(routes, k, positions[i])
    &&& covers_routes(positions, routes, k)
}

/// Every position at which one of the first `k` routes is stored has a node.
spec fn covers_routes(positions: Seq<Position>, routes: Seq<Route<Ipv4Addr>>, k: int) -> bool {
    forall|j: int, at: Position|
        0 <= j < k && #[trigger] stored_at(routes[j], at) ==> has_position(positions, at)
}

proof fn lemma_total_update(nodes: Seq<BuilderNode>, i: int, node: BuilderNode)
    requires
        0 <= i < nodes.len(),
    ensures
        total_children(nodes.update(i, node)) == total_children(nodes) - nodes[i].count(16)
            + node.count(16),
    decreases nodes.len(),
{
    let updated = nodes.update(i, node);
    if i == nodes.len() - 1 {
        assert(updated.drop_last() =~= nodes.drop_last());
    } else {
        lemma_total_update(nodes.drop_last(), i, node);
        assert(updated.drop_last() =~= nodes.drop_last().update(i, node));
    }
}

proof fn lemma_count_update(a: BuilderNode, b: BuilderNode, n: nat, m: nat)
    requires
        n < 16,
        m <= 16,
        a.children[n as int] == EMPTY_SLOT,
        b.children[n as int] != EMPTY_SLOT,
        forall|l: int| 0 <= l < 16 && l != n ==> a.children[l] == b.children[l],
    ensures
        b.count(m) == a.count(m) + if n < m {
            1nat
        } else {
            0nat
        },
    decreases m,
{
    if m > 0 {
        lemma_count_update(a, b, n, (m - 1) as nat);
    }
}

proof fn lemma_count_empty(a: BuilderNode, m: nat)
    requires
        m <= 16,
        forall|l: int| 0 <= l < 16 ==> a.children[l] == EMPTY_SLOT,
    ensures
        a.count(m) == 0,
    decreases m,
{
    if m > 0 {
        lemma_count_empty(a, (m - 1) as nat);
    }
}

struct Builder {
    nodes: Vec<BuilderNode>,
    positions: Ghost<Seq<Position>>,
}

impl Builder {
    spec fn wf(self) -> bool {
        &&& is_trie(self.nodes@, self.positions@)
        &&& 1 <= self.nodes@.len() == self.positions@.len() <= EMPTY_SLOT
        &&& self.positions@[0] == (0u64, 0u64)
    }

    spec fn holds(self, routes: Seq<Route<Ipv4Addr>>, k: int) -> bool {
        holds_routes(self.nodes@, self.positions@, routes, k)
    }

    fn new() -> (builder: Builder)
        ensures
            builder.wf(),
            builder.nodes@.len() == 1,
            forall|routes: Seq<Route<Ipv4Addr>>| #[trigger] builder.holds(routes, 0),
    {
        let root = BuilderNode::new();
        proof {
            lemma_count_empty(root, 16);
        }
        let mut nodes: Vec<BuilderNode> = Vec::new();
        nodes.push(root);
        proof {
            assert(nodes@.drop_last() =~= Seq::<BuilderNode>::empty());
            reveal_with_fuel(total_children, 2);
        }
        let ghost positions = seq![(0u64, 0u64)];
        assert(valid_position(positions[0])) by {
            assert(0u64 < 1u64 << 0u64) by (bit_vector);
        }
        proof {
            reveal(is_trie);
        }
        Builder { nodes, positions: Ghost(positions) }
    }

    fn child_or_insert(&mut self, node_idx: u32, nibble: u8) -> (child: u32)
        requires
            old(self).wf(),
            node_idx < old(self).nodes@.len(),
            old(self).positions@[node_idx as int].0 < 8,
            old(self).nodes@.len() < EMPTY_SLOT,
            nibble < 16,
        ensures
            final(self).wf(),
            grown(*old(self), *final(self)),
            final(self).nodes@.len() <= old(self).nodes@.len() + 1,
            final(self).nodes@.len() > old(self).nodes@.len() ==> child == old(self).nodes@.len(),
            child < final(self).nodes@.len(),
            final(self).positions@[child as int] == child_position(
                old(self).positions@[node_idx as int],
                nibble as int,
            ),
    {
        proof {
            reveal(is_trie);
        }
        let child_idx: u32 = self.nodes[node_idx as usize].children[nibble as usize];
        if child_idx != EMPTY_SLOT {
            return child_idx;
        }
        let child_idx: u32 = self.nodes.len() as u32;
        let ghost nodes0 = self.nodes@;
        let ghost positions0 = self.positions@;
        let fresh = BuilderNode::new();
        let ghost g = fresh;
        self.nodes.push(fresh);
        self.nodes[node_idx as usize].children[nibble as usize] = child_idx;
        proof {
            let parent = self.nodes@[node_idx as int];
            lemma_trie_grows(nodes0, positions0, node_idx as int, nibble as int, parent, g);
            assert(self.nodes@ =~= nodes0.push(g).update(node_idx as int, parent));
        }
        self.positions = Ghost(
            self.positions@.push(child_position(self.positions@[node_idx as int], nibble as int)),
        );
        child_idx
    }

    fn set_value(&mut self, node_idx: u32, route_idx: u32, prefix_len: u8)
        requires
            old(self).wf(),
            node_idx < old(self).nodes@.len(),
        ensures
            final(self).wf(),
            final(self).positions@ == old(self).positions@,
            final(self).nodes@.len() == old(self).nodes@.len(),
            forall|i: int|
                0 <= i < old(self).nodes@.len() && i != node_idx ==> #[trigger] final(self).nodes@[i]
                    == old(self).nodes@[i],
            value_offered(
                old(self).nodes@[node_idx as int],
                final(self).nodes@[node_idx as int],
                route_idx as int,
                prefix_len,
            ),
    {
        proof {
            reveal(is_trie);
        }
        let ghost nodes0 = self.nodes@;
        let i: usize = node_idx as usize;
        if self.nodes[i].value_idx == EMPTY_SLOT || prefix_len > self.nodes[i].value_prefix_len {
            self.nodes[i].value_idx = route_idx;
            self.nodes[i].value_prefix_len = prefix_len;
            proof {
                let node = self.nodes@[i as int];
                assert(self.nodes@ =~= nodes0.update(i as int, node));
                lemma_total_update(nodes0, i as int, node);
                lemma_count_same(nodes0[i as int], node, 16);
                assert forall|a: int, n: int| 0 <= a < nodes0.len() && 0 <= n < 16 implies (
                #[trigger] self.nodes@[a].children[n]) == nodes0[a].children[n] by {}
            }
        }
    }

    #[verifier::rlimit(30)]
    fn insert_route(
        &mut self,
        route_idx: u32,
        route: &Route<Ipv4Addr>,
        Ghost(routes): Ghost<Seq<Route<Ipv4Addr>>>,
    )
        requires
            old(self).wf(),
            old(self).holds(routes, route_idx as int),
            route_idx < routes.len(),
            routes[route_idx as int] == *route,
            old(self).nodes@.len() + 15 <= EMPTY_SLOT,
            route_idx < EMPTY_SLOT,
        ensures
            final(self).wf(),
            final(self).holds(routes, route_idx + 1),
            final(self).nodes@.len() <= old(self).nodes@.len() + 15,
    {
        let network_bits: u32 = match &route.destination {
            None => 0,
            Some(addr) => addr.to_bits(),
        };
        let prefix_len: u8 = if route.dst_len < 32 {
            route.dst_len
        } else {
            32
        };
        let full_nibbles: usize = (prefix_len / NIBBLE_BITS) as usize;
        let partial_bits: u8 = prefix_len % NIBBLE_BITS;
        let mut node_idx: u32 = ROOT_NODE_INDEX;
        let ghost k = route_idx as int;
        let ghost start = *self;
        proof {
            assert(leading_bits(network_bits, 0) == 0) by (bit_vector);
        }
        let mut depth: usize = 0;
        while depth < full_nibbles
            invariant
                depth <= full_nibbles <= 8,
                start.wf(),
                self.wf(),
                grown(start, *self),
                self.nodes@.len() <= start.nodes@.len() + depth,
                start.nodes@.len() + 15 <= EMPTY_SLOT,
                node_idx < self.nodes@.len(),
                self.positions@[node_idx as int] == position_of(network_bits, depth as u64),
            decreases full_nibbles - depth,
        {
            let nibble: u8 = nibble_at(network_bits, depth);
            proof {
                lemma_position_step(network_bits, depth as u64);
            }
            let ghost before = *self;
            node_idx = self.child_or_insert(node_idx, nibble);
            proof {
                lemma_grown_trans(start, before, *self);
            }
            depth += 1;
        }
        proof {
            lemma_holds_grown(start, *self, routes, k);
        }
        if partial_bits == 0 {
            let ghost before = *self;
            self.set_value(node_idx, route_idx, prefix_len);
            proof {
                let at = position_of(network_bits, full_nibbles as u64);
                lemma_stored_full(*route, at);
                lemma_full_set(before, *self, routes, k, node_idx as int, at);
            }
            return ;
        }
        let base_nibble: u8 = nibble_at(network_bits, full_nibbles);
        let fanout_bits: u8 = NIBBLE_BITS.saturating_sub(partial_bits);
        let range_start: u8 = (base_nibble >> fanout_bits) << fanout_bits;
        let range_len: usize = 1usize << fanout_bits;
        proof {
            lemma_fanout_range(base_nibble, fanout_bits, range_start, range_len);
        }
        let end: usize = (range_start as usize).saturating_add(range_len);
        let mut nibble: usize = range_start as usize;
        let ghost at = position_of(network_bits, full_nibbles as u64);
        let ghost grown_len = self.nodes@.len();
        proof {
            assert forall|p: Position| #[trigger] stored_at(*route, p) implies p.0 == at.0 + 1 && p
                == child_position(at, (p.1 % 16) as int) && range_start <= p.1 % 16 < end by {
                lemma_partial_position(network_bits, prefix_len, full_nibbles as u64, base_nibble, range_start, p.1);
            }
            assert forall|n: int| range_start <= n < end implies stored_at(*route, #[trigger] child_position(at, n)) by {
                lemma_partial_child(network_bits, prefix_len, full_nibbles as u64, base_nibble, range_start, n as u64);
            }
            lemma_valid_position_of(network_bits, full_nibbles as u64);
        }
        while nibble < end
            invariant
                range_start <= nibble <= end <= 16,
                end - range_start <= 8,
                self.wf(),
                node_idx < self.nodes@.len(),
                self.positions@[node_idx as int] == at,
                at.0 < 8,
                valid_position(at),
                self.nodes@.len() <= grown_len + (nibble - range_start),
                grown_len <= start.nodes@.len() + 7,
                start.nodes@.len() + 15 <= EMPTY_SLOT,
                k == route_idx,
                k < routes.len(),
                k < EMPTY_SLOT,
                routes[k] == *route,
                prefix_len == route_prefix_len(*route),
                partly_holds(*self, routes, k, nibble as int),
                forall|p: Position| #[trigger] stored_at(*route, p) ==> p.0 == at.0 + 1 && p == child_position(at, (p.1 % 16) as int) && range_start <= p.1 % 16 < end,
                forall|n: int| range_start <= n < end ==> stored_at(*route, #[trigger] child_position(at, n)),
                forall|n: int| range_start <= n < nibble ==> has_position(self.positions@, #[trigger] child_position(at, n)),
            decreases end - nibble,
        {
            let ghost before = *self;
            let child_idx: u32 = self.child_or_insert(node_idx, nibble as u8);
            let ghost middle = *self;
            proof {
                lemma_child_position(at, nibble as u64);
                lemma_partly_grown(before, middle, routes, k, nibble as int);
            }
            self.set_value(child_idx, route_idx, prefix_len);
            proof {
                lemma_partial_set(middle, *self, routes, k, child_idx as int, at, nibble as int);
                let here = child_position(at, nibble as int);
                assert forall|n: int| range_start <= n < nibble + 1 implies has_position(
                    self.positions@,
                    #[trigger] child_position(at, n),
                ) by {
                    if n == nibble {
                        assert(self.positions@[child_idx as int] == here);
                    } else {
                        lemma_position_grown(before, *self, child_position(at, n));
                    }
                }
            }
            nibble += 1;
        }
    }
}

/// Whether `after` has all nodes of `before` with their values, and apart from these only
/// nodes without a value, at positions that had no node.
spec fn grown(before: Builder, after: Builder) -> bool {
    &&& before.nodes@.len() <= after.nodes@.len()
    &&& forall|i: int|
        #![trigger after.positions@[i]]
        #![trigger after.nodes@[i]]
        0 <= i < before.nodes@.len() ==> {
            &&& after.positions@[i] == before.positions@[i]
            &&& after.nodes@[i].value_idx == before.nodes@[i].value_idx
            &&& after.nodes@[i].value_prefix_len == before.nodes@[i].value_prefix_len
        }
    &&& forall|i: int|
        #![trigger after.positions@[i]]
        #![trigger after.nodes@[i]]
        before.nodes@.len() <= i < after.nodes@.len() ==> {
            &&& !has_position(before.positions@, after.positions@[i])
            &&& after.nodes@[i].value_idx == EMPTY_SLOT
        }
}

/// Up to which route a node's value is settled while route `k` is being stored at the
/// positions that end in a nibble below `upto`.
spec fn partial_bound(route: Route<Ipv4Addr>, k: int, upto: int, at: Position) -> int {
    if stored_at(route, at) && at.1 % 16 < upto {
        k + 1
    } else {
        k
    }
}

/// The first `k` routes are stored, and route `k` at the positions that end in a nibble below
/// `upto`.
spec fn partly_holds(builder: Builder, routes: Seq<Route<Ipv4Addr>>, k: int, upto: int) -> bool {
    &&& forall|i: int|
        0 <= i < builder.nodes@.len() ==> (#[trigger] builder.nodes@[i]).holds_best(
            routes,
            partial_bound(routes[k], k, upto, builder.positions@[i]),
            builder.positions@[i],
        )
    &&& covers_routes(builder.positions@, routes, k)
}

/// A prefix of full nibbles is stored at one position.
proof fn lemma_stored_full(route: Route<Ipv4Addr>, at: Position)
    requires
        route_prefix_len(route) % 4 == 0,
        at == position_of(route_network(route), (route_prefix_len(route) / 4) as u64),
    ensures
        forall|p: Position| #[trigger] stored_at(route, p) <==> p == at,
{
    assert forall|p: Position| #[trigger] stored_at(route, p) <==> p == at by {
        let x = p.1;
        assert(x >> 0u64 == x) by (bit_vector);
    }
}

/// How offering a route changes a node's value.
spec fn value_offered(was: BuilderNode, is: BuilderNode, idx: int, prefix_len: u8) -> bool {
    if was.value_idx == EMPTY_SLOT || prefix_len > was.value_prefix_len {
        is.value_idx == idx && is.value_prefix_len == prefix_len
    } else {
        is.value_idx == was.value_idx && is.value_prefix_len == was.value_prefix_len
    }
}

proof fn lemma_best_offered(
    was: BuilderNode,
    is: BuilderNode,
    routes: Seq<Route<Ipv4Addr>>,
    k: int,
    at: Position,
)
    requires
        was.holds_best(routes, k, at),
        0 <= k < routes.len(),
        k < EMPTY_SLOT,
        stored_at(routes[k], at),
        value_offered(was, is, k, route_prefix_len(routes[k])),
    ensures
        is.holds_best(routes, k + 1, at),
{
}

proof fn lemma_best_skips(
    node: BuilderNode,
    routes: Seq<Route<Ipv4Addr>>,
    k: int,
    at: Position,
)
    requires
        node.holds_best(routes, k, at),
        !stored_at(routes[k], at),
    ensures
        node.holds_best(routes, k + 1, at),
{
}

proof fn lemma_positions_distinct(builder: Builder)
    requires
        builder.wf(),
    ensures
        positions_distinct(builder.positions@),
{
    reveal(is_trie);
}

/// How `set_value` changes node `i` for route `k`.
spec fn value_set(
    before: Builder,
    after: Builder,
    routes: Seq<Route<Ipv4Addr>>,
    k: int,
    i: int,
) -> bool {
    &&& after.positions@ == before.positions@
    &&& after.nodes@.len() == before.nodes@.len()
    &&& forall|l: int|
        0 <= l < before.nodes@.len() && l != i ==> #[trigger] after.nodes@[l] == before.nodes@[l]
    &&& value_offered(before.nodes@[i], after.nodes@[i], k, route_prefix_len(routes[k]))
}

proof fn lemma_full_set(
    before: Builder,
    after: Builder,
    routes: Seq<Route<Ipv4Addr>>,
    k: int,
    i: int,
    at: Position,
)
    requires
        before.wf(),
        after.wf(),
        before.holds(routes, k),
        0 <= k < routes.len(),
        k < EMPTY_SLOT,
        0 <= i < before.nodes@.len(),
        before.positions@[i] == at,
        value_set(before, after, routes, k, i),
        forall|p: Position| #[trigger] stored_at(routes[k], p) <==> p == at,
    ensures
        after.holds(routes, k + 1),
{
    lemma_positions_distinct(after);
    assert forall|l: int| 0 <= l < after.nodes@.len() implies (
    #[trigger] after.nodes@[l]).holds_best(routes, k + 1, after.positions@[l]) by {
        let p = after.positions@[l];
        assert(before.nodes@[l].holds_best(routes, k, p));
        if l != i {
            assert(p != after.positions@[i]);
            lemma_best_skips(after.nodes@[l], routes, k, p);
        } else {
            lemma_best_offered(before.nodes@[l], after.nodes@[l], routes, k, p);
        }
    }
    assert(has_position(after.positions@, at)) by {
        assert(after.positions@[i] == at);
    }
}

proof fn lemma_partial_set(
    before: Builder,
    after: Builder,
    routes: Seq<Route<Ipv4Addr>>,
    k: int,
    i: int,
    at: Position,
    nibble: int,
)
    requires
        before.wf(),
        after.wf(),
        partly_holds(before, routes, k, nibble),
        0 <= k < routes.len(),
        k < EMPTY_SLOT,
        0 <= i < before.nodes@.len(),
        0 <= nibble < 16,
        valid_position(at),
        at.0 < 8,
        before.positions@[i] == child_position(at, nibble),
        value_set(before, after, routes, k, i),
        stored_at(routes[k], child_position(at, nibble)),
        forall|p: Position| #[trigger]
            stored_at(routes[k], p) ==> p == child_position(at, (p.1 % 16) as int),
    ensures
        partly_holds(after, routes, k, nibble + 1),
{
    lemma_positions_distinct(after);
    let here = child_position(at, nibble);
    lemma_child_position(at, nibble as u64);
    assert(here.1 % 16 == nibble);
    assert forall|l: int| 0 <= l < after.nodes@.len() implies (
    #[trigger] after.nodes@[l]).holds_best(
        routes,
        partial_bound(routes[k], k, nibble + 1, after.positions@[l]),
        after.positions@[l],
    ) by {
        let p = after.positions@[l];
        assert(before.nodes@[l].holds_best(routes, partial_bound(routes[k], k, nibble, p), p));
        if l == i {
            lemma_best_offered(before.nodes@[l], after.nodes@[l], routes, k, p);
        } else {
            assert(p != after.positions@[i]);
            assert(stored_at(routes[k], p) ==> p.1 % 16 != nibble);
        }
    }
}

proof fn lemma_position_grown(before: Builder, after: Builder, at: Position)
    requires
        before.wf(),
        after.wf(),
        before.nodes@.len() <= after.nodes@.len(),
        forall|i: int| 0 <= i < before.nodes@.len() ==> #[trigger] after.positions@[i] == before.positions@[i],
        has_position(before.positions@, at),
    ensures
        has_position(after.positions@, at),
{
    let i = choose|i: int| 0 <= i < before.positions@.len() && #[trigger] before.positions@[i] == at;
    assert(after.positions@[i] == at);
}

proof fn lemma_grown_trans(a: Builder, b: Builder, c: Builder)
    requires
        a.wf(),
        b.wf(),
        c.wf(),
        grown(a, b),
        grown(b, c),
    ensures
        grown(a, c),
{
    assert forall|i: int|
        #![trigger c.positions@[i]]
        #![trigger c.nodes@[i]]
        a.nodes@.len() <= i < c.nodes@.len() implies {
        &&& !has_position(a.positions@, c.positions@[i])
        &&& c.nodes@[i].value_idx == EMPTY_SLOT
    } by {
        if i < b.nodes@.len() {
            assert(c.positions@[i] == b.positions@[i]);
        } else if has_position(a.positions@, c.positions@[i]) {
            lemma_position_grown(a, b, c.positions@[i]);
        }
    }
    assert forall|i: int|
        #![trigger c.positions@[i]]
        #![trigger c.nodes@[i]]
        0 <= i < a.nodes@.len() implies {
        &&& c.positions@[i] == a.positions@[i]
        &&& c.nodes@[i].value_idx == a.nodes@[i].value_idx
        &&& c.nodes@[i].value_prefix_len == a.nodes@[i].value_prefix_len
    } by {
        assert(b.positions@[i] == a.positions@[i]);
    }
}

proof fn lemma_holds_grown(before: Builder, after: Builder, routes: Seq<Route<Ipv4Addr>>, k: int)
    requires
        before.wf(),
        after.wf(),
        grown(before, after),
        before.holds(routes, k),
    ensures
        after.holds(routes, k),
{
    assert forall|i: int| 0 <= i < after.nodes@.len() implies (
    #[trigger] after.nodes@[i]).holds_best(routes, k, after.positions@[i]) by {
        assert(after.positions@[i] == after.positions@[i]);
        if i < before.nodes@.len() {
            assert(before.nodes@[i].holds_best(routes, k, before.positions@[i]));
        }
    }
    assert forall|j: int, at: Position| 0 <= j < k && #[trigger] stored_at(routes[j], at) implies has_position(after.positions@, at) by {
        lemma_position_grown(before, after, at);
    }
}

proof fn lemma_partly_grown(before: Builder, after: Builder, routes: Seq<Route<Ipv4Addr>>, k: int, upto: int)
    requires
        before.wf(),
        after.wf(),
        grown(before, after),
        partly_holds(before, routes, k, upto),
        forall|i: int| before.nodes@.len() <= i < after.nodes@.len() ==> (#[trigger] after.positions@[i]).1 % 16 >= upto,
    ensures
        partly_holds(after, routes, k, upto),
{
    assert forall|i: int| 0 <= i < after.nodes@.len() implies (
    #[trigger] after.nodes@[i]).holds_best(routes, partial_bound(routes[k], k, upto, after.positions@[i]), after.positions@[i]) by {
        let p = after.positions@[i];
        if i < before.nodes@.len() {
            assert(before.nodes@[i].holds_best(routes, partial_bound(routes[k], k, upto, before.positions@[i]), before.positions@[i]));
        } else {
            assert(p.1 % 16 >= upto);
            assert(!has_position(before.positions@, p));
        }
    }
    assert forall|j: int, at: Position| 0 <= j < k && #[trigger] stored_at(routes[j], at) implies has_position(after.positions@, at) by {
        lemma_position_grown(before, after, at);
    }
}

proof fn lemma_count_same(a: BuilderNode, b: BuilderNode, m: nat)
    requires
        m <= 16,
        a.children == b.children,
    ensures
        a.count(m) == b.count(m),
    decreases m,
{
    if m > 0 {
        lemma_count_same(a, b, (m - 1) as nat);
    }
}

proof fn lemma_position_step(addr: u32, depth: u64)
    requires
        depth < 8,
    ensures
        position_of(addr, (depth + 1) as u64) == child_position(position_of(addr, depth), nibble_of(addr, depth) as int),
        nibble_of(addr, depth) < 16,
{
    assert(((addr as u64) >> ((32 - (4 * depth + 4)) as u64)) == ((addr as u64) >> ((32 - 4 * depth) as u64)) * 16 + (((addr as u64) >> ((32 - (4 * depth + 4)) as u64)) & 0xf)
        && (((addr as u64) >> ((32 - (4 * depth + 4)) as u64)) & 0xf) < 16) by (bit_vector)
        requires
            depth < 8,
    ;
}

proof fn lemma_valid_position_of(addr: u32, depth: u64)
    requires
        depth <= 8,
    ensures
        valid_position(position_of(addr, depth)),
{
    assert(((addr as u64) >> ((32 - 4 * depth) as u64)) < 1u64 << ((4 * depth) as u64)) by (bit_vector)
        requires
            depth <= 8,
    ;
}

/// A position that stores a prefix with a partial last nibble is a child of the position of
/// its full nibbles, by a nibble of the covered range.
proof fn lemma_partial_position(net: u32, n: u8, full: u64, base: u8, start: u8, p: u64)
    requires
        n < 32,
        n % 4 != 0,
        full == n / 4,
        base == nibble_of(net, full),
        start == (base >> ((4 - n % 4) as u8)) << ((4 - n % 4) as u8),
        p >> ((4 * (full + 1) - n) as u64) == leading_bits(net, n as u64),
    ensures
        p == leading_bits(net, (4 * full) as u64) * 16 + p % 16,
        start <= p % 16 < start + (1usize << ((4 - n % 4) as u8)),
{
    let fan = (4 - n % 4) as u8;
    let n64 = n as u64;
    assert(p == ((net as u64) >> ((32 - 4 * full) as u64)) * 16 + p % 16 && start <= p % 16 && p % 16
        < start + (1usize << fan)) by (bit_vector)
        requires
            n64 < 32,
            full == n64 / 4,
            1 <= fan <= 3,
            fan == 4 - n64 % 4,
            base == ((net as u64) >> ((32 - (4 * full + 4)) as u64)) & 0xf,
            start == (base >> fan) << fan,
            p >> (fan as u64) == (net as u64) >> ((32 - n64) as u64),
    ;
}

/// Every child by a nibble of the covered range stores the prefix.
proof fn lemma_partial_child(net: u32, n: u8, full: u64, base: u8, start: u8, nibble: u64)
    requires
        n < 32,
        n % 4 != 0,
        full == n / 4,
        base == nibble_of(net, full),
        start == (base >> ((4 - n % 4) as u8)) << ((4 - n % 4) as u8),
        start <= nibble < start + (1usize << ((4 - n % 4) as u8)),
    ensures
        leading_bits(net, (4 * full) as u64) * 16 + nibble <= u64::MAX,
        ((leading_bits(net, (4 * full) as u64) * 16 + nibble) as u64) >> ((4 * (full + 1) - n) as u64)
            == leading_bits(net, n as u64),
{
    let fan = (4 - n % 4) as u8;
    let n64 = n as u64;
    assert(((net as u64) >> ((32 - 4 * full) as u64)) * 16 + nibble < 0x1_0000_0000 && ((((net as u64)
        >> ((32 - 4 * full) as u64)) * 16 + nibble) as u64) >> (fan as u64) == (net as u64) >> ((32
        - n64) as u64)) by (bit_vector)
        requires
            n64 < 32,
            full == n64 / 4,
            1 <= fan <= 3,
            fan == 4 - n64 % 4,
            base == ((net as u64) >> ((32 - (4 * full + 4)) as u64)) & 0xf,
            start == (base >> fan) << fan,
            start <= nibble,
            nibble < start + (1usize << fan),
    ;
}

proof fn lemma_fanout_range(base: u8, fanout: u8, start: u8, len: usize)
    requires
        base < 16,
        1 <= fanout <= 3,
        start == (base >> fanout) << fanout,
        len == 1usize << fanout,
    ensures
        start + len <= 16,
        1 <= len <= 8,
{
    assert(start + len <= 16 && 1 <= len && len <= 8) by (bit_vector)
        requires
            base < 16,
            1 <= fanout <= 3,
            start == (base >> fanout) << fanout,
            len == 1usize << fanout,
    ;
}

proof fn lemma_total_take(nodes: Seq<BuilderNode>, i: int)
    requires
        0 <= i < nodes.len(),
    ensures
        total_children(nodes.take(i + 1)) == total_children(nodes.take(i)) + nodes[i].count(16),
        total_children(nodes.take(i + 1)) <= total_children(nodes),
    decreases nodes.len() - i,
{
    assert(nodes.take(i + 1).drop_last() =~= nodes.take(i));
    if i + 1 < nodes.len() {
        lemma_total_take(nodes, i + 1);
    } else {
        assert(nodes.take(i + 1) =~= nodes);
    }
}

proof fn lemma_bit_set(mask: u16, n: u16, l: u16)
    requires
        n < 16,
        l < 16,
    ensures
        has_bit(mask | (1u16 << n), l) <==> l == n || has_bit(mask, l),
{
    assert(((mask | (1u16 << n)) & (1u16 << l) != 0) == (l == n || mask & (1u16 << l) != 0))
        by (bit_vector)
        requires
            n < 16,
            l < 16,
    ;
}

/// Whether a mask has a bit for each child by a nibble below `upto`, and no other.
#[verifier::opaque]
spec fn mask_of(node: BuilderNode, mask: u16, upto: int) -> bool {
    forall|l: u16|
        l < 16 ==> (#[trigger] has_bit(mask, l) <==> l < upto && node.children[l as int]
            != EMPTY_SLOT)
}

proof fn lemma_mask_empty(node: BuilderNode)
    ensures
        mask_of(node, 0, 0),
{
    reveal(mask_of);
    assert forall|l: u16| l < 16 implies !#[trigger] has_bit(0u16, l) by {
        assert(0u16 & (1u16 << l) == 0) by (bit_vector);
    }
}

proof fn lemma_mask_step(node: BuilderNode, mask: u16, n: u16)
    requires
        n < 16,
        mask_of(node, mask, n as int),
    ensures
        node.children[n as int] != EMPTY_SLOT ==> mask_of(node, mask | (1u16 << n), n + 1),
        node.children[n as int] == EMPTY_SLOT ==> mask_of(node, mask, n + 1),
{
    reveal(mask_of);
    if node.children[n as int] != EMPTY_SLOT {
        assert forall|l: u16| l < 16 implies (#[trigger] has_bit(mask | (1u16 << n), l) <==> l < n + 1
            && node.children[l as int] != EMPTY_SLOT) by {
            lemma_bit_set(mask, n, l);
        }
    }
}

/// A mask of the children present counts them.
proof fn lemma_mask_counts(node: BuilderNode, mask: u16, m: nat)
    requires
        m <= 16,
        mask_of(node, mask, 16),
    ensures
        ones_below(mask, m) == node.count(m),
    decreases m,
{
    reveal(mask_of);
    if m > 0 {
        lemma_mask_counts(node, mask, (m - 1) as nat);
        let l = (m - 1) as u16;
        assert(has_bit(mask, l) <==> l < 16 && node.children[l as int] != EMPTY_SLOT);
    }
}

proof fn lemma_count_monotone(node: BuilderNode, a: nat, b: nat)
    requires
        a <= b <= 16,
    ensures
        node.count(a) <= node.count(b) <= 16,
        node.count(a) <= a,
    decreases b,
{
    if b > 0 {
        if a == b {
            lemma_count_monotone(node, (a - 1) as nat, (b - 1) as nat);
        } else {
            lemma_count_monotone(node, a, (b - 1) as nat);
            lemma_count_monotone(node, (b - 1) as nat, (b - 1) as nat);
        }
        lemma_count_bound(node, b);
    }
}

proof fn lemma_count_bound(node: BuilderNode, a: nat)
    ensures
        node.count(a) <= a,
    decreases a,
{
    if a > 0 {
        lemma_count_bound(node, (a - 1) as nat);
    }
}

proof fn lemma_low_bits(mask: u16, n: u16, l: u16)
    requires
        n < 16,
        l < 16,
    ensures
        has_bit(mask & (((1u16 << n) - 1) as u16), l) <==> l < n && has_bit(mask, l),
{
    assert(((mask & (((1u16 << n) - 1) as u16)) & (1u16 << l) != 0) == (l < n && mask & (1u16 << l)
        != 0)) by (bit_vector)
        requires
            n < 16,
            l < 16,
    ;
}

/// The ones of the low `n` bits, counted over the first `m` bits.
proof fn lemma_rank(mask: u16, n: u16, m: nat)
    requires
        n < 16,
        m <= 16,
    ensures
        ones_below(mask & (((1u16 << n) - 1) as u16), m) == ones_below(mask, if m <= n {
            m
        } else {
            n as nat
        }),
    decreases m,
{
    if m > 0 {
        lemma_rank(mask, n, (m - 1) as nat);
        lemma_low_bits(mask, n, (m - 1) as u16);
    }
}

struct Node {
    value_idx: u32,
    child_base: u32,
    child_mask: u16,
}

/// IPv4 longest-prefix-match lookup. Nibble trie (16 children per node).
pub struct Ipv4Lpm {
    nodes: Vec<Node>,
    children: Vec<u32>,
}

impl Ipv4Lpm {
    #[verifier::type_invariant]
    spec fn wf(self) -> bool {
        &&& self.nodes@.len() >= 1
        &&& self.children@.len() <= u32::MAX
        &&& forall|i: int, n: u16|
            #![trigger self.child(i, n)]
            0 <= i < self.nodes@.len() && n < 16 && has_bit(self.nodes@[i].child_mask, n) ==> {
                &&& self.nodes@[i].child_base + ones_below(self.nodes@[i].child_mask, n as nat)
                    < self.children@.len()
                &&& self.child(i, n)->Some_0 < self.nodes@.len()
            }
    }

    /// The child of node `i` by nibble `n`.
    spec fn child(self, i: int, n: u16) -> Option<int> {
        let node = self.nodes@[i];
        if has_bit(node.child_mask, n) {
            Some(self.children@[node.child_base + ones_below(node.child_mask, n as nat)] as int)
        } else {
            None
        }
    }

    /// The last value on the way down from node `i`, or `best` when there is none.
    spec fn walk(self, i: int, addr: u32, depth: u64, best: u32) -> u32
        decreases 8 - depth,
    {
        if depth >= 8 {
            best
        } else {
            match self.child(i, nibble_of(addr, depth) as u16) {
                None => best,
                Some(c) => self.walk(
                    c,
                    addr,
                    (depth + 1) as u64,
                    if self.nodes@[c].value_idx != EMPTY_SLOT {
                        self.nodes@[c].value_idx
                    } else {
                        best
                    },
                ),
            }
        }
    }

    /// The route index that the trie holds for an address.
    pub closed spec fn route_for(self, addr: u32) -> Option<u32> {
        let best = self.walk(0, addr, 0, self.nodes@[0].value_idx);
        if best != EMPTY_SLOT {
            Some(best)
        } else {
            None
        }
    }

    /// The route index that the trie holds for the empty prefix.
    pub closed spec fn root_route(self) -> Option<u32> {
        if self.nodes@[0].value_idx != EMPTY_SLOT {
            Some(self.nodes@[0].value_idx)
        } else {
            None
        }
    }

    /// Index of the default route, if any.
    pub fn default_route(&self) -> (found: Option<u32>)
        ensures
            found == self.root_route(),
    {
        proof {
            use_type_invariant(self);
        }
        let value_idx: u32 = self.nodes[ROOT_NODE_INDEX as usize].value_idx;
        if value_idx != EMPTY_SLOT {
            Some(value_idx)
        } else {
            None
        }
    }

    /// Look up `addr`; returns the best-matching route's index.
    pub fn lookup(&self, addr: Ipv4Addr) -> (found: Option<u32>)
        ensures
            found == self.route_for(addr.bits),
    {
        proof {
            use_type_invariant(self);
        }
        let mut node_idx: usize = ROOT_NODE_INDEX as usize;
        let mut best: u32 = self.nodes[node_idx].value_idx;
        let addr_bits: u32 = addr.to_bits();
        let mut depth: usize = 0;
        while depth < IPV4_NIBBLES
            invariant_except_break
                depth <= 8,
                node_idx < self.nodes@.len(),
                addr_bits == addr.bits,
                self.wf(),
                self.walk(node_idx as int, addr_bits, depth as u64, best) == self.walk(
                    0,
                    addr_bits,
                    0,
                    self.nodes@[0].value_idx,
                ),
            ensures
                best == self.walk(0, addr.bits, 0, self.nodes@[0].value_idx),
            decreases 8 - depth,
        {
            let nibble: u8 = nibble_at(addr_bits, depth);
            let child_bit: u16 = 1u16 << nibble;
            let node = &self.nodes[node_idx];
            assert(child_bit >= 1 && child_bit == 1u16 << (nibble as u16)) by (bit_vector)
                requires
                    nibble < 16,
                    child_bit == 1u16 << nibble,
            ;
            if node.child_mask & child_bit == 0 {
                break ;
            }
            let rank: u32 = (node.child_mask & (child_bit - 1)).count_ones();
            proof {
                lemma_rank(node.child_mask, nibble as u16, 16);
                assert(has_bit(node.child_mask, nibble as u16));
                assert(self.child(node_idx as int, nibble as u16) is Some);
            }
            let child_idx: u32 = self.children[(node.child_base + rank) as usize];
            node_idx = child_idx as usize;
            if self.nodes[node_idx].value_idx != EMPTY_SLOT {
                best = self.nodes[node_idx].value_idx;
            }
            depth += 1;
        }
        if best != EMPTY_SLOT {
            Some(best)
        } else {
            None
        }
    }
}

/// Children `base..base + from.count(upto)` are those of a builder's node by a nibble below `upto`.
#[verifier::opaque]
spec fn children_packed(children: Seq<u32>, base: int, from: BuilderNode, upto: int) -> bool {
    &&& base + from.count(upto as nat) <= children.len()
    &&& forall|n: int|
        0 <= n < upto && (#[trigger] from.link(n)) != EMPTY_SLOT ==> children[base + from.count(
            n as nat,
        )] == from.link(n)
}

/// The compact node has the value and the children of the builder's node.
spec fn node_compacted(node: Node, children: Seq<u32>, from: BuilderNode) -> bool {
    &&& node.value_idx == from.value_idx
    &&& mask_of(from, node.child_mask, 16)
    &&& children_packed(children, node.child_base as int, from, 16)
}

spec fn compacted(nodes: Seq<Node>, children: Seq<u32>, from: Seq<BuilderNode>, upto: int) -> bool {
    forall|i: int|
        0 <= i < upto ==> node_compacted(#[trigger] nodes[i], children, from[i])
}

/// Packed children stay packed when more children follow.
proof fn lemma_packed_grows(
    children: Seq<u32>,
    more: Seq<u32>,
    base: int,
    from: BuilderNode,
    upto: int,
)
    requires
        0 <= base,
        0 <= upto <= 16,
        children_packed(children, base, from, upto),
        children.len() <= more.len(),
        more.take(children.len() as int) == children,
    ensures
        children_packed(more, base, from, upto),
{
    reveal(children_packed);
    assert forall|n: int|
        0 <= n < upto && (#[trigger] from.link(n)) != EMPTY_SLOT implies more[base + from.count(
        n as nat,
    )] == from.link(n) by {
        lemma_count_monotone(from, (n + 1) as nat, upto as nat);
        let c = base + from.count(n as nat);
        assert(children[c] == from.link(n));
        assert(more.take(children.len() as int)[c] == more[c]);
    }
}

/// Appending the child by the next nibble keeps the children packed.
proof fn lemma_packed_step(children: Seq<u32>, base: int, from: BuilderNode, n: int)
    requires
        0 <= base,
        0 <= n < 16,
        children.len() == base + from.count(n as nat),
        children_packed(children, base, from, n),
    ensures
        from.children[n] != EMPTY_SLOT ==> children_packed(
            children.push(from.children[n]),
            base,
            from,
            n + 1,
        ),
        from.children[n] == EMPTY_SLOT ==> children_packed(children, base, from, n + 1),
{
    let more = children.push(from.children[n]);
    assert(more.take(children.len() as int) =~= children);
    lemma_packed_grows(children, more, base, from, n);
    reveal(children_packed);
}

proof fn lemma_child_compacted(node: Node, children: Seq<u32>, from: BuilderNode, n: u16)
    requires
        node_compacted(node, children, from),
        n < 16,
    ensures
        has_bit(node.child_mask, n) <==> from.children[n as int] != EMPTY_SLOT,
        has_bit(node.child_mask, n) ==> {
            &&& node.child_base + ones_below(node.child_mask, n as nat) < children.len()
            &&& children[node.child_base + ones_below(node.child_mask, n as nat)]
                == from.children[n as int]
        },
{
    reveal(children_packed);
    reveal(mask_of);
    assert(from.link(n as int) == from.children[n as int]);
    lemma_mask_counts(from, node.child_mask, n as nat);
    lemma_count_monotone(from, (n + 1) as nat, 16);
}

/// Whether a link of the node leads to `child`.
spec fn is_child(from: BuilderNode, child: u32) -> bool {
    child != EMPTY_SLOT && exists|n: int| 0 <= n < 16 && #[trigger] from.children[n] == child
}

/// Appends a node's children and returns its compact form.
fn compact_node(from: &BuilderNode, children: &mut Vec<u32>) -> (node: Node)
    requires
        old(children)@.len() + from.count(16) < EMPTY_SLOT,
    ensures
        final(children)@.len() == old(children)@.len() + from.count(16),
        final(children)@.take(old(children)@.len() as int) == old(children)@,
        forall|c: int|
            old(children)@.len() <= c < final(children)@.len() ==> is_child(
                *from,
                #[trigger] final(children)@[c],
            ),
        node_compacted(node, final(children)@, *from),
{
    let ghost children0 = children@;
    let child_base: u32 = children.len() as u32;
    let mut child_mask: u16 = 0;
    proof {
        lemma_mask_empty(*from);
        reveal(children_packed);
        assert(children@.take(children0.len() as int) =~= children0);
    }
    let mut nibble: usize = 0;
    while nibble < CHILDREN_PER_NODE
        invariant
            nibble <= 16,
            child_base == children0.len(),
            children0.len() + from.count(16) < EMPTY_SLOT,
            children@.len() == children0.len() + from.count(nibble as nat),
            children@.take(children0.len() as int) == children0,
            mask_of(*from, child_mask, nibble as int),
            children_packed(children@, child_base as int, *from, nibble as int),
            forall|c: int|
                children0.len() <= c < children@.len() ==> is_child(*from, #[trigger] children@[c]),
        decreases 16 - nibble,
    {
        let child_idx: u32 = from.children[nibble];
        let n: u16 = nibble as u16;
        proof {
            lemma_mask_step(*from, child_mask, n);
            lemma_packed_step(children@, child_base as int, *from, nibble as int);
            lemma_count_monotone(*from, (nibble + 1) as nat, 16);
        }
        if child_idx != EMPTY_SLOT {
            let ghost before = children@;
            child_mask = child_mask | (1u16 << n);
            children.push(child_idx);
            proof {
                assert(children@.take(children0.len() as int) =~= before.take(
                    children0.len() as int,
                ));
                assert(is_child(*from, child_idx)) by {
                    assert(from.children[nibble as int] == child_idx);
                }
            }
        }
        nibble += 1;
    }
    Node { value_idx: from.value_idx, child_base, child_mask }
}

impl Builder {
    fn finish(self) -> (lpm: Ipv4Lpm)
        requires
            self.wf(),
        ensures
            lpm.nodes@.len() == self.nodes@.len(),
            compacted(lpm.nodes@, lpm.children@, self.nodes@, self.nodes@.len() as int),
    {
        let mut nodes: Vec<Node> = Vec::with_capacity(self.nodes.len());
        let mut children: Vec<u32> = Vec::new();
        let ghost from = self.nodes@;
        let ghost positions = self.positions@;
        proof {
            reveal(is_trie);
            assert(from.take(0) =~= Seq::<BuilderNode>::empty());
        }
        let mut i: usize = 0;
        while i < self.nodes.len()
            invariant
                i <= self.nodes@.len(),
                from == self.nodes@,
                from.len() <= EMPTY_SLOT,
                total_children(from) == from.len() - 1,
                links_sound(from, positions),
                nodes@.len() == i,
                children@.len() == total_children(from.take(i as int)),
                children@.len() < EMPTY_SLOT,
                forall|c: int| 0 <= c < children@.len() ==> (#[trigger] children@[c]) < from.len(),
                compacted(nodes@, children@, from, i as int),
            decreases self.nodes@.len() - i,
        {
            let ghost children0 = children@;
            let ghost nodes0 = nodes@;
            proof {
                lemma_total_take(from, i as int);
            }
            let node = compact_node(&self.nodes[i], &mut children);
            nodes.push(node);
            proof {
                assert forall|l: int| 0 <= l < i + 1 implies node_compacted(
                    #[trigger] nodes@[l],
                    children@,
                    from[l],
                ) by {
                    if l < i {
                        assert(node_compacted(nodes0[l], children0, from[l]));
                        lemma_packed_grows(
                            children0,
                            children@,
                            nodes@[l].child_base as int,
                            from[l],
                            16,
                        );
                    }
                }
                assert forall|c: int| 0 <= c < children@.len() implies (#[trigger] children@[c])
                    < from.len() by {
                    if c < children0.len() {
                        assert(children@.take(children0.len() as int)[c] == children@[c]);
                    }
                }
            }
            i += 1;
        }
        proof {
            assert(from.take(from.len() as int) =~= from);
            assert forall|l: int, n: u16|
                0 <= l < nodes@.len() && n < 16 && has_bit(
                    nodes@[l].child_mask,
                    n,
                ) implies nodes@[l].child_base + #[trigger] ones_below(
                nodes@[l].child_mask,
                n as nat,
            ) < children@.len() by {
                assert(node_compacted(nodes@[l], children@, from[l]));
                lemma_child_compacted(nodes@[l], children@, from[l], n);
            }
        }
        Ipv4Lpm { nodes, children }
    }
}

/// Whether `best` is the answer for `addr` among the routes stored no deeper than `depth`.
spec fn best_upto(routes: Seq<Route<Ipv4Addr>>, addr: u32, depth: u64, best: u32) -> bool {
    if best == EMPTY_SLOT {
        forall|j: int|
            0 <= j < routes.len() && prefix_depth(route_prefix_len(routes[j])) <= depth
                ==> !#[trigger] route_matches(routes[j], addr)
    } else {
        &&& best < routes.len()
        &&& route_matches(routes[best as int], addr)
        &&& prefix_depth(route_prefix_len(routes[best as int])) <= depth
        &&& forall|j: int|
            0 <= j < routes.len() && prefix_depth(route_prefix_len(routes[j])) <= depth
                && #[trigger] route_matches(routes[j], addr) ==> route_preferred(
                routes,
                best as int,
                j,
            )
    }
}

/// A route matches an address exactly if it is stored on the address's way down.
proof fn lemma_match_is_stored(route: Route<Ipv4Addr>, addr: u32)
    ensures
        route_matches(route, addr) <==> stored_at(
            route,
            position_of(addr, prefix_depth(route_prefix_len(route))),
        ),
{
    let n = route_prefix_len(route) as u64;
    let d = prefix_depth(route_prefix_len(route));
    assert((((addr as u64) >> ((32 - 4 * d) as u64)) >> ((4 * d - n) as u64)) == (addr as u64) >> ((32
        - n) as u64)) by (bit_vector)
        requires
            n <= 32,
            d <= 8,
            n <= 4 * d,
            4 * d <= n + 3,
    ;
}

/// The way down to a node has nodes at every depth.
proof fn lemma_ancestors(builder: Builder, addr: u32, depth: u64, deeper: u64)
    requires
        builder.wf(),
        depth <= deeper <= 8,
        has_position(builder.positions@, position_of(addr, deeper)),
    ensures
        has_position(builder.positions@, position_of(addr, depth)),
    decreases deeper - depth,
{
    reveal(is_trie);
    if depth < deeper {
        let positions = builder.positions@;
        let at = position_of(addr, deeper);
        let c = choose|c: int| 0 <= c < positions.len() && #[trigger] positions[c] == at;
        let up = (deeper - 1) as u64;
        lemma_position_step(addr, up);
        lemma_valid_position_of(addr, up);
        lemma_child_position(position_of(addr, up), nibble_of(addr, up));
        assert(has_position(positions, ((positions[c].0 - 1) as u64, positions[c].1 / 16)));
        lemma_ancestors(builder, addr, depth, up);
    }
}

/// Without a link by the next nibble, no matching route is stored deeper.
proof fn lemma_no_deeper(
    builder: Builder,
    routes: Seq<Route<Ipv4Addr>>,
    addr: u32,
    i: int,
    depth: u64,
    j: int,
)
    requires
        builder.wf(),
        builder.holds(routes, routes.len() as int),
        0 <= i < builder.nodes@.len(),
        depth < 8,
        builder.positions@[i] == position_of(addr, depth),
        builder.nodes@[i].children[nibble_of(addr, depth) as int] == EMPTY_SLOT,
        0 <= j < routes.len(),
        route_matches(routes[j], addr),
    ensures
        prefix_depth(route_prefix_len(routes[j])) <= depth,
{
    reveal(is_trie);
    let d = prefix_depth(route_prefix_len(routes[j]));
    if d > depth {
        lemma_match_is_stored(routes[j], addr);
        assert(has_position(builder.positions@, position_of(addr, d)));
        let next = (depth + 1) as u64;
        lemma_ancestors(builder, addr, next, d);
        lemma_position_step(addr, depth);
        let positions = builder.positions@;
        let c = choose|c: int|
            0 <= c < positions.len() && #[trigger] positions[c] == position_of(addr, next);
        let n = nibble_of(addr, depth) as int;
        assert(positions[c] == child_position(positions[i], n));
        assert(builder.nodes@[i].children[n] == c);
    }
}

/// Passing a node on the way down takes its routes into account.
proof fn lemma_best_deepens(
    routes: Seq<Route<Ipv4Addr>>,
    addr: u32,
    depth: u64,
    best: u32,
    node: BuilderNode,
)
    requires
        depth < 8,
        best_upto(routes, addr, depth, best),
        node.holds_best(routes, routes.len() as int, position_of(addr, (depth + 1) as u64)),
    ensures
        best_upto(
            routes,
            addr,
            (depth + 1) as u64,
            if node.value_idx != EMPTY_SLOT {
                node.value_idx
            } else {
                best
            },
        ),
{
    let next = (depth + 1) as u64;
    let at = position_of(addr, next);
    assert forall|j: int|
        0 <= j < routes.len() && prefix_depth(
            route_prefix_len(routes[j]),
        ) == next implies #[trigger] route_matches(routes[j], addr) == stored_at(
        routes[j],
        at,
    ) by {
        lemma_match_is_stored(routes[j], addr);
    }
    if node.value_idx != EMPTY_SLOT {
        let v = node.value_idx as int;
        assert(stored_at(routes[v], at));
        assert(route_matches(routes[v], addr));
    }
}

proof fn lemma_walk_best(
    lpm: Ipv4Lpm,
    builder: Builder,
    routes: Seq<Route<Ipv4Addr>>,
    addr: u32,
    i: int,
    depth: u64,
    best: u32,
)
    requires
        builder.wf(),
        builder.holds(routes, routes.len() as int),
        lpm.nodes@.len() == builder.nodes@.len(),
        compacted(lpm.nodes@, lpm.children@, builder.nodes@, builder.nodes@.len() as int),
        0 <= i < builder.nodes@.len(),
        depth <= 8,
        builder.positions@[i] == position_of(addr, depth),
        best_upto(routes, addr, depth, best),
    ensures
        best_upto(routes, addr, 8, lpm.walk(i, addr, depth, best)),
    decreases 8 - depth,
{
    if depth < 8 {
        let n = nibble_of(addr, depth) as u16;
        lemma_position_step(addr, depth);
        let from = builder.nodes@[i];
        assert(node_compacted(lpm.nodes@[i], lpm.children@, from));
        lemma_child_compacted(lpm.nodes@[i], lpm.children@, from, n);
        match lpm.child(i, n) {
            None => {
                assert forall|j: int|
                    0 <= j < routes.len() && #[trigger] route_matches(
                        routes[j],
                        addr,
                    ) implies prefix_depth(route_prefix_len(routes[j])) <= depth by {
                    lemma_no_deeper(builder, routes, addr, i, depth, j);
                }
            },
            Some(c) => {
                assert(0 <= c < builder.nodes@.len() && builder.positions@[c] == position_of(
                    addr,
                    (depth + 1) as u64,
                )) by {
                    reveal(is_trie);
                    assert(builder.nodes@[i].children[n as int] == c);
                }
                assert(node_compacted(lpm.nodes@[c], lpm.children@, builder.nodes@[c]));
                let node = builder.nodes@[c];
                assert(node.holds_best(routes, routes.len() as int, builder.positions@[c]));
                lemma_best_deepens(routes, addr, depth, best, node);
                lemma_walk_best(
                    lpm,
                    builder,
                    routes,
                    addr,
                    c,
                    (depth + 1) as u64,
                    if node.value_idx != EMPTY_SLOT {
                        node.value_idx
                    } else {
                        best
                    },
                );
            },
        }
    }
}

/// The finished trie answers every lookup with the best route.
proof fn lemma_finished(lpm: Ipv4Lpm, builder: Builder, routes: Seq<Route<Ipv4Addr>>)
    requires
        builder.wf(),
        builder.holds(routes, routes.len() as int),
        lpm.nodes@.len() == builder.nodes@.len(),
        compacted(lpm.nodes@, lpm.children@, builder.nodes@, builder.nodes@.len() as int),
    ensures
        forall|addr: u32| is_best_route(routes, addr, #[trigger] lpm.route_for(addr)),
        is_default_route(routes, lpm.root_route()),
{
    let root = builder.nodes@[0];
    let at = builder.positions@[0];
    assert(root.holds_best(routes, routes.len() as int, at));
    assert(node_compacted(lpm.nodes@[0], lpm.children@, root));
    assert forall|j: int| 0 <= j < routes.len() implies (#[trigger] stored_at(routes[j], at)
        <==> route_prefix_len(routes[j]) == 0) by {
        let net = route_network(routes[j]);
        assert(0u64 >> 0u64 == leading_bits(net, 0)) by (bit_vector);
    }
    assert(is_default_route(routes, lpm.root_route())) by {
        assert forall|j: int| 0 <= j < routes.len() implies (route_prefix_len(#[trigger] routes[j]) == 0
            <==> stored_at(routes[j], at)) by {}
    }
    assert forall|addr: u32| is_best_route(routes, addr, #[trigger] lpm.route_for(addr)) by {
        assert(leading_bits(addr, 0) == 0) by (bit_vector);
        assert(position_of(addr, 0) == at);
        assert forall|j: int|
            0 <= j < routes.len() && prefix_depth(
                route_prefix_len(routes[j]),
            ) == 0 implies #[trigger] route_matches(routes[j], addr) == stored_at(routes[j], at) by {
            lemma_match_is_stored(routes[j], addr);
        }
        assert(best_upto(routes, addr, 0, root.value_idx));
        lemma_walk_best(lpm, builder, routes, addr, 0, 0, root.value_idx);
    }
}

/// Whether `found` is the first route with an empty prefix, or nothing when there is none.
pub open spec fn is_default_route(routes: Seq<Route<Ipv4Addr>>, found: Option<u32>) -> bool {
    match found {
        None => forall|j: int|
            0 <= j < routes.len() ==> route_prefix_len(#[trigger] routes[j]) != 0,
        Some(i) => {
            &&& i < routes.len()
            &&& route_prefix_len(routes[i as int]) == 0
            &&& forall|j: int| 0 <= j < i ==> route_prefix_len(#[trigger] routes[j]) != 0
        },
    }
}

impl Ipv4Lpm {
    /// Build LPM index. First route wins on duplicate prefixes; sort by
    /// priority before calling. Nodes are numbered with 32 bits, and a route adds at most 15.
    pub fn build(routes: &[Route<Ipv4Addr>]) -> (lpm: Ipv4Lpm)
        requires
            routes@.len() * 15 + 1 <= EMPTY_SLOT,
        ensures
            forall|addr: u32| is_best_route(routes@, addr, #[trigger] lpm.route_for(addr)),
            is_default_route(routes@, lpm.root_route()),
    {
        let mut builder = Builder::new();
        proof {
            assert(builder.holds(routes@, 0));
        }
        let mut route_idx: usize = 0;
        while route_idx < routes.len()
            invariant
                route_idx <= routes@.len(),
                routes@.len() * 15 + 1 <= EMPTY_SLOT,
                builder.wf(),
                builder.holds(routes@, route_idx as int),
                builder.nodes@.len() <= 1 + 15 * route_idx,
            decreases routes@.len() - route_idx,
        {
            builder.insert_route(route_idx as u32, &routes[route_idx], Ghost(routes@));
            route_idx += 1;
        }
        let ghost built = builder;
        let lpm = builder.finish();
        proof {
            lemma_finished(lpm, built, routes@);
        }
        lpm
    }
}

/// A route matches exactly the addresses that agree with its destination on the first `dst_len`
/// bits, whatever comes behind them. A route without a destination stands for the network zero.
pub proof fn law_route_matches_its_prefix(route: Route<Ipv4Addr>, addr: u32)
    requires
        route.dst_len <= 32,
    ensures
        route.destination matches Some(net) ==> (route_matches(route, addr) <==> ((addr ^ net.bits)
            as u64) >> ((32 - route.dst_len) as u64) == 0),
        route.destination is None ==> (route_matches(route, addr) <==> (addr as u64) >> ((32
            - route.dst_len) as u64) == 0),
{
    lemma_agreement(route_network(route), addr, (32 - route.dst_len) as u64);
    assert(addr ^ 0 == addr) by (bit_vector);
}

proof fn lemma_agreement(net: u32, addr: u32, rest: u64)
    requires
        rest <= 32,
    ensures
        (net as u64) >> rest == (addr as u64) >> rest <==> ((addr ^ net) as u64) >> rest == 0,
{
    assert((net as u64) >> rest == (addr as u64) >> rest <==> ((addr ^ net) as u64) >> rest == 0)
        by (bit_vector)
        requires
            rest <= 32,
    ;
}

/// A lookup gives the longest prefix that the address has: the route found agrees with the address
/// on its prefix, every other route that does is shorter or comes later, and nothing is found only
/// where no route agrees. Prefix lengths past 32 count as 32.
pub proof fn law_lookup_is_longest_prefix(
    routes: Seq<Route<Ipv4Addr>>,
    addr: u32,
    found: Option<u32>,
)
    requires
        is_best_route(routes, addr, found),
    ensures
        forall|j: int|
            0 <= j < routes.len() ==> {
                let route = #[trigger] routes[j];
                let len = vstd::math::min(route.dst_len as int, 32);
                let net = match route.destination {
                    Some(a) => a.bits,
                    None => 0u32,
                };
                ((addr ^ net) as u64) >> ((32 - len) as u64) == 0 ==> {
                    &&& found matches Some(i)
                    &&& vstd::math::min(routes[i as int].dst_len as int, 32) > len
                        || vstd::math::min(routes[i as int].dst_len as int, 32) == len && i <= j
                }
            },
        found matches Some(i) ==> {
            let route = routes[i as int];
            let len = vstd::math::min(route.dst_len as int, 32);
            let net = match route.destination {
                Some(a) => a.bits,
                None => 0u32,
            };
            i < routes.len() && ((addr ^ net) as u64) >> ((32 - len) as u64) == 0
        },
{
    assert forall|j: int| 0 <= j < routes.len() implies {
        let route = #[trigger] routes[j];
        let len = vstd::math::min(route.dst_len as int, 32);
        let net = match route.destination {
            Some(a) => a.bits,
            None => 0u32,
        };
        ((addr ^ net) as u64) >> ((32 - len) as u64) == 0 <==> route_matches(route, addr)
    } by {
        let route = routes[j];
        let len = vstd::math::min(route.dst_len as int, 32);
        assert(route_prefix_len(route) == len);
        lemma_agreement(route_network(route), addr, (32 - len) as u64);
    }
}

/// A lookup has one answer.
pub proof fn law_lookup_has_one_answer(
    routes: Seq<Route<Ipv4Addr>>,
    addr: u32,
    a: Option<u32>,
    b: Option<u32>,
)
    requires
        is_best_route(routes, addr, a),
        is_best_route(routes, addr, b),
    ensures
        a == b,
{
    if let Some(i) = a {
        assert(route_matches(routes[i as int], addr));
    }
    if let Some(i) = b {
        assert(route_matches(routes[i as int], addr));
    }
}

/// The default route is the first one of length zero, and a lookup falls back to it where no
/// longer prefix matches.
pub proof fn law_default_route_is_the_last_resort(
    routes: Seq<Route<Ipv4Addr>>,
    default: Option<u32>,
    addr: u32,
    found: Option<u32>,
)
    requires
        is_default_route(routes, default),
        is_best_route(routes, addr, found),
    ensures
        default is None <==> forall|j: int|
            0 <= j < routes.len() ==> (#[trigger] routes[j]).dst_len > 0,
        default matches Some(i) ==> i < routes.len() && routes[i as int].dst_len == 0 && forall|j: int|
            0 <= j < i ==> (#[trigger] routes[j]).dst_len > 0,
        default is Some ==> found is Some,
        found matches Some(i) ==> routes[i as int].dst_len == 0 ==> found == default,
{
    if let Some(i) = default {
        assert(leading_bits(route_network(routes[i as int]), 0) == leading_bits(addr, 0)) by {
            let net = route_network(routes[i as int]);
            assert((net as u64) >> 32u64 == (addr as u64) >> 32u64) by (bit_vector);
        }
        assert(route_matches(routes[i as int], addr));
    }
    if let Some(i) = found {
        if routes[i as int].dst_len == 0 {
            assert(default is Some);
        }
    }
}

} // verus!
