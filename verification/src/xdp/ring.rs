//! AF_XDP ring indices (FILL / COMPLETION / RX / TX).
//!
//! A ring's memory is shared with the kernel. Reading the kernel's index and publishing ours
//! are up to the caller: `sync` takes the index that was read, `commit` returns the index to
//! store.

use vstd::prelude::*;

verus! {

/// One AF_XDP descriptor (matches the kernel's `struct xdp_desc`).
#[derive(Debug, Clone, Copy, PartialEq, Eq, Structural)]
pub struct XdpDesc {
    pub addr: u64,
    pub len: u32,
    pub options: u32,
}

/// Cached producer/consumer for a kernel-filled ring. Indexes wrap modulo
/// 2^32; capacity math uses `wrapping_sub`. Caller does modulo-size masking.
pub struct RingConsumer {
    pub cached_producer: u32,
    pub cached_consumer: u32,
}

impl RingConsumer {
    /// A ring whose shared indices hold `producer` and `consumer`.
    pub fn new(producer: u32, consumer: u32) -> (ring: RingConsumer)
        ensures
            ring.cached_producer == producer,
            ring.cached_consumer == consumer,
    {
        RingConsumer { cached_producer: producer, cached_consumer: consumer }
    }

    /// Number of descriptors seen and not yet consumed.
    pub open spec fn pending(self) -> u32 {
        self.cached_producer.wrapping_sub(self.cached_consumer)
    }

    /// Available descriptors (cached). Call [`sync`](Self::sync) to refresh.
    pub fn available(&self) -> (n: u32)
        ensures
            n == self.pending(),
    {
        self.cached_producer.wrapping_sub(self.cached_consumer)
    }

    /// Consume one descriptor; returns the index (not yet committed).
    pub fn consume(&mut self) -> (index: Option<u32>)
        ensures
            final(self).cached_producer == old(self).cached_producer,
            old(self).pending() == 0 ==> index is None && final(self).cached_consumer == old(
                self,
            ).cached_consumer,
            old(self).pending() > 0 ==> {
                &&& index == Some(old(self).cached_consumer)
                &&& final(self).cached_consumer == old(self).cached_consumer.wrapping_add(1)
                &&& final(self).pending() == old(self).pending() - 1
            },
    {
        if self.cached_consumer == self.cached_producer {
            return None;
        }
        let index: u32 = self.cached_consumer;
        self.cached_consumer = self.cached_consumer.wrapping_add(1);
        Some(index)
    }

    /// The consumer index to publish to the kernel.
    pub fn commit(&self) -> (index: u32)
        ensures
            index == self.cached_consumer,
    {
        self.cached_consumer
    }

    /// Takes over the kernel's producer index; with `commit`, first returns the consumer index
    /// to publish.
    pub fn sync(&mut self, commit: bool, producer: u32) -> (publish: Option<u32>)
        ensures
            publish == (if commit {
                Some(old(self).cached_consumer)
            } else {
                None
            }),
            final(self).cached_producer == producer,
            final(self).cached_consumer == old(self).cached_consumer,
    {
        let publish: Option<u32> = if commit {
            Some(self.commit())
        } else {
            None
        };
        self.cached_producer = producer;
        publish
    }
}

/// Cached producer/consumer for a userspace-filled ring. Full when
/// `producer - consumer == size`.
pub struct RingProducer {
    pub cached_producer: u32,
    pub cached_consumer: u32,
    pub size: u32,
}

impl RingProducer {
    /// A ring of `size` slots whose shared indices hold `producer` and `consumer`.
    pub fn new(producer: u32, consumer: u32, size: u32) -> (ring: RingProducer)
        ensures
            ring.cached_producer == producer,
            ring.cached_consumer == consumer,
            ring.size == size,
    {
        RingProducer { cached_producer: producer, cached_consumer: consumer, size }
    }

    /// Number of descriptors that the kernel has not been seen to consume.
    pub open spec fn pending(self) -> u32 {
        self.cached_producer.wrapping_sub(self.cached_consumer)
    }

    /// Number of slots free for producing.
    pub open spec fn free(self) -> int {
        if self.pending() <= self.size {
            self.size - self.pending()
        } else {
            0
        }
    }

    /// Free slots.
    pub fn available(&self) -> (n: u32)
        ensures
            n == self.free(),
    {
        self.size.saturating_sub(self.cached_producer.wrapping_sub(self.cached_consumer))
    }

    /// Reserve one slot; returns the index (not yet committed).
    pub fn produce(&mut self) -> (index: Option<u32>)
        ensures
            final(self).cached_consumer == old(self).cached_consumer,
            final(self).size == old(self).size,
            old(self).free() == 0 ==> index is None && final(self).cached_producer == old(
                self,
            ).cached_producer,
            old(self).free() > 0 ==> {
                &&& index == Some(old(self).cached_producer)
                &&& final(self).cached_producer == old(self).cached_producer.wrapping_add(1)
                &&& final(self).free() == old(self).free() - 1
            },
    {
        if self.available() == 0 {
            return None;
        }
        let index: u32 = self.cached_producer;
        self.cached_producer = self.cached_producer.wrapping_add(1);
        Some(index)
    }

    /// The producer index to publish to the kernel.
    pub fn commit(&self) -> (index: u32)
        ensures
            index == self.cached_producer,
    {
        self.cached_producer
    }

    /// Takes over the kernel's consumer index; with `commit`, first returns the producer index
    /// to publish.
    pub fn sync(&mut self, commit: bool, consumer: u32) -> (publish: Option<u32>)
        ensures
            publish == (if commit {
                Some(old(self).cached_producer)
            } else {
                None
            }),
            final(self).cached_consumer == consumer,
            final(self).cached_producer == old(self).cached_producer,
            final(self).size == old(self).size,
    {
        let publish: Option<u32> = if commit {
            Some(self.commit())
        } else {
            None
        };
        self.cached_consumer = consumer;
        publish
    }

    /// Ring capacity.
    pub fn size(&self) -> (size: u32)
        ensures
            size == self.size,
    {
        self.size
    }
}

/// Whether `n` is a power of two.
pub open spec fn is_power_of_two(n: u32) -> bool {
    n != 0 && n & ((n - 1) as u32) == 0
}

/// The slot of the `i`-th descriptor from index `start` on, in a ring of `size` slots.
pub open spec fn ring_slot(start: u32, i: int, size: u32) -> int {
    (start.wrapping_add(i as u32) & ((size - 1) as u32)) as int
}

/// Whether `slots` holds `items` in the slots from index `start` on, and in all others what
/// `before` held.
pub open spec fn ring_written<T>(
    before: Seq<T>,
    slots: Seq<T>,
    start: u32,
    items: Seq<T>,
    size: u32,
) -> bool {
    &&& slots.len() == before.len()
    &&& forall|i: int|
        0 <= i < items.len() ==> slots[#[trigger] ring_slot(start, i, size)] == items[i]
    &&& forall|s: int|
        0 <= s < slots.len() && (forall|i: int|
            0 <= i < items.len() ==> #[trigger] ring_slot(start, i, size) != s)
            ==> #[trigger] slots[s] == before[s]
}

/// The `n` items in the slots from index `start` on.
pub open spec fn ring_read<T>(slots: Seq<T>, start: u32, n: nat, size: u32) -> Seq<T> {
    Seq::new(n, |i: int| slots[ring_slot(start, i, size)])
}

/// A slot lies in the ring.
pub proof fn lemma_slot_bound(start: u32, i: int, size: u32)
    requires
        size > 0,
    ensures
        0 <= ring_slot(start, i, size) < size,
{
    let index = start.wrapping_add(i as u32);
    let mask = (size - 1) as u32;
    assert(index & mask <= mask) by (bit_vector);
}

/// Descriptors fewer than the ring's size apart have different slots, across the wrap of the
/// 32-bit index as well.
pub proof fn lemma_slots_distinct(start: u32, i: int, j: int, size: u32)
    requires
        is_power_of_two(size),
        0 <= i < j < i + size,
        j <= u32::MAX,
    ensures
        ring_slot(start, i, size) != ring_slot(start, j, size),
{
    let a = start.wrapping_add(i as u32);
    let b = start.wrapping_add(j as u32);
    let d = (j - i) as u32;
    assert(b == a + d || b == a + d - 0x1_0000_0000);
    lemma_masks_differ(a, b, d, size);
}

proof fn lemma_masks_differ(a: u32, b: u32, d: u32, size: u32)
    requires
        size != 0,
        size & ((size - 1) as u32) == 0,
        0 < d < size,
        b == a + d || b == a + d - 0x1_0000_0000,
    ensures
        a & ((size - 1) as u32) != b & ((size - 1) as u32),
{
    assert(a & ((size - 1) as u32) != b & ((size - 1) as u32)) by (bit_vector)
        requires
            size != 0,
            size & ((size - 1) as u32) == 0,
            0 < d,
            d < size,
            b == a + d || b == a + d - 0x1_0000_0000,
    ;
}

/// Reading a ring gives back what was written to it.
pub proof fn law_ring_read_after_write<T>(
    before: Seq<T>,
    slots: Seq<T>,
    start: u32,
    items: Seq<T>,
    size: u32,
)
    requires
        is_power_of_two(size),
        before.len() == size,
        items.len() <= size,
        ring_written(before, slots, start, items, size),
    ensures
        ring_read(slots, start, items.len(), size) == items,
{
    assert(ring_read(slots, start, items.len(), size) =~= items);
}

/// Writing one more item behind those written.
pub proof fn lemma_ring_write_one<T>(
    before: Seq<T>,
    slots: Seq<T>,
    start: u32,
    items: Seq<T>,
    size: u32,
    item: T,
)
    requires
        is_power_of_two(size),
        before.len() == size,
        items.len() < size,
        ring_written(before, slots, start, items, size),
    ensures
        ring_written(
            before,
            slots.update(ring_slot(start, items.len() as int, size), item),
            start,
            items.push(item),
            size,
        ),
{
    let n = items.len() as int;
    let at = ring_slot(start, n, size);
    let after = slots.update(at, item);
    let more = items.push(item);
    lemma_slot_bound(start, n, size);
    assert forall|i: int| 0 <= i < more.len() implies after[#[trigger] ring_slot(start, i, size)]
        == more[i] by {
        lemma_slot_bound(start, i, size);
        if i < n {
            lemma_slots_distinct(start, i, n, size);
        }
    }
    assert forall|s: int|
        0 <= s < after.len() && (forall|i: int|
            0 <= i < more.len() ==> #[trigger] ring_slot(start, i, size) != s) implies #[trigger] after[s]
        == before[s] by {
        assert(ring_slot(start, n, size) != s);
        assert forall|i: int| 0 <= i < items.len() implies #[trigger] ring_slot(start, i, size)
            != s by {
            assert(0 <= i < more.len());
        }
    }
}

/// Offsets of a ring's parts in its mapping, as the kernel reports them.
#[derive(Debug, Clone, Copy)]
pub struct RingOffsets {
    pub producer: u64,
    pub consumer: u64,
    pub desc: u64,
    pub flags: u64,
}

/// Where a mapped ring's parts lie in its mapping of `mmap_len` bytes.
#[derive(Debug, Clone, Copy)]
pub struct RingMmap {
    pub mmap_len: usize,
    pub producer: usize,
    pub consumer: usize,
    pub desc: usize,
    pub flags: usize,
}

fn max2(a: usize, b: usize) -> (m: usize)
    ensures
        m == if a >= b {
            a
        } else {
            b
        },
{
    if a >= b {
        a
    } else {
        b
    }
}

impl RingMmap {
    /// The mapping covers every part: the three 32-bit words and `size` bytes of descriptors.
    pub open spec fn covers(self, size: usize) -> bool {
        &&& self.producer + 4 <= self.mmap_len
        &&& self.consumer + 4 <= self.mmap_len
        &&& self.flags + 4 <= self.mmap_len
        &&& self.desc + size <= self.mmap_len
    }
}

/// The end of the part of a ring that reaches furthest.
pub open spec fn ring_end(offsets: RingOffsets, size: int) -> int {
    vstd::math::max(
        vstd::math::max(offsets.producer + 4, offsets.consumer + 4),
        vstd::math::max(offsets.flags + 4, offsets.desc + size),
    )
}

/// The layout of a ring with `size` bytes of descriptors: the parts at their offsets, and a
/// mapping up to the end of the furthest, or of the whole address space where that is less.
pub open spec fn ring_layout(offsets: RingOffsets, size: int) -> RingMmap {
    RingMmap {
        mmap_len: vstd::math::min(ring_end(offsets, size), usize::MAX as int) as usize,
        producer: offsets.producer as usize,
        consumer: offsets.consumer as usize,
        desc: offsets.desc as usize,
        flags: offsets.flags as usize,
    }
}

/// Wherever the address space holds a ring, its mapping covers it.
pub proof fn law_mapping_covers_ring(offsets: RingOffsets, size: usize)
    requires
        ring_end(offsets, size as int) <= usize::MAX,
    ensures
        ring_layout(offsets, size as int).covers(size),
{
}

/// Lays out the mapping of an AF_XDP ring. `size = ring_capacity * size_of::<T>()`.
///
/// The mapping covers producer, consumer, flags, and the full desc array. Kernels place flags
/// before desc but the layout is not guaranteed; the maximum over all four keeps the mapping
/// correct if it changes.
pub fn mmap_ring(size: usize, offsets: &RingOffsets) -> (ring: RingMmap)
    requires
        offsets.producer <= usize::MAX,
        offsets.consumer <= usize::MAX,
        offsets.desc <= usize::MAX,
        offsets.flags <= usize::MAX,
    ensures
        ring == ring_layout(*offsets, size as int),
{
    let producer: usize = offsets.producer as usize;
    let consumer: usize = offsets.consumer as usize;
    let flags: usize = offsets.flags as usize;
    let desc: usize = offsets.desc as usize;
    let words: usize = max2(
        max2(producer.saturating_add(4), consumer.saturating_add(4)),
        flags.saturating_add(4),
    );
    let mmap_len: usize = max2(words, desc.saturating_add(size));
    RingMmap { mmap_len, producer, consumer, desc, flags }
}

/// A size passes as a power of two exactly where it is one.
pub proof fn law_powers_of_two(n: u32)
    ensures
        is_power_of_two(n) <==> exists|k: nat|
            k < 32 && n == #[trigger] vstd::arithmetic::power2::pow2(k),
{
    vstd::arithmetic::power2::lemma2_to64();
    if is_power_of_two(n) {
        lemma_power_cases(n);
        let k = power_of(n);
        assert(k < 32 && n == vstd::arithmetic::power2::pow2(k));
    }
    if exists|k: nat| k < 32 && n == #[trigger] vstd::arithmetic::power2::pow2(k) {
        let k = choose|k: nat| k < 32 && n == #[trigger] vstd::arithmetic::power2::pow2(k);
        vstd::arithmetic::power2::lemma_pow2_pos(k);
        vstd::bits::lemma_u32_low_bits_mask_is_mod(n, k);
        assert(vstd::bits::low_bits_mask(k) == n - 1);
        assert(n % n == 0) by (nonlinear_arith)
            requires
                n > 0,
        ;
    }
}

/// The power of a size that is a power of two.
spec fn power_of(n: u32) -> nat {
    choose|k: nat| k < 32 && n == #[trigger] vstd::arithmetic::power2::pow2(k)
}

proof fn lemma_power_cases(n: u32)
    requires
        is_power_of_two(n),
    ensures
        exists|k: nat| k < 32 && n == #[trigger] vstd::arithmetic::power2::pow2(k),
{
    vstd::arithmetic::power2::lemma2_to64();
    let k = lemma_find_power(n, 0);
    assert(k < 32 && n == vstd::arithmetic::power2::pow2(k));
}

/// The power of a size, sought from below.
proof fn lemma_find_power(n: u32, from: nat) -> (k: nat)
    requires
        is_power_of_two(n),
        from < 32,
        n as nat % vstd::arithmetic::power2::pow2(from) == 0,
    ensures
        k < 32,
        n == vstd::arithmetic::power2::pow2(k),
    decreases 32 - from,
{
    let p = vstd::arithmetic::power2::pow2(from);
    vstd::arithmetic::power2::lemma_pow2_pos(from);
    if n == p {
        return from;
    }
    vstd::arithmetic::power2::lemma_pow2_unfold(from + 1);
    vstd::bits::lemma_u32_pow2_no_overflow(from);
    let b = p as u32;
    // The bit that `from` names is clear: with it the size would be no power of two but `b`.
    let s = from as u32;
    vstd::bits::lemma_u32_shl_is_mul(1, s);
    assert(b == 1u32 << s);
    vstd::bits::lemma_u32_low_bits_mask_is_mod(n, from);
    let mask = (b - 1) as u32;
    assert(vstd::bits::low_bits_mask(from) == mask);
    assert(n & mask == 0);
    assert(n & b == 0) by (bit_vector)
        requires
            n & ((n - 1) as u32) == 0,
            n != 0,
            s < 32,
            b == 1u32 << s,
            mask == (b - 1) as u32,
            n & mask == 0,
            n != b,
    ;
    if from == 31 {
        assert(false) by {
            assert(n == 0) by (bit_vector)
                requires
                    s == 31,
                    b == 1u32 << s,
                    mask == (b - 1) as u32,
                    n & mask == 0,
                    n & b == 0,
            ;
        }
        0
    } else {
        let next = (s + 1) as u32;
        vstd::bits::lemma_u32_pow2_no_overflow(from + 1);
        vstd::bits::lemma_u32_low_bits_mask_is_mod(n, from + 1);
        let wide = (2 * p - 1) as u32;
        assert(vstd::bits::low_bits_mask(from + 1) == wide);
        assert(n & wide == 0) by (bit_vector)
            requires
                s < 31,
                b == 1u32 << s,
                mask == (b - 1) as u32,
                wide == (2 * b - 1) as u32,
                n & mask == 0,
                n & b == 0,
        ;
        lemma_find_power(n, from + 1)
    }
}

/// Descriptors go round the ring: the `i`-th one from an index on lies `i` slots further, modulo
/// the ring's size, across the wrap of the 32-bit index as well.
pub proof fn law_slots_go_round(start: u32, i: int, size: u32)
    requires
        is_power_of_two(size),
        0 <= i <= u32::MAX,
    ensures
        ring_slot(start, i, size) == (start + i) % (size as int),
{
    lemma_power_cases(size);
    let k = power_of(size);
    let w = start.wrapping_add(i as u32);
    vstd::arithmetic::power2::lemma2_to64();
    vstd::bits::lemma_u32_low_bits_mask_is_mod(w, k);
    assert(vstd::bits::low_bits_mask(k) == size - 1);
    let rest = vstd::arithmetic::power2::pow2((32 - k) as nat);
    vstd::arithmetic::power2::lemma_pow2_adds(k, (32 - k) as nat);
    vstd::arithmetic::power2::lemma_pow2_pos((32 - k) as nat);
    assert(size * rest == 0x1_0000_0000);
    assert(w == (start + i) % 0x1_0000_0000);
    vstd::arithmetic::div_mod::lemma_mod_mod(start + i, size as int, rest as int);
}

/// What is written to a ring lies there in order from the start on, round the end; all other slots
/// are as before.
pub proof fn law_ring_is_written_in_order<T>(
    before: Seq<T>,
    slots: Seq<T>,
    start: u32,
    items: Seq<T>,
    size: u32,
    s: int,
)
    requires
        is_power_of_two(size),
        before.len() == size,
        items.len() <= size,
        ring_written(before, slots, start, items, size),
        0 <= s < size,
    ensures
        slots.len() == size,
        slots[s] == (if (s - start) % (size as int) < items.len() {
            items[(s - start) % (size as int)]
        } else {
            before[s]
        }),
{
    let i = (s - start) % (size as int);
    assert(0 <= i < size);
    lemma_slot_is(start, i, size, s);
    if i < items.len() {
        assert(ring_slot(start, i, size) == s);
    } else {
        assert forall|j: int| 0 <= j < items.len() implies #[trigger] ring_slot(start, j, size)
            != s by {
            lemma_slot_is(start, j, size, s);
        }
    }
}

proof fn lemma_slot_is(start: u32, i: int, size: u32, s: int)
    requires
        is_power_of_two(size),
        0 <= i < size,
        0 <= s < size,
    ensures
        ring_slot(start, i, size) == s <==> i == (s - start) % (size as int),
{
    let n = size as int;
    law_slots_go_round(start, i, size);
    if (start + i) % n == s {
        vstd::arithmetic::div_mod::lemma_fundamental_div_mod(start + i, n);
        let q = (start + i) / n;
        assert(s - start == i + (-q) * n) by (nonlinear_arith)
            requires
                start + i == n * q + s,
        ;
        vstd::arithmetic::div_mod::lemma_mod_multiples_vanish(-q, i, n);
        vstd::arithmetic::div_mod::lemma_small_mod(i as nat, n as nat);
        assert(n * (-q) + i == i + (-q) * n) by (nonlinear_arith);
    }
    if i == (s - start) % n {
        vstd::arithmetic::div_mod::lemma_fundamental_div_mod(s - start, n);
        let q = (s - start) / n;
        assert(start + i == n * (-q) + s) by (nonlinear_arith)
            requires
                s - start == n * q + i,
        ;
        vstd::arithmetic::div_mod::lemma_mod_multiples_vanish(-q, s, n);
        vstd::arithmetic::div_mod::lemma_small_mod(s as nat, n as nat);
    }
}

/// Items are read from a ring in order from the start on, round the end.
pub proof fn law_ring_is_read_in_order<T>(slots: Seq<T>, start: u32, n: nat, size: u32, i: int)
    requires
        is_power_of_two(size),
        0 <= i < n <= u32::MAX,
    ensures
        ring_read(slots, start, n, size).len() == n,
        ring_read(slots, start, n, size)[i] == slots[(start + i) % (size as int)],
{
    law_slots_go_round(start, i, size);
}

/// A ring has as many free slots as its size leaves over what the kernel has not consumed, which
/// is how far the producer is ahead modulo 2^32.
pub proof fn law_free_slots(ring: RingProducer)
    ensures
        ({
            let ahead = (ring.cached_producer - ring.cached_consumer) % 0x1_0000_0000;
            &&& ahead <= ring.size ==> ring.free() + ahead == ring.size
            &&& ahead > ring.size ==> ring.free() == 0
        }),
{
}

/// As many descriptors wait as the kernel's producer is ahead modulo 2^32.
pub proof fn law_waiting_descriptors(ring: RingConsumer)
    ensures
        ring.pending() == (ring.cached_producer - ring.cached_consumer) % 0x1_0000_0000,
{
}

/// A ring's parts lie where the kernel says, and its mapping ends where the furthest one does.
pub proof fn law_mapping_is_as_long_as_needed(offsets: RingOffsets, size: usize)
    requires
        offsets.producer + 4 <= usize::MAX,
        offsets.consumer + 4 <= usize::MAX,
        offsets.flags + 4 <= usize::MAX,
        offsets.desc + size <= usize::MAX,
    ensures
        ({
            let ring = ring_layout(offsets, size as int);
            &&& ring.producer == offsets.producer
            &&& ring.consumer == offsets.consumer
            &&& ring.desc == offsets.desc
            &&& ring.flags == offsets.flags
            &&& ring.mmap_len >= offsets.producer + 4 && ring.mmap_len >= offsets.consumer + 4
                && ring.mmap_len >= offsets.flags + 4 && ring.mmap_len >= offsets.desc + size
            &&& ring.mmap_len == offsets.producer + 4 || ring.mmap_len == offsets.consumer + 4
                || ring.mmap_len == offsets.flags + 4 || ring.mmap_len == offsets.desc + size
        }),
{
}

} // verus!
