//! UMEM: page-aligned memory shared with the kernel via AF_XDP.

use vstd::prelude::*;

verus! {

/// Allocation failed. Caller may retry with regular pages.
#[derive(Debug, Clone, Copy, PartialEq, Eq, Structural)]
pub struct AllocError;

impl AllocError {
    /// What went wrong, for people.
    pub fn message(&self) -> (text: &'static str)
        ensures
            text@ == "mmap failed (UMEM allocation)"@,
    {
        "mmap failed (UMEM allocation)"
    }
}

/// `pointer::align_offset` on the start of a slice: how many bytes to skip for a multiple of
/// `align`. Where the memory lies is up to the allocator, so nothing is promised of the result.
#[verifier::external_body]
fn align_offset(memory: &[u8], align: usize) -> (skip: usize)
    requires
        is_power_of_two_usize(align),
{
    memory.as_ptr().align_offset(align)
}

/// Whether `n` is a power of two.
pub open spec fn is_power_of_two_usize(n: usize) -> bool {
    n != 0 && n & ((n - 1) as usize) == 0
}

/// The least multiple of `page` that is not below `n`.
pub open spec fn round_up(n: int, page: int) -> int {
    (n + page - 1) / page * page
}

/// Page-aligned, zeroed memory.
pub struct PageAlignedMemory {
    buf: Vec<u8>,
    start: usize,
    len: usize,
}

impl View for PageAlignedMemory {
    type V = Seq<u8>;

    closed spec fn view(&self) -> Seq<u8> {
        self.buf@.subrange(self.start as int, self.start + self.len)
    }
}

proof fn lemma_round_up(n: int, page: int)
    requires
        0 <= n,
        0 < page,
    ensures
        n <= round_up(n, page) < n + page,
        round_up(n, page) % page == 0,
{
    let q = (n + page - 1) / page;
    vstd::arithmetic::div_mod::lemma_fundamental_div_mod(n + page - 1, page);
    vstd::arithmetic::div_mod::lemma_mod_bound(n + page - 1, page);
    vstd::arithmetic::mul::lemma_mul_is_commutative(page, q);
    vstd::arithmetic::div_mod::lemma_mod_multiples_basic(q, page);
}

impl PageAlignedMemory {
    /// The memory lies in its allocation.
    pub closed spec fn wf(&self) -> bool {
        self.start + self.len <= self.buf@.len()
    }

    /// Allocate `frame_size * frame_count` bytes (both must be powers of 2), in regular pages,
    /// which have the system's `page_size`. Whether they can be had is up to the allocator.
    pub fn allocate(frame_size: usize, frame_count: usize, page_size: usize) -> (memory: Result<
        PageAlignedMemory,
        AllocError,
    >)
        requires
            is_power_of_two_usize(frame_size),
            is_power_of_two_usize(frame_count),
            is_power_of_two_usize(page_size),
            frame_size * frame_count + 2 * page_size <= usize::MAX,
        ensures
            memory matches Ok(m) ==> m.wf() && m@ == Seq::new(
                round_up(frame_size * frame_count, page_size as int) as nat,
                |i: int| 0u8,
            ),
    {
        PageAlignedMemory::alloc_with_page_size(frame_size, frame_count, page_size, true)
    }

    /// Allocate with an explicit page size: the memory starts at a multiple of it and its
    /// length is rounded up to one. `granted` says whether the system has pages of that size to
    /// give; without them the caller may retry with regular pages. Asks for [`allocation_size`](Self::allocation_size) bytes;
    /// whether they can be had, and where they lie, is up to the allocator.
    /// [`in_allocation`](Self::in_allocation) says what comes of its answer.
    pub fn alloc_with_page_size(
        frame_size: usize,
        frame_count: usize,
        page_size: usize,
        granted: bool,
    ) -> (memory: Result<PageAlignedMemory, AllocError>)
        requires
            is_power_of_two_usize(frame_size),
            is_power_of_two_usize(frame_count),
            is_power_of_two_usize(page_size),
            frame_size * frame_count + 2 * page_size <= usize::MAX,
        ensures
            !granted ==> memory is Err,
            memory matches Ok(m) ==> m.wf() && m@ == Seq::new(
                round_up(frame_size * frame_count, page_size as int) as nat,
                |i: int| 0u8,
            ),
    {
        let size: usize = PageAlignedMemory::allocation_size(frame_size, frame_count, page_size);
        let ghost len = round_up(frame_size * frame_count, page_size as int);
        let mut buf: Vec<u8> = Vec::new();
        if !granted || buf.try_reserve(size).is_err() {
            return PageAlignedMemory::in_allocation(None, 0, size - page_size);
        }
        buf.resize(size, 0);
        let skip: usize = align_offset(buf.as_slice(), page_size);
        assert(skip + len <= buf@.len() ==> buf@.subrange(skip as int, skip + len) =~= Seq::new(
            len as nat,
            |i: int| 0u8,
        ));
        PageAlignedMemory::in_allocation(Some(buf), skip, size - page_size)
    }

    /// How many bytes to allocate for frames in whole pages: a page more than they take, so that
    /// they can start at a multiple of the page size wherever the allocation lies.
    pub fn allocation_size(frame_size: usize, frame_count: usize, page_size: usize) -> (size: usize)
        requires
            page_size > 0,
            frame_size * frame_count + 2 * page_size <= usize::MAX,
        ensures
            size == round_up(frame_size * frame_count, page_size as int) + page_size,
            size - page_size >= frame_size * frame_count,
    {
        proof {
            vstd::arithmetic::mul::lemma_mul_is_commutative(
                frame_size as int,
                frame_count as int,
            );
            lemma_round_up(frame_size * frame_count, page_size as int);
        }
        let memory_size: usize = frame_count * frame_size;
        (memory_size + page_size - 1) / page_size * page_size + page_size
    }

    /// The memory that starts `skip` bytes into an allocation and is `len` bytes long. Fails
    /// where the allocator had no memory, and where the allocation is too short.
    pub fn in_allocation(allocation: Option<Vec<u8>>, skip: usize, len: usize) -> (memory: Result<
        PageAlignedMemory,
        AllocError,
    >)
        ensures
            memory is Ok <==> (allocation matches Some(buf) && skip + len <= buf@.len()),
            memory matches Ok(m) ==> m.wf() && m@ == allocation->0@.subrange(
                skip as int,
                skip + len,
            ),
    {
        match allocation {
            None => Err(AllocError),
            Some(buf) => if skip > buf.len() || len > buf.len() - skip {
                Err(AllocError)
            } else {
                Ok(PageAlignedMemory { buf, start: skip, len })
            },
        }
    }

    /// Number of bytes.
    pub fn len(&self) -> (n: usize)
        requires
            self.wf(),
        ensures
            n == self@.len(),
    {
        self.len
    }

    /// The bytes.
    pub fn as_slice(&self) -> (bytes: &[u8])
        requires
            self.wf(),
        ensures
            bytes@ == self@,
    {
        let buf: &[u8] = self.buf.as_slice();
        assert(self.start + self.len <= buf.len());
        let end: usize = self.start + self.len;
        vstd::slice::slice_subrange(buf, self.start, end)
    }

    /// The bytes, for writing.
    pub fn as_mut_slice(&mut self) -> (bytes: &mut [u8])
        requires
            old(self).wf(),
        ensures
            bytes@ == old(self)@,
            final(bytes)@.len() == bytes@.len() ==> final(self).wf() && final(self)@ == final(bytes)@,
    {
        let (_, tail) = self.buf.as_mut_slice().split_at_mut(self.start);
        let (bytes, _) = tail.split_at_mut(self.len);
        bytes
    }
}

impl PageAlignedMemory {
    /// Writes a byte.
    fn set_byte(&mut self, i: usize, byte: u8)
        requires
            old(self).wf(),
            i < old(self)@.len(),
        ensures
            final(self).wf(),
            final(self)@ == old(self)@.update(i as int, byte),
    {
        assert(self.start + i < self.buf.len());
        let at: usize = self.start + i;
        self.buf[at] = byte;
        assert(self@ =~= old(self)@.update(i as int, byte));
    }
}

/// `memory` with `data` written at `at`.
pub open spec fn overwritten(memory: Seq<u8>, at: int, data: Seq<u8>) -> Seq<u8> {
    memory.take(at) + data + memory.skip(at + data.len())
}

/// What is written leaves other ranges alone.
pub proof fn lemma_overwritten_apart(memory: Seq<u8>, at: int, data: Seq<u8>, from: int, to: int)
    requires
        0 <= at <= at + data.len() <= memory.len(),
        0 <= from <= to <= memory.len(),
        at + data.len() <= from || to <= at,
    ensures
        overwritten(memory, at, data).subrange(from, to) == memory.subrange(from, to),
{
    assert(overwritten(memory, at, data).subrange(from, to) =~= memory.subrange(from, to));
}

/// A range that starts with what is written goes on as before.
pub proof fn lemma_overwritten_start(memory: Seq<u8>, at: int, data: Seq<u8>, to: int)
    requires
        0 <= at <= at + data.len() <= to <= memory.len(),
    ensures
        overwritten(memory, at, data).subrange(at, to) == data + memory.subrange(at, to).skip(
            data.len() as int,
        ),
{
    assert(overwritten(memory, at, data).subrange(at, to) =~= data + memory.subrange(at, to).skip(
        data.len() as int,
    ));
}

impl Umem {
    /// Writes bytes at a raw byte offset.
    pub fn write_at(&mut self, addr: u64, data: &[u8])
        requires
            old(self).wf(),
            addr + data@.len() <= old(self)@.len(),
        ensures
            final(self).wf(),
            final(self).spec_frame_size() == old(self).spec_frame_size(),
            final(self).spec_frame_count() == old(self).spec_frame_count(),
            final(self)@ == overwritten(old(self)@, addr as int, data@),
    {
        assert(self.backing@.len() <= usize::MAX);
        let start: usize = addr as usize;
        let ghost before = self@;
        let mut i: usize = 0;
        assert(overwritten(before, start as int, data@.take(0)) =~= before);
        while i < data.len()
            invariant
                i <= data@.len(),
                start + data@.len() <= before.len() <= usize::MAX,
                self.wf(),
                self.frame_size == old(self).frame_size,
                self.frame_count == old(self).frame_count,
                self@ == overwritten(before, start as int, data@.take(i as int)),
            decreases data@.len() - i,
        {
            self.backing.set_byte(start + i, data[i]);
            i += 1;
            assert(self@ =~= overwritten(before, start as int, data@.take(i as int)));
        }
        assert(data@.take(i as int) =~= data@);
    }
}

/// 2 MiB; the x86_64 Linux huge-page default.
pub const HUGE_PAGE_SIZE: usize = 2097152;

/// UMEM region carved into fixed-size frames; registered via `XDP_UMEM_REG`
/// for kernel/userspace zero-copy DMA. Frame allocation lives in the buffer
/// pools, not here.
pub struct Umem {
    backing: PageAlignedMemory,
    frame_size: u32,
    frame_count: u32,
}

/// What follows an attempt to allocate a UMEM.
pub enum UmemStep {
    Ready(Umem),
    RegularPages,
    Failed(AllocError),
}

impl View for Umem {
    type V = Seq<u8>;

    closed spec fn view(&self) -> Seq<u8> {
        self.backing@
    }
}

impl Umem {
    /// Size of a frame in bytes.
    pub closed spec fn spec_frame_size(&self) -> u32 {
        self.frame_size
    }

    /// Number of frames.
    pub closed spec fn spec_frame_count(&self) -> u32 {
        self.frame_count
    }

    /// All frames lie in the memory.
    pub closed spec fn wf(&self) -> bool {
        &&& self.backing.wf()
        &&& self.frame_size > 0
        &&& self.frame_count > 0
        &&& self.frame_size * self.frame_count <= self.backing@.len() <= usize::MAX
    }

    /// The bytes of a frame.
    pub open spec fn frame_bytes(&self, index: int) -> Seq<u8> {
        self@.subrange(
            index * self.spec_frame_size(),
            index * self.spec_frame_size() + self.spec_frame_size(),
        )
    }

    /// Allocate `frame_count` frames of `frame_size`. Tries huge pages first, then regular ones of
    /// the system's `page_size`. `huge_granted` says whether the system has huge pages to give:
    /// the memory is then laid out in them, for the system to back it with. Whether memory can be
    /// had at all is up to the allocator. [`after_attempt`](Self::after_attempt) says what comes
    /// of each attempt.
    pub fn new(frame_size: u32, frame_count: u32, page_size: usize, huge_granted: bool) -> (umem:
        Result<Umem, AllocError>)
        requires
            crate::xdp::ring::is_power_of_two(frame_size),
            crate::xdp::ring::is_power_of_two(frame_count),
            is_power_of_two_usize(page_size),
            frame_size * frame_count + 2 * HUGE_PAGE_SIZE <= usize::MAX,
            frame_size * frame_count + 2 * page_size <= usize::MAX,
        ensures
            umem matches Ok(u) ==> {
                &&& u.wf()
                &&& u.spec_frame_size() == frame_size
                &&& u.spec_frame_count() == frame_count
                &&& u@.len() == round_up(frame_size * frame_count, page_size as int) || huge_granted
                    && u@.len() == round_up(frame_size * frame_count, HUGE_PAGE_SIZE as int)
                &&& forall|i: int| 0 <= i < u@.len() ==> u@[i] == 0
            },
    {
        let size: usize = frame_size as usize;
        let count: usize = frame_count as usize;
        proof {
            assert(HUGE_PAGE_SIZE & ((HUGE_PAGE_SIZE - 1) as usize) == 0) by (bit_vector);
            assert(size & ((size - 1) as usize) == 0 && count & ((count - 1) as usize) == 0);
            lemma_round_up(frame_size * frame_count, HUGE_PAGE_SIZE as int);
            lemma_round_up(frame_size * frame_count, page_size as int);
        }
        let huge = PageAlignedMemory::alloc_with_page_size(
            size,
            count,
            HUGE_PAGE_SIZE,
            huge_granted,
        );
        match Umem::after_attempt(frame_size, frame_count, true, huge) {
            UmemStep::Ready(umem) => Ok(umem),
            UmemStep::Failed(e) => Err(e),
            UmemStep::RegularPages => {
                let regular = PageAlignedMemory::allocate(size, count, page_size);
                match Umem::after_attempt(frame_size, frame_count, false, regular) {
                    UmemStep::Ready(umem) => Ok(umem),
                    _ => Err(AllocError),
                }
            },
        }
    }

    /// What follows an attempt to allocate the memory: it is the UMEM, or else regular pages are
    /// tried where huge ones were asked for, and nothing more where regular ones were.
    pub fn after_attempt(
        frame_size: u32,
        frame_count: u32,
        huge: bool,
        memory: Result<PageAlignedMemory, AllocError>,
    ) -> (step: UmemStep)
        requires
            frame_size > 0,
            frame_count > 0,
            memory matches Ok(m) ==> m.wf() && frame_size * frame_count <= m@.len(),
        ensures
            step is Ready <==> memory is Ok,
            step is RegularPages <==> memory is Err && huge,
            step is Failed <==> memory is Err && !huge,
            step matches UmemStep::Ready(u) ==> {
                &&& u.wf()
                &&& u.spec_frame_size() == frame_size
                &&& u.spec_frame_count() == frame_count
                &&& u@ == memory->Ok_0@
            },
    {
        match memory {
            Ok(backing) => UmemStep::Ready(Umem { backing, frame_size, frame_count }),
            Err(e) => if huge {
                UmemStep::RegularPages
            } else {
                UmemStep::Failed(e)
            },
        }
    }

    /// The whole memory.
    pub fn as_slice(&self) -> (bytes: &[u8])
        requires
            self.wf(),
        ensures
            bytes@ == self@,
    {
        self.backing.as_slice()
    }

    /// The whole memory, for writing.
    pub fn as_mut_slice(&mut self) -> (bytes: &mut [u8])
        requires
            old(self).wf(),
        ensures
            final(self).spec_frame_size() == old(self).spec_frame_size(),
            final(self).spec_frame_count() == old(self).spec_frame_count(),
            bytes@ == old(self)@,
            final(bytes)@.len() == bytes@.len() ==> final(self).wf() && final(self)@ == final(bytes)@,
    {
        self.backing.as_mut_slice()
    }

    /// Total UMEM size in bytes (page-aligned).
    pub fn len(&self) -> (n: usize)
        requires
            self.wf(),
        ensures
            n == self@.len(),
    {
        self.backing.len()
    }

    /// Whether the memory has no bytes, which it always has.
    pub fn is_empty(&self) -> (empty: bool)
        requires
            self.wf(),
        ensures
            !empty,
            empty == (self@.len() == 0),
    {
        proof {
            vstd::arithmetic::mul::lemma_mul_strictly_positive(
                self.frame_size as int,
                self.frame_count as int,
            );
        }
        self.len() == 0
    }

    pub fn frame_size(&self) -> (size: u32)
        ensures
            size == self.spec_frame_size(),
    {
        self.frame_size
    }

    pub fn frame_count(&self) -> (count: u32)
        ensures
            count == self.spec_frame_count(),
    {
        self.frame_count
    }

    /// Frame byte offset (used directly as the XDP descriptor `addr` field).
    pub fn frame_offset(&self, index: u32) -> (offset: u64)
        requires
            index < self.spec_frame_count(),
        ensures
            offset == index * self.spec_frame_size(),
    {
        proof {
            vstd::arithmetic::mul::lemma_mul_upper_bound(
                index as int,
                u32::MAX as int,
                self.frame_size as int,
                u32::MAX as int,
            );
        }
        index as u64 * self.frame_size as u64
    }

    /// Frame bytes (immutable).
    pub fn frame(&self, index: u32) -> (bytes: &[u8])
        requires
            self.wf(),
            index < self.spec_frame_count(),
        ensures
            bytes@ == self.frame_bytes(index as int),
            bytes@.len() == self.spec_frame_size(),
    {
        proof {
            lemma_frame_bound(index as int, self.frame_size as int, self.frame_count as int);
        }
        let start: usize = (index as usize) * (self.frame_size as usize);
        vstd::slice::slice_subrange(
            self.backing.as_slice(),
            start,
            start + self.frame_size as usize,
        )
    }

    /// Frame bytes (mutable).
    pub fn frame_mut(&mut self, index: u32) -> (bytes: &mut [u8])
        requires
            old(self).wf(),
            index < old(self).spec_frame_count(),
        ensures
            final(self).spec_frame_size() == old(self).spec_frame_size(),
            final(self).spec_frame_count() == old(self).spec_frame_count(),
            bytes@ == old(self).frame_bytes(index as int),
            bytes@.len() == old(self).spec_frame_size(),
            final(bytes)@.len() == bytes@.len() ==> {
                &&& final(self).wf()
                &&& final(self).frame_bytes(index as int) == final(bytes)@
                &&& final(self)@.len() == old(self)@.len()
                &&& forall|i: int|
                    0 <= i < old(self)@.len() && (i < index * old(self).spec_frame_size() || i
                        >= index * old(self).spec_frame_size() + old(self).spec_frame_size())
                        ==> #[trigger] final(self)@[i] == old(self)@[i]
            },
    {
        proof {
            lemma_frame_bound(index as int, self.frame_size as int, self.frame_count as int);
        }
        let start: usize = (index as usize) * (self.frame_size as usize);
        let size: usize = self.frame_size as usize;
        let (_, tail) = self.backing.as_mut_slice().split_at_mut(start);
        let (bytes, _) = tail.split_at_mut(size);
        bytes
    }

    /// Slice by raw byte offset, for writing.
    pub fn slice_at_mut(&mut self, addr: u64, len: usize) -> (bytes: &mut [u8])
        requires
            old(self).wf(),
            addr + len <= old(self)@.len(),
        ensures
            final(self).spec_frame_size() == old(self).spec_frame_size(),
            final(self).spec_frame_count() == old(self).spec_frame_count(),
            bytes@ == old(self)@.subrange(addr as int, addr + len),
            final(bytes)@.len() == bytes@.len() ==> {
                &&& final(self).wf()
                &&& final(self)@ == overwritten(old(self)@, addr as int, final(bytes)@)
            },
    {
        assert(self.backing@.len() <= usize::MAX);
        let (_, tail) = self.backing.as_mut_slice().split_at_mut(addr as usize);
        let (bytes, _) = tail.split_at_mut(len);
        bytes
    }

    /// Slice by raw byte offset (as kernel reports in RX descriptors).
    pub fn slice_at(&self, addr: u64, len: usize) -> (bytes: &[u8])
        requires
            self.wf(),
            addr + len <= self@.len(),
        ensures
            bytes@ == self@.subrange(addr as int, addr + len),
    {
        assert(self.backing@.len() <= usize::MAX);
        let start: usize = addr as usize;
        vstd::slice::slice_subrange(self.backing.as_slice(), start, start + len)
    }
}

proof fn lemma_frame_bound(index: int, size: int, count: int)
    requires
        0 <= index < count,
        0 <= size,
    ensures
        0 <= index * size,
        index * size + size <= size * count,
{
    vstd::arithmetic::mul::lemma_mul_inequality(index + 1, count, size);
    vstd::arithmetic::mul::lemma_mul_is_distributive_add_other_way(size, index, 1);
    vstd::arithmetic::mul::lemma_mul_is_commutative(size, count);
    vstd::arithmetic::mul::lemma_mul_nonnegative(index, size);
}

/// Every frame lies in the memory.
pub proof fn law_frame_in_memory(umem: Umem, index: u32)
    requires
        umem.wf(),
        index < umem.spec_frame_count(),
    ensures
        index * umem.spec_frame_size() + umem.spec_frame_size() <= umem@.len(),
{
    lemma_frame_bound(index as int, umem.frame_size as int, umem.frame_count as int);
}

/// Different frames share no byte.
pub proof fn law_frames_disjoint(umem: Umem, i: u32, j: u32)
    requires
        umem.wf(),
        i < j < umem.spec_frame_count(),
    ensures
        i * umem.spec_frame_size() + umem.spec_frame_size() <= j * umem.spec_frame_size(),
{
    vstd::arithmetic::mul::lemma_mul_inequality(i + 1, j as int, umem.frame_size as int);
    vstd::arithmetic::mul::lemma_mul_is_distributive_add_other_way(
        umem.frame_size as int,
        i as int,
        1,
    );
}

/// Rounding up gives whole pages, no fewer bytes than asked for, and less than a page more.
pub proof fn law_round_up_to_pages(n: int, page: int)
    requires
        0 <= n,
        0 < page,
    ensures
        round_up(n, page) % page == 0,
        n <= round_up(n, page) < n + page,
{
    let q = (n + page - 1) / page;
    vstd::arithmetic::div_mod::lemma_fundamental_div_mod(n + page - 1, page);
    vstd::arithmetic::div_mod::lemma_mod_bound(n + page - 1, page);
    assert(page * q == q * page) by (nonlinear_arith);
    vstd::arithmetic::div_mod::lemma_mod_multiples_basic(q, page);
}

/// Writing changes the bytes written to, each to its own, and no other.
pub proof fn law_write_changes_its_range(memory: Seq<u8>, at: int, data: Seq<u8>, i: int)
    requires
        0 <= at <= at + data.len() <= memory.len(),
        0 <= i < memory.len(),
    ensures
        overwritten(memory, at, data).len() == memory.len(),
        overwritten(memory, at, data)[i] == (if at <= i < at + data.len() {
            data[i - at]
        } else {
            memory[i]
        }),
{
}

/// A power of two is one, or twice a power of two.
pub proof fn law_powers_of_two_are_even(n: usize)
    requires
        is_power_of_two_usize(n),
        n > 1,
    ensures
        n % 2 == 0,
        is_power_of_two_usize((n / 2) as usize),
{
    assert(n % 2 == 0 && n / 2 != 0 && (n / 2) & (((n / 2) as usize) - 1) as usize == 0)
        by (bit_vector)
        requires
            n & ((n - 1) as usize) == 0,
            n > 1,
    ;
}

/// Frames lie one behind the other, each of the same size.
pub proof fn law_frames_lie_one_behind_the_other(umem: Umem, index: u32, i: int)
    requires
        umem.wf(),
        index < umem.spec_frame_count(),
        0 <= i < umem.spec_frame_size(),
    ensures
        umem.frame_bytes(index as int).len() == umem.spec_frame_size(),
        umem.frame_bytes(index as int)[i] == umem@[index * umem.spec_frame_size() + i],
{
    law_frame_in_memory(umem, index);
    assert(index * umem.spec_frame_size() >= 0) by (nonlinear_arith);
}

} // verus!
