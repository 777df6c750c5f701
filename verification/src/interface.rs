//! Runtime-agnostic packet I/O: buffers, scatter-gather packets and their metadata.

use bytes::BytesMut;
use crate::addr::{IpAddr, Ipv4Addr, SocketAddr};
use smallvec::SmallVec;
use vstd::prelude::*;

verus! {

/// Explicit Congestion Notification codepoint carried in the IP header.
#[derive(Debug, Clone, Copy, PartialEq, Eq, Structural)]
pub enum EcnCodepoint {
    Ect0,
    Ect1,
    Ce,
}

/// Metadata associated with a single received UDP datagram.
#[derive(Debug, Clone, Copy, PartialEq, Eq, Structural)]
pub struct RecvMeta {
    pub src: SocketAddr,
    pub dst_ip: Option<IpAddr>,
    pub ecn: Option<EcnCodepoint>,
    /// Total length of the datagram payload in bytes.
    pub len: usize,
    /// GRO segment stride: distance between consecutive datagrams within a
    /// single `recv` batch entry. Equal to `len` when GRO is not in use.
    pub stride: usize,
}

/// The metadata of no datagram.
pub open spec fn no_meta() -> RecvMeta {
    RecvMeta {
        src: SocketAddr { ip: IpAddr::V4(Ipv4Addr { bits: 0 }), port: 0 },
        dst_ip: None,
        ecn: None,
        len: 0,
        stride: 0,
    }
}

impl Default for RecvMeta {
    fn default() -> (meta: RecvMeta)
        ensures
            meta == no_meta(),
    {
        RecvMeta {
            src: SocketAddr { ip: IpAddr::V4(Ipv4Addr { bits: 0 }), port: 0 },
            dst_ip: None,
            ecn: None,
            len: 0,
            stride: 0,
        }
    }
}

/// A packet to be sent. Generic over the contents type so callers can use
/// either a contiguous buffer or a [`ScatterGather`] list.
#[derive(Debug)]
pub struct Transmit<T> {
    pub destination: SocketAddr,
    pub ecn: Option<EcnCodepoint>,
    pub contents: T,
    /// GSO segment size. `None` means the entire `contents` is one datagram.
    pub segment_size: Option<usize>,
    pub src_ip: Option<IpAddr>,
}

impl<T> Transmit<T> {
    /// One datagram of `contents` to `destination`.
    pub fn new(contents: T, destination: SocketAddr) -> (transmit: Transmit<T>)
        ensures
            transmit == (Transmit {
                destination,
                ecn: None,
                contents,
                segment_size: None,
                src_ip: None,
            }),
    {
        Transmit { destination, ecn: None, contents, segment_size: None, src_ip: None }
    }
}

/// An immutable handle to a packet buffer owned by a pool.
pub trait PacketBuf {
    /// The packet's bytes.
    spec fn bytes(&self) -> Seq<u8>;

    /// The handle is usable.
    spec fn wf(&self) -> bool;

    fn as_ref(&self) -> (data: &[u8])
        requires
            self.wf(),
        ensures
            data@ == self.bytes(),
    ;
}

/// A mutable handle used to fill an outgoing packet.
/// Call [`freeze`](PacketBufMut::freeze) to transition to an immutable [`PacketBuf`] ready for
/// transmission.
pub trait PacketBufMut: Sized {
    type Frozen: PacketBuf;

    /// The packet's bytes.
    spec fn bytes(&self) -> Seq<u8>;

    /// The handle is usable.
    spec fn wf(&self) -> bool;

    /// How many bytes the buffer can hold.
    spec fn spec_capacity(&self) -> nat;

    /// Whether nothing but the bytes that the two hold tells this buffer from another.
    spec fn same_buffer(&self, other: Self) -> bool;

    fn capacity(&self) -> (n: usize)
        requires
            self.wf(),
        ensures
            n == self.spec_capacity(),
    ;

    /// The filled part.
    fn filled(&self) -> (data: &[u8])
        requires
            self.wf(),
        ensures
            data@ == self.bytes(),
    ;

    /// Appends bytes to the filled part.
    fn append(&mut self, data: &[u8])
        requires
            old(self).wf(),
            old(self).bytes().len() + data@.len() <= old(self).spec_capacity(),
        ensures
            final(self).wf(),
            final(self).spec_capacity() == old(self).spec_capacity(),
            final(self).same_buffer(*old(self)),
            final(self).bytes() == old(self).bytes() + data@,
    ;

    /// The same buffer, frozen.
    spec fn spec_freeze(&self) -> Self::Frozen;

    fn freeze(self) -> (frozen: Self::Frozen)
        requires
            self.wf(),
        ensures
            frozen == self.spec_freeze(),
            frozen.wf(),
            frozen.bytes() == self.bytes(),
    ;
}

/// Mutable pool buffer for the receive path. It is copied once at the end of the path and
/// then returns to its pool.
pub trait RecvBuf: Sized {
    /// The buffer's bytes.
    spec fn bytes(&self) -> Seq<u8>;

    fn len(&self) -> (n: usize)
        ensures
            n == self.bytes().len(),
    ;

    fn is_empty(&self) -> (empty: bool)
        ensures
            empty == (self.bytes().len() == 0),
    {
        self.len() == 0
    }

    /// Return `[..at]`; `self` becomes `[at..]`.
    fn split_to(&mut self, at: usize) -> (head: Self)
        requires
            at <= old(self).bytes().len(),
        ensures
            head.bytes() == old(self).bytes().take(at as int),
            final(self).bytes() == old(self).bytes().skip(at as int),
    ;

    /// Return `[at..]`; `self` becomes `[..at]`.
    fn split_off(&mut self, at: usize) -> (tail: Self)
        requires
            at <= old(self).bytes().len(),
        ensures
            tail.bytes() == old(self).bytes().skip(at as int),
            final(self).bytes() == old(self).bytes().take(at as int),
    ;

    /// Shrink to the first `len` bytes (used after decrypt to discard the auth tag).
    fn truncate(&mut self, len: usize)
        ensures
            final(self).bytes() == (if len < old(self).bytes().len() {
                old(self).bytes().take(len as int)
            } else {
                old(self).bytes()
            }),
    ;
}

/// A pool of packet buffers, for socket backends to implement.
pub trait BufferPool {
    type Buf: PacketBuf;

    type BufMut: PacketBufMut<Frozen = Self::Buf>;

    /// Recv-side pool buffer. Flows through parse + decrypt and is then given up.
    type RecvBuf: RecvBuf;

    /// Allocate a batch of mutable buffers of at most `capacity` bytes each.
    /// Pushes up to `count` into `bufs` and returns how many were allocated.
    /// Returns 0 when the pool is exhausted.
    fn allocate(&mut self, capacity: usize, count: usize, bufs: &mut Vec<Self::BufMut>) -> (n: usize)
        ensures
            n <= count,
            final(bufs)@.len() == old(bufs)@.len() + n,
            final(bufs)@.take(old(bufs)@.len() as int) == old(bufs)@,
    ;

    /// Allocate a batch of recv-side buffers of at most `capacity` bytes each.
    fn allocate_recv(&mut self, capacity: usize, count: usize, bufs: &mut Vec<Self::RecvBuf>) -> (n:
        usize)
        ensures
            n <= count,
            final(bufs)@.len() == old(bufs)@.len() + n,
            final(bufs)@.take(old(bufs)@.len() as int) == old(bufs)@,
    ;

    /// Payload size below which copying into a single contiguous buffer is
    /// faster than building a scatter-gather descriptor list. Hardware-dependent;
    /// callers use this to decide whether to coalesce or scatter-gather.
    fn zerocopy_threshold(&self) -> usize;
}

/// The growable byte buffer of the `bytes` crate.
#[verifier::external_type_specification]
#[verifier::external_body]
pub struct ExBytesMut(BytesMut);

/// The bytes that a `BytesMut` holds.
pub uninterp spec fn bytes_mut_contents(buf: BytesMut) -> Seq<u8>;

/// `BytesMut::len`: the number of bytes.
#[verifier::external_body]
fn bytes_mut_len(buf: &BytesMut) -> (n: usize)
    ensures
        n == bytes_mut_contents(*buf).len(),
{
    buf.len()
}

/// `BytesMut::split_to`: splits the first `at` bytes off.
#[verifier::external_body]
fn bytes_mut_split_to(buf: &mut BytesMut, at: usize) -> (head: BytesMut)
    requires
        at <= bytes_mut_contents(*old(buf)).len(),
    ensures
        bytes_mut_contents(head) == bytes_mut_contents(*old(buf)).take(at as int),
        bytes_mut_contents(*final(buf)) == bytes_mut_contents(*old(buf)).skip(at as int),
{
    buf.split_to(at)
}

/// `BytesMut::split_off`: splits the bytes from `at` on off. An `at` between length and
/// capacity would be accepted too; the capacity is the allocator's affair, so it is left out.
#[verifier::external_body]
fn bytes_mut_split_off(buf: &mut BytesMut, at: usize) -> (tail: BytesMut)
    requires
        at <= bytes_mut_contents(*old(buf)).len(),
    ensures
        bytes_mut_contents(tail) == bytes_mut_contents(*old(buf)).skip(at as int),
        bytes_mut_contents(*final(buf)) == bytes_mut_contents(*old(buf)).take(at as int),
{
    buf.split_off(at)
}

/// `BytesMut::truncate`: keeps the first `len` bytes, or all where there are fewer.
#[verifier::external_body]
fn bytes_mut_truncate(buf: &mut BytesMut, len: usize)
    ensures
        len < bytes_mut_contents(*old(buf)).len() ==> bytes_mut_contents(*final(buf))
            == bytes_mut_contents(*old(buf)).take(len as int),
        len >= bytes_mut_contents(*old(buf)).len() ==> bytes_mut_contents(*final(buf))
            == bytes_mut_contents(*old(buf)),
{
    buf.truncate(len)
}

/// `BytesMut::from` on a slice: a buffer with a copy of its bytes.
#[verifier::external_body]
pub(crate) fn bytes_mut_from(data: &[u8]) -> (buf: BytesMut)
    ensures
        bytes_mut_contents(buf) == data@,
{
    BytesMut::from(data)
}

/// `BytesMut::with_capacity`: an empty buffer. More than `isize::MAX` bytes cannot be had.
#[verifier::external_body]
pub(crate) fn bytes_mut_with_capacity(capacity: usize) -> (buf: BytesMut)
    requires
        capacity <= isize::MAX,
    ensures
        bytes_mut_contents(buf) == Seq::<u8>::empty(),
{
    BytesMut::with_capacity(capacity)
}

/// `BytesMut::extend_from_slice`: appends bytes. More than `isize::MAX` in all cannot be had.
#[verifier::external_body]
pub(crate) fn bytes_mut_extend(buf: &mut BytesMut, data: &[u8])
    requires
        bytes_mut_contents(*old(buf)).len() + data@.len() <= isize::MAX,
    ensures
        bytes_mut_contents(*final(buf)) == bytes_mut_contents(*old(buf)) + data@,
{
    buf.extend_from_slice(data)
}

/// `BytesMut::as_ref`: the bytes.
#[verifier::external_body]
pub(crate) fn bytes_mut_as_ref(buf: &BytesMut) -> (data: &[u8])
    ensures
        data@ == bytes_mut_contents(*buf),
{
    buf.as_ref()
}

/// `BytesMut` can be used directly where a [`RecvBuf`] is expected.
impl RecvBuf for BytesMut {
    open spec fn bytes(&self) -> Seq<u8> {
        bytes_mut_contents(*self)
    }

    fn len(&self) -> (n: usize) {
        bytes_mut_len(self)
    }

    fn split_to(&mut self, at: usize) -> (head: Self) {
        bytes_mut_split_to(self, at)
    }

    fn split_off(&mut self, at: usize) -> (tail: Self) {
        bytes_mut_split_off(self, at)
    }

    fn truncate(&mut self, len: usize) {
        bytes_mut_truncate(self, len)
    }
}

/// Splitting a buffer loses nothing: the two parts together are the whole.
pub proof fn law_split_is_whole(whole: Seq<u8>, at: int)
    requires
        0 <= at <= whole.len(),
    ensures
        whole.take(at) + whole.skip(at) == whole,
{
    assert(whole.take(at) + whole.skip(at) =~= whole);
}

/// One contiguous piece of a scatter-gather packet.
pub struct Segment<B> {
    pub buf: B,
    pub offset: usize,
    pub len: usize,
}

impl<B: PacketBuf> Segment<B> {
    /// The piece lies in its buffer.
    pub open spec fn wf(&self) -> bool {
        self.buf.wf() && self.offset + self.len <= self.buf.bytes().len()
    }

    /// The piece's bytes.
    pub open spec fn bytes(&self) -> Seq<u8> {
        self.buf.bytes().subrange(self.offset as int, self.offset + self.len)
    }

    /// The `len` bytes of a buffer from `offset` on, where it has them; else the buffer is handed
    /// back.
    pub fn new(buf: B, offset: usize, len: usize) -> (segment: Result<Segment<B>, B>)
        requires
            buf.wf(),
        ensures
            segment is Ok <==> offset + len <= buf.bytes().len(),
            segment matches Ok(s) ==> s.wf() && s == (Segment { buf, offset, len }),
            segment matches Err(back) ==> back == buf,
    {
        let size: usize = buf.as_ref().len();
        if offset <= size && len <= size - offset {
            Ok(Segment { buf, offset, len })
        } else {
            Err(buf)
        }
    }

    /// The piece's bytes.
    pub fn as_slice(&self) -> (data: &[u8])
        requires
            self.wf(),
        ensures
            data@ == self.bytes(),
    {
        let whole: &[u8] = self.buf.as_ref();
        assert(self.offset + self.len <= whole.len());
        vstd::slice::slice_subrange(whole, self.offset, self.offset + self.len)
    }
}

/// Offsets and lengths of a packet's pieces. Up to 4 are held inline in a `SmallVec` of the
/// `smallvec` crate; longer chains spill to the heap.
#[verifier::external_body]
pub struct Spans {
    inner: SmallVec<[(usize, usize); 4]>,
}

/// The offsets and lengths that a `SmallVec` holds.
pub uninterp spec fn spans_items(spans: Spans) -> Seq<(usize, usize)>;

/// `SmallVec::new`: an empty list.
#[verifier::external_body]
fn spans_new() -> (spans: Spans)
    ensures
        spans_items(spans) == Seq::<(usize, usize)>::empty(),
{
    Spans { inner: SmallVec::new() }
}

/// `SmallVec::push`: appends an item.
#[verifier::external_body]
fn spans_push(spans: &mut Spans, offset: usize, len: usize)
    ensures
        spans_items(*final(spans)) == spans_items(*old(spans)).push((offset, len)),
{
    spans.inner.push((offset, len))
}

/// `SmallVec::len`: the number of items.
#[verifier::external_body]
fn spans_len(spans: &Spans) -> (n: usize)
    ensures
        n == spans_items(*spans).len(),
{
    spans.inner.len()
}

/// Indexing a `SmallVec`.
#[verifier::external_body]
fn spans_get(spans: &Spans, i: usize) -> (span: (usize, usize))
    requires
        i < spans_items(*spans).len(),
    ensures
        span == spans_items(*spans)[i as int],
{
    spans.inner[i]
}

/// A logical packet described as an ordered list of segments. The NIC's DMA
/// engine gathers the segments without an intermediate copy.
pub struct ScatterGather<B> {
    bufs: Vec<B>,
    spans: Spans,
}

impl<B> View for ScatterGather<B> {
    type V = Seq<Segment<B>>;

    closed spec fn view(&self) -> Seq<Segment<B>> {
        Seq::new(
            self.bufs@.len(),
            |i: int|
                Segment {
                    buf: self.bufs@[i],
                    offset: spans_items(self.spans)[i].0,
                    len: spans_items(self.spans)[i].1,
                },
        )
    }
}

/// The sum of the lengths of segments.
pub open spec fn segments_len<B>(segments: Seq<Segment<B>>) -> nat
    decreases segments.len(),
{
    if segments.len() == 0 {
        0
    } else {
        segments_len(segments.drop_last()) + segments.last().len as nat
    }
}

/// The bytes of segments in order.
pub open spec fn segments_bytes<B: PacketBuf>(segments: Seq<Segment<B>>) -> Seq<u8>
    decreases segments.len(),
{
    if segments.len() == 0 {
        Seq::empty()
    } else {
        segments_bytes(segments.drop_last()) + segments.last().bytes()
    }
}

impl<B> ScatterGather<B> {
    /// Every buffer has its span.
    pub closed spec fn wf(&self) -> bool {
        self.bufs@.len() == spans_items(self.spans).len()
    }

    /// A packet of no segments.
    pub fn new() -> (packet: ScatterGather<B>)
        ensures
            packet.wf(),
            packet@ == Seq::<Segment<B>>::empty(),
    {
        let packet = ScatterGather { bufs: Vec::new(), spans: spans_new() };
        assert(packet@ =~= Seq::<Segment<B>>::empty());
        packet
    }

    /// Appends a segment.
    pub fn push(&mut self, segment: Segment<B>)
        requires
            old(self).wf(),
        ensures
            final(self).wf(),
            final(self)@ == old(self)@.push(segment),
    {
        spans_push(&mut self.spans, segment.offset, segment.len);
        self.bufs.push(segment.buf);
        assert(self@ =~= old(self)@.push(segment));
    }

    /// Number of segments.
    pub fn segment_count(&self) -> (n: usize)
        requires
            self.wf(),
        ensures
            n == self@.len(),
    {
        spans_len(&self.spans)
    }

    /// Buffer, offset and length of a segment.
    pub fn segment(&self, i: usize) -> (segment: (&B, usize, usize))
        requires
            self.wf(),
            i < self@.len(),
        ensures
            *segment.0 == self@[i as int].buf,
            segment.1 == self@[i as int].offset,
            segment.2 == self@[i as int].len,
    {
        let (offset, len): (usize, usize) = spans_get(&self.spans, i);
        (&self.bufs[i], offset, len)
    }

    /// Total payload length across all segments.
    pub fn total_len(&self) -> (n: usize)
        requires
            self.wf(),
            segments_len(self@) <= usize::MAX,
        ensures
            n == segments_len(self@),
    {
        let ghost all = self@;
        let count: usize = spans_len(&self.spans);
        let mut sum: usize = 0;
        let mut i: usize = 0;
        assert(all.take(0) =~= Seq::<Segment<B>>::empty());
        while i < count
            invariant
                self.wf(),
                all == self@,
                i <= count == all.len(),
                sum == segments_len(all.take(i as int)),
                segments_len(all) <= usize::MAX,
            decreases count - i,
        {
            let (_, len): (usize, usize) = spans_get(&self.spans, i);
            proof {
                assert(all.take(i + 1).drop_last() =~= all.take(i as int));
                lemma_segments_len_prefix(all, i + 1);
            }
            sum += len;
            i += 1;
        }
        assert(all.take(all.len() as int) =~= all);
        sum
    }

    /// The buffers of all segments in order.
    pub fn into_bufs(self) -> (bufs: Vec<B>)
        requires
            self.wf(),
        ensures
            bufs@ == self@.map_values(|s: Segment<B>| s.buf),
    {
        assert(self.bufs@ =~= self@.map_values(|s: Segment<B>| s.buf));
        self.bufs
    }
}

proof fn lemma_segments_len_prefix<B>(all: Seq<Segment<B>>, n: int)
    requires
        0 <= n <= all.len(),
    ensures
        segments_len(all.take(n)) <= segments_len(all),
    decreases all.len() - n,
{
    if n < all.len() {
        lemma_segments_len_prefix(all, n + 1);
        assert(all.take(n + 1).drop_last() =~= all.take(n));
    } else {
        assert(all.take(n) =~= all);
    }
}

impl<B: PacketBuf> ScatterGather<B> {
    /// Every segment lies in its buffer.
    pub open spec fn in_bounds(&self) -> bool {
        forall|i: int| 0 <= i < self@.len() ==> (#[trigger] self@[i]).wf()
    }

    /// Returns a contiguous slice if the list has exactly one segment covering
    /// its entire buffer. This is the common case for received UDP datagrams.
    pub fn as_contiguous(&self) -> (data: Option<&[u8]>)
        requires
            self.wf(),
            self.in_bounds(),
        ensures
            data is Some <==> self@.len() == 1 && self@[0].offset == 0 && self@[0].len
                == self@[0].buf.bytes().len(),
            data matches Some(d) ==> d@ == self@[0].bytes(),
    {
        if spans_len(&self.spans) == 1 {
            let (offset, len): (usize, usize) = spans_get(&self.spans, 0);
            proof {
                assert(self@[0].wf());
            }
            let whole: &[u8] = self.bufs[0].as_ref();
            if offset == 0 && len == whole.len() {
                assert(self@[0].bytes() =~= whole@);
                Some(whole)
            } else {
                None
            }
        } else {
            None
        }
    }
}

/// A packet's bytes are those of its segments, one behind the other, each from its offset on and
/// as long as it says.
pub proof fn law_packet_is_its_segments<B: PacketBuf>(
    segments: Seq<Segment<B>>,
    segment: Segment<B>,
    i: int,
)
    requires
        segment.wf(),
        0 <= i < segment.len,
    ensures
        ({
            let before = segments_bytes(segments);
            let after = segments_bytes(segments.push(segment));
            &&& after.len() == before.len() + segment.len
            &&& after.take(before.len() as int) == before
            &&& after[before.len() + i] == segment.buf.bytes()[segment.offset + i]
            &&& segments_len(segments.push(segment)) == segments_len(segments) + segment.len
        }),
{
    let all = segments.push(segment);
    assert(all.drop_last() =~= segments);
    assert(all.last() == segment);
    assert(segments_bytes(all).take(segments_bytes(segments).len() as int) =~= segments_bytes(
        segments,
    ));
}

/// No datagram comes from nowhere, has no bytes, and nothing else is said of it.
pub proof fn law_nothing_is_said_of_no_datagram()
    ensures
        no_meta().src.port == 0,
        no_meta().src.ip matches IpAddr::V4(a) && a.bits == 0,
        no_meta().dst_ip is None && no_meta().ecn is None,
        no_meta().len == 0 && no_meta().stride == 0,
{
}

} // verus!
