//! Text for packet traces.

use crate::interface::{PacketBuf, ScatterGather, Segment};
use crate::os::buffers::OsBuf;
use vstd::prelude::*;
use vstd::string::StringExecFns;

verus! {

broadcast use vstd::slice::group_slice_axioms;

/// How many bytes of a datagram are gathered for a trace.
pub const TRACE_MAX: usize = 256;

/// The digit of a number below sixteen.
pub open spec fn hex_char(n: int) -> char {
    if n < 10 {
        ('0' as int + n) as char
    } else {
        ('a' as int + n - 10) as char
    }
}

/// A byte as two digits.
pub open spec fn hex_byte(b: u8) -> Seq<char> {
    seq![hex_char(b as int / 16), hex_char(b as int % 16)]
}

/// Bytes as pairs of digits with spaces between.
pub open spec fn hex_bytes(data: Seq<u8>) -> Seq<char>
    decreases data.len(),
{
    if data.len() == 0 {
        Seq::empty()
    } else if data.len() == 1 {
        hex_byte(data[0])
    } else {
        hex_bytes(data.drop_last()).push(' ') + hex_byte(data.last())
    }
}

fn hex_digit(n: u8) -> (digit: &'static str)
    requires
        n < 16,
    ensures
        digit@ == seq![hex_char(n as int)],
{
    proof {
        reveal_strlit("0");
        reveal_strlit("1");
        reveal_strlit("2");
        reveal_strlit("3");
        reveal_strlit("4");
        reveal_strlit("5");
        reveal_strlit("6");
        reveal_strlit("7");
        reveal_strlit("8");
        reveal_strlit("9");
        reveal_strlit("a");
        reveal_strlit("b");
        reveal_strlit("c");
        reveal_strlit("d");
        reveal_strlit("e");
        reveal_strlit("f");
    }
    match n {
        0 => "0",
        1 => "1",
        2 => "2",
        3 => "3",
        4 => "4",
        5 => "5",
        6 => "6",
        7 => "7",
        8 => "8",
        9 => "9",
        10 => "a",
        11 => "b",
        12 => "c",
        13 => "d",
        14 => "e",
        _ => "f",
    }
}

/// The first `max` bytes in hexadecimal, and an ellipsis if there are more.
pub fn hex_prefix(data: &[u8], max: usize) -> (text: String)
    ensures
        data@.len() <= max ==> text@ == hex_bytes(data@),
        data@.len() > max ==> text@ == hex_bytes(data@.take(max as int)) + " …"@,
{
    let n: usize = if data.len() < max {
        data.len()
    } else {
        max
    };
    let mut text: String = String::new();
    let mut i: usize = 0;
    assert(data@.take(0) =~= Seq::<u8>::empty());
    while i < n
        invariant
            i <= n <= data@.len(),
            text@ == hex_bytes(data@.take(i as int)),
        decreases n - i,
    {
        let ghost before = text@;
        if i > 0 {
            text.append(" ");
        }
        let b: u8 = data[i];
        text.append(hex_digit(b / 16));
        text.append(hex_digit(b % 16));
        proof {
            reveal_strlit(" ");
            let next = data@.take(i + 1);
            assert(next.drop_last() =~= data@.take(i as int));
            if i == 0 {
                assert(text@ =~= hex_byte(b));
            } else {
                assert(text@ =~= before.push(' ') + hex_byte(b));
            }
        }
        i += 1;
    }
    if data.len() > max {
        text.append(" …");
    }
    assert(data@.take(data@.len() as int) =~= data@);
    text
}

/// The first bytes of a datagram, at most [`TRACE_MAX`], out of all its segments.
pub fn datagram_prefix(packet: &ScatterGather<OsBuf>) -> (prefix: Vec<u8>)
    requires
        packet.wf(),
        packet.in_bounds(),
    ensures
        prefix@ == crate::interface::segments_bytes(packet@).take(
            vstd::math::min(
                TRACE_MAX as int,
                crate::interface::segments_bytes(packet@).len() as int,
            ),
        ),
{
    let ghost all = packet@;
    let count: usize = packet.segment_count();
    let mut prefix: Vec<u8> = Vec::new();
    let mut i: usize = 0;
    assert(all.take(0) =~= Seq::<Segment<OsBuf>>::empty());
    assert(prefix@ =~= first_bytes(all.take(0)));
    while i < count
        invariant
            packet.wf(),
            packet.in_bounds(),
            all == packet@,
            i <= count == all.len(),
            prefix@ == first_bytes(all.take(i as int)),
        decreases count - i,
    {
        let (buf, offset, len): (&OsBuf, usize, usize) = packet.segment(i);
        assert(packet@[i as int].wf());
        let room: usize = TRACE_MAX - prefix.len();
        let n: usize = if room < len {
            room
        } else {
            len
        };
        let whole: &[u8] = buf.as_ref();
        assert(offset + len <= whole@.len());
        let head: &[u8] = vstd::slice::slice_subrange(whole, offset, offset + n);
        prefix.extend_from_slice(head);
        proof {
            let next = all.take(i + 1);
            assert(next.drop_last() =~= all.take(i as int));
            assert(next.last() == all[i as int]);
            assert(prefix@ =~= first_bytes(next));
        }
        i += 1;
    }
    assert(all.take(i as int) =~= all);
    prefix
}

/// The first bytes of segments, as many as a trace shows.
spec fn first_bytes(segments: Seq<Segment<OsBuf>>) -> Seq<u8> {
    let bytes = crate::interface::segments_bytes(segments);
    bytes.take(vstd::math::min(TRACE_MAX as int, bytes.len() as int))
}

/// Bytes in hexadecimal read back: two digits for each, the higher half first, and a space between
/// two.
pub proof fn law_hexadecimal_reads_back(data: Seq<u8>, i: int)
    requires
        0 <= i < data.len(),
    ensures
        ({
            let text = hex_bytes(data);
            let high = text[3 * i] as int;
            let low = text[3 * i + 1] as int;
            let high_digit = if high >= 97 {
                high - 87
            } else {
                high - 48
            };
            let low_digit = if low >= 97 {
                low - 87
            } else {
                low - 48
            };
            &&& text.len() == 3 * data.len() - 1
            &&& 48 <= high <= 57 || 97 <= high <= 102
            &&& 48 <= low <= 57 || 97 <= low <= 102
            &&& high_digit * 16 + low_digit == data[i]
            &&& i + 1 < data.len() ==> text[3 * i + 2] == ' '
        }),
    decreases data.len(),
{
    if data.len() > 1 {
        let fewer = data.drop_last();
        if i < fewer.len() {
            law_hexadecimal_reads_back(fewer, i);
        } else {
            law_hexadecimal_reads_back(fewer, 0);
        }
    }
}

} // verus!
