//! What reading and writing frames have to do with each other: a frame that
//! was written is read back as it was, whatever follows it; and no beginning
//! of it is mistaken for a frame.

use crate::wire::{
    all_digits, decimal_digits, decimal_value, decode_frame, decode_items, decode_length, encode,
    encode_all, header, is_digit, lemma_line_end, line_end, terminator_at, FrameError, FrameView,
    ARRAY, BULK, CR, LF, ZERO,
};
use vstd::prelude::*;

verus! {

/// The frames that can be read back from the wire with arrays nested at most
/// `depth` deep: bulk strings, and arrays of such frames. (A simple string or
/// a null is written, never read.)
pub open spec fn readable(f: FrameView, depth: nat) -> bool
    decreases f,
{
    match f {
        FrameView::Bulk(b) => b.len() <= usize::MAX,
        FrameView::Array(items) => {
            &&& depth > 0
            &&& items.len() <= usize::MAX
            &&& forall|i: int|
                0 <= i < items.len() ==> readable(#[trigger] items[i], (depth - 1) as nat)
        },
        _ => false,
    }
}

/// Every one of `items` can be read back.
pub open spec fn all_readable(items: Seq<FrameView>, depth: nat) -> bool {
    forall|i: int| 0 <= i < items.len() ==> readable(#[trigger] items[i], depth)
}

/// The digits of a number are digits, at least one, and denote the number.
pub proof fn lemma_decimal_digits(n: nat)
    ensures
        decimal_digits(n).len() >= 1,
        all_digits(decimal_digits(n)),
        decimal_value(decimal_digits(n)) == n,
    decreases n,
{
    let d = decimal_digits(n);
    if n < 10 {
        assert(decimal_value(d.drop_last()) == 0);
    } else {
        lemma_decimal_digits(n / 10);
        assert(d.drop_last() =~= decimal_digits(n / 10));
        assert(forall|i: int| 0 <= i < d.len() ==> is_digit(#[trigger] d[i]));
    }
}

/// A line of digits ends at the terminator that follows the digits.
proof fn lemma_line_of_digits(s: Seq<u8>, from: int, end: int)
    requires
        0 <= from <= end,
        terminator_at(s, end),
        all_digits(s.subrange(from, end)),
    ensures
        line_end(s, from) == Some(end),
    decreases end - from,
{
    if from < end {
        assert(s.subrange(from, end)[0] == s[from]);
        assert(all_digits(s.subrange(from + 1, end))) by {
            assert forall|i: int| 0 <= i < end - from - 1 implies is_digit(
                #[trigger] s.subrange(from + 1, end)[i],
            ) by {
                assert(s.subrange(from + 1, end)[i] == s.subrange(from, end)[i + 1]);
            }
        }
        lemma_line_of_digits(s, from + 1, end);
    }
}

/// A header that stands at `at` is read as its number, up to behind its
/// terminator.
proof fn lemma_decode_header(s: Seq<u8>, at: int, lead: u8, n: nat)
    requires
        0 <= at,
        at + header(lead, n).len() <= s.len(),
        s.subrange(at, at + header(lead, n).len()) == header(lead, n),
        n <= usize::MAX,
    ensures
        s[at] == lead,
        decode_length(s, at + 1) == Ok::<(nat, int), FrameError>(
            (n, at + header(lead, n).len()),
        ),
{
    let h = header(lead, n);
    let d = decimal_digits(n);
    lemma_decimal_digits(n);
    assert(forall|i: int| 0 <= i < h.len() ==> s[at + i] == h[i]);
    assert(h[0] == lead);
    let end = at + 1 + d.len();
    assert(h[end - at] == CR);
    assert(h[end - at + 1] == LF);
    assert(s.subrange(at + 1, end) =~= d) by {
        assert forall|i: int| 0 <= i < d.len() implies s.subrange(at + 1, end)[i] == d[i] by {
            assert(h[1 + i] == d[i]);
        }
    }
    lemma_line_of_digits(s, at + 1, end);
}

/// While the terminator of a header has not arrived, the header cannot be
/// read yet.
proof fn lemma_decode_header_cut(s: Seq<u8>, at: int, lead: u8, n: nat, k: int)
    requires
        0 <= at,
        1 <= k < header(lead, n).len(),
        s.len() == at + k,
        s.subrange(at, at + k) == header(lead, n).take(k),
    ensures
        s[at] == lead,
        decode_length(s, at + 1) == Err::<(nat, int), FrameError>(FrameError::Incomplete),
{
    let h = header(lead, n);
    let d = decimal_digits(n);
    lemma_decimal_digits(n);
    assert forall|i: int| 0 <= i < k implies s[at + i] == h[i] by {
        assert(h.take(k)[i] == h[i]);
    }
    assert(h[0] == lead);
    lemma_line_end(s, at + 1);
    assert forall|i: int| at + 1 <= i implies !terminator_at(s, i) by {
        if i + 1 < s.len() {
            let j = i - at;
            assert(h[j] == d[j - 1]);
        }
    }
}

/// A frame that was written is read back as it was, whatever stands before
/// and after it, and reading ends just behind it.
pub proof fn lemma_decode_encoded(f: FrameView, depth: nat, before: Seq<u8>, after: Seq<u8>)
    requires
        readable(f, depth),
    ensures
        decode_frame(before + encode(f) + after, before.len() as int, depth) == Ok::<
            (FrameView, int),
            FrameError,
        >((f, (before.len() + encode(f).len()) as int)),
    decreases f, 1int,
{
    let s = before + encode(f) + after;
    let at = before.len() as int;
    match f {
        FrameView::Bulk(b) => {
            let h = header(BULK, b.len());
            assert(s.subrange(at, at + h.len()) =~= h);
            lemma_decode_header(s, at, BULK, b.len());
            let body = at + h.len();
            assert(s.subrange(body, body + b.len()) =~= b);
        },
        FrameView::Array(items) => {
            let h = header(ARRAY, items.len());
            assert(s.subrange(at, at + h.len()) =~= h);
            lemma_decode_header(s, at, ARRAY, items.len());
            lemma_decode_encoded_items(items, (depth - 1) as nat, before + h, after);
            assert(s =~= (before + h) + encode_all(items) + after);
        },
        _ => {},
    }
}

/// Reading what was written gives the frame that was written, and takes all
/// of the bytes.
pub proof fn lemma_round_trip(f: FrameView, depth: nat)
    requires
        readable(f, depth),
    ensures
        decode_frame(encode(f), 0, depth) == Ok::<(FrameView, int), FrameError>(
            (f, encode(f).len() as int),
        ),
{
    lemma_decode_encoded(f, depth, Seq::empty(), Seq::empty());
}

/// Frames that were written one after the other are read back as they were.
pub proof fn lemma_decode_encoded_items(
    items: Seq<FrameView>,
    depth: nat,
    before: Seq<u8>,
    after: Seq<u8>,
)
    requires
        all_readable(items, depth),
    ensures
        decode_items(before + encode_all(items) + after, before.len() as int, items.len(), depth)
            == Ok::<(Seq<FrameView>, int), FrameError>(
            (items, (before.len() + encode_all(items).len()) as int),
        ),
    decreases items, 0int,
{
    let s = before + encode_all(items) + after;
    if items.len() == 0 {
        assert(items =~= Seq::<FrameView>::empty());
    } else {
        let first = items.first();
        let rest = items.drop_first();
        assert(all_readable(rest, depth)) by {
            assert forall|i: int| 0 <= i < rest.len() implies readable(
                #[trigger] rest[i],
                depth,
            ) by {
                assert(rest[i] == items[i + 1]);
            }
        }
        lemma_decode_encoded(first, depth, before, encode_all(rest) + after);
        assert(s =~= before + encode(first) + (encode_all(rest) + after));
        lemma_decode_encoded_items(rest, depth, before + encode(first), after);
        assert(s =~= (before + encode(first)) + encode_all(rest) + after);
        assert(seq![first] + rest =~= items);
    }
}

/// No proper beginning of a written frame is read as a frame: more bytes are
/// asked for.
pub proof fn lemma_decode_cut(f: FrameView, depth: nat, before: Seq<u8>, k: int)
    requires
        readable(f, depth),
        0 <= k < encode(f).len(),
    ensures
        decode_frame(before + encode(f).take(k), before.len() as int, depth) == Err::<
            (FrameView, int),
            FrameError,
        >(FrameError::Incomplete),
    decreases f, 1int,
{
    let e = encode(f);
    let s = before + e.take(k);
    let at = before.len() as int;
    if k > 0 {
        match f {
            FrameView::Bulk(b) => {
                let h = header(BULK, b.len());
                if k < h.len() {
                    assert(s.subrange(at, at + k) =~= h.take(k));
                    lemma_decode_header_cut(s, at, BULK, b.len(), k);
                } else {
                    assert(s.subrange(at, at + h.len()) =~= h);
                    lemma_decode_header(s, at, BULK, b.len());
                }
            },
            FrameView::Array(items) => {
                let h = header(ARRAY, items.len());
                if k < h.len() {
                    assert(s.subrange(at, at + k) =~= h.take(k));
                    lemma_decode_header_cut(s, at, ARRAY, items.len(), k);
                } else {
                    assert(s.subrange(at, at + h.len()) =~= h);
                    lemma_decode_header(s, at, ARRAY, items.len());
                    lemma_decode_cut_items(items, (depth - 1) as nat, before + h, k - h.len());
                    assert(s =~= (before + h) + encode_all(items).take(k - h.len()));
                }
            },
            _ => {},
        }
    }
}

/// No proper beginning of several written frames is read as all of them.
pub proof fn lemma_decode_cut_items(items: Seq<FrameView>, depth: nat, before: Seq<u8>, k: int)
    requires
        all_readable(items, depth),
        0 <= k < encode_all(items).len(),
    ensures
        decode_items(before + encode_all(items).take(k), before.len() as int, items.len(), depth)
            == Err::<(Seq<FrameView>, int), FrameError>(FrameError::Incomplete),
    decreases items, 0int,
{
    let s = before + encode_all(items).take(k);
    if items.len() > 0 {
        let first = items.first();
        let rest = items.drop_first();
        assert(all_readable(rest, depth)) by {
            assert forall|i: int| 0 <= i < rest.len() implies readable(
                #[trigger] rest[i],
                depth,
            ) by {
                assert(rest[i] == items[i + 1]);
            }
        }
        let n = encode(first).len() as int;
        if k < n {
            lemma_decode_cut(first, depth, before, k);
            assert(s =~= before + encode(first).take(k));
        } else {
            lemma_decode_encoded(first, depth, before, encode_all(rest).take(k - n));
            lemma_decode_cut_items(rest, depth, before + encode(first), k - n);
            assert(s =~= (before + encode(first)) + encode_all(rest).take(k - n));
        }
    }
}

/// The end of a line that was found stays where it is when more bytes
/// follow.
proof fn lemma_line_end_stable(s: Seq<u8>, more: Seq<u8>, from: int)
    requires
        0 <= from,
        line_end(s, from) is Some,
    ensures
        line_end(s + more, from) == line_end(s, from),
    decreases s.len() - from,
{
    if from + 1 < s.len() {
        if terminator_at(s, from) {
        } else {
            lemma_line_end_stable(s, more, from + 1);
        }
    }
}

/// A length that was read, or refused, is read or refused in the same way
/// when more bytes follow.
proof fn lemma_decode_length_stable(s: Seq<u8>, more: Seq<u8>, from: int)
    requires
        0 <= from,
        decode_length(s, from) != Err::<(nat, int), FrameError>(FrameError::Incomplete),
    ensures
        decode_length(s + more, from) == decode_length(s, from),
{
    lemma_line_end(s, from);
    lemma_line_end_stable(s, more, from);
    let end = line_end(s, from).unwrap();
    assert((s + more).subrange(from, end) =~= s.subrange(from, end));
}

/// Only the want of bytes is mended by more bytes: a frame that was read is
/// read as the same frame whatever follows it, and bytes that were refused
/// are refused for the same reason whatever follows them.
pub proof fn lemma_decode_frame_stable(s: Seq<u8>, more: Seq<u8>, from: int, depth: nat)
    requires
        decode_frame(s, from, depth) != Err::<(FrameView, int), FrameError>(
            FrameError::Incomplete,
        ),
    ensures
        decode_frame(s + more, from, depth) == decode_frame(s, from, depth),
    decreases depth, 0nat,
{
    let t = s + more;
    if s[from] == BULK {
        lemma_decode_length_stable(s, more, from + 1);
        match decode_length(s, from + 1) {
            Ok((len, body)) => {
                lemma_line_end(s, from + 1);
                assert(t.subrange(body, body + len) =~= s.subrange(body, body + len));
            },
            Err(_) => {},
        }
    } else if s[from] == ARRAY && depth > 0 {
        lemma_decode_length_stable(s, more, from + 1);
        match decode_length(s, from + 1) {
            Ok((count, body)) => {
                lemma_decode_items_stable(s, more, body, count, (depth - 1) as nat);
            },
            Err(_) => {},
        }
    }
}

/// Frames that were read one after the other, or refused, are read or
/// refused in the same way when more bytes follow.
pub proof fn lemma_decode_items_stable(
    s: Seq<u8>,
    more: Seq<u8>,
    from: int,
    count: nat,
    depth: nat,
)
    requires
        decode_items(s, from, count, depth) != Err::<(Seq<FrameView>, int), FrameError>(
            FrameError::Incomplete,
        ),
    ensures
        decode_items(s + more, from, count, depth) == decode_items(s, from, count, depth),
    decreases depth, count + 1,
{
    if count > 0 {
        lemma_decode_frame_stable(s, more, from, depth);
        match decode_frame(s, from, depth) {
            Ok((_, next)) => {
                lemma_decode_items_stable(s, more, next, (count - 1) as nat, depth);
            },
            Err(_) => {},
        }
    }
}

} // verus!
