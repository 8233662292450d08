//! The wire format, stated over byte sequences.
//!
//! `encode` says which bytes stand for a frame and `decode_frame` says which
//! frame, if any, begins at a given offset of a byte sequence. Both are
//! mathematical definitions; the executable codec is proved against them.

use vstd::prelude::*;

verus! {

/// Carriage return, the first byte of a line terminator.
pub const CR: u8 = 13;

/// Line feed, the second byte of a line terminator.
pub const LF: u8 = 10;

/// Leading byte of a simple string: `+`.
pub const SIMPLE: u8 = 43;

/// Leading byte of a bulk string, and of the null frame: `$`.
pub const BULK: u8 = 36;

/// Leading byte of an array: `*`.
pub const ARRAY: u8 = 42;

/// The minus sign of the null frame's length: `-`.
pub const MINUS: u8 = 45;

/// The digit zero: `0`. The other digits follow it in order.
pub const ZERO: u8 = 48;

/// How many arrays may be nested inside one another in a frame read from the
/// wire. An array that would sit deeper is rejected.
pub const MAX_DEPTH: usize = 32;

/// Why no frame could be read.
#[derive(Clone, Copy, Debug, PartialEq, Eq, Structural)]
pub enum FrameError {
    /// The bytes so far are the beginning of a frame, but not all of it.
    Incomplete,
    /// The bytes cannot begin a frame.
    Invalid,
    /// A length or a count is not a decimal number that fits in `usize`.
    BadLength,
}

/// What a frame is, without regard to how it is held in memory.
pub enum FrameView {
    /// A short text, such as a status.
    Simple(Seq<char>),
    /// Any bytes.
    Bulk(Seq<u8>),
    /// Frames, in order.
    Array(Seq<FrameView>),
    /// No value.
    Null,
}

/// The line terminator.
pub open spec fn crlf() -> Seq<u8> {
    seq![CR, LF]
}

/// Whether a byte is a decimal digit.
pub open spec fn is_digit(b: u8) -> bool {
    ZERO <= b <= ZERO + 9
}

/// Whether every byte is a decimal digit.
pub open spec fn all_digits(s: Seq<u8>) -> bool {
    forall|i: int| 0 <= i < s.len() ==> is_digit(#[trigger] s[i])
}

/// The number that a sequence of decimal digits denotes; the empty sequence
/// denotes zero.
pub open spec fn decimal_value(s: Seq<u8>) -> nat
    decreases s.len(),
{
    if s.len() == 0 {
        0
    } else {
        decimal_value(s.drop_last()) * 10 + (s.last() - ZERO) as nat
    }
}

/// The decimal digits of a number, most significant first, without leading
/// zeros.
pub open spec fn decimal_digits(n: nat) -> Seq<u8>
    decreases n,
{
    if n < 10 {
        seq![(ZERO + n) as u8]
    } else {
        decimal_digits(n / 10).push((ZERO + n % 10) as u8)
    }
}

/// The first line of a bulk string or an array: the leading byte and the
/// length or count in decimal.
pub open spec fn header(lead: u8, n: nat) -> Seq<u8> {
    seq![lead] + decimal_digits(n) + crlf()
}

/// The bytes that stand for a frame on the wire.
pub open spec fn encode(f: FrameView) -> Seq<u8>
    decreases f, 1int,
{
    match f {
        FrameView::Simple(s) => seq![SIMPLE] + vstd::utf8::encode_utf8(s) + crlf(),
        FrameView::Bulk(b) => header(BULK, b.len()) + b + crlf(),
        FrameView::Array(items) => header(ARRAY, items.len()) + encode_all(items),
        FrameView::Null => seq![BULK, MINUS, (ZERO + 1) as u8, CR, LF],
    }
}

/// The encodings of several frames, one after the other.
pub open spec fn encode_all(items: Seq<FrameView>) -> Seq<u8>
    decreases items, 0int,
{
    if items.len() == 0 {
        Seq::empty()
    } else {
        encode(items.first()) + encode_all(items.drop_first())
    }
}

/// Whether a line terminator begins at offset `i`.
pub open spec fn terminator_at(s: Seq<u8>, i: int) -> bool {
    0 <= i && i + 1 < s.len() && s[i] == CR && s[i + 1] == LF
}

/// The offset of the first line terminator that begins at or after `from`.
pub open spec fn line_end(s: Seq<u8>, from: int) -> Option<int>
    decreases s.len() - from,
{
    if from < 0 || from + 1 >= s.len() {
        None
    } else if terminator_at(s, from) {
        Some(from)
    } else {
        line_end(s, from + 1)
    }
}

/// Reads the decimal line that begins at `from`: the number it holds, which
/// may be at most `max`, and the offset just behind its terminator.
pub open spec fn decode_decimal(s: Seq<u8>, from: int, max: nat) -> Result<(nat, int), FrameError> {
    match line_end(s, from) {
        None => Err(FrameError::Incomplete),
        Some(end) => {
            let digits = s.subrange(from, end);
            if all_digits(digits) && decimal_value(digits) <= max {
                Ok((decimal_value(digits), end + 2))
            } else {
                Err(FrameError::BadLength)
            }
        },
    }
}

/// Reads the length or count that begins at `from`: a decimal line whose
/// number fits in `usize`.
pub open spec fn decode_length(s: Seq<u8>, from: int) -> Result<(nat, int), FrameError> {
    decode_decimal(s, from, usize::MAX as nat)
}

/// The array frame that the frames of `items` make, where there are any.
pub open spec fn as_array(items: Result<(Seq<FrameView>, int), FrameError>) -> Result<
    (FrameView, int),
    FrameError,
> {
    match items {
        Ok((items, end)) => Ok((FrameView::Array(items), end)),
        Err(e) => Err(e),
    }
}

/// Puts `head` in front of the frames of `tail`, where there are any.
pub open spec fn prepend(head: Seq<FrameView>, tail: Result<(Seq<FrameView>, int), FrameError>)
    -> Result<(Seq<FrameView>, int), FrameError> {
    match tail {
        Ok((rest, end)) => Ok((head + rest, end)),
        Err(e) => Err(e),
    }
}

/// Reads the frame that begins at `from`, with arrays nested at most `depth`
/// deep: the frame and the offset just behind it.
pub open spec fn decode_frame(s: Seq<u8>, from: int, depth: nat) -> Result<
    (FrameView, int),
    FrameError,
>
    decreases depth, 0nat,
{
    if from < 0 || from >= s.len() {
        Err(FrameError::Incomplete)
    } else if s[from] == BULK {
        match decode_length(s, from + 1) {
            Err(e) => Err(e),
            Ok((len, body)) => if s.len() - body < len + 2 {
                Err(FrameError::Incomplete)
            } else {
                Ok((FrameView::Bulk(s.subrange(body, body + len)), body + len + 2))
            },
        }
    } else if s[from] == ARRAY {
        if depth == 0 {
            Err(FrameError::Invalid)
        } else {
            match decode_length(s, from + 1) {
                Err(e) => Err(e),
                Ok((count, body)) => as_array(decode_items(s, body, count, (depth - 1) as nat)),
            }
        }
    } else {
        Err(FrameError::Invalid)
    }
}

/// Reads `count` frames one after the other, beginning at `from`.
pub open spec fn decode_items(s: Seq<u8>, from: int, count: nat, depth: nat) -> Result<
    (Seq<FrameView>, int),
    FrameError,
>
    decreases depth, count + 1,
{
    if count == 0 {
        Ok((Seq::empty(), from))
    } else {
        match decode_frame(s, from, depth) {
            Err(e) => Err(e),
            Ok((first, next)) => match decode_items(s, next, (count - 1) as nat, depth) {
                Err(e) => Err(e),
                Ok((rest, end)) => Ok((seq![first] + rest, end)),
            },
        }
    }
}

/// Where a line ends: at the first terminator at or after `from`.
pub proof fn lemma_line_end(s: Seq<u8>, from: int)
    requires
        0 <= from,
    ensures
        match line_end(s, from) {
            Some(end) => {
                &&& from <= end
                &&& terminator_at(s, end)
                &&& forall|i: int| from <= i < end ==> !terminator_at(s, i)
            },
            None => forall|i: int| from <= i ==> !terminator_at(s, i),
        },
    decreases s.len() - from,
{
    if from + 1 >= s.len() {
    } else if terminator_at(s, from) {
    } else {
        lemma_line_end(s, from + 1);
    }
}

/// A frame that was read ends behind its first byte and within the bytes.
pub proof fn lemma_decode_frame_bounds(s: Seq<u8>, from: int, depth: nat)
    ensures
        decode_frame(s, from, depth) matches Ok((_, end)) ==> 0 <= from < end <= s.len(),
    decreases depth, 0nat,
{
    if 0 <= from < s.len() {
        if s[from] == BULK {
            lemma_line_end(s, from + 1);
        } else if s[from] == ARRAY && depth > 0 {
            lemma_line_end(s, from + 1);
            match decode_length(s, from + 1) {
                Ok((count, body)) => {
                    lemma_decode_items_bounds(s, body, count, (depth - 1) as nat);
                },
                Err(_) => {},
            }
        }
    }
}

/// Frames that were read one after the other end within the bytes.
pub proof fn lemma_decode_items_bounds(s: Seq<u8>, from: int, count: nat, depth: nat)
    requires
        0 <= from <= s.len(),
    ensures
        decode_items(s, from, count, depth) matches Ok((items, end)) ==> from <= end <= s.len()
            && items.len() == count,
    decreases depth, count + 1,
{
    if count > 0 {
        lemma_decode_frame_bounds(s, from, depth);
        match decode_frame(s, from, depth) {
            Ok((_, next)) => {
                lemma_decode_items_bounds(s, next, (count - 1) as nat, depth);
            },
            Err(_) => {},
        }
    }
}

/// A number is at least the number that any beginning of its digits denotes.
pub proof fn lemma_decimal_value_grows(s: Seq<u8>, k: int)
    requires
        all_digits(s),
        0 <= k <= s.len(),
    ensures
        decimal_value(s.take(k)) <= decimal_value(s),
    decreases s.len() - k,
{
    if k == s.len() {
        assert(s.take(k) =~= s);
    } else {
        lemma_decimal_value_grows(s, k + 1);
        assert(s.take(k + 1).drop_last() =~= s.take(k));
    }
}

} // verus!
