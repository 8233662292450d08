//! Frames, and the codec that reads them from bytes and writes them as
//! bytes.

use crate::buf::bytes_view;
use crate::cursor::Cursor;
pub use crate::wire::FrameError;
use crate::wire::{
    all_digits, as_array, decimal_digits, decimal_value, decode_decimal, decode_frame,
    decode_items, decode_length, encode, encode_all, header, is_digit, lemma_decimal_value_grows,
    lemma_line_end, line_end, prepend, FrameView, ARRAY, BULK, CR, LF, MAX_DEPTH, MINUS, SIMPLE,
    ZERO,
};
use bytes::Bytes;
use vstd::prelude::*;

verus! {

broadcast use vstd::std_specs::vec::group_vec_axioms;

/// One unit of the protocol, as a request or as an answer.
#[derive(Debug, PartialEq, Eq)]
pub enum Frame {
    /// A short text, such as a status.
    Simple(String),
    /// Any bytes.
    Bulk(Bytes),
    /// Frames, in order.
    Array(Vec<Frame>),
    /// No value.
    Null,
}

impl View for Frame {
    type V = FrameView;

    open spec fn view(&self) -> FrameView
        decreases self,
    {
        match self {
            Frame::Simple(s) => FrameView::Simple(s@),
            Frame::Bulk(b) => FrameView::Bulk(bytes_view(*b)),
            Frame::Array(items) => FrameView::Array(
                Seq::new(
                    items@.len(),
                    |i: int|
                        if 0 <= i < items@.len() {
                            items@[i].view()
                        } else {
                            FrameView::Null
                        },
                ),
            ),
            Frame::Null => FrameView::Null,
        }
    }
}

impl Clone for Frame {
    /// A frame that is the same as this one.
    fn clone(&self) -> (copy: Frame)
        ensures
            copy@ == self@,
        decreases self,
    {
        match self {
            Frame::Simple(s) => Frame::Simple(s.clone()),
            Frame::Bulk(b) => Frame::Bulk(b.clone()),
            Frame::Array(items) => {
                let mut copies: Vec<Frame> = Vec::new();
                let mut i: usize = 0;
                while i < items.len()
                    invariant
                        i <= items.len(),
                        decreases_to!(self => items),
                        views(copies@) == views(items@).take(i as int),
                    decreases items.len() - i,
                {
                    proof {
                        vstd::std_specs::vec::axiom_vec_index_decreases(*items, i as int);
                    }
                    let ghost done = views(copies@);
                    let item = items[i].clone();
                    copies.push(item);
                    assert(views(items@).take(i + 1) =~= done.push(views(items@)[i as int]));
                    i += 1;
                }
                let copy = Frame::Array(copies);
                proof {
                    assert(views(items@).take(i as int) =~= views(items@));
                    assert(copy@->Array_0 =~= views(copies@));
                    assert(self@->Array_0 =~= views(items@));
                }
                copy
            },
            Frame::Null => Frame::Null,
        }
    }
}

/// The views of a sequence of frames, in order.
pub open spec fn views(items: Seq<Frame>) -> Seq<FrameView> {
    Seq::new(items.len(), |i: int| items[i]@)
}

/// The encoding of a sequence of frames grows at its end as the sequence does.
pub proof fn lemma_encode_all_push(items: Seq<FrameView>, last: FrameView)
    ensures
        encode_all(items.push(last)) == encode_all(items) + encode(last),
    decreases items.len(),
{
    if items.len() == 0 {
        assert(items.push(last).drop_first() =~= Seq::<FrameView>::empty());
        assert(encode_all(items.push(last)) =~= encode(last) + encode_all(Seq::empty()));
    } else {
        let longer = items.push(last);
        assert(longer.drop_first() =~= items.drop_first().push(last));
        lemma_encode_all_push(items.drop_first(), last);
    }
}

/// Appends the decimal digits of `n` to `out`.
fn write_decimal(n: usize, out: &mut Vec<u8>)
    ensures
        final(out)@ == old(out)@ + decimal_digits(n as nat),
    decreases n,
{
    if n < 10 {
        out.push(ZERO + n as u8);
    } else {
        write_decimal(n / 10, out);
        out.push(ZERO + (n % 10) as u8);
    }
}

/// Reads the next byte.
pub fn get_u8(src: &mut Cursor) -> (r: Result<u8, FrameError>)
    ensures
        final(src).bytes() == old(src).bytes(),
        old(src).unread() > 0 ==> {
            &&& r == Ok::<u8, FrameError>(old(src).bytes()[old(src).position() as int])
            &&& final(src).position() == old(src).position() + 1
        },
        old(src).unread() == 0 ==> {
            &&& r == Err::<u8, FrameError>(FrameError::Incomplete)
            &&& final(src).position() == old(src).position()
        },
{
    if !src.has_remaining() {
        return Err(FrameError::Incomplete);
    }
    let data: &[u8] = src.get_ref();
    let b: u8 = data[src.position()];
    src.advance(1);
    Ok(b)
}

/// Reads up to the next line terminator and moves behind it. The line is
/// returned without its terminator.
pub fn get_line<'a>(src: &mut Cursor<'a>) -> (r: Result<&'a [u8], FrameError>)
    ensures
        final(src).bytes() == old(src).bytes(),
        match line_end(old(src).bytes(), old(src).position() as int) {
            Some(end) => {
                &&& r matches Ok(line)
                &&& line@ == old(src).bytes().subrange(old(src).position() as int, end)
                &&& final(src).position() == end + 2
            },
            None => {
                &&& r == Err::<&[u8], FrameError>(FrameError::Incomplete)
                &&& final(src).position() == old(src).position()
            },
        },
{
    let data: &'a [u8] = src.get_ref();
    let start: usize = src.position();
    let len: usize = data.len();
    if len == 0 || start >= len - 1 {
        proof {
            lemma_line_end(data@, start as int);
        }
        return Err(FrameError::Incomplete);
    }
    let end: usize = len - 1;
    let mut i: usize = start;
    while i < end
        invariant
            start <= i <= end,
            end + 1 == len,
            len == data@.len(),
            src.bytes() == data@,
            old(src).bytes() == data@,
            old(src).position() == start,
            src.position() == start,
            line_end(data@, i as int) == line_end(data@, start as int),
        decreases end - i,
    {
        if data[i] == CR && data[i + 1] == LF {
            src.set_position(i + 2);
            return Ok(&data[start..i]);
        }
        i += 1;
    }
    Err(FrameError::Incomplete)
}

/// The number that `digits` denote in decimal, where they are digits and the
/// number fits in `u64`.
pub fn decimal_of(digits: &[u8]) -> (r: Option<u64>)
    ensures
        match r {
            Some(n) => all_digits(digits@) && decimal_value(digits@) == n,
            None => !all_digits(digits@) || decimal_value(digits@) > u64::MAX,
        },
{
    let mut out: u64 = 0;
    let mut i: usize = 0;
    while i < digits.len()
        invariant
            i <= digits.len(),
            all_digits(digits@.take(i as int)),
            out == decimal_value(digits@.take(i as int)),
        decreases digits.len() - i,
    {
        let b: u8 = digits[i];
        proof {
            assert(digits@.take(i + 1).drop_last() =~= digits@.take(i as int));
            if all_digits(digits@) {
                lemma_decimal_value_grows(digits@, i + 1);
            }
        }
        if b < ZERO || b > ZERO + 9 {
            return None;
        }
        let shifted: u64 = match out.checked_mul(10) {
            Some(v) => v,
            None => {
                return None;
            },
        };
        out = match shifted.checked_add((b - ZERO) as u64) {
            Some(v) => v,
            None => {
                return None;
            },
        };
        assert(all_digits(digits@.take(i + 1))) by {
            assert forall|j: int| 0 <= j < i + 1 implies is_digit(
                #[trigger] digits@.take(i + 1)[j],
            ) by {
                if j < i {
                    assert(digits@.take(i as int)[j] == digits@.take(i + 1)[j]);
                }
            }
        }
        i += 1;
    }
    assert(digits@.take(i as int) =~= digits@);
    Some(out)
}

/// Reads one line of decimal digits and returns the number it holds.
pub fn get_decimal(src: &mut Cursor) -> (r: Result<u64, FrameError>)
    ensures
        final(src).bytes() == old(src).bytes(),
        match decode_decimal(old(src).bytes(), old(src).position() as int, u64::MAX as nat) {
            Ok((n, next)) => {
                &&& r == Ok::<u64, FrameError>(n as u64)
                &&& final(src).position() == next
            },
            Err(e) => {
                &&& r == Err::<u64, FrameError>(e)
                &&& final(src).position() == old(src).position()
            },
        },
{
    let start: usize = src.position();
    let line: &[u8] = match get_line(src) {
        Ok(line) => line,
        Err(e) => {
            return Err(e);
        },
    };
    match decimal_of(line) {
        Some(n) => Ok(n),
        None => {
            src.set_position(start);
            Err(FrameError::BadLength)
        },
    }
}

/// Moves over the next `n` bytes.
pub fn skip(src: &mut Cursor, n: usize) -> (r: Result<(), FrameError>)
    ensures
        final(src).bytes() == old(src).bytes(),
        old(src).unread() >= n ==> {
            &&& r is Ok
            &&& final(src).position() == old(src).position() + n
        },
        old(src).unread() < n ==> {
            &&& r == Err::<(), FrameError>(FrameError::Incomplete)
            &&& final(src).position() == old(src).position()
        },
{
    if src.remaining() < n {
        return Err(FrameError::Incomplete);
    }
    src.advance(n);
    Ok(())
}

/// Reads a length or a count: a decimal line whose number fits in `usize`.
fn get_length(src: &mut Cursor) -> (r: Result<usize, FrameError>)
    ensures
        final(src).bytes() == old(src).bytes(),
        match decode_length(old(src).bytes(), old(src).position() as int) {
            Ok((n, next)) => {
                &&& r == Ok::<usize, FrameError>(n as usize)
                &&& final(src).position() == next
            },
            Err(e) => {
                &&& r == Err::<usize, FrameError>(e)
                &&& final(src).position() == old(src).position()
            },
        },
{
    let start: usize = src.position();
    let n: u64 = match get_decimal(src) {
        Ok(n) => n,
        Err(e) => {
            return Err(e);
        },
    };
    if n > usize::MAX as u64 {
        src.set_position(start);
        return Err(FrameError::BadLength);
    }
    Ok(n as usize)
}

/// Reads one frame in which arrays are nested at most `depth` deep. Where no
/// frame can be read, the cursor is left anywhere.
fn parse_nested(buf: &mut Cursor, depth: usize) -> (r: Result<Frame, FrameError>)
    ensures
        final(buf).bytes() == old(buf).bytes(),
        match decode_frame(old(buf).bytes(), old(buf).position() as int, depth as nat) {
            Ok((v, end)) => r matches Ok(f) && f@ == v && final(buf).position() == end,
            Err(e) => r matches Err(x) && x == e,
        },
    decreases depth,
{
    let lead: u8 = match get_u8(buf) {
        Ok(b) => b,
        Err(e) => {
            return Err(e);
        },
    };
    if lead == BULK {
        let len: usize = match get_length(buf) {
            Ok(n) => n,
            Err(e) => {
                return Err(e);
            },
        };
        let rest: usize = buf.remaining();
        if rest < 2 || rest - 2 < len {
            return Err(FrameError::Incomplete);
        }
        let ghost body = buf.position() as int;
        let unread: &[u8] = buf.chunk();
        let payload = Bytes::copy_from_slice(&unread[0..len]);
        assert(bytes_view(payload) =~= buf.bytes().subrange(body, body + len));
        match skip(buf, len + 2) {
            Ok(()) => Ok(Frame::Bulk(payload)),
            Err(e) => Err(e),
        }
    } else if lead == ARRAY {
        if depth == 0 {
            return Err(FrameError::Invalid);
        }
        let count: usize = match get_length(buf) {
            Ok(n) => n,
            Err(e) => {
                return Err(e);
            },
        };
        let ghost s = buf.bytes();
        let ghost start = old(buf).position() as int;
        let ghost body = buf.position() as int;
        let ghost inner = (depth - 1) as nat;
        let mut out: Vec<Frame> = Vec::new();
        let mut i: usize = 0;
        assert(prepend(views(out@), decode_items(s, body, count as nat, inner)) == decode_items(
            s,
            body,
            count as nat,
            inner,
        )) by {
            if let Ok((rest, _)) = decode_items(s, body, count as nat, inner) {
                assert(views(out@) + rest =~= rest);
            }
        }
        while i < count
            invariant
                i <= count,
                depth > 0,
                inner == depth - 1,
                buf.bytes() == s,
                old(buf).bytes() == s,
                old(buf).position() == start,
                decode_frame(s, start, depth as nat) == as_array(
                    decode_items(s, body, count as nat, inner),
                ),
                decode_items(s, body, count as nat, inner) == prepend(
                    views(out@),
                    decode_items(s, buf.position() as int, (count - i) as nat, inner),
                ),
            decreases count - i,
        {
            let ghost before = views(out@);
            let item = match parse_nested(buf, depth - 1) {
                Ok(f) => f,
                Err(e) => {
                    return Err(e);
                },
            };
            out.push(item);
            i += 1;
            proof {
                assert(views(out@) =~= before + seq![item@]);
                match decode_items(s, buf.position() as int, (count - i) as nat, inner) {
                    Ok((rest, end)) => {
                        assert(before + (seq![item@] + rest) =~= (before + seq![item@]) + rest);
                    },
                    Err(e) => {},
                }
            }
        }
        let frame = Frame::Array(out);
        proof {
            assert(frame@->Array_0 =~= views(out@));
        }
        Ok(frame)
    } else {
        Err(FrameError::Invalid)
    }
}

impl Frame {
    /// Reads the frame that begins at the cursor and moves the cursor behind
    /// it. Where no frame can be read, the cursor stays where it was.
    pub fn parse(buf: &mut Cursor) -> (r: Result<Frame, FrameError>)
        ensures
            final(buf).bytes() == old(buf).bytes(),
            match decode_frame(old(buf).bytes(), old(buf).position() as int, MAX_DEPTH as nat) {
                Ok((v, end)) => r matches Ok(f) && f@ == v && final(buf).position() == end,
                Err(e) => r matches Err(x) && x == e && final(buf).position() == old(buf).position(),
            },
    {
        let start: usize = buf.position();
        let r = parse_nested(buf, MAX_DEPTH);
        if r.is_err() {
            buf.set_position(start);
        }
        r
    }

    /// The bytes that stand for this frame on the wire.
    pub fn serialize(&self) -> (out: Vec<u8>)
        ensures
            out@ == encode(self@),
    {
        let mut out: Vec<u8> = Vec::new();
        self.write_to(&mut out);
        out
    }

    /// Appends the bytes that stand for this frame to `out`.
    pub fn write_to(&self, out: &mut Vec<u8>)
        ensures
            final(out)@ == old(out)@ + encode(self@),
        decreases self,
    {
        match self {
            Frame::Simple(s) => {
                out.push(SIMPLE);
                out.extend_from_slice(s.as_str().as_bytes());
                out.push(CR);
                out.push(LF);
            },
            Frame::Bulk(b) => {
                let payload: &[u8] = b;
                out.push(BULK);
                write_decimal(payload.len(), out);
                out.push(CR);
                out.push(LF);
                out.extend_from_slice(payload);
                out.push(CR);
                out.push(LF);
            },
            Frame::Array(items) => {
                out.push(ARRAY);
                write_decimal(items.len(), out);
                out.push(CR);
                out.push(LF);
                let ghost head = out@;
                let ghost all = views(items@);
                assert(self@ == FrameView::Array(all)) by {
                    assert(self@->Array_0 =~= all);
                }
                let mut i: usize = 0;
                while i < items.len()
                    invariant
                        i <= items.len(),
                        decreases_to!(self => items),
                        all == views(items@),
                        out@ == head + encode_all(all.take(i as int)),
                    decreases items.len() - i,
                {
                    proof {
                        vstd::std_specs::vec::axiom_vec_index_decreases(*items, i as int);
                    }
                    items[i].write_to(out);
                    proof {
                        lemma_encode_all_push(all.take(i as int), all[i as int]);
                        assert(all.take(i as int).push(all[i as int]) =~= all.take(i + 1));
                    }
                    i += 1;
                }
                assert(all.take(i as int) =~= all);
            },
            Frame::Null => {
                out.push(BULK);
                out.push(MINUS);
                out.push(ZERO + 1);
                out.push(CR);
                out.push(LF);
            },
        }
    }
}

} // verus!
