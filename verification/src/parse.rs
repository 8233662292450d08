//! The parts of a request, taken one after the other.

use crate::buf::bytes_view;
use crate::frame::{decimal_of, views, Frame};
use crate::wire::{all_digits, decimal_value, FrameView};
use bytes::Bytes;
use vstd::prelude::*;
use vstd::utf8::{decode_utf8, valid_utf8};

verus! {

/// Why a part of a request could not be taken.
#[derive(Clone, Copy, Debug, PartialEq, Eq, Structural)]
pub enum ParseError {
    /// No part is left.
    End,
    /// The part is no valid UTF-8.
    Utf8,
    /// The request is no array.
    NotArray,
    /// The part is no bulk string.
    NotBulk,
    /// The part is no bulk string of decimal digits whose number fits in
    /// `u64`.
    NotInt,
}

/// The parts of a request that have not been taken yet.
pub struct Parse {
    /// The parts, the next one last.
    parts: Vec<Frame>,
}

/// What taking the next part as text gives.
pub open spec fn next_string_of(parts: Seq<FrameView>) -> Result<Seq<char>, ParseError> {
    if parts.len() == 0 {
        Err(ParseError::End)
    } else {
        match parts[0] {
            FrameView::Bulk(b) => if valid_utf8(b) {
                Ok(decode_utf8(b))
            } else {
                Err(ParseError::Utf8)
            },
            _ => Err(ParseError::NotBulk),
        }
    }
}

/// What taking the next part as bytes gives.
pub open spec fn next_bytes_of(parts: Seq<FrameView>) -> Result<Seq<u8>, ParseError> {
    if parts.len() == 0 {
        Err(ParseError::End)
    } else {
        match parts[0] {
            FrameView::Bulk(b) => Ok(b),
            _ => Err(ParseError::NotBulk),
        }
    }
}

/// What taking the next part as a number gives.
pub open spec fn next_int_of(parts: Seq<FrameView>) -> Result<u64, ParseError> {
    if parts.len() == 0 {
        Err(ParseError::End)
    } else {
        match parts[0] {
            FrameView::Bulk(b) => if all_digits(b) && decimal_value(b) <= u64::MAX {
                Ok(decimal_value(b) as u64)
            } else {
                Err(ParseError::NotInt)
            },
            _ => Err(ParseError::NotInt),
        }
    }
}

/// What is left once the next part was taken.
pub open spec fn rest_of(parts: Seq<FrameView>) -> Seq<FrameView> {
    if parts.len() == 0 {
        parts
    } else {
        parts.drop_first()
    }
}

/// Moving the last of `front` to the end of `back` leaves `front` followed
/// by `back` in reverse as it was.
proof fn lemma_move_last(front: Seq<FrameView>, back: Seq<FrameView>)
    requires
        front.len() > 0,
    ensures
        front.drop_last() + back.push(front.last()).reverse() == front + back.reverse(),
{
    let moved = back.push(front.last()).reverse();
    assert(moved =~= seq![front.last()] + back.reverse());
    assert(front.drop_last() + moved =~= front + back.reverse());
}

impl View for Parse {
    type V = Seq<FrameView>;

    /// The parts that have not been taken yet, the next one first.
    closed spec fn view(&self) -> Seq<FrameView> {
        views(self.parts@).reverse()
    }
}

impl Parse {
    /// The parts of the request `frame`, which has to be an array.
    pub fn new(frame: Frame) -> (r: Result<Parse, ParseError>)
        ensures
            match frame@ {
                FrameView::Array(parts) => r matches Ok(p) && p@ == parts,
                _ => r matches Err(e) && e == ParseError::NotArray,
            },
    {
        let mut array: Vec<Frame> = match frame {
            Frame::Array(array) => array,
            _ => {
                return Err(ParseError::NotArray);
            },
        };
        let ghost all = views(array@);
        let mut parts: Vec<Frame> = Vec::new();
        while array.len() > 0
            invariant
                views(array@) + views(parts@).reverse() == all,
            decreases array.len(),
        {
            let ghost before = views(array@);
            let ghost taken = views(parts@);
            match array.pop() {
                Some(part) => {
                    parts.push(part);
                    proof {
                        lemma_move_last(before, taken);
                    }
                },
                None => {},
            }
        }
        Ok(Parse { parts })
    }

    /// Takes the next part.
    fn next(&mut self) -> (r: Result<Frame, ParseError>)
        ensures
            final(self)@ == rest_of(old(self)@),
            match r {
                Ok(part) => old(self)@.len() > 0 && part@ == old(self)@[0],
                Err(e) => old(self)@.len() == 0 && e == ParseError::End,
            },
    {
        match self.parts.pop() {
            Some(part) => Ok(part),
            None => Err(ParseError::End),
        }
    }

    /// Takes the next part, which has to be a bulk string of valid UTF-8, as
    /// text.
    pub fn next_string(&mut self) -> (r: Result<String, ParseError>)
        ensures
            final(self)@ == rest_of(old(self)@),
            match next_string_of(old(self)@) {
                Ok(text) => r matches Ok(s) && s@ == text,
                Err(e) => r matches Err(x) && x == e,
            },
    {
        match self.next() {
            Ok(Frame::Bulk(data)) => {
                let bytes: &[u8] = &data;
                match core::str::from_utf8(bytes) {
                    Ok(text) => {
                        proof {
                            vstd::utf8::encode_utf8_decode_utf8(text@);
                        }
                        Ok(text.to_owned())
                    },
                    Err(_) => Err(ParseError::Utf8),
                }
            },
            Ok(_) => Err(ParseError::NotBulk),
            Err(e) => Err(e),
        }
    }

    /// Takes the next part, which has to be a bulk string, as bytes.
    pub fn next_bytes(&mut self) -> (r: Result<Bytes, ParseError>)
        ensures
            final(self)@ == rest_of(old(self)@),
            match next_bytes_of(old(self)@) {
                Ok(bytes) => r matches Ok(b) && bytes_view(b) == bytes,
                Err(e) => r matches Err(x) && x == e,
            },
    {
        match self.next() {
            Ok(Frame::Bulk(data)) => Ok(data),
            Ok(_) => Err(ParseError::NotBulk),
            Err(e) => Err(e),
        }
    }

    /// Takes the next part, which has to be a bulk string of decimal digits,
    /// as the number that the digits denote.
    pub fn next_int(&mut self) -> (r: Result<u64, ParseError>)
        ensures
            final(self)@ == rest_of(old(self)@),
            r == next_int_of(old(self)@),
    {
        match self.next() {
            Ok(Frame::Bulk(data)) => {
                let digits: &[u8] = &data;
                match decimal_of(digits) {
                    Some(n) => Ok(n),
                    None => Err(ParseError::NotInt),
                }
            },
            Ok(_) => Err(ParseError::NotInt),
            Err(e) => Err(e),
        }
    }
}

} // verus!
