//! A read position over a borrowed byte slice.

use vstd::prelude::*;

verus! {

/// A byte slice together with the offset of the next byte to be read. The
/// offset may lie behind the end of the slice; nothing remains to be read then.
pub struct Cursor<'a> {
    data: &'a [u8],
    pos: usize,
}

impl<'a> Cursor<'a> {
    /// All the bytes under the cursor, read or not.
    pub closed spec fn bytes(&self) -> Seq<u8> {
        self.data@
    }

    /// The offset of the next byte to be read.
    pub closed spec fn spec_position(&self) -> usize {
        self.pos
    }

    /// How many bytes are left to be read.
    pub open spec fn unread(&self) -> nat {
        if self.position() <= self.bytes().len() {
            (self.bytes().len() - self.position()) as nat
        } else {
            0
        }
    }

    /// A cursor at the beginning of `data`.
    pub fn new(data: &'a [u8]) -> (c: Self)
        ensures
            c.bytes() == data@,
            c.position() == 0,
    {
        Cursor { data, pos: 0 }
    }

    /// The offset of the next byte to be read.
    #[verifier::when_used_as_spec(spec_position)]
    pub fn position(&self) -> (p: usize)
        ensures
            p == self.position(),
    {
        self.pos
    }

    /// Moves the cursor to `pos`, which may be any offset.
    pub fn set_position(&mut self, pos: usize)
        ensures
            final(self).bytes() == old(self).bytes(),
            final(self).position() == pos,
    {
        self.pos = pos;
    }

    /// The slice under the cursor.
    pub fn get_ref(&self) -> (d: &'a [u8])
        ensures
            d@ == self.bytes(),
    {
        self.data
    }

    /// How many bytes are left to be read.
    pub fn remaining(&self) -> (n: usize)
        ensures
            n == self.unread(),
    {
        if self.pos <= self.data.len() {
            self.data.len() - self.pos
        } else {
            0
        }
    }

    /// Whether any byte is left to be read.
    pub fn has_remaining(&self) -> (b: bool)
        ensures
            b == (self.unread() > 0),
    {
        self.pos < self.data.len()
    }

    /// The bytes that are left to be read.
    pub fn chunk(&self) -> (rest: &'a [u8])
        ensures
            rest@ == self.bytes().skip(self.bytes().len() - self.unread()),
    {
        let data: &'a [u8] = self.data;
        let len: usize = data.len();
        if self.pos <= len {
            &data[self.pos..len]
        } else {
            &data[len..len]
        }
    }

    /// Moves the cursor forward by `cnt` bytes.
    pub fn advance(&mut self, cnt: usize)
        requires
            cnt <= old(self).unread(),
        ensures
            final(self).bytes() == old(self).bytes(),
            final(self).position() == old(self).position() + cnt,
    {
        let len: usize = self.data.len();
        self.pos = self.pos + cnt;
    }
}

} // verus!
