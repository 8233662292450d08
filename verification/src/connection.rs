//! The receive side of one connection: bytes that have arrived and have not
//! yet been read as frames.

use crate::buf::buffer_view;
use crate::cursor::Cursor;
use crate::frame::Frame;
use crate::roundtrip::{
    lemma_decode_cut, lemma_decode_encoded, lemma_decode_frame_stable, readable,
};
use crate::wire::{
    decode_frame, encode, lemma_decode_frame_bounds, FrameError, FrameView, MAX_DEPTH,
};
use bytes::{Buf, BytesMut};
use vstd::prelude::*;

verus! {

/// The receive buffer of a connection. Bytes are added at its end as they
/// arrive and leave at its front, one whole frame at a time.
pub struct Connection {
    buffer: BytesMut,
}

/// What one read from the peer led to.
#[derive(Debug, PartialEq, Eq)]
pub enum ReadStep {
    /// A whole frame was in the buffer; it has left the buffer.
    Frame(Frame),
    /// The buffer holds the beginning of a frame only: read again.
    NeedMore,
    /// The read brought no bytes: the peer has closed the connection.
    Closed,
    /// The buffer cannot begin a frame; the connection is of no more use.
    Failed(FrameError),
}

impl View for Connection {
    type V = Seq<u8>;

    /// The bytes that have arrived and have not left yet.
    closed spec fn view(&self) -> Seq<u8> {
        buffer_view(self.buffer)
    }
}

/// What a `ReadStep` says, without regard to how its frame is held in
/// memory.
pub enum ReadStepView {
    /// A whole frame was in the buffer.
    Frame(FrameView),
    /// The buffer holds the beginning of a frame only.
    NeedMore,
    /// The read brought no bytes.
    Closed,
    /// The buffer cannot begin a frame.
    Failed(FrameError),
}

impl View for ReadStep {
    type V = ReadStepView;

    open spec fn view(&self) -> ReadStepView {
        match self {
            ReadStep::Frame(f) => ReadStepView::Frame(f@),
            ReadStep::NeedMore => ReadStepView::NeedMore,
            ReadStep::Closed => ReadStepView::Closed,
            ReadStep::Failed(e) => ReadStepView::Failed(*e),
        }
    }
}

/// What reading one frame from the front of `buffered` gives, and what stays
/// behind: nothing leaves unless a whole frame is there.
pub open spec fn take_frame(buffered: Seq<u8>) -> (Result<FrameView, FrameError>, Seq<u8>) {
    match decode_frame(buffered, 0, MAX_DEPTH as nat) {
        Ok((v, end)) => (Ok(v), buffered.skip(end)),
        Err(e) => (Err(e), buffered),
    }
}

/// What one read of `received` bytes leads to with `buffered` bytes waiting,
/// and what waits afterwards.
pub open spec fn read_step(buffered: Seq<u8>, received: Seq<u8>) -> (ReadStepView, Seq<u8>) {
    if received.len() == 0 {
        (ReadStepView::Closed, buffered)
    } else {
        match take_frame(buffered + received) {
            (Ok(v), rest) => (ReadStepView::Frame(v), rest),
            (Err(FrameError::Incomplete), rest) => (ReadStepView::NeedMore, rest),
            (Err(e), rest) => (ReadStepView::Failed(e), rest),
        }
    }
}

/// A written frame at the front of the buffer is the frame that is read, and
/// exactly its bytes leave: what follows it stays for the next read.
pub proof fn lemma_take_written(f: FrameView, rest: Seq<u8>)
    requires
        readable(f, MAX_DEPTH as nat),
    ensures
        take_frame(encode(f) + rest) == (Ok::<FrameView, FrameError>(f), rest),
{
    lemma_decode_encoded(f, MAX_DEPTH as nat, Seq::empty(), rest);
}

/// While only a proper beginning of a written frame is in the buffer, no
/// frame is read and no byte leaves.
pub proof fn lemma_take_cut(f: FrameView, k: int)
    requires
        readable(f, MAX_DEPTH as nat),
        0 <= k < encode(f).len(),
    ensures
        take_frame(encode(f).take(k)) == (
            Err::<FrameView, FrameError>(FrameError::Incomplete),
            encode(f).take(k),
        ),
{
    lemma_decode_cut(f, MAX_DEPTH as nat, Seq::empty(), k);
}

/// A written frame that arrives in pieces: as long as a piece leaves the
/// frame unfinished, the read asks for more and keeps every byte; the piece
/// that finishes the frame gives the frame and leaves the buffer empty.
pub proof fn lemma_read_in_pieces(f: FrameView, j: int, k: int)
    requires
        readable(f, MAX_DEPTH as nat),
        0 <= j < k <= encode(f).len(),
    ensures
        read_step(encode(f).take(j), encode(f).subrange(j, k)) == if k < encode(f).len() {
            (ReadStepView::NeedMore, encode(f).take(k))
        } else {
            (ReadStepView::Frame(f), Seq::<u8>::empty())
        },
{
    let e = encode(f);
    assert(e.take(j) + e.subrange(j, k) =~= e.take(k));
    if k < e.len() {
        lemma_take_cut(f, k);
    } else {
        lemma_take_written(f, Seq::empty());
        assert(e.take(k) =~= e + Seq::<u8>::empty());
    }
}

/// Two written frames that arrive in one read: that read gives the first and
/// keeps the second, whole and alone. The second is then read from the buffer
/// as it is, or by the next read that brings anything, which keeps what it
/// brought.
pub proof fn lemma_read_pipelined(a: FrameView, b: FrameView, more: Seq<u8>)
    requires
        readable(a, MAX_DEPTH as nat),
        readable(b, MAX_DEPTH as nat),
        more.len() > 0,
    ensures
        read_step(Seq::empty(), encode(a) + encode(b)) == (ReadStepView::Frame(a), encode(b)),
        take_frame(encode(b)) == (Ok::<FrameView, FrameError>(b), Seq::<u8>::empty()),
        read_step(encode(b), more) == (ReadStepView::Frame(b), more),
{
    lemma_take_written(a, encode(b));
    lemma_take_written(b, Seq::empty());
    assert(encode(b) + Seq::<u8>::empty() =~= encode(b));
    lemma_take_written(b, more);
}

/// A buffer that cannot begin a frame cannot begin one either when more
/// bytes have arrived: only the want of bytes is worth another read.
pub proof fn lemma_failure_is_final(buffered: Seq<u8>, more: Seq<u8>)
    requires
        take_frame(buffered).0 is Err,
        take_frame(buffered).0 != Err::<FrameView, FrameError>(FrameError::Incomplete),
    ensures
        take_frame(buffered + more).0 == take_frame(buffered).0,
{
    lemma_decode_frame_stable(buffered, more, 0, MAX_DEPTH as nat);
}

impl Connection {
    /// A connection on which nothing has arrived yet.
    pub fn new() -> (c: Connection)
        ensures
            c@ == Seq::<u8>::empty(),
    {
        Connection { buffer: BytesMut::with_capacity(4 * 1024) }
    }

    /// The bytes that have arrived and have not left yet.
    pub fn pending(&self) -> (bytes: &[u8])
        ensures
            bytes@ == self@,
    {
        &self.buffer
    }

    /// Reads one frame from the front of the buffer. The bytes of the frame
    /// leave the buffer; where no frame can be read, the buffer stays as it is.
    pub fn parse_frame(&mut self) -> (r: Result<Frame, FrameError>)
        ensures
            final(self)@ == take_frame(old(self)@).1,
            match take_frame(old(self)@).0 {
                Ok(v) => r matches Ok(f) && f@ == v,
                Err(e) => r matches Err(x) && x == e,
            },
    {
        let data: &[u8] = &self.buffer;
        let mut buf = Cursor::new(data);
        let frame = match Frame::parse(&mut buf) {
            Ok(frame) => frame,
            Err(e) => {
                return Err(e);
            },
        };
        let len: usize = buf.position();
        proof {
            lemma_decode_frame_bounds(self@, 0, MAX_DEPTH as nat);
        }
        self.buffer.advance(len);
        Ok(frame)
    }

    /// Takes in what one read from the peer brought and says how to go on.
    /// An empty read means that the peer has closed the connection. The
    /// bytes that wait and those that arrive have to fit in one allocation
    /// together.
    pub fn read_frame(&mut self, received: &[u8]) -> (r: ReadStep)
        requires
            old(self)@.len() + received@.len() <= isize::MAX,
        ensures
            r@ == read_step(old(self)@, received@).0,
            final(self)@ == read_step(old(self)@, received@).1,
    {
        if received.len() == 0 {
            return ReadStep::Closed;
        }
        self.buffer.extend_from_slice(received);
        match self.parse_frame() {
            Ok(frame) => ReadStep::Frame(frame),
            Err(FrameError::Incomplete) => ReadStep::NeedMore,
            Err(e) => ReadStep::Failed(e),
        }
    }
}

} // verus!
