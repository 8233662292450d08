//! The command that asks whether the server is there.

use crate::cmd::CommandError;
use crate::frame::Frame;
use crate::wire::FrameView;
use vstd::prelude::*;

verus! {

/// Asks for an answer, to show that the server is there.
#[derive(Debug, Default)]
pub struct Ping {}

impl Ping {
    /// A ping takes no arguments; whatever follows its name is left alone.
    pub fn parse_frames() -> (r: Result<Ping, CommandError>)
        ensures
            r is Ok,
    {
        Ok(Ping {  })
    }

    /// The answer to a ping.
    pub fn apply(self) -> (response: Frame)
        ensures
            response@ == FrameView::Simple("PONG"@),
    {
        Frame::Simple("PONG".to_owned())
    }
}

} // verus!
