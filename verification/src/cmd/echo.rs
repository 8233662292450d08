//! The command that asks for its argument back.

use crate::cmd::{lift, CommandError};
use crate::frame::Frame;
use crate::parse::{next_string_of, rest_of, Parse};
use crate::wire::FrameView;
use bytes::Bytes;
use vstd::prelude::*;

verus! {

/// Asks for a text back.
#[derive(Debug, Default)]
pub struct Echo {
    message: String,
}

impl View for Echo {
    type V = Seq<char>;

    /// The text.
    closed spec fn view(&self) -> Seq<char> {
        self.message@
    }
}

/// The text that the arguments of an echo hold: their first part.
pub open spec fn echo_of(args: Seq<FrameView>) -> Result<Seq<char>, CommandError> {
    lift(next_string_of(args))
}

impl Echo {
    /// The text.
    pub fn message(&self) -> (text: &str)
        ensures
            text@ == self@,
    {
        self.message.as_str()
    }

    /// Reads the arguments of an echo.
    pub fn parse_frames(parse: &mut Parse) -> (r: Result<Echo, CommandError>)
        ensures
            final(parse)@ == rest_of(old(parse)@),
            match echo_of(old(parse)@) {
                Ok(text) => r matches Ok(echo) && echo@ == text,
                Err(e) => r matches Err(x) && x == e,
            },
    {
        match parse.next_string() {
            Ok(message) => Ok(Echo { message }),
            Err(e) => Err(CommandError::Parse(e)),
        }
    }

    /// The answer to the echo: the text, as a bulk string.
    pub fn apply(self) -> (response: Frame)
        ensures
            response@ == FrameView::Bulk(vstd::utf8::encode_utf8(self@)),
    {
        Frame::Bulk(Bytes::from(self.message))
    }
}

} // verus!
