//! The command that reads the value of a key.

use crate::cmd::{lift, CommandError};
use crate::db::Db;
use crate::frame::Frame;
use crate::parse::{next_string_of, rest_of, Parse};
use crate::wire::FrameView;
use vstd::prelude::*;

verus! {

/// Asks for the value of a key.
#[derive(Debug, Default)]
pub struct Get {
    key: String,
}

impl View for Get {
    type V = Seq<char>;

    /// The key.
    closed spec fn view(&self) -> Seq<char> {
        self.key@
    }
}

/// The key that the arguments of a get hold: their first part.
pub open spec fn get_of(args: Seq<FrameView>) -> Result<Seq<char>, CommandError> {
    lift(next_string_of(args))
}

impl Get {
    /// The key.
    pub fn key(&self) -> (key: &str)
        ensures
            key@ == self@,
    {
        self.key.as_str()
    }

    /// Reads the arguments of a get.
    pub fn parse_frames(parse: &mut Parse) -> (r: Result<Get, CommandError>)
        ensures
            final(parse)@ == rest_of(old(parse)@),
            match get_of(old(parse)@) {
                Ok(key) => r matches Ok(get) && get@ == key,
                Err(e) => r matches Err(x) && x == e,
            },
    {
        match parse.next_string() {
            Ok(key) => Ok(Get { key }),
            Err(e) => Err(CommandError::Parse(e)),
        }
    }

    /// The answer to the get: the value of the key as a bulk string, or null
    /// where the key has none.
    pub fn apply(self, db: &Db) -> (response: Frame)
        ensures
            response@ == match db@.get(self@) {
                Some(value) => FrameView::Bulk(value),
                None => FrameView::Null,
            },
    {
        match db.get(self.key.as_str()) {
            Some(value) => Frame::Bulk(value),
            None => Frame::Null,
        }
    }
}

} // verus!
