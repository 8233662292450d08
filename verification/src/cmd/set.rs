//! The command that gives a key a value, for good or for a time.

use crate::buf::bytes_view;
use crate::cmd::CommandError;
use crate::db::Db;
use crate::frame::Frame;
use crate::parse::{next_bytes_of, next_int_of, next_string_of, rest_of, Parse, ParseError};
use crate::text::{lowercase, same_text};
use crate::wire::FrameView;
use bytes::Bytes;
use vstd::prelude::*;

verus! {

/// Asks for a key to be given a value, for good or for a time.
#[derive(Debug, Default)]
pub struct SetKey {
    key: String,
    value: Bytes,
    /// The time to live in milliseconds, where the key is to leave again.
    expire: Option<u64>,
}

/// How many nanoseconds, in which the store counts, make a millisecond, in
/// which a request gives a time to live.
pub const NANOS_PER_MILLI: u64 = 1_000_000;

/// What a set asks for.
pub struct SetView {
    /// The key.
    pub key: Seq<char>,
    /// The value.
    pub value: Seq<u8>,
    /// The time to live in milliseconds, where there is one.
    pub expire: Option<u64>,
}

impl SetView {
    /// Whether the set can be made at the instant `now`: the instant at which
    /// the key is due has to fit in `u64`.
    pub open spec fn fits(self, now: u64) -> bool {
        self.expire matches Some(ms) ==> now + ms * NANOS_PER_MILLI <= u64::MAX
    }

    /// The time to live in nanoseconds, where there is one.
    pub open spec fn ttl(self) -> Option<u64> {
        match self.expire {
            Some(ms) => Some((ms * NANOS_PER_MILLI) as u64),
            None => None,
        }
    }
}

impl View for SetKey {
    type V = SetView;

    closed spec fn view(&self) -> SetView {
        SetView { key: self.key@, value: bytes_view(self.value), expire: self.expire }
    }
}

/// The time to live that the option word `lowered`, given in lower case, and
/// the parts behind it hold. The one option is `px`, followed by a number of
/// milliseconds.
pub open spec fn expiry_of(lowered: Seq<char>, args: Seq<FrameView>) -> Result<u64, CommandError> {
    if lowered == "px"@ {
        match next_int_of(args) {
            Ok(ms) => Ok(ms),
            Err(e) => Err(CommandError::Parse(e)),
        }
    } else {
        Err(CommandError::Syntax)
    }
}

/// What the arguments of a set hold: the key, the value, and then either
/// nothing or the option `px`, in upper or lower case, with a time to live
/// in milliseconds.
pub open spec fn set_of(args: Seq<FrameView>) -> Result<SetView, CommandError> {
    match next_string_of(args) {
        Err(e) => Err(CommandError::Parse(e)),
        Ok(key) => match next_bytes_of(rest_of(args)) {
            Err(e) => Err(CommandError::Parse(e)),
            Ok(value) => match next_string_of(args.skip(2)) {
                Ok(word) => match expiry_of(lowercase(word), args.skip(3)) {
                    Ok(ms) => Ok(SetView { key, value, expire: Some(ms) }),
                    Err(e) => Err(e),
                },
                Err(ParseError::End) => Ok(SetView { key, value, expire: None }),
                Err(e) => Err(CommandError::Parse(e)),
            },
        },
    }
}

/// The parts that are left once the arguments of a set were read.
pub open spec fn set_rest(args: Seq<FrameView>) -> Seq<FrameView> {
    if next_string_of(args) is Err {
        rest_of(args)
    } else if next_bytes_of(rest_of(args)) is Err {
        rest_of(rest_of(args))
    } else {
        match next_string_of(args.skip(2)) {
            Ok(word) => if lowercase(word) == "px"@ {
                rest_of(args.skip(3))
            } else {
                args.skip(3)
            },
            Err(_) => rest_of(args.skip(2)),
        }
    }
}

impl SetKey {
    /// The key.
    pub fn key(&self) -> (key: &str)
        ensures
            key@ == self@.key,
    {
        self.key.as_str()
    }

    /// The value.
    pub fn value(&self) -> (value: &Bytes)
        ensures
            bytes_view(*value) == self@.value,
    {
        &self.value
    }

    /// The time to live in milliseconds, where there is one.
    pub fn expire(&self) -> (expire: Option<u64>)
        ensures
            expire == self@.expire,
    {
        self.expire
    }

    /// Whether the set can be made at the instant `now`.
    pub fn can_apply(&self, now: u64) -> (r: bool)
        ensures
            r == self@.fits(now),
    {
        match self.expire {
            Some(ms) => ms <= (u64::MAX - now) / NANOS_PER_MILLI,
            None => true,
        }
    }

    /// Reads the arguments of a set.
    pub fn parse_frames(parse: &mut Parse) -> (r: Result<SetKey, CommandError>)
        ensures
            final(parse)@ == set_rest(old(parse)@),
            match set_of(old(parse)@) {
                Ok(set) => r matches Ok(s) && s@ == set,
                Err(e) => r matches Err(x) && x == e,
            },
    {
        let key = match parse.next_string() {
            Ok(key) => key,
            Err(e) => {
                return Err(CommandError::Parse(e));
            },
        };
        let value = match parse.next_bytes() {
            Ok(value) => value,
            Err(e) => {
                return Err(CommandError::Parse(e));
            },
        };
        let expire: Option<u64> = match parse.next_string() {
            Ok(word) => {
                let lowered = word.as_str().to_lowercase();
                match SetKey::expiry(lowered.as_str(), parse) {
                    Ok(ms) => Some(ms),
                    Err(e) => {
                        return Err(e);
                    },
                }
            },
            Err(ParseError::End) => None,
            Err(e) => {
                return Err(CommandError::Parse(e));
            },
        };
        Ok(SetKey { key, value, expire })
    }

    /// Reads the time to live that follows the option word `lowered`, which
    /// is given in lower case.
    pub fn expiry(lowered: &str, parse: &mut Parse) -> (r: Result<u64, CommandError>)
        ensures
            r == expiry_of(lowered@, old(parse)@),
            final(parse)@ == if lowered@ == "px"@ {
                rest_of(old(parse)@)
            } else {
                old(parse)@
            },
    {
        if same_text(lowered, "px") {
            match parse.next_int() {
                Ok(ms) => Ok(ms),
                Err(e) => Err(CommandError::Parse(e)),
            }
        } else {
            Err(CommandError::Syntax)
        }
    }

    /// Gives the key its value in the store at the instant `now`, and
    /// returns the answer.
    pub fn apply(self, db: &mut Db, now: u64) -> (response: Frame)
        requires
            old(db).wf(),
            self@.fits(now),
        ensures
            response@ == FrameView::Simple("OK"@),
            final(db)@ == old(db)@.set(self@.key, self@.value, self@.ttl(), now),
            final(db).wf(),
    {
        let ttl: Option<u64> = match self.expire {
            Some(ms) => Some(ms * NANOS_PER_MILLI),
            None => None,
        };
        db.set(self.key, self.value, ttl, now);
        Frame::Simple("OK".to_owned())
    }
}

} // verus!
