//! The commands: how a request names one, and what each does to the store
//! and answers.

pub mod echo;
pub mod get;
pub mod ping;
pub mod set;

use crate::db::{Db, DbView};
use crate::frame::Frame;
use crate::parse::{next_string_of, Parse, ParseError};
use crate::text::{lowercase, same_text};
use crate::wire::FrameView;
use vstd::prelude::*;

pub use echo::Echo;
pub use get::Get;
pub use ping::Ping;
pub use set::{SetKey, SetView};

verus! {

/// Why a request is no command.
#[derive(Clone, Copy, Debug, PartialEq, Eq, Structural)]
pub enum CommandError {
    /// A part of the request is missing or of the wrong kind.
    Parse(ParseError),
    /// The request names no command that is known.
    Unknown,
    /// Something follows the arguments that no option begins with.
    Syntax,
}

/// A command.
#[derive(Debug)]
pub enum Command {
    Ping(Ping),
    Echo(Echo),
    SetKey(SetKey),
    Get(Get),
}

/// What a command asks for.
pub enum CommandView {
    /// An answer, to show that the server is there.
    Ping,
    /// The text back.
    Echo(Seq<char>),
    /// A key to be given a value.
    SetKey(SetView),
    /// The value of a key.
    Get(Seq<char>),
}

impl View for Command {
    type V = CommandView;

    open spec fn view(&self) -> CommandView {
        match self {
            Command::Ping(_) => CommandView::Ping,
            Command::Echo(echo) => CommandView::Echo(echo@),
            Command::SetKey(set) => CommandView::SetKey(set@),
            Command::Get(get) => CommandView::Get(get@),
        }
    }
}

/// Lifts a failure to take a part to a failure to read a command.
pub open spec fn lift<T>(r: Result<T, ParseError>) -> Result<T, CommandError> {
    match r {
        Ok(v) => Ok(v),
        Err(e) => Err(CommandError::Parse(e)),
    }
}

/// The command that the lowercase name `lowered` and the arguments `args`
/// make.
pub open spec fn command_named(lowered: Seq<char>, args: Seq<FrameView>) -> Result<
    CommandView,
    CommandError,
> {
    if lowered == "ping"@ {
        Ok(CommandView::Ping)
    } else if lowered == "echo"@ {
        match echo::echo_of(args) {
            Ok(text) => Ok(CommandView::Echo(text)),
            Err(e) => Err(e),
        }
    } else if lowered == "set"@ {
        match set::set_of(args) {
            Ok(set) => Ok(CommandView::SetKey(set)),
            Err(e) => Err(e),
        }
    } else if lowered == "get"@ {
        match get::get_of(args) {
            Ok(key) => Ok(CommandView::Get(key)),
            Err(e) => Err(e),
        }
    } else {
        Err(CommandError::Unknown)
    }
}

/// The command that the request `frame` makes: an array whose first part
/// names the command, in upper or lower case, and whose other parts are its
/// arguments.
pub open spec fn command_of(frame: FrameView) -> Result<CommandView, CommandError> {
    match frame {
        FrameView::Array(parts) => match next_string_of(parts) {
            Ok(name) => command_named(lowercase(name), parts.drop_first()),
            Err(e) => Err(CommandError::Parse(e)),
        },
        _ => Err(CommandError::Parse(ParseError::NotArray)),
    }
}

impl CommandView {
    /// The answer to the command, given what the store held before it.
    pub open spec fn reply(self, db: DbView) -> FrameView {
        match self {
            CommandView::Ping => FrameView::Simple("PONG"@),
            CommandView::Echo(text) => FrameView::Bulk(vstd::utf8::encode_utf8(text)),
            CommandView::SetKey(_) => FrameView::Simple("OK"@),
            CommandView::Get(key) => match db.get(key) {
                Some(value) => FrameView::Bulk(value),
                None => FrameView::Null,
            },
        }
    }

    /// What the store holds after the command, made at the instant `now`.
    pub open spec fn effect(self, db: DbView, now: u64) -> DbView {
        match self {
            CommandView::SetKey(set) => db.set(set.key, set.value, set.ttl(), now),
            _ => db,
        }
    }

    /// Whether the command can be made at the instant `now`: the instant at
    /// which a key is due has to fit in `u64`.
    pub open spec fn fits(self, now: u64) -> bool {
        self matches CommandView::SetKey(set) ==> set.fits(now)
    }
}

/// An echo of text that arrived as the bytes `text` answers with those very
/// bytes.
pub proof fn lemma_echo_answers_its_argument(text: Seq<u8>, db: DbView)
    requires
        vstd::utf8::valid_utf8(text),
    ensures
        command_named("echo"@, seq![FrameView::Bulk(text)]) matches Ok(command)
            && command.reply(db) == FrameView::Bulk(text),
{
    vstd::utf8::decode_utf8_encode_utf8(text);
    assert("echo"@ != "ping"@) by {
        reveal_strlit("echo");
        reveal_strlit("ping");
        assert("echo"@[0] != "ping"@[0]);
    }
}

/// A get that follows a set of the same key answers with the value that was
/// set.
pub proof fn lemma_get_answers_what_was_set(set: SetView, db: DbView, now: u64)
    ensures
        CommandView::Get(set.key).reply(CommandView::SetKey(set).effect(db, now))
            == FrameView::Bulk(set.value),
{
}

/// A get of a key that has no value answers with null.
pub proof fn lemma_get_answers_null(key: Seq<char>, db: DbView)
    requires
        db.get(key) is None,
    ensures
        CommandView::Get(key).reply(db) == FrameView::Null,
{
}

impl Command {
    /// Reads a request as a command.
    pub fn from_frame(frame: Frame) -> (r: Result<Command, CommandError>)
        ensures
            match command_of(frame@) {
                Ok(command) => r matches Ok(c) && c@ == command,
                Err(e) => r matches Err(x) && x == e,
            },
    {
        let mut parse = match Parse::new(frame) {
            Ok(parse) => parse,
            Err(e) => {
                return Err(CommandError::Parse(e));
            },
        };
        let name = match parse.next_string() {
            Ok(name) => name,
            Err(e) => {
                return Err(CommandError::Parse(e));
            },
        };
        let lowered = name.as_str().to_lowercase();
        Command::named(lowered.as_str(), parse)
    }

    /// The command that the lowercase name `lowered` and the arguments left
    /// in `parse` make.
    pub fn named(lowered: &str, parse: Parse) -> (r: Result<Command, CommandError>)
        ensures
            match command_named(lowered@, parse@) {
                Ok(command) => r matches Ok(c) && c@ == command,
                Err(e) => r matches Err(x) && x == e,
            },
    {
        let mut parse = parse;
        if same_text(lowered, "ping") {
            match Ping::parse_frames() {
                Ok(ping) => Ok(Command::Ping(ping)),
                Err(e) => Err(e),
            }
        } else if same_text(lowered, "echo") {
            match Echo::parse_frames(&mut parse) {
                Ok(echo) => Ok(Command::Echo(echo)),
                Err(e) => Err(e),
            }
        } else if same_text(lowered, "set") {
            match SetKey::parse_frames(&mut parse) {
                Ok(set) => Ok(Command::SetKey(set)),
                Err(e) => Err(e),
            }
        } else if same_text(lowered, "get") {
            match Get::parse_frames(&mut parse) {
                Ok(get) => Ok(Command::Get(get)),
                Err(e) => Err(e),
            }
        } else {
            Err(CommandError::Unknown)
        }
    }

    /// Whether the command can be carried out at the instant `now`.
    pub fn can_apply(&self, now: u64) -> (r: bool)
        ensures
            r == self@.fits(now),
    {
        match self {
            Command::SetKey(cmd) => cmd.can_apply(now),
            _ => true,
        }
    }

    /// Carries the command out on the store at the instant `now` and returns
    /// the answer.
    pub fn apply(self, db: &mut Db, now: u64) -> (response: Frame)
        requires
            old(db).wf(),
            self@.fits(now),
        ensures
            response@ == self@.reply(old(db)@),
            final(db)@ == self@.effect(old(db)@, now),
            final(db).wf(),
    {
        match self {
            Command::Ping(cmd) => cmd.apply(),
            Command::Echo(cmd) => cmd.apply(),
            Command::SetKey(cmd) => cmd.apply(db, now),
            Command::Get(cmd) => cmd.apply(db),
        }
    }
}

} // verus!
