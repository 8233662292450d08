//! A small in-memory key-value server core: the wire codec for frames, the
//! receive buffer of one connection, the request grammar of the commands, and
//! the expiring key-value store they act on.

pub mod buf;
pub mod cmd;
pub mod connection;
pub mod cursor;
pub mod db;
pub mod deadlines;
pub mod frame;
pub mod parse;
pub mod roundtrip;
pub mod text;
pub mod wire;

pub use cmd::Command;
pub use connection::Connection;
pub use db::Db;
pub use frame::{Frame, FrameError};
