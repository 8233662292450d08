use bytes::Bytes;
use redis_starter_rust::cmd::set::NANOS_PER_MILLI;
use redis_starter_rust::cmd::{Command, CommandError, Echo, Get, Ping, SetKey};
use redis_starter_rust::connection::{Connection, ReadStep};
use redis_starter_rust::db::Db;
use redis_starter_rust::frame::Frame;
use redis_starter_rust::parse::{Parse, ParseError};
use redis_starter_rust::text::same_text;

fn bulk(text: &str) -> Frame {
    Frame::Bulk(Bytes::copy_from_slice(text.as_bytes()))
}

fn request(words: &[&str]) -> Frame {
    Frame::Array(words.iter().map(|w| bulk(w)).collect())
}

fn answer(db: &mut Db, words: &[&str], now: u64) -> Vec<u8> {
    let command = Command::from_frame(request(words)).unwrap();
    assert!(command.can_apply(now));
    command.apply(db, now).serialize()
}

fn failure(frame: Frame) -> CommandError {
    match Command::from_frame(frame) {
        Ok(command) => panic!("read as {:?}", command),
        Err(e) => e,
    }
}

#[test]
fn ping_answers_pong() {
    let mut db = Db::new();
    assert_eq!(answer(&mut db, &["PING"], 0), b"+PONG\r\n".to_vec());
}

#[test]
fn echo_answers_message() {
    let mut db = Db::new();
    assert_eq!(answer(&mut db, &["ECHO", "hello"], 0), b"$5\r\nhello\r\n".to_vec());
    assert_eq!(answer(&mut db, &["ECHO", ""], 0), b"$0\r\n\r\n".to_vec());
    assert_eq!(answer(&mut db, &["ECHO", "gr\u{fc}n"], 0), b"$5\r\ngr\xc3\xbcn\r\n".to_vec());
}

#[test]
fn get_missing_answers_null() {
    let mut db = Db::new();
    assert_eq!(answer(&mut db, &["GET", "missing"], 0), b"$-1\r\n".to_vec());
}

#[test]
fn set_then_get_answers_value() {
    let mut db = Db::new();
    assert_eq!(answer(&mut db, &["SET", "k", "v"], 0), b"+OK\r\n".to_vec());
    assert_eq!(answer(&mut db, &["GET", "k"], 1), b"$1\r\nv\r\n".to_vec());
}

#[test]
fn set_with_px_expires() {
    let mut db = Db::new();
    let due = 100 + 50 * NANOS_PER_MILLI;
    assert_eq!(due, 50_000_100);
    assert_eq!(answer(&mut db, &["SET", "k", "v", "PX", "50"], 100), b"+OK\r\n".to_vec());
    assert_eq!(answer(&mut db, &["GET", "k"], 100), b"$1\r\nv\r\n".to_vec());
    assert_eq!(db.purge_expired_keys(due - 1), Some(due));
    assert_eq!(answer(&mut db, &["GET", "k"], due - 1), b"$1\r\nv\r\n".to_vec());
    assert_eq!(db.purge_expired_keys(due), None);
    assert_eq!(answer(&mut db, &["GET", "k"], due), b"$-1\r\n".to_vec());
}

#[test]
fn set_with_px_zero_is_due_at_once() {
    let mut db = Db::new();
    assert_eq!(answer(&mut db, &["SET", "k", "v", "px", "0"], 7), b"+OK\r\n".to_vec());
    assert_eq!(db.purge_expired_keys(6), Some(7));
    assert_eq!(db.purge_expired_keys(7), None);
    assert_eq!(answer(&mut db, &["GET", "k"], 7), b"$-1\r\n".to_vec());
}

#[test]
fn end_to_end_from_wire_bytes() {
    let mut db = Db::new();
    let mut connection = Connection::new();
    let step = connection.read_frame(b"*3\r\n$3\r\nSET\r\n$1\r\nk\r\n$1\r\nv\r\n*2\r\n$3\r\nGET\r\n$1\r\nk\r\n");
    let first = match step {
        ReadStep::Frame(frame) => frame,
        other => panic!("no frame: {:?}", other),
    };
    let reply = Command::from_frame(first).unwrap().apply(&mut db, 0);
    assert_eq!(reply.serialize(), b"+OK\r\n".to_vec());
    let second = connection.parse_frame().unwrap();
    let reply = Command::from_frame(second).unwrap().apply(&mut db, 0);
    assert_eq!(reply.serialize(), b"$1\r\nv\r\n".to_vec());
}

#[test]
fn command_name_in_any_case() {
    for name in ["ping", "PING", "Ping", "pInG"] {
        assert!(matches!(Command::from_frame(request(&[name])), Ok(Command::Ping(_))));
    }
    assert!(matches!(Command::from_frame(request(&["echo", "x"])), Ok(Command::Echo(_))));
    assert!(matches!(Command::from_frame(request(&["Get", "x"])), Ok(Command::Get(_))));
    assert!(matches!(Command::from_frame(request(&["sEt", "x", "y"])), Ok(Command::SetKey(_))));
}

#[test]
fn named_takes_lowercase_only() {
    let parse = Parse::new(request(&[])).unwrap();
    assert!(matches!(Command::named("ping", parse), Ok(Command::Ping(_))));
    let parse = Parse::new(request(&[])).unwrap();
    assert!(matches!(Command::named("PING", parse), Err(CommandError::Unknown)));
}

#[test]
fn command_holds_its_arguments() {
    match Command::from_frame(request(&["ECHO", "hello", "ignored"])) {
        Ok(Command::Echo(echo)) => assert_eq!(echo.message(), "hello"),
        other => panic!("{:?}", other),
    }
    match Command::from_frame(request(&["GET", "key"])) {
        Ok(Command::Get(get)) => assert_eq!(get.key(), "key"),
        other => panic!("{:?}", other),
    }
    match Command::from_frame(request(&["SET", "key", "value"])) {
        Ok(Command::SetKey(set)) => {
            assert_eq!(set.key(), "key");
            assert_eq!(set.value(), &Bytes::copy_from_slice(b"value"));
            assert_eq!(set.expire(), None);
        }
        other => panic!("{:?}", other),
    }
    match Command::from_frame(request(&["SET", "key", "value", "px", "1500"])) {
        Ok(Command::SetKey(set)) => assert_eq!(set.expire(), Some(1500)),
        other => panic!("{:?}", other),
    }
}

#[test]
fn set_value_may_be_any_bytes() {
    let frame = Frame::Array(vec![
        bulk("SET"),
        bulk("k"),
        Frame::Bulk(Bytes::copy_from_slice(b"\xff\x00\r\n")),
    ]);
    let mut db = Db::new();
    Command::from_frame(frame).unwrap().apply(&mut db, 0);
    assert_eq!(db.get("k"), Some(Bytes::copy_from_slice(b"\xff\x00\r\n")));
}

#[test]
fn set_ignores_what_follows_px() {
    match Command::from_frame(request(&["SET", "k", "v", "PX", "10", "more"])) {
        Ok(Command::SetKey(set)) => assert_eq!(set.expire(), Some(10)),
        other => panic!("{:?}", other),
    }
}

#[test]
fn unknown_command() {
    assert_eq!(failure(request(&["DEL", "k"])), CommandError::Unknown);
    assert_eq!(failure(request(&[""])), CommandError::Unknown);
    assert_eq!(failure(request(&["PINGS"])), CommandError::Unknown);
}

#[test]
fn set_syntax_error() {
    assert_eq!(failure(request(&["SET", "k", "v", "EX", "10"])), CommandError::Syntax);
    assert_eq!(failure(request(&["SET", "k", "v", "extra"])), CommandError::Syntax);
}

#[test]
fn set_px_needs_a_number() {
    assert_eq!(
        failure(request(&["SET", "k", "v", "PX"])),
        CommandError::Parse(ParseError::End)
    );
    assert_eq!(
        failure(request(&["SET", "k", "v", "PX", "soon"])),
        CommandError::Parse(ParseError::NotInt)
    );
    assert_eq!(
        failure(request(&["SET", "k", "v", "PX", "-5"])),
        CommandError::Parse(ParseError::NotInt)
    );
    assert_eq!(
        failure(request(&["SET", "k", "v", "PX", "18446744073709551616"])),
        CommandError::Parse(ParseError::NotInt)
    );
    let frame = Frame::Array(vec![bulk("SET"), bulk("k"), bulk("v"), bulk("px"), Frame::Null]);
    assert_eq!(failure(frame), CommandError::Parse(ParseError::NotInt));
}

#[test]
fn missing_arguments() {
    assert_eq!(failure(request(&[])), CommandError::Parse(ParseError::End));
    assert_eq!(failure(request(&["ECHO"])), CommandError::Parse(ParseError::End));
    assert_eq!(failure(request(&["GET"])), CommandError::Parse(ParseError::End));
    assert_eq!(failure(request(&["SET"])), CommandError::Parse(ParseError::End));
    assert_eq!(failure(request(&["SET", "k"])), CommandError::Parse(ParseError::End));
}

#[test]
fn request_of_the_wrong_kind() {
    assert_eq!(failure(bulk("PING")), CommandError::Parse(ParseError::NotArray));
    assert_eq!(failure(Frame::Null), CommandError::Parse(ParseError::NotArray));
    assert_eq!(
        failure(Frame::Simple("PING".to_string())),
        CommandError::Parse(ParseError::NotArray)
    );
    assert_eq!(
        failure(Frame::Array(vec![Frame::Simple("PING".to_string())])),
        CommandError::Parse(ParseError::NotBulk)
    );
    assert_eq!(
        failure(Frame::Array(vec![bulk("GET"), Frame::Array(vec![])])),
        CommandError::Parse(ParseError::NotBulk)
    );
    assert_eq!(
        failure(Frame::Array(vec![bulk("SET"), bulk("k"), Frame::Null])),
        CommandError::Parse(ParseError::NotBulk)
    );
}

#[test]
fn text_has_to_be_utf8() {
    let bad = Frame::Bulk(Bytes::copy_from_slice(b"\xff\xfe"));
    assert_eq!(failure(Frame::Array(vec![bad.clone()])), CommandError::Parse(ParseError::Utf8));
    assert_eq!(
        failure(Frame::Array(vec![bulk("GET"), bad.clone()])),
        CommandError::Parse(ParseError::Utf8)
    );
    assert_eq!(
        failure(Frame::Array(vec![bulk("SET"), bulk("k"), bulk("v"), bad])),
        CommandError::Parse(ParseError::Utf8)
    );
}

#[test]
fn can_apply_checks_the_deadline() {
    let command = Command::from_frame(request(&["SET", "k", "v", "PX", "10"])).unwrap();
    assert!(command.can_apply(0));
    assert!(command.can_apply(u64::MAX - 10 * NANOS_PER_MILLI));
    assert!(!command.can_apply(u64::MAX - 10 * NANOS_PER_MILLI + 1));
    assert!(!command.can_apply(u64::MAX));
    let longest = (u64::MAX / NANOS_PER_MILLI).to_string();
    let command = Command::from_frame(request(&["SET", "k", "v", "PX", &longest])).unwrap();
    assert!(command.can_apply(u64::MAX % NANOS_PER_MILLI));
    assert!(!command.can_apply(u64::MAX % NANOS_PER_MILLI + 1));
    let too_long = (u64::MAX / NANOS_PER_MILLI + 1).to_string();
    let command = Command::from_frame(request(&["SET", "k", "v", "PX", &too_long])).unwrap();
    assert!(!command.can_apply(0));
    let command = Command::from_frame(request(&["SET", "k", "v"])).unwrap();
    assert!(command.can_apply(u64::MAX));
    let command = Command::from_frame(request(&["PING"])).unwrap();
    assert!(command.can_apply(u64::MAX));
}

#[test]
fn commands_one_by_one() {
    let mut db = Db::new();
    assert_eq!(Ping::parse_frames().unwrap().apply().serialize(), b"+PONG\r\n".to_vec());
    let mut parse = Parse::new(request(&["hi"])).unwrap();
    assert_eq!(Echo::parse_frames(&mut parse).unwrap().apply().serialize(), b"$2\r\nhi\r\n".to_vec());
    let mut parse = Parse::new(request(&["k", "v"])).unwrap();
    let set = SetKey::parse_frames(&mut parse).unwrap();
    assert!(set.can_apply(0));
    assert_eq!(set.apply(&mut db, 0).serialize(), b"+OK\r\n".to_vec());
    let mut parse = Parse::new(request(&["k"])).unwrap();
    assert_eq!(Get::parse_frames(&mut parse).unwrap().apply(&db).serialize(), b"$1\r\nv\r\n".to_vec());
}

#[test]
fn expiry_after_option_word() {
    let mut parse = Parse::new(request(&["25", "x"])).unwrap();
    assert_eq!(SetKey::expiry("px", &mut parse), Ok(25));
    assert_eq!(parse.next_string(), Ok("x".to_string()));
    let mut parse = Parse::new(request(&["25"])).unwrap();
    assert_eq!(SetKey::expiry("PX", &mut parse), Err(CommandError::Syntax));
    assert_eq!(parse.next_int(), Ok(25));
}

#[test]
fn parse_takes_parts_in_order() {
    let mut parse = Parse::new(request(&["a", "12", "c"])).unwrap();
    assert_eq!(parse.next_string(), Ok("a".to_string()));
    assert_eq!(parse.next_int(), Ok(12));
    assert_eq!(parse.next_bytes(), Ok(Bytes::copy_from_slice(b"c")));
    assert_eq!(parse.next_string(), Err(ParseError::End));
    assert_eq!(parse.next_bytes(), Err(ParseError::End));
    assert_eq!(parse.next_int(), Err(ParseError::End));
}

#[test]
fn parse_takes_a_part_even_when_it_is_of_the_wrong_kind() {
    let frame = Frame::Array(vec![Frame::Null, bulk("b")]);
    let mut parse = Parse::new(frame).unwrap();
    assert_eq!(parse.next_string(), Err(ParseError::NotBulk));
    assert_eq!(parse.next_string(), Ok("b".to_string()));
}

#[test]
fn parse_number_forms() {
    let mut parse = Parse::new(request(&["", "007", "18446744073709551615", "1e3"])).unwrap();
    assert_eq!(parse.next_int(), Ok(0));
    assert_eq!(parse.next_int(), Ok(7));
    assert_eq!(parse.next_int(), Ok(u64::MAX));
    assert_eq!(parse.next_int(), Err(ParseError::NotInt));
}

#[test]
fn parse_needs_an_array() {
    assert!(matches!(Parse::new(bulk("x")), Err(ParseError::NotArray)));
    assert!(matches!(Parse::new(Frame::Null), Err(ParseError::NotArray)));
    assert!(matches!(Parse::new(Frame::Array(vec![])), Ok(_)));
}

#[test]
fn same_text_compares_characters() {
    assert!(same_text("px", "px"));
    assert!(same_text("", ""));
    assert!(!same_text("px", "PX"));
    assert!(!same_text("px", "pxx"));
    assert!(!same_text("px", "p"));
    assert!(same_text("gr\u{fc}n", "gr\u{fc}n"));
    assert!(!same_text("gr\u{fc}n", "grun"));
}
