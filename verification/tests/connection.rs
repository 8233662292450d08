use bytes::Bytes;
use redis_starter_rust::connection::{Connection, ReadStep};
use redis_starter_rust::frame::Frame;
use redis_starter_rust::wire::FrameError;

fn text(s: &str) -> Frame {
    Frame::Bulk(Bytes::copy_from_slice(s.as_bytes()))
}

#[test]
fn new_connection_is_empty() {
    let connection = Connection::new();
    assert_eq!(connection.pending(), &b""[..]);
}

#[test]
fn empty_read_means_closed() {
    let mut connection = Connection::new();
    assert_eq!(connection.read_frame(b""), ReadStep::Closed);
    assert_eq!(connection.read_frame(b"$1\r"), ReadStep::NeedMore);
    assert_eq!(connection.read_frame(b""), ReadStep::Closed);
    assert_eq!(connection.pending(), &b"$1\r"[..]);
}

#[test]
fn whole_frame_in_one_read() {
    let mut connection = Connection::new();
    assert_eq!(connection.read_frame(b"$5\r\nhello\r\n"), ReadStep::Frame(text("hello")));
    assert_eq!(connection.pending(), &b""[..]);
}

#[test]
fn frame_in_pieces_at_every_boundary() {
    let frame = Frame::Array(vec![text("SET"), text("key"), text("some value")]);
    let bytes = frame.serialize();
    for cut in 1..bytes.len() {
        let mut connection = Connection::new();
        assert_eq!(connection.read_frame(&bytes[..cut]), ReadStep::NeedMore);
        assert_eq!(connection.pending(), &bytes[..cut]);
        assert_eq!(connection.read_frame(&bytes[cut..]), ReadStep::Frame(frame.clone()));
        assert_eq!(connection.pending(), &b""[..]);
    }
}

#[test]
fn frame_byte_by_byte() {
    let frame = Frame::Array(vec![text("ECHO"), text("hello")]);
    let bytes = frame.serialize();
    let mut connection = Connection::new();
    for i in 0..bytes.len() - 1 {
        assert_eq!(connection.read_frame(&bytes[i..i + 1]), ReadStep::NeedMore);
        assert_eq!(connection.pending(), &bytes[..i + 1]);
    }
    let last = bytes.len() - 1;
    assert_eq!(connection.read_frame(&bytes[last..]), ReadStep::Frame(frame));
    assert_eq!(connection.pending(), &b""[..]);
}

#[test]
fn two_frames_in_one_read() {
    let first = Frame::Array(vec![text("GET"), text("a")]);
    let second = Frame::Array(vec![text("GET"), text("b")]);
    let mut bytes = first.serialize();
    bytes.extend_from_slice(&second.serialize());
    let mut connection = Connection::new();
    assert_eq!(connection.read_frame(&bytes), ReadStep::Frame(first));
    assert_eq!(connection.pending(), &second.serialize()[..]);
    assert_eq!(connection.read_frame(b"*1"), ReadStep::Frame(second));
    assert_eq!(connection.pending(), &b"*1"[..]);
}

#[test]
fn second_frame_stays_when_peer_closes() {
    let mut bytes = text("a").serialize();
    bytes.extend_from_slice(&text("b").serialize());
    let mut connection = Connection::new();
    assert_eq!(connection.read_frame(&bytes), ReadStep::Frame(text("a")));
    assert_eq!(connection.read_frame(b""), ReadStep::Closed);
    assert_eq!(connection.parse_frame(), Ok(text("b")));
    assert_eq!(connection.pending(), &b""[..]);
}

#[test]
fn parse_frame_takes_one_frame_at_a_time() {
    let mut connection = Connection::new();
    assert_eq!(connection.read_frame(b"$1\r\na\r\n$1\r\nb\r\n$1"), ReadStep::Frame(text("a")));
    assert_eq!(connection.parse_frame(), Ok(text("b")));
    assert_eq!(connection.pending(), &b"$1"[..]);
    assert_eq!(connection.parse_frame(), Err(FrameError::Incomplete));
    assert_eq!(connection.pending(), &b"$1"[..]);
}

#[test]
fn parse_frame_on_empty_buffer() {
    let mut connection = Connection::new();
    assert_eq!(connection.parse_frame(), Err(FrameError::Incomplete));
    assert_eq!(connection.pending(), &b""[..]);
}

#[test]
fn bad_input_fails_and_keeps_buffer() {
    let mut connection = Connection::new();
    assert_eq!(connection.read_frame(b"+OK\r\n"), ReadStep::Failed(FrameError::Invalid));
    assert_eq!(connection.pending(), &b"+OK\r\n"[..]);
    let mut connection = Connection::new();
    assert_eq!(connection.read_frame(b"$-1\r\n"), ReadStep::Failed(FrameError::BadLength));
    assert_eq!(connection.pending(), &b"$-1\r\n"[..]);
}

#[test]
fn buffer_grows_beyond_its_first_capacity() {
    let payload = "x".repeat(10_000);
    let frame = text(&payload);
    let bytes = frame.serialize();
    let mut connection = Connection::new();
    assert_eq!(connection.read_frame(&bytes[..5_000]), ReadStep::NeedMore);
    assert_eq!(connection.read_frame(&bytes[5_000..9_000]), ReadStep::NeedMore);
    assert_eq!(connection.pending().len(), 9_000);
    assert_eq!(connection.read_frame(&bytes[9_000..]), ReadStep::Frame(frame));
}
