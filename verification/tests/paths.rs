use bytes::Bytes;
use redis_starter_rust::{Command, Connection, Db, Frame, FrameError};

#[test]
fn items_at_the_crate_root() {
    let mut connection = Connection::new();
    assert_eq!(connection.parse_frame(), Err(FrameError::Incomplete));
    let request = Frame::Array(vec![
        Frame::Bulk(Bytes::from("SET")),
        Frame::Bulk(Bytes::from("k")),
        Frame::Bulk(Bytes::from("v")),
    ]);
    let mut db = Db::new();
    let reply = Command::from_frame(request).unwrap().apply(&mut db, 0);
    assert_eq!(reply, Frame::Simple("OK".to_string()));
    assert_eq!(db.get("k"), Some(Bytes::from("v")));
}
