use bytes::Bytes;
use redis_starter_rust::db::Db;
use redis_starter_rust::deadlines::Deadlines;

fn value(s: &str) -> Bytes {
    Bytes::copy_from_slice(s.as_bytes())
}

#[test]
fn get_missing() {
    let db = Db::new();
    assert_eq!(db.get("missing"), None);
}

#[test]
fn set_then_get() {
    let mut db = Db::new();
    db.set("k".to_string(), value("v"), None, 0);
    assert_eq!(db.get("k"), Some(value("v")));
    assert_eq!(db.get("K"), None);
}

#[test]
fn set_overwrites() {
    let mut db = Db::new();
    db.set("k".to_string(), value("v1"), None, 0);
    db.set("k".to_string(), value("v2"), None, 1);
    assert_eq!(db.get("k"), Some(value("v2")));
}

#[test]
fn ttl_expiry() {
    let mut db = Db::new();
    db.set("k".to_string(), value("v"), Some(50), 1_000);
    assert_eq!(db.get("k"), Some(value("v")));
    assert_eq!(db.purge_expired_keys(1_000), Some(1_050));
    assert_eq!(db.purge_expired_keys(1_049), Some(1_050));
    assert_eq!(db.get("k"), Some(value("v")));
    assert_eq!(db.purge_expired_keys(1_050), None);
    assert_eq!(db.get("k"), None);
}

#[test]
fn ttl_expiry_long_after_deadline() {
    let mut db = Db::new();
    db.set("k".to_string(), value("v"), Some(50), 0);
    assert_eq!(db.purge_expired_keys(u64::MAX), None);
    assert_eq!(db.get("k"), None);
}

#[test]
fn zero_ttl_is_due_at_once() {
    let mut db = Db::new();
    db.set("k".to_string(), value("v"), Some(0), 7);
    assert_eq!(db.get("k"), Some(value("v")));
    assert_eq!(db.purge_expired_keys(7), None);
    assert_eq!(db.get("k"), None);
}

#[test]
fn no_ttl_is_permanent() {
    let mut db = Db::new();
    db.set("k".to_string(), value("v"), None, 0);
    assert_eq!(db.purge_expired_keys(0), None);
    assert_eq!(db.purge_expired_keys(1_000_000), None);
    assert_eq!(db.purge_expired_keys(u64::MAX), None);
    assert_eq!(db.get("k"), Some(value("v")));
}

#[test]
fn overwrite_without_ttl_drops_deadline() {
    let mut db = Db::new();
    db.set("k".to_string(), value("old"), Some(10), 0);
    db.set("k".to_string(), value("new"), None, 5);
    assert_eq!(db.purge_expired_keys(100), None);
    assert_eq!(db.get("k"), Some(value("new")));
}

#[test]
fn overwrite_with_ttl_moves_deadline() {
    let mut db = Db::new();
    db.set("k".to_string(), value("old"), Some(10), 0);
    db.set("k".to_string(), value("new"), Some(100), 5);
    assert_eq!(db.purge_expired_keys(10), Some(105));
    assert_eq!(db.get("k"), Some(value("new")));
    assert_eq!(db.purge_expired_keys(105), None);
    assert_eq!(db.get("k"), None);
}

#[test]
fn purge_takes_due_keys_only() {
    let mut db = Db::new();
    db.set("a".to_string(), value("1"), Some(10), 0);
    db.set("b".to_string(), value("2"), Some(20), 0);
    db.set("c".to_string(), value("3"), Some(30), 0);
    db.set("d".to_string(), value("4"), None, 0);
    assert_eq!(db.purge_expired_keys(20), Some(30));
    assert_eq!(db.get("a"), None);
    assert_eq!(db.get("b"), None);
    assert_eq!(db.get("c"), Some(value("3")));
    assert_eq!(db.get("d"), Some(value("4")));
}

#[test]
fn purge_returns_earliest_deadline_left() {
    let mut db = Db::new();
    assert_eq!(db.purge_expired_keys(5), None);
    db.set("late".to_string(), value("1"), Some(300), 0);
    db.set("early".to_string(), value("2"), Some(100), 0);
    db.set("middle".to_string(), value("3"), Some(200), 0);
    assert_eq!(db.purge_expired_keys(0), Some(100));
    assert_eq!(db.purge_expired_keys(150), Some(200));
    assert_eq!(db.purge_expired_keys(250), Some(300));
    assert_eq!(db.purge_expired_keys(300), None);
}

#[test]
fn later_key_takes_over_an_instant() {
    let mut db = Db::new();
    db.set("a".to_string(), value("1"), Some(10), 0);
    db.set("b".to_string(), value("2"), Some(5), 5);
    assert_eq!(db.purge_expired_keys(10), None);
    assert_eq!(db.get("b"), None);
    assert_eq!(db.get("a"), Some(value("1")));
}

#[test]
fn writes_to_distinct_keys_do_not_interfere() {
    let mut db = Db::new();
    let n: u64 = 200;
    for i in 0..n {
        let ttl = if i % 2 == 0 { None } else { Some(1_000 + i) };
        db.set(format!("key-{}", i), value(&format!("value-{}", i)), ttl, i);
    }
    for i in 0..n {
        assert_eq!(db.get(&format!("key-{}", i)), Some(value(&format!("value-{}", i))));
    }
    assert_eq!(db.purge_expired_keys(999), Some(1_002));
    for i in 0..n {
        assert_eq!(db.get(&format!("key-{}", i)), Some(value(&format!("value-{}", i))));
    }
}

#[test]
fn deadline_at_the_largest_instant() {
    let mut db = Db::new();
    db.set("k".to_string(), value("v"), Some(u64::MAX - 3), 3);
    assert_eq!(db.purge_expired_keys(u64::MAX - 1), Some(u64::MAX));
    assert_eq!(db.purge_expired_keys(u64::MAX), None);
    assert_eq!(db.get("k"), None);
}

#[test]
fn deadlines_in_order() {
    let mut index = Deadlines::new();
    assert_eq!(index.first(), None);
    assert_eq!(index.insert(30, "c".to_string()), None);
    assert_eq!(index.insert(10, "a".to_string()), None);
    assert_eq!(index.insert(20, "b".to_string()), None);
    assert_eq!(index.first(), Some(10));
    assert_eq!(index.remove(10), Some("a".to_string()));
    assert_eq!(index.remove(10), None);
    assert_eq!(index.first(), Some(20));
    assert_eq!(index.insert(20, "d".to_string()), Some("b".to_string()));
    assert_eq!(index.remove(20), Some("d".to_string()));
    assert_eq!(index.first(), Some(30));
}

#[test]
fn displaced_key_can_be_given_a_deadline_again() {
    let mut db = Db::new();
    db.set("a".to_string(), value("1"), Some(10), 0);
    db.set("b".to_string(), value("2"), Some(10), 0);
    db.set("a".to_string(), value("3"), Some(20), 0);
    assert_eq!(db.purge_expired_keys(10), Some(20));
    assert_eq!(db.get("a"), Some(value("3")));
    assert_eq!(db.get("b"), None);
    assert_eq!(db.purge_expired_keys(20), None);
    assert_eq!(db.get("a"), None);
}

#[test]
fn same_key_same_deadline_again() {
    let mut db = Db::new();
    db.set("a".to_string(), value("1"), Some(10), 0);
    db.set("a".to_string(), value("2"), Some(5), 5);
    assert_eq!(db.purge_expired_keys(9), Some(10));
    assert_eq!(db.get("a"), Some(value("2")));
    assert_eq!(db.purge_expired_keys(10), None);
    assert_eq!(db.get("a"), None);
}

#[test]
fn default_store_is_empty() {
    let mut db = Db::default();
    assert_eq!(db.get("k"), None);
    assert_eq!(db.purge_expired_keys(u64::MAX), None);
}
