//! The store: values by key, and the instants at which keys are due to
//! leave.
//!
//! Instants and times to live are counted in nanoseconds, the instants from
//! an origin that the owner of the store chooses and keeps.

use crate::buf::bytes_view;
use crate::deadlines::{is_earliest, Deadlines};
use bytes::Bytes;
use vstd::hash_map::StringHashMap;
use vstd::prelude::*;

verus! {

/// What the store holds.
pub struct DbView {
    /// The value of each key.
    pub entries: Map<Seq<char>, Seq<u8>>,
    /// The key that is due at each instant.
    pub expirations: Map<u64, Seq<char>>,
}

impl DbView {
    /// The store that holds nothing.
    pub open spec fn empty() -> DbView {
        DbView { entries: Map::empty(), expirations: Map::empty() }
    }

    /// Every key that is due at some instant has a value, and no key is due
    /// at two instants.
    pub open spec fn wf(self) -> bool {
        &&& forall|d: u64| #[trigger]
            self.expirations.contains_key(d) ==> self.entries.contains_key(self.expirations[d])
        &&& forall|d: u64, e: u64|
            #![trigger self.expirations[d], self.expirations[e]]
            self.expirations.contains_key(d) && self.expirations.contains_key(e)
                && self.expirations[d] == self.expirations[e] ==> d == e
    }

    /// The value of `key`, if it has one.
    pub open spec fn get(self, key: Seq<char>) -> Option<Seq<u8>> {
        if self.entries.contains_key(key) {
            Some(self.entries[key])
        } else {
            None
        }
    }

    /// Whether `key` is due at the instant `d`.
    pub open spec fn due_at(self, key: Seq<char>, d: u64) -> bool {
        self.expirations.contains_key(d) && self.expirations[d] == key
    }

    /// Whether `key` is due at some instant.
    pub open spec fn has_deadline(self, key: Seq<char>) -> bool {
        exists|d: u64| self.due_at(key, d)
    }

    /// Whether `key` is due at `now` or earlier.
    pub open spec fn expired(self, key: Seq<char>, now: u64) -> bool {
        exists|d: u64| d <= now && #[trigger] self.due_at(key, d)
    }

    /// The instants without those at which `key` is due.
    pub open spec fn unscheduled(self, key: Seq<char>) -> Map<u64, Seq<char>> {
        Map::new(
            |d: u64| self.expirations.contains_key(d) && self.expirations[d] != key,
            |d: u64| self.expirations[d],
        )
    }

    /// The store after `key` was given `value` at the instant `now`. With a
    /// time to live the key is due when that time has passed, and takes that
    /// instant over from a key that was due then, which is due no more.
    /// Without one the key is not due at any instant.
    pub open spec fn set(self, key: Seq<char>, value: Seq<u8>, ttl: Option<u64>, now: u64) -> DbView
        recommends
            ttl matches Some(t) ==> now + t <= u64::MAX,
    {
        DbView {
            entries: self.entries.insert(key, value),
            expirations: match ttl {
                Some(t) => self.unscheduled(key).insert((now + t) as u64, key),
                None => self.unscheduled(key),
            },
        }
    }

    /// The store after the keys that are due at `now` or earlier have left.
    pub open spec fn purge(self, now: u64) -> DbView {
        DbView {
            entries: Map::new(
                |k: Seq<char>| self.entries.contains_key(k) && !self.expired(k, now),
                |k: Seq<char>| self.entries[k],
            ),
            expirations: Map::new(
                |d: u64| self.expirations.contains_key(d) && d > now,
                |d: u64| self.expirations[d],
            ),
        }
    }
}

/// What the store keeps for a key.
struct Entry {
    value: Bytes,
    /// The instant at which the key is due, where it is due at all.
    deadline: Option<u64>,
}

/// The store.
pub struct Db {
    entries: StringHashMap<Entry>,
    expirations: Deadlines,
}

impl View for Db {
    type V = DbView;

    closed spec fn view(&self) -> DbView {
        DbView {
            entries: Map::new(
                |k: Seq<char>| self.entries@.contains_key(k),
                |k: Seq<char>| bytes_view(self.entries@[k].value),
            ),
            expirations: self.expirations@,
        }
    }
}

impl Db {
    /// Whether the entry of `key` says that the key is due at `d`.
    spec fn stamped(&self, key: Seq<char>, d: u64) -> bool {
        self.entries@.contains_key(key) && self.entries@[key].deadline == Some(d)
    }

    /// The store is in order: a key is due at an instant by its entry where,
    /// and only where, it stands under that instant in the index.
    pub closed spec fn wf(&self) -> bool {
        forall|key: Seq<char>, d: u64|
            #![trigger self.stamped(key, d)]
            #![trigger self@.due_at(key, d)]
            self.stamped(key, d) == self@.due_at(key, d)
    }

    /// What a store in order holds is well formed.
    pub proof fn lemma_view_wf(&self)
        requires
            self.wf(),
        ensures
            self@.wf(),
    {
        let v = self@;
        assert forall|d: u64| #[trigger] v.expirations.contains_key(d) implies v.entries.contains_key(
            v.expirations[d],
        ) by {
            assert(self.stamped(v.expirations[d], d));
        }
        assert forall|d: u64, e: u64|
            v.expirations.contains_key(d) && v.expirations.contains_key(e) && v.expirations[d]
                == v.expirations[e] implies d == e by {
            let key = v.expirations[d];
            assert(self.stamped(key, d));
            assert(self.stamped(key, e));
        }
    }

    /// A store that holds nothing.
    pub fn new() -> (db: Db)
        ensures
            db@ == DbView::empty(),
            db.wf(),
    {
        let db = Db { entries: StringHashMap::new(), expirations: Deadlines::new() };
        assert(db@.entries =~= Map::<Seq<char>, Seq<u8>>::empty());
        db
    }

    /// The value of `key`, if it has one.
    pub fn get(&self, key: &str) -> (r: Option<Bytes>)
        ensures
            match self@.get(key@) {
                Some(v) => r matches Some(b) && bytes_view(b) == v,
                None => r is None,
            },
    {
        match self.entries.get(key) {
            Some(entry) => Some(entry.value.clone()),
            None => None,
        }
    }

    /// Gives `key` the value `value` at the instant `now`. With a time to
    /// live the key is due when that time has passed, and no more at the
    /// instant at which it was due before; without one it is not due at any
    /// instant. An instant holds one key: a key that was due at the instant
    /// which `key` takes is due no more, and keeps its value.
    pub fn set(&mut self, key: String, value: Bytes, expiration: Option<u64>, now: u64)
        requires
            old(self).wf(),
            expiration matches Some(ttl) ==> now + ttl <= u64::MAX,
        ensures
            final(self)@ == old(self)@.set(key@, bytes_view(value), expiration, now),
            final(self).wf(),
    {
        let stale: Option<u64> = match self.entries.get(key.as_str()) {
            Some(entry) => entry.deadline,
            None => None,
        };
        match stale {
            Some(d) => {
                assert(old(self)@.due_at(key@, d));
                self.expirations.remove(d);
            },
            None => {},
        }
        assert(self.expirations@ =~= old(self)@.unscheduled(key@)) by {
            assert forall|d: u64|
                old(self)@.expirations.contains_key(d) && old(self)@.expirations[d]
                    == key@ implies stale == Some(d) by {
                assert(old(self).stamped(key@, d));
            }
        }
        let deadline: Option<u64> = match expiration {
            Some(ttl) => {
                let due: u64 = now + ttl;
                match self.expirations.insert(due, key.clone()) {
                    Some(other) => {
                        assert(old(self).stamped(other@, due));
                        let freed: Option<Bytes> = match self.entries.get(other.as_str()) {
                            Some(entry) => Some(entry.value.clone()),
                            None => None,
                        };
                        match freed {
                            Some(bytes) => {
                                self.entries.insert(other, Entry { value: bytes, deadline: None });
                            },
                            None => {},
                        }
                    },
                    None => {},
                }
                Some(due)
            },
            None => None,
        };
        self.entries.insert(key, Entry { value, deadline });
        proof {
            assert(self@.entries =~= old(self)@.entries.insert(key@, bytes_view(value)));
            assert forall|k: Seq<char>, d: u64| self.stamped(k, d) == self@.due_at(k, d) by {
                if k != key@ {
                    assert(old(self).stamped(k, d) == old(self)@.due_at(k, d));
                }
            }
        }
    }

    /// Lets the keys leave that are due at `now` or earlier, and returns the
    /// earliest instant at which a key is still due. Whoever lets keys leave
    /// has nothing to do before that instant, or, where none is returned,
    /// before the next write.
    pub fn purge_expired_keys(&mut self, now: u64) -> (next: Option<u64>)
        requires
            old(self).wf(),
        ensures
            final(self)@ == old(self)@.purge(now),
            final(self).wf(),
            is_earliest(final(self)@.expirations, next),
            next matches Some(d) ==> d > now,
    {
        loop
            invariant
                self@.purge(now) == old(self)@.purge(now),
                self.wf(),
            decreases self@.expirations.dom().len(),
        {
            proof {
                self.expirations.lemma_finite();
                self.lemma_view_wf();
            }
            let first = self.expirations.first();
            let when: u64 = match first {
                Some(when) => when,
                None => {
                    proof {
                        lemma_purge_nothing(self@, now);
                    }
                    return None;
                },
            };
            if when > now {
                proof {
                    lemma_purge_nothing(self@, now);
                }
                return Some(when);
            }
            let ghost before = *self;
            match self.expirations.remove(when) {
                Some(key) => {
                    self.entries.remove(key.as_str());
                    proof {
                        assert(self@.entries =~= before@.entries.remove(key@));
                        lemma_purge_step(before@, self@, when, now);
                        assert forall|k: Seq<char>, d: u64| self.stamped(k, d) == self@.due_at(
                            k,
                            d,
                        ) by {
                            assert(before.stamped(k, d) == before@.due_at(k, d));
                        }
                    }
                },
                None => {},
            }
        }
    }
}

impl Default for Db {
    /// A store that holds nothing.
    fn default() -> (db: Db)
        ensures
            db@ == DbView::empty(),
            db.wf(),
    {
        Db::new()
    }
}

/// One write to the store: a key, its value, its time to live if it has one,
/// and the instant of the write.
pub struct Write {
    pub key: Seq<char>,
    pub value: Seq<u8>,
    pub ttl: Option<u64>,
    pub now: u64,
}

impl DbView {
    /// The store after `writes` were made, one after the other.
    pub open spec fn set_all(self, writes: Seq<Write>) -> DbView
        decreases writes.len(),
    {
        if writes.len() == 0 {
            self
        } else {
            let last = writes.last();
            self.set_all(writes.drop_last()).set(last.key, last.value, last.ttl, last.now)
        }
    }
}

/// A write leaves the store well formed.
pub proof fn lemma_set_wf(s: DbView, key: Seq<char>, value: Seq<u8>, ttl: Option<u64>, now: u64)
    requires
        s.wf(),
        ttl matches Some(t) ==> now + t <= u64::MAX,
    ensures
        s.set(key, value, ttl, now).wf(),
{
}

/// Letting due keys leave keeps the store well formed.
pub proof fn lemma_purge_wf(s: DbView, now: u64)
    requires
        s.wf(),
    ensures
        s.purge(now).wf(),
{
    let p = s.purge(now);
    assert forall|d: u64| #[trigger] p.expirations.contains_key(d) implies p.entries.contains_key(
        p.expirations[d],
    ) by {
        let k = s.expirations[d];
        if s.expired(k, now) {
            let e = choose|e: u64| e <= now && #[trigger] s.due_at(k, e);
            assert(s.expirations[d] == s.expirations[e]);
        }
    }
}

/// A key that was written with a time to live has its value at once. It
/// keeps it while due keys leave before that time has passed, and has none
/// once they leave at that time or later.
pub proof fn lemma_ttl_expiry(
    s: DbView,
    key: Seq<char>,
    value: Seq<u8>,
    ttl: u64,
    now: u64,
    later: u64,
)
    requires
        s.wf(),
        now + ttl <= u64::MAX,
    ensures
        s.set(key, value, Some(ttl), now).get(key) == Some(value),
        later < now + ttl ==> s.set(key, value, Some(ttl), now).purge(later).get(key) == Some(
            value,
        ),
        later >= now + ttl ==> s.set(key, value, Some(ttl), now).purge(later).get(key) is None,
{
    let t = s.set(key, value, Some(ttl), now);
    let deadline = (now + ttl) as u64;
    assert(t.due_at(key, deadline));
    if later < now + ttl && t.expired(key, later) {
        let d = choose|d: u64| d <= later && #[trigger] t.due_at(key, d);
        assert(d == deadline);
    }
}

/// A key that is not due at any instant keeps its value and stays so, at
/// whatever instant due keys leave.
pub proof fn lemma_purge_keeps_permanent(s: DbView, key: Seq<char>, later: u64)
    requires
        !s.has_deadline(key),
    ensures
        s.purge(later).get(key) == s.get(key),
        !s.purge(later).has_deadline(key),
{
    let p = s.purge(later);
    if s.expired(key, later) {
        let d = choose|d: u64| d <= later && #[trigger] s.due_at(key, d);
        assert(s.has_deadline(key));
    }
    if p.has_deadline(key) {
        let d = choose|d: u64| p.due_at(key, d);
        assert(s.due_at(key, d));
    }
}

/// A key that was written without a time to live is not due at any instant,
/// whatever was the case before, and so keeps its value whenever due keys
/// leave.
pub proof fn lemma_no_ttl_permanent(
    s: DbView,
    key: Seq<char>,
    value: Seq<u8>,
    now: u64,
    later: u64,
)
    ensures
        !s.set(key, value, None, now).has_deadline(key),
        s.set(key, value, None, now).purge(later).get(key) == Some(value),
{
    let t = s.set(key, value, None, now);
    assert(forall|d: u64| !t.due_at(key, d));
    lemma_purge_keeps_permanent(t, key, later);
}

/// A write gives its key its value and leaves the value of every other key
/// as it was.
pub proof fn lemma_set_other_keys(
    s: DbView,
    key: Seq<char>,
    value: Seq<u8>,
    ttl: Option<u64>,
    now: u64,
    other: Seq<char>,
)
    ensures
        s.set(key, value, ttl, now).get(key) == Some(value),
        other != key ==> s.set(key, value, ttl, now).get(other) == s.get(other),
{
}

/// After writes to keys that all differ, in whatever order they were made,
/// every key has the value that was written for it.
pub proof fn lemma_distinct_writes(s: DbView, writes: Seq<Write>, i: int)
    requires
        0 <= i < writes.len(),
        forall|a: int, b: int|
            0 <= a < b < writes.len() ==> (#[trigger] writes[a]).key != (#[trigger] writes[b]).key,
    ensures
        s.set_all(writes).get(writes[i].key) == Some(writes[i].value),
    decreases writes.len(),
{
    let last = writes.last();
    let before = s.set_all(writes.drop_last());
    if i < writes.len() - 1 {
        lemma_distinct_writes(s, writes.drop_last(), i);
        lemma_set_other_keys(before, last.key, last.value, last.ttl, last.now, writes[i].key);
    } else {
        lemma_set_other_keys(before, last.key, last.value, last.ttl, last.now, last.key);
    }
}

/// Where no key is due at `now` or earlier, no key leaves.
proof fn lemma_purge_nothing(s: DbView, now: u64)
    requires
        forall|d: u64| s.expirations.contains_key(d) ==> d > now,
    ensures
        s.purge(now) == s,
{
    assert(s.purge(now).entries =~= s.entries);
    assert(s.purge(now).expirations =~= s.expirations);
}

/// Letting one due key leave changes nothing in what is left once all due
/// keys have left.
proof fn lemma_purge_step(before: DbView, after: DbView, due: u64, now: u64)
    requires
        before.wf(),
        before.expirations.contains_key(due),
        due <= now,
        after.expirations == before.expirations.remove(due),
        after.entries == before.entries.remove(before.expirations[due]),
    ensures
        after.wf(),
        after.purge(now) == before.purge(now),
{
    let key = before.expirations[due];
    assert(before.due_at(key, due));
    assert forall|k: Seq<char>| before.expired(k, now) <==> (k == key || after.expired(
        k,
        now,
    )) by {
        if before.expired(k, now) && k != key {
            let d = choose|d: u64| d <= now && #[trigger] before.due_at(k, d);
            assert(after.due_at(k, d));
        }
        if after.expired(k, now) {
            let d = choose|d: u64| d <= now && #[trigger] after.due_at(k, d);
            assert(before.due_at(k, d));
        }
    }
    assert(after.purge(now).entries =~= before.purge(now).entries);
    assert(after.purge(now).expirations =~= before.purge(now).expirations);
}

} // verus!
