//! The deadline index of the store: which key is due at which instant, kept
//! in the order of the instants.

use std::collections::BTreeMap;
use vstd::prelude::*;
use vstd::std_specs::btree::increasing_seq;
use vstd::std_specs::cmp::OrdSpec;

verus! {

broadcast use {vstd::std_specs::btree::group_btree_axioms, vstd::laws_cmp::group_laws_cmp};

/// A map from instants to keys. An instant holds one key.
pub struct Deadlines {
    by_time: BTreeMap<u64, String>,
}

impl View for Deadlines {
    type V = Map<u64, Seq<char>>;

    closed spec fn view(&self) -> Map<u64, Seq<char>> {
        Map::new(|d: u64| self.by_time@.contains_key(d), |d: u64| self.by_time@[d]@)
    }
}

/// Whether `first` is the earliest instant of `index`: none where the index
/// is empty.
pub open spec fn is_earliest(index: Map<u64, Seq<char>>, first: Option<u64>) -> bool {
    match first {
        Some(d) => index.contains_key(d) && forall|e: u64| index.contains_key(e) ==> d <= e,
        None => forall|e: u64| !index.contains_key(e),
    }
}

impl Deadlines {
    /// An index without instants.
    pub fn new() -> (r: Deadlines)
        ensures
            r@ == Map::<u64, Seq<char>>::empty(),
    {
        Deadlines { by_time: BTreeMap::new() }
    }

    /// Only finitely many instants are in the index.
    pub proof fn lemma_finite(&self)
        ensures
            self@.dom().finite(),
    {
        assert(self@.dom() =~= self.by_time@.dom());
    }

    /// Puts `key` under the instant `when` and returns the key that stood
    /// there, which has left.
    pub fn insert(&mut self, when: u64, key: String) -> (displaced: Option<String>)
        ensures
            final(self)@ == old(self)@.insert(when, key@),
            match displaced {
                Some(other) => old(self)@.contains_key(when) && old(self)@[when] == other@,
                None => !old(self)@.contains_key(when),
            },
    {
        let displaced = self.by_time.insert(when, key);
        displaced
    }

    /// Takes the instant `when` out and returns the key that stood there.
    pub fn remove(&mut self, when: u64) -> (r: Option<String>)
        ensures
            final(self)@ == old(self)@.remove(when),
            match r {
                Some(key) => old(self)@.contains_key(when) && old(self)@[when] == key@,
                None => !old(self)@.contains_key(when),
            },
    {
        let r = self.by_time.remove(&when);
        r
    }

    /// The earliest instant.
    pub fn first(&self) -> (r: Option<u64>)
        ensures
            is_earliest(self@, r),
    {
        let it = self.by_time.iter();
        for entry in iter: it
            invariant
                iter.index() == 0,
                increasing_seq(iter.seq().map_values(|kv: (&u64, &String)| *kv.0)),
                forall|k: u64| #[trigger]
                    self.by_time@.contains_key(k) ==> iter.seq().contains((&k, &self.by_time@[k])),
                forall|i: int|
                    0 <= i < iter.seq().len() ==> self.by_time@.contains_key(
                        *(#[trigger] iter.seq()[i]).0,
                    ),
        {
            let when: u64 = *entry.0;
            proof {
                let all = iter.seq();
                let instants = all.map_values(|kv: (&u64, &String)| *kv.0);
                assert forall|e: u64| self@.contains_key(e) implies when <= e by {
                    let j = choose|j: int| 0 <= j < all.len() && all[j] == (&e, &self.by_time@[e]);
                    if j > 0 {
                        vstd::std_specs::btree::axiom_increasing_seq_meaning(instants);
                        assert(instants[0].cmp_spec(&instants[j]) == core::cmp::Ordering::Less);
                    }
                }
            }
            return Some(when);
        }
        None
    }
}

} // verus!
