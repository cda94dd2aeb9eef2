//! Small collections keyed by 32-byte hashes: a map (for capabilities and
//! tombstones) and a set of `(hash, nonce)` pairs (for replay protection).
//!
//! Both keep their entries in a `Vec`; the map keeps its keys distinct.

use vstd::prelude::*;
use crate::crypto::{CapabilityHash, hash_eq};

verus! {

/// A finite map from 32-byte hashes to values.
pub struct ByteKeyMap<V> {
    entries: Vec<(CapabilityHash, V)>,
    contents: Ghost<Map<Seq<u8>, V>>,
}

impl<V> ByteKeyMap<V> {
    /// The mathematical map that this table holds.
    pub closed spec fn view(&self) -> Map<Seq<u8>, V> {
        self.contents@
    }

    /// The stored values, one per key, in storage order.
    pub closed spec fn values(&self) -> Seq<V> {
        self.entries@.map_values(|e: (CapabilityHash, V)| e.1)
    }

    /// Well-formedness: the entries are exactly the map, with distinct keys.
    pub closed spec fn wf(&self) -> bool {
        &&& forall|i: int|
            0 <= i < self.entries@.len() ==> {
                &&& #[trigger] self.contents@.contains_key(self.entries@[i].0@)
                &&& self.contents@[self.entries@[i].0@] == self.entries@[i].1
            }
        &&& forall|k: Seq<u8>|
            #[trigger] self.contents@.contains_key(k) ==> exists|i: int|
                0 <= i < self.entries@.len() && #[trigger] self.entries@[i].0@ == k
        &&& forall|i: int, j: int|
            0 <= i < j < self.entries@.len() ==> self.entries@[i].0@ != self.entries@[j].0@
    }

    /// Every stored value appears among `values()`, which has one entry per key.
    pub proof fn lemma_values(&self)
        requires
            self.wf(),
        ensures
            self@.dom().finite(),
            self.values().len() == self@.dom().len(),
            forall|k: Seq<u8>|
                #[trigger] self@.contains_key(k) ==> exists|i: int|
                    0 <= i < self.values().len() && self.values()[i] == self@[k],
    {
        let keys = self.entries@.map_values(|e: (CapabilityHash, V)| e.0@);
        assert(keys.no_duplicates()) by {
            assert forall|i: int, j: int|
                0 <= i < keys.len() && 0 <= j < keys.len() && i != j implies keys[i] != keys[j] by {
                if i < j {
                } else {
                }
            }
        }
        assert(self@.dom() =~= keys.to_set()) by {
            assert forall|k: Seq<u8>| self@.dom().contains(k) implies keys.to_set().contains(k) by {
                let i = choose|i: int| 0 <= i < self.entries@.len() && #[trigger] self.entries@[i].0@ == k;
                assert(keys[i] == k);
            }
            assert forall|k: Seq<u8>| keys.to_set().contains(k) implies self@.dom().contains(k) by {
                let i = choose|i: int| 0 <= i < keys.len() && keys[i] == k;
                assert(self.contents@.contains_key(self.entries@[i].0@));
            }
        }
        keys.unique_seq_to_set();
        assert forall|k: Seq<u8>| #[trigger] self@.contains_key(k) implies exists|i: int|
            0 <= i < self.values().len() && self.values()[i] == self@[k] by {
            let i = choose|i: int| 0 <= i < self.entries@.len() && #[trigger] self.entries@[i].0@ == k;
            assert(self.values()[i] == self.entries@[i].1);
        }
    }

    /// An empty table.
    pub fn new() -> (m: Self)
        ensures
            m.wf(),
            m@ == Map::<Seq<u8>, V>::empty(),
    {
        ByteKeyMap { entries: Vec::new(), contents: Ghost(Map::empty()) }
    }

    fn find(&self, key: &CapabilityHash) -> (r: Option<usize>)
        requires
            self.wf(),
        ensures
            match r {
                Some(i) => i < self.entries@.len() && self.entries@[i as int].0@ == key@,
                None => !self@.contains_key(key@),
            },
    {
        let n = self.entries.len();
        let mut i: usize = 0;
        while i < n
            invariant
                0 <= i <= n,
                n == self.entries@.len(),
                forall|j: int| 0 <= j < i ==> self.entries@[j].0@ != key@,
            decreases n - i,
        {
            if hash_eq(&self.entries[i].0, key) {
                return Some(i);
            }
            i = i + 1;
        }
        proof {
            if self@.contains_key(key@) {
                let j = choose|j: int| 0 <= j < self.entries@.len() && #[trigger] self.entries@[j].0@ == key@;
                assert(self.entries@[j].0@ != key@);
            }
        }
        None
    }

    /// The value stored under `key`, if any.
    pub fn get(&self, key: &CapabilityHash) -> (r: Option<&V>)
        requires
            self.wf(),
        ensures
            match r {
                Some(v) => self@.contains_key(key@) && *v == self@[key@],
                None => !self@.contains_key(key@),
            },
    {
        match self.find(key) {
            Some(i) => {
                assert(self.contents@.contains_key(self.entries@[i as int].0@));
                Some(&self.entries[i].1)
            },
            None => None,
        }
    }

    /// Whether some value is stored under `key`.
    pub fn contains_key(&self, key: &CapabilityHash) -> (b: bool)
        requires
            self.wf(),
        ensures
            b == self@.contains_key(key@),
    {
        self.find(key).is_some()
    }

    /// Stores `value` under `key`, replacing what was there.
    pub fn insert(&mut self, key: CapabilityHash, value: V)
        requires
            old(self).wf(),
        ensures
            final(self).wf(),
            final(self)@ == old(self)@.insert(key@, value),
    {
        let ghost old_contents = self.contents@;
        match self.find(&key) {
            Some(i) => {
                self.entries.set(i, (key, value));
                self.contents = Ghost(old_contents.insert(key@, value));
                assert forall|k: Seq<u8>| #[trigger] self.contents@.contains_key(k) implies exists|j: int|
                    0 <= j < self.entries@.len() && #[trigger] self.entries@[j].0@ == k by {
                    if k != key@ {
                        let j = choose|j: int| 0 <= j < old(self).entries@.len() && #[trigger] old(self).entries@[j].0@ == k;
                        assert(self.entries@[j].0@ == k);
                    } else {
                        assert(self.entries@[i as int].0@ == k);
                    }
                }
                assert forall|a: int|
                    0 <= a < self.entries@.len() implies {
                        &&& #[trigger] self.contents@.contains_key(self.entries@[a].0@)
                        &&& self.contents@[self.entries@[a].0@] == self.entries@[a].1
                    } by {
                    if a != i {
                        assert(old(self).contents@.contains_key(old(self).entries@[a].0@));
                    }
                }
                assert forall|a: int, b: int|
                    0 <= a < b < self.entries@.len() implies self.entries@[a].0@ != self.entries@[b].0@ by {
                    assert(old(self).entries@[a].0@ != old(self).entries@[b].0@);
                }
            },
            None => {
                self.entries.push((key, value));
                self.contents = Ghost(old_contents.insert(key@, value));
                let ghost n: int = self.entries@.len() - 1;
                assert forall|k: Seq<u8>| #[trigger] self.contents@.contains_key(k) implies exists|j: int|
                    0 <= j < self.entries@.len() && #[trigger] self.entries@[j].0@ == k by {
                    if k != key@ {
                        let j = choose|j: int| 0 <= j < old(self).entries@.len() && #[trigger] old(self).entries@[j].0@ == k;
                        assert(self.entries@[j].0@ == k);
                    } else {
                        assert(self.entries@[n].0@ == k);
                    }
                }
                assert forall|i: int| 0 <= i < n implies self.entries@[i].0@ != key@ by {
                    assert(old(self).contents@.contains_key(old(self).entries@[i].0@));
                }
                assert forall|a: int|
                    0 <= a < self.entries@.len() implies {
                        &&& #[trigger] self.contents@.contains_key(self.entries@[a].0@)
                        &&& self.contents@[self.entries@[a].0@] == self.entries@[a].1
                    } by {
                    if a < n {
                        assert(old(self).contents@.contains_key(old(self).entries@[a].0@));
                    }
                }
            },
        }
    }
}

/// A finite set of `(capability hash, nonce)` pairs.
pub struct NonceSet {
    entries: Vec<(CapabilityHash, u64)>,
}

impl NonceSet {
    /// The pairs that the set holds.
    pub closed spec fn view(&self) -> Set<(Seq<u8>, u64)> {
        Set::new(
            |p: (Seq<u8>, u64)|
                exists|i: int|
                    0 <= i < self.entries@.len() && #[trigger] self.entries@[i].0@ == p.0
                        && self.entries@[i].1 == p.1,
        )
    }

    /// An empty set.
    pub fn new() -> (s: Self)
        ensures
            s@ == Set::<(Seq<u8>, u64)>::empty(),
    {
        let s = NonceSet { entries: Vec::new() };
        assert(s@ =~= Set::<(Seq<u8>, u64)>::empty());
        s
    }

    /// Whether `item` is in the set.
    pub fn contains(&self, item: &(CapabilityHash, u64)) -> (b: bool)
        ensures
            b == self@.contains((item.0@, item.1)),
    {
        let n = self.entries.len();
        let mut i: usize = 0;
        while i < n
            invariant
                0 <= i <= n,
                n == self.entries@.len(),
                forall|j: int|
                    0 <= j < i ==> !(#[trigger] self.entries@[j].0@ == item.0@ && self.entries@[j].1
                        == item.1),
            decreases n - i,
        {
            if self.entries[i].1 == item.1 && hash_eq(&self.entries[i].0, &item.0) {
                return true;
            }
            i = i + 1;
        }
        false
    }

    /// Adds `item`; returns whether it was not already present.
    pub fn insert(&mut self, item: (CapabilityHash, u64)) -> (added: bool)
        ensures
            final(self)@ == old(self)@.insert((item.0@, item.1)),
            added == !old(self)@.contains((item.0@, item.1)),
    {
        if self.contains(&item) {
            assert(self@ =~= old(self)@.insert((item.0@, item.1)));
            false
        } else {
            self.entries.push(item);
            let ghost n: int = self.entries@.len() - 1;
            assert(self.entries@[n].0@ == item.0@);
            assert forall|p: (Seq<u8>, u64)| old(self)@.contains(p) implies #[trigger] self@.contains(p) by {
                let i = choose|i: int|
                    0 <= i < old(self).entries@.len() && #[trigger] old(self).entries@[i].0@ == p.0
                        && old(self).entries@[i].1 == p.1;
                assert(self.entries@[i] == old(self).entries@[i]);
            }
            assert forall|p: (Seq<u8>, u64)| #[trigger] self@.contains(p) implies old(self)@.insert((item.0@, item.1)).contains(p) by {
                let i = choose|i: int|
                    0 <= i < self.entries@.len() && #[trigger] self.entries@[i].0@ == p.0
                        && self.entries@[i].1 == p.1;
                if i < n {
                    assert(old(self).entries@[i] == self.entries@[i]);
                }
            }
            assert(self@ =~= old(self)@.insert((item.0@, item.1)));
            true
        }
    }
}

} // verus!
