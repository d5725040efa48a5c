//! A map keyed by byte strings, as the handler keeps its peers and the
//! unsigned pallet its test map: one entry per key, listed in the order in
//! which keys first arrived.

use vstd::prelude::*;
use crate::bytes::bytes_equal;

verus! {

/// A map from byte-string keys to values.
pub struct ByteKeyMap<V> {
    entries: Vec<(Vec<u8>, V)>,
    model: Ghost<Map<Seq<u8>, V>>,
}

/// The keys of a listing of entries.
pub open spec fn listing_keys<V>(s: Seq<(Vec<u8>, V)>) -> Seq<Seq<u8>> {
    s.map_values(|e: (Vec<u8>, V)| e.0@)
}

impl<V> View for ByteKeyMap<V> {
    type V = Map<Seq<u8>, V>;

    closed spec fn view(&self) -> Map<Seq<u8>, V> {
        self.model@
    }
}

impl<V> ByteKeyMap<V> {
    /// The entries in storage order.
    pub closed spec fn listing(&self) -> Seq<(Vec<u8>, V)> {
        self.entries@
    }

    /// Well-formedness: the listing holds each key once, and holds exactly
    /// the entries of the map.
    pub closed spec fn wf(&self) -> bool {
        &&& listing_keys(self.entries@).no_duplicates()
        &&& self.model@.dom() == listing_keys(self.entries@).to_set()
        &&& forall|i: int|
            0 <= i < self.entries@.len() ==> #[trigger] self.model@[self.entries@[i].0@]
                == self.entries@[i].1
    }

    /// What the listing says of the map: each listed key maps to its listed
    /// value, the keys are distinct, and every key of the map is listed.
    pub proof fn lemma_listing(&self)
        requires
            self.wf(),
        ensures
            listing_keys(self.listing()).no_duplicates(),
            self.listing().len() == self@.dom().len(),
            forall|i: int|
                0 <= i < self.listing().len() ==> self@.contains_key(
                    #[trigger] self.listing()[i].0@,
                ) && self@[self.listing()[i].0@] == self.listing()[i].1,
            forall|k: Seq<u8>|
                #[trigger] self@.contains_key(k) ==> exists|i: int|
                    0 <= i < self.listing().len() && self.listing()[i].0@ == k,
    {
        let ks = listing_keys(self.entries@);
        ks.unique_seq_to_set();
        assert forall|i: int| 0 <= i < self.listing().len() implies self@.contains_key(
            #[trigger] self.listing()[i].0@,
        ) by {
            assert(ks[i] == self.entries@[i].0@);
            assert(ks.contains(ks[i]));
        }
        assert forall|k: Seq<u8>| #[trigger] self@.contains_key(k) implies exists|i: int|
            0 <= i < self.listing().len() && self.listing()[i].0@ == k by {
            assert(ks.to_set().contains(k));
            let i = choose|i: int| 0 <= i < ks.len() && ks[i] == k;
            assert(self.listing()[i].0@ == k);
        }
    }

    /// An empty map.
    pub fn new() -> (m: Self)
        ensures
            m.wf(),
            m@ == Map::<Seq<u8>, V>::empty(),
    {
        let m = ByteKeyMap { entries: Vec::new(), model: Ghost(Map::empty()) };
        assert(listing_keys(m.entries@) =~= Seq::<Seq<u8>>::empty());
        assert(m.model@.dom() =~= listing_keys(m.entries@).to_set());
        m
    }

    /// The number of entries.
    pub fn len(&self) -> (n: usize)
        requires
            self.wf(),
        ensures
            n == self@.dom().len(),
    {
        proof {
            self.lemma_listing();
        }
        self.entries.len()
    }

    /// The entries in storage order.
    pub fn entries(&self) -> (e: &Vec<(Vec<u8>, V)>)
        ensures
            e@ == self.listing(),
    {
        &self.entries
    }

    /// The index of `key` in the listing, if it is there.
    fn position(&self, key: &[u8]) -> (r: Option<usize>)
        requires
            self.wf(),
        ensures
            match r {
                Some(i) => i < self.entries@.len() && self.entries@[i as int].0@ == key@,
                None => !self@.contains_key(key@),
            },
    {
        let mut i: usize = 0;
        while i < self.entries.len()
            invariant
                self.wf(),
                i <= self.entries@.len(),
                forall|j: int| 0 <= j < i ==> self.entries@[j].0@ != key@,
            decreases self.entries@.len() - i,
        {
            if bytes_equal(self.entries[i].0.as_slice(), key) {
                return Some(i);
            }
            i = i + 1;
        }
        proof {
            let ks = listing_keys(self.entries@);
            if self@.contains_key(key@) {
                assert(ks.to_set().contains(key@));
                let j = choose|j: int| 0 <= j < ks.len() && ks[j] == key@;
                assert(self.entries@[j].0@ == key@);
            }
        }
        None
    }

    /// The value stored under `key`, if any.
    pub fn get(&self, key: &[u8]) -> (r: Option<&V>)
        requires
            self.wf(),
        ensures
            match r {
                Some(v) => self@.contains_key(key@) && *v == self@[key@],
                None => !self@.contains_key(key@),
            },
    {
        match self.position(key) {
            Some(i) => {
                proof {
                    assert(self.model@[self.entries@[i as int].0@] == self.entries@[i as int].1);
                    let ks = listing_keys(self.entries@);
                    assert(ks[i as int] == key@);
                    assert(ks.contains(key@));
                }
                Some(&self.entries[i].1)
            },
            None => None,
        }
    }

    /// Stores `value` under `key`, replacing what was stored there.
    pub fn insert(&mut self, key: Vec<u8>, value: V)
        requires
            old(self).wf(),
        ensures
            final(self).wf(),
            final(self)@ == old(self)@.insert(key@, value),
    {
        let ghost k = key@;
        let ghost new_model = self.model@.insert(k, value);
        match self.position(key.as_slice()) {
            Some(i) => {
                let ghost old_entries = self.entries@;
                self.entries.set(i, (key, value));
                self.model = Ghost(new_model);
                proof {
                    let ks_old = listing_keys(old_entries);
                    let ks = listing_keys(self.entries@);
                    assert(ks =~= ks_old.update(i as int, k));
                    assert(ks_old[i as int] == k);
                    assert(ks =~= ks_old);
                    assert(ks_old.contains(k));
                    assert(self.model@.dom() =~= ks.to_set());
                    assert forall|j: int| 0 <= j < self.entries@.len() implies #[trigger] self.model@[
                        self.entries@[j].0@] == self.entries@[j].1 by {
                        if j != i {
                            assert(ks_old[j] != ks_old[i as int]);
                            assert(old_entries[j] == self.entries@[j]);
                        }
                    }
                }
            },
            None => {
                let ghost old_entries = self.entries@;
                self.entries.push((key, value));
                self.model = Ghost(new_model);
                proof {
                    let ks_old = listing_keys(old_entries);
                    let ks = listing_keys(self.entries@);
                    assert(ks =~= ks_old.push(k));
                    assert(!ks_old.contains(k)) by {
                        if ks_old.contains(k) {
                            assert(ks_old.to_set().contains(k));
                        }
                    }
                    assert(self.model@.dom() =~= ks.to_set()) by {
                        assert forall|x: Seq<u8>| ks.to_set().contains(x) <==> self.model@.dom().contains(x) by {
                            if ks.contains(x) {
                                let j = choose|j: int| 0 <= j < ks.len() && ks[j] == x;
                                if j < ks_old.len() {
                                    assert(ks_old[j] == x);
                                    assert(ks_old.contains(x));
                                }
                            }
                            if self.model@.dom().contains(x) && x != k {
                                assert(ks_old.to_set().contains(x));
                                let j = choose|j: int| 0 <= j < ks_old.len() && ks_old[j] == x;
                                assert(ks[j] == x);
                            }
                            if x == k {
                                assert(ks[ks.len() - 1] == k);
                            }
                        }
                    }
                    assert forall|j: int| 0 <= j < self.entries@.len() implies #[trigger] self.model@[
                        self.entries@[j].0@] == self.entries@[j].1 by {
                        if j < old_entries.len() {
                            assert(old_entries[j] == self.entries@[j]);
                            assert(ks_old[j] != k) by {
                                assert(ks_old.contains(ks_old[j]));
                            }
                        }
                    }
                }
            },
        }
    }


    /// Removes the entry of `key`, if any; the value it held.
    pub fn remove(&mut self, key: &[u8]) -> (r: Option<V>)
        requires
            old(self).wf(),
        ensures
            final(self).wf(),
            final(self)@ == old(self)@.remove(key@),
            match r {
                Some(v) => old(self)@.contains_key(key@) && v == old(self)@[key@],
                None => !old(self)@.contains_key(key@),
            },
    {
        let ghost k = key@;
        match self.position(key) {
            None => {
                proof {
                    assert(self.model@.remove(k) =~= self.model@);
                }
                None
            },
            Some(i) => {
                let ghost old_entries = self.entries@;
                let ghost old_model = self.model@;
                let e = self.entries.remove(i);
                self.model = Ghost(old_model.remove(k));
                proof {
                    let ks_old = listing_keys(old_entries);
                    let ks = listing_keys(self.entries@);
                    assert(ks =~= ks_old.remove(i as int));
                    assert(ks_old[i as int] == k);
                    assert(ks_old.contains(k));
                    assert(old_model[k] == e.1);
                    assert forall|a: int, b: int| 0 <= a < b < ks.len() implies ks[a] != ks[b] by {
                        let a0 = if a < i { a } else { a + 1 };
                        let b0 = if b < i { b } else { b + 1 };
                        assert(ks[a] == ks_old[a0] && ks[b] == ks_old[b0]);
                    }
                    assert(ks.no_duplicates());
                    assert(self.model@.dom() =~= ks.to_set()) by {
                        assert forall|x: Seq<u8>| ks.to_set().contains(x) <==> self.model@.dom().contains(x) by {
                            if ks.contains(x) {
                                let j = choose|j: int| 0 <= j < ks.len() && ks[j] == x;
                                let j0 = if j < i { j } else { j + 1 };
                                assert(ks_old[j0] == x);
                                assert(ks_old.contains(x));
                                assert(j0 != i);
                            }
                            if self.model@.dom().contains(x) {
                                assert(ks_old.to_set().contains(x));
                                let j = choose|j: int| 0 <= j < ks_old.len() && ks_old[j] == x;
                                assert(j != i);
                                if j < i {
                                    assert(ks[j] == x);
                                } else {
                                    assert(ks[j - 1] == x);
                                }
                            }
                        }
                    }
                    assert forall|j: int| 0 <= j < self.entries@.len() implies #[trigger] self.model@[
                        self.entries@[j].0@] == self.entries@[j].1 by {
                        let j0 = if j < i { j } else { j + 1 };
                        assert(self.entries@[j] == old_entries[j0]);
                        assert(ks_old[j0] != k);
                    }
                }
                Some(e.1)
            },
        }
    }

    /// Removes every entry.
    pub fn clear(&mut self)
        ensures
            final(self).wf(),
            final(self)@ == Map::<Seq<u8>, V>::empty(),
    {
        self.entries.clear();
        self.model = Ghost(Map::empty());
        assert(listing_keys(self.entries@) =~= Seq::<Seq<u8>>::empty());
        assert(self.model@.dom() =~= listing_keys(self.entries@).to_set());
    }
}

} // verus!
