//! A runtime storage map under a concatenating key hasher, as the pallets
//! keep their commitments and reveals: one entry per key, listed in the
//! order of the stored keys, where a key is stored as a digest of it
//! (xxHash64 for `Twox64Concat`, BLAKE2b-128 for `Blake2_128Concat`)
//! followed by the key itself. Iterating such a map gives its entries in
//! that order.

use vstd::prelude::*;
use crate::bytes::{
    bytes_equal, bytes_less, lemma_lex_asymmetric, lemma_lex_irreflexive, lemma_lex_total,
    lemma_lex_transitive, lex_lt,
};
use crate::byte_map::listing_keys;
use crate::hashing::{blake2_128, blake2_128_digest, twox_64, twox_64_digest};

verus! {

/// The hasher that puts a digest of each key in front of it.
#[allow(non_camel_case_types)]
#[derive(PartialEq, Eq, Structural, Debug, Clone, Copy)]
pub enum KeyHasher {
    /// The 8-byte xxHash64 of the key.
    Twox64Concat,
    /// The 16-byte BLAKE2b-128 of the key.
    Blake2_128Concat,
}

/// The digest that `hasher` puts in front of `key`.
pub open spec fn key_digest(hasher: KeyHasher, key: Seq<u8>) -> Seq<u8> {
    match hasher {
        KeyHasher::Twox64Concat => twox_64_digest(key),
        KeyHasher::Blake2_128Concat => blake2_128_digest(key),
    }
}

/// The length of that digest.
pub open spec fn digest_len(hasher: KeyHasher) -> nat {
    match hasher {
        KeyHasher::Twox64Concat => 8,
        KeyHasher::Blake2_128Concat => 16,
    }
}

/// The key under which storage keeps the entry of `key`: its digest
/// followed by the key.
pub open spec fn storage_key(hasher: KeyHasher, key: Seq<u8>) -> Seq<u8> {
    key_digest(hasher, key) + key
}

/// Whether `s` lists entries in strictly increasing stored-key order.
pub open spec fn in_storage_order<V>(hasher: KeyHasher, s: Seq<(Vec<u8>, V)>) -> bool {
    forall|i: int, j: int|
        0 <= i < j < s.len() ==> lex_lt(storage_key(hasher, s[i].0@), storage_key(hasher, s[j].0@))
}

/// The stored key of `key`.
fn storage_key_exec(hasher: KeyHasher, key: &[u8]) -> (r: Vec<u8>)
    ensures
        r@ == storage_key(hasher, key@),
        r@.skip(digest_len(hasher) as int) == key@,
{
    let mut r = match hasher {
        KeyHasher::Twox64Concat => twox_64(key),
        KeyHasher::Blake2_128Concat => blake2_128(key),
    };
    let ghost h = r@;
    let mut i: usize = 0;
    while i < key.len()
        invariant
            i <= key@.len(),
            h.len() == digest_len(hasher),
            h == key_digest(hasher, key@),
            r@ == h + key@.take(i as int),
        decreases key@.len() - i,
    {
        r.push(key[i]);
        i = i + 1;
        assert(r@ =~= h + key@.take(i as int));
    }
    assert(key@.take(key@.len() as int) =~= key@);
    assert(r@.skip(digest_len(hasher) as int) =~= key@);
    r
}

/// A storage map from byte-string keys to values.
pub struct StorageMap<V> {
    hasher: KeyHasher,
    entries: Vec<(Vec<u8>, V)>,
    model: Ghost<Map<Seq<u8>, V>>,
}

impl<V> View for StorageMap<V> {
    type V = Map<Seq<u8>, V>;

    closed spec fn view(&self) -> Map<Seq<u8>, V> {
        self.model@
    }
}

impl<V> StorageMap<V> {
    /// The hasher of the stored keys.
    pub closed spec fn hasher(&self) -> KeyHasher {
        self.hasher
    }

    /// The entries in iteration order.
    pub closed spec fn listing(&self) -> Seq<(Vec<u8>, V)> {
        self.entries@
    }

    /// Well-formedness: the listing is in stored-key order and lists exactly
    /// the entries of the map.
    pub closed spec fn wf(&self) -> bool {
        &&& in_storage_order(self.hasher, self.entries@)
        &&& forall|i: int|
            0 <= i < self.entries@.len() ==> self.model@.contains_key(#[trigger] self.entries@[i].0@)
                && self.model@[self.entries@[i].0@] == self.entries@[i].1
        &&& forall|k: Seq<u8>|
            #[trigger] self.model@.contains_key(k) ==> exists|i: int|
                0 <= i < self.entries@.len() && self.entries@[i].0@ == k
    }

    /// What the listing says of the map: it is in stored-key order, each
    /// listed key maps to its listed value, the keys are distinct, and every
    /// key of the map is listed.
    pub proof fn lemma_listing(&self)
        requires
            self.wf(),
        ensures
            in_storage_order(self.hasher(), self.listing()),
            listing_keys(self.listing()).no_duplicates(),
            self.listing().len() == self@.dom().len(),
            forall|i: int|
                0 <= i < self.listing().len() ==> self@.contains_key(
                    #[trigger] self.listing()[i].0@,
                ) && self@[self.listing()[i].0@] == self.listing()[i].1,
            forall|k: Seq<u8>|
                #[trigger] self@.contains_key(k) ==> exists|i: int|
                    0 <= i < self.listing().len() && self.listing()[i].0@ == k,
    {
        let s = self.entries@;
        let ks = listing_keys(s);
        assert(ks.no_duplicates()) by {
            assert forall|i: int, j: int| 0 <= i < ks.len() && 0 <= j < ks.len() && i != j implies ks[i]
                != ks[j] by {
                if ks[i] == ks[j] {
                    if i < j {
                        assert(lex_lt(storage_key(self.hasher, s[i].0@), storage_key(self.hasher, s[j].0@)));
                    } else {
                        assert(lex_lt(storage_key(self.hasher, s[j].0@), storage_key(self.hasher, s[i].0@)));
                    }
                    lemma_lex_irreflexive(storage_key(self.hasher, s[i].0@));
                }
            }
        }
        assert(ks.to_set() =~= self.model@.dom()) by {
            assert forall|x: Seq<u8>| ks.to_set().contains(x) <==> self.model@.dom().contains(x) by {
                if ks.contains(x) {
                    let i = choose|i: int| 0 <= i < ks.len() && ks[i] == x;
                    assert(self.model@.contains_key(s[i].0@));
                }
                if self.model@.contains_key(x) {
                    let i = choose|i: int| 0 <= i < s.len() && s[i].0@ == x;
                    assert(ks[i] == x);
                }
            }
        }
        ks.unique_seq_to_set();
    }

    /// An empty map.
    pub fn new(hasher: KeyHasher) -> (m: Self)
        ensures
            m.wf(),
            m.hasher() == hasher,
            m@ == Map::<Seq<u8>, V>::empty(),
            m.listing() == Seq::<(Vec<u8>, V)>::empty(),
    {
        StorageMap { hasher, entries: Vec::new(), model: Ghost(Map::empty()) }
    }

    /// The number of entries.
    pub fn len(&self) -> (n: usize)
        requires
            self.wf(),
        ensures
            n == self@.dom().len(),
    {
        proof {
            self.lemma_listing();
        }
        self.entries.len()
    }

    /// The entries in iteration order.
    pub fn entries(&self) -> (e: &Vec<(Vec<u8>, V)>)
        ensures
            e@ == self.listing(),
    {
        &self.entries
    }

    /// The value stored under `key`, if any.
    pub fn get(&self, key: &[u8]) -> (r: Option<&V>)
        requires
            self.wf(),
        ensures
            match r {
                Some(v) => self@.contains_key(key@) && *v == self@[key@],
                None => !self@.contains_key(key@),
            },
    {
        let mut i: usize = 0;
        while i < self.entries.len()
            invariant
                self.wf(),
                i <= self.entries@.len(),
                forall|j: int| 0 <= j < i ==> self.entries@[j].0@ != key@,
            decreases self.entries@.len() - i,
        {
            if bytes_equal(self.entries[i].0.as_slice(), key) {
                return Some(&self.entries[i].1);
            }
            i = i + 1;
        }
        None
    }

    /// Stores `value` under `key`, replacing what was stored there.
    pub fn insert(&mut self, key: Vec<u8>, value: V)
        requires
            old(self).wf(),
        ensures
            final(self).wf(),
            final(self).hasher() == old(self).hasher(),
            final(self)@ == old(self)@.insert(key@, value),
    {
        let ghost k = key@;
        let ghost m = self.model@;
        let ghost m2 = m.insert(k, value);
        let hh = self.hasher;
        let sk = storage_key_exec(hh, key.as_slice());
        let mut p: usize = 0;
        let mut found = false;
        while p < self.entries.len()
            invariant_except_break
                !found,
            invariant
                self.wf(),
                self.model@ == m,
                k == key@,
                hh == self.hasher,
                sk@ == storage_key(hh, k),
                sk@.skip(digest_len(hh) as int) == k,
                p <= self.entries@.len(),
                forall|j: int| 0 <= j < p ==> lex_lt(storage_key(hh, #[trigger] self.entries@[j].0@), sk@),
            ensures
                p <= self.entries@.len(),
                forall|j: int| 0 <= j < p ==> lex_lt(storage_key(hh, #[trigger] self.entries@[j].0@), sk@),
                found ==> p < self.entries@.len() && self.entries@[p as int].0@ == k,
                !found && p < self.entries@.len() ==> lex_lt(sk@, storage_key(hh, self.entries@[p as int].0@)),
            decreases self.entries@.len() - p,
        {
            let skp = storage_key_exec(hh, self.entries[p].0.as_slice());
            if bytes_less(skp.as_slice(), sk.as_slice()) {
                p = p + 1;
            } else {
                if bytes_equal(self.entries[p].0.as_slice(), key.as_slice()) {
                    found = true;
                } else {
                    proof {
                        if skp@ == sk@ {
                            assert(skp@.skip(digest_len(hh) as int) == sk@.skip(digest_len(hh) as int));
                        }
                        lemma_lex_total(skp@, sk@);
                    }
                }
                break;
            }
        }
        let ghost old_r = self.entries@;
        if found {
            self.entries.set(p, (key, value));
            self.model = Ghost(m2);
            proof {
                let r = self.entries@;
                assert forall|i: int, j: int| 0 <= i < j < r.len() implies lex_lt(
                    storage_key(hh, r[i].0@),
                    storage_key(hh, r[j].0@),
                ) by {
                    assert(old_r[p as int].0@ == k);
                    assert(r[p as int].0@ == k);
                    if i != p {
                        assert(r[i] == old_r[i]);
                    }
                    if j != p {
                        assert(r[j] == old_r[j]);
                    }
                    assert(lex_lt(storage_key(hh, old_r[i].0@), storage_key(hh, old_r[j].0@)));
                }
                assert forall|i: int| 0 <= i < r.len() implies m2.contains_key(#[trigger] r[i].0@)
                    && m2[r[i].0@] == r[i].1 by {
                    if i != p {
                        assert(old_r[i] == r[i]);
                        lemma_lex_irreflexive(storage_key(hh, k));
                        if i < p {
                            assert(lex_lt(storage_key(hh, old_r[i].0@), storage_key(hh, old_r[p as int].0@)));
                        } else {
                            assert(lex_lt(storage_key(hh, old_r[p as int].0@), storage_key(hh, old_r[i].0@)));
                        }
                    }
                }
                assert forall|key2: Seq<u8>| #[trigger] m2.contains_key(key2) implies exists|i: int|
                    0 <= i < r.len() && r[i].0@ == key2 by {
                    if key2 == k {
                        assert(r[p as int].0@ == key2);
                    } else {
                        assert(m.contains_key(key2));
                        let i = choose|i: int| 0 <= i < old_r.len() && old_r[i].0@ == key2;
                        assert(r[i].0@ == key2);
                    }
                }
            }
        } else {
            self.entries.insert(p, (key, value));
            self.model = Ghost(m2);
            proof {
                let r = self.entries@;
                let kk = storage_key(hh, k);
                assert(r =~= old_r.insert(p as int, r[p as int]));
                assert(r[p as int].0@ == k);
                assert forall|i: int, j: int| 0 <= i < j < r.len() implies lex_lt(
                    storage_key(hh, r[i].0@),
                    storage_key(hh, r[j].0@),
                ) by {
                    if j < p {
                        assert(r[i] == old_r[i] && r[j] == old_r[j]);
                    } else if j == p {
                        assert(r[i] == old_r[i]);
                    } else if i == p {
                        assert(r[j] == old_r[j - 1]);
                        if j - 1 > p {
                            assert(lex_lt(storage_key(hh, old_r[p as int].0@), storage_key(hh, old_r[j - 1].0@)));
                            lemma_lex_transitive(kk, storage_key(hh, old_r[p as int].0@), storage_key(hh, old_r[j - 1].0@));
                        }
                    } else if i < p {
                        assert(r[i] == old_r[i] && r[j] == old_r[j - 1]);
                        assert(lex_lt(storage_key(hh, old_r[i].0@), kk));
                        lemma_lex_transitive(storage_key(hh, old_r[i].0@), kk, storage_key(hh, old_r[p as int].0@));
                        if j - 1 > p {
                            assert(lex_lt(storage_key(hh, old_r[p as int].0@), storage_key(hh, old_r[j - 1].0@)));
                            lemma_lex_transitive(
                                storage_key(hh, old_r[i].0@),
                                storage_key(hh, old_r[p as int].0@),
                                storage_key(hh, old_r[j - 1].0@),
                            );
                        }
                    } else {
                        assert(r[i] == old_r[i - 1] && r[j] == old_r[j - 1]);
                        assert(lex_lt(storage_key(hh, old_r[i - 1].0@), storage_key(hh, old_r[j - 1].0@)));
                    }
                }
                assert(!m.contains_key(k)) by {
                    if m.contains_key(k) {
                        let i = choose|i: int| 0 <= i < old_r.len() && old_r[i].0@ == k;
                        if i < p {
                            lemma_lex_irreflexive(kk);
                        } else if i == p {
                            lemma_lex_irreflexive(kk);
                        } else {
                            assert(lex_lt(storage_key(hh, old_r[p as int].0@), storage_key(hh, old_r[i].0@)));
                            lemma_lex_asymmetric(kk, storage_key(hh, old_r[p as int].0@));
                        }
                    }
                }
                assert forall|i: int| 0 <= i < r.len() implies m2.contains_key(#[trigger] r[i].0@)
                    && m2[r[i].0@] == r[i].1 by {
                    if i < p {
                        assert(r[i] == old_r[i]);
                    } else if i > p {
                        assert(r[i] == old_r[i - 1]);
                    }
                }
                assert forall|key2: Seq<u8>| #[trigger] m2.contains_key(key2) implies exists|i: int|
                    0 <= i < r.len() && r[i].0@ == key2 by {
                    if key2 == k {
                        assert(r[p as int].0@ == key2);
                    } else {
                        assert(m.contains_key(key2));
                        let i = choose|i: int| 0 <= i < old_r.len() && old_r[i].0@ == key2;
                        if i < p {
                            assert(r[i].0@ == key2);
                        } else {
                            assert(r[i + 1].0@ == key2);
                        }
                    }
                }
            }
        }
    }

    /// Removes every entry.
    pub fn clear(&mut self)
        ensures
            final(self).wf(),
            final(self).hasher() == old(self).hasher(),
            final(self)@ == Map::<Seq<u8>, V>::empty(),
            final(self).listing() == Seq::<(Vec<u8>, V)>::empty(),
    {
        self.entries.clear();
        self.model = Ghost(Map::empty());
    }
}

} // verus!
