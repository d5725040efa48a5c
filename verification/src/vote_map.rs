//! The votes a producer-select handler has accepted in the current round:
//! one voter per vote number, kept in an ordered map and listed in
//! increasing vote number.

use vstd::prelude::*;
use std::collections::BTreeMap;
use crate::tally::copy_bytes;
use vstd::std_specs::btree::{increasing_seq, spec_btree_map_iter};
use vstd::laws_cmp::obeys_cmp;
use vstd::std_specs::cmp::OrdSpec;
use vstd::std_specs::iter::IteratorSpec;

verus! {

/// Votes by vote number.
pub struct VoteMap {
    votes: BTreeMap<u64, Vec<u8>>,
}

/// The view of a listing of votes.
pub open spec fn vote_listing_view(s: Seq<(u64, Vec<u8>)>) -> Seq<(u64, Seq<u8>)> {
    s.map_values(|e: (u64, Vec<u8>)| (e.0, e.1@))
}

/// Whether `s` lists the votes of `m` in strictly increasing vote number.
pub open spec fn lists_votes(s: Seq<(u64, Seq<u8>)>, m: Map<u64, Seq<u8>>) -> bool {
    &&& forall|i: int, j: int| 0 <= i < j < s.len() ==> s[i].0 < s[j].0
    &&& forall|i: int| 0 <= i < s.len() ==> m.contains_key(#[trigger] s[i].0) && m[s[i].0] == s[i].1
    &&& forall|k: u64| #[trigger] m.contains_key(k) ==> exists|i: int| 0 <= i < s.len() && s[i].0 == k
}

/// Vote numbers obey the order that the ordered map keeps its keys in.
proof fn lemma_u64_keys_obey_order()
    ensures
        vstd::std_specs::btree::key_obeys_cmp_spec::<u64>(),
{
    assert(obeys_cmp::<u64>());
}

/// Vote numbers that the ordered map lists in increasing order are
/// strictly increasing.
proof fn lemma_increasing_vote_numbers(ks: Seq<u64>)
    requires
        increasing_seq(ks),
    ensures
        forall|i: int, j: int| 0 <= i < j < ks.len() ==> ks[i] < ks[j],
{
    assert(obeys_cmp::<u64>());
    assert forall|i: int, j: int| 0 <= i < j < ks.len() implies ks[i] < ks[j] by {
        assert(ks[i].cmp_spec(&ks[j]) is Less);
    }
}

/// Every finite map of votes can be listed in increasing vote number.
proof fn lemma_votes_listable(m: Map<u64, Seq<u8>>)
    requires
        m.dom().finite(),
    ensures
        exists|s: Seq<(u64, Seq<u8>)>| lists_votes(s, m),
    decreases m.dom().len(),
{
    if m.dom().len() == 0 {
        m.dom().lemma_len0_is_empty();
        assert(lists_votes(Seq::<(u64, Seq<u8>)>::empty(), m));
    } else {
        let r = |a: u64, b: u64| a <= b;
        assert(vstd::relations::total_ordering(r));
        m.dom().find_unique_maximal_ensures(r);
        let top = m.dom().find_unique_maximal(r);
        let rest = m.remove(top);
        lemma_votes_listable(rest);
        let s0 = choose|s: Seq<(u64, Seq<u8>)>| lists_votes(s, rest);
        let s = s0.push((top, m[top]));
        assert forall|i: int, j: int| 0 <= i < j < s.len() implies s[i].0 < s[j].0 by {
            if j == s.len() - 1 {
                let x = s0[i].0;
                assert(rest.contains_key(x));
                assert(m.dom().contains(x) && x != top);
                assert(vstd::relations::is_maximal(r, top, m.dom()));
                if r(top, x) {
                    assert(r(x, top));
                }
            } else {
                assert(s[i] == s0[i] && s[j] == s0[j]);
            }
        }
        assert forall|i: int| 0 <= i < s.len() implies m.contains_key(#[trigger] s[i].0) && m[s[i].0] == s[i].1 by {
            if i < s.len() - 1 {
                assert(s[i] == s0[i]);
                assert(rest.contains_key(s0[i].0));
            }
        }
        assert forall|k: u64| #[trigger] m.contains_key(k) implies exists|i: int| 0 <= i < s.len() && s[i].0 == k by {
            if k == top {
                assert(s[s.len() - 1].0 == k);
            } else {
                assert(rest.contains_key(k));
                let i = choose|i: int| 0 <= i < s0.len() && s0[i].0 == k;
                assert(s[i].0 == k);
            }
        }
        assert(lists_votes(s, m));
    }
}

proof fn lemma_votes_agree(s1: Seq<(u64, Seq<u8>)>, s2: Seq<(u64, Seq<u8>)>, m: Map<u64, Seq<u8>>, i: int)
    requires
        lists_votes(s1, m),
        lists_votes(s2, m),
        0 <= i < s1.len(),
        0 <= i < s2.len(),
    ensures
        s1[i] == s2[i],
    decreases i,
{
    assert forall|j: int| 0 <= j < i implies s1[j] == s2[j] by {
        lemma_votes_agree(s1, s2, m, j);
    }
    let a = s1[i].0;
    let b = s2[i].0;
    assert(m.contains_key(a));
    assert(m.contains_key(b));
    if a < b {
        let j = choose|j: int| 0 <= j < s2.len() && s2[j].0 == a;
        if j < i {
            assert(s1[j] == s2[j]);
        }
    } else if b < a {
        let j = choose|j: int| 0 <= j < s1.len() && s1[j].0 == b;
        if j < i {
            assert(s1[j] == s2[j]);
        }
    }
}

/// A map of votes has one listing in increasing vote number.
proof fn lemma_votes_listing_unique(s1: Seq<(u64, Seq<u8>)>, s2: Seq<(u64, Seq<u8>)>, m: Map<u64, Seq<u8>>)
    requires
        lists_votes(s1, m),
        lists_votes(s2, m),
    ensures
        s1 == s2,
{
    if s1.len() != s2.len() {
        let (a, b) = if s1.len() < s2.len() { (s1, s2) } else { (s2, s1) };
        let n = a.len() as int;
        assert forall|j: int| 0 <= j < n implies a[j] == b[j] by {
            lemma_votes_agree(a, b, m, j);
        }
        assert(m.contains_key(b[n].0));
        let j = choose|j: int| 0 <= j < a.len() && a[j].0 == b[n].0;
        assert(a[j] == b[j]);
        assert(b[j].0 < b[n].0);
    }
    assert forall|i: int| 0 <= i < s1.len() implies s1[i] == s2[i] by {
        lemma_votes_agree(s1, s2, m, i);
    }
    assert(s1 =~= s2);
}

impl View for VoteMap {
    type V = Map<u64, Seq<u8>>;

    closed spec fn view(&self) -> Map<u64, Seq<u8>> {
        self.votes@.map_values(|v: Vec<u8>| v@)
    }
}

impl VoteMap {
    /// The votes in increasing vote number.
    pub closed spec fn listing(&self) -> Seq<(u64, Seq<u8>)> {
        choose|s: Seq<(u64, Seq<u8>)>| lists_votes(s, self@)
    }

    pub closed spec fn wf(&self) -> bool {
        self.votes@.dom().finite()
    }

    /// The listing is in strictly increasing vote number and lists exactly
    /// the map.
    pub proof fn lemma_listing(&self)
        requires
            self.wf(),
        ensures
            lists_votes(self.listing(), self@),
            forall|i: int, j: int|
                0 <= i < j < self.listing().len() ==> self.listing()[i].0 < self.listing()[j].0,
            forall|i: int|
                0 <= i < self.listing().len() ==> self@.contains_key(#[trigger] self.listing()[i].0)
                    && self@[self.listing()[i].0] == self.listing()[i].1,
            forall|k: u64|
                #[trigger] self@.contains_key(k) ==> exists|i: int|
                    0 <= i < self.listing().len() && self.listing()[i].0 == k,
    {
        assert(self@.dom() =~= self.votes@.dom());
        lemma_votes_listable(self@);
    }

    /// No votes.
    pub fn new() -> (m: Self)
        ensures
            m.wf(),
            m@ == Map::<u64, Seq<u8>>::empty(),
            m.listing() == Seq::<(u64, Seq<u8>)>::empty(),
    {
        let m = VoteMap { votes: BTreeMap::new() };
        proof {
            assert(m@ =~= Map::<u64, Seq<u8>>::empty());
            assert(lists_votes(Seq::<(u64, Seq<u8>)>::empty(), m@));
            lemma_votes_listing_unique(m.listing(), Seq::<(u64, Seq<u8>)>::empty(), m@);
        }
        m
    }

    /// The votes in increasing vote number.
    pub fn entries(&self) -> (e: Vec<(u64, Vec<u8>)>)
        requires
            self.wf(),
        ensures
            vote_listing_view(e@) == self.listing(),
    {
        let ghost s = spec_btree_map_iter(&self.votes).remaining();
        let mut e: Vec<(u64, Vec<u8>)> = Vec::new();
        proof {
            lemma_u64_keys_obey_order();
        }
        for kv in it: self.votes.iter()
            invariant
                it.seq() == s,
                e@.len() == it.index(),
                forall|i: int|
                    0 <= i < it.index() ==> (#[trigger] e@[i]).0 == *s[i].0 && e@[i].1@ == (*s[i].1)@,
        {
            let (k, v) = kv;
            e.push((*k, copy_bytes(v)));
        }
        proof {
            self.lemma_listing();
            let l = vote_listing_view(e@);
            assert(e@.len() == s.len());
            let ks = s.map_values(|kv: (&u64, &Vec<u8>)| *kv.0);
            lemma_increasing_vote_numbers(ks);
            assert(lists_votes(l, self@)) by {
                assert forall|i: int, j: int| 0 <= i < j < l.len() implies l[i].0 < l[j].0 by {
                    assert(ks[i] < ks[j]);
                }
                assert forall|i: int| 0 <= i < l.len() implies self@.contains_key(#[trigger] l[i].0)
                    && self@[l[i].0] == l[i].1 by {
                    assert(self.votes@.contains_key(*s[i].0));
                }
                assert forall|k: u64| #[trigger] self@.contains_key(k) implies exists|i: int|
                    0 <= i < l.len() && l[i].0 == k by {
                    assert(self.votes@.contains_key(k));
                    assert(s.contains((&k, &self.votes@[k])));
                    let i = choose|i: int| 0 <= i < s.len() && s[i] == (&k, &self.votes@[k]);
                    assert(l[i].0 == k);
                }
            }
            lemma_votes_listing_unique(l, self.listing(), self@);
        }
        e
    }

    /// Removes every vote.
    pub fn clear(&mut self)
        ensures
            final(self).wf(),
            final(self)@ == Map::<u64, Seq<u8>>::empty(),
            final(self).listing() == Seq::<(u64, Seq<u8>)>::empty(),
    {
        self.votes.clear();
        proof {
            assert(self@ =~= Map::<u64, Seq<u8>>::empty());
            assert(lists_votes(Seq::<(u64, Seq<u8>)>::empty(), self@));
            lemma_votes_listing_unique(self.listing(), Seq::<(u64, Seq<u8>)>::empty(), self@);
        }
    }

    /// Records `voter` for `vote_num`, replacing the voter recorded for it.
    pub fn insert(&mut self, vote_num: u64, voter: Vec<u8>)
        requires
            old(self).wf(),
        ensures
            final(self).wf(),
            final(self)@ == old(self)@.insert(vote_num, voter@),
    {
        let ghost v = voter@;
        self.votes.insert(vote_num, voter);
        proof {
            assert(self@ =~= old(self)@.insert(vote_num, v));
        }
    }
}

} // verus!
