//! The vote tally that closes a commit-reveal round: every commitment is
//! checked against its revealed number, the accepted numbers are combined
//! into the round's random number, and the committers nearest to that number
//! (by xor distance of hashes) form the next committee.

use vstd::prelude::*;
use crate::bytes::{
    be_u64_bytes, bytes_equal, bytes_less, lemma_lex_asymmetric, lemma_lex_irreflexive,
    lemma_lex_total, lemma_lex_transitive, lex_lt, u64_to_be_bytes, xor_bytes, xor_bytes_exec,
};
use crate::storage_map::StorageMap;
use crate::hashing::{blake2_256, blake2_256_digest};

verus! {

/// How many members the next committee has at most.
pub const COMMITTEE_SIZE: usize = 3;

/// The number revealed for `account`; a storage map read with a default
/// gives 0 for an account that revealed nothing.
pub open spec fn revealed_value(reveals: Map<Seq<u8>, u64>, account: Seq<u8>) -> u64 {
    if reveals.contains_key(account) {
        reveals[account]
    } else {
        0
    }
}

/// The commitment to a number: the digest of its big-endian bytes.
pub open spec fn commitment_of(n: u64) -> Seq<u8> {
    blake2_256_digest(be_u64_bytes(n))
}

/// Whether a stored commitment `(account, hash)` is the commitment to the
/// number that `account` revealed.
pub open spec fn commit_matches(c: (Vec<u8>, Vec<u8>), reveals: Map<Seq<u8>, u64>) -> bool {
    commitment_of(revealed_value(reveals, c.0@)) == c.1@
}

/// Whether every commitment matches its reveal.
pub open spec fn all_commits_match(
    commits: Seq<(Vec<u8>, Vec<u8>)>,
    reveals: Map<Seq<u8>, u64>,
) -> bool {
    forall|i: int| 0 <= i < commits.len() ==> #[trigger] commit_matches(commits[i], reveals)
}

/// The revealed numbers, in the order of the commitments.
pub open spec fn revealed_numbers(
    commits: Seq<(Vec<u8>, Vec<u8>)>,
    reveals: Map<Seq<u8>, u64>,
) -> Seq<u64> {
    commits.map_values(|c: (Vec<u8>, Vec<u8>)| revealed_value(reveals, c.0@))
}

/// The xor of all numbers of `s` (0 for none).
pub open spec fn xor_all(s: Seq<u64>) -> u64
    decreases s.len(),
{
    if s.len() == 0 {
        0
    } else {
        xor_all(s.drop_last()) ^ s.last()
    }
}

/// The distance of an account from the round's random number: the xor of
/// the hash of the account's bytes with the commitment to the number.
pub open spec fn distance(account: Seq<u8>, random: u64) -> Seq<u8> {
    xor_bytes(blake2_256_digest(account), commitment_of(random))
}

/// The map that inserting `entries` one after another into an empty ordered
/// map gives: a later entry replaces an earlier one with the same key.
pub open spec fn entries_map(entries: Seq<(Seq<u8>, Seq<u8>)>) -> Map<Seq<u8>, Seq<u8>>
    decreases entries.len(),
{
    if entries.len() == 0 {
        Map::empty()
    } else {
        entries_map(entries.drop_last()).insert(entries.last().0, entries.last().1)
    }
}

/// The `(distance, account)` entries of a round, in commitment order.
pub open spec fn distance_entries(commits: Seq<(Vec<u8>, Vec<u8>)>, random: u64) -> Seq<(Seq<u8>, Seq<u8>)> {
    commits.map_values(|c: (Vec<u8>, Vec<u8>)| (distance(c.0@, random), c.0@))
}

/// `r` lists the `k` entries of `m` with the lowest keys (all of them if
/// `m` has fewer), in increasing key order.
pub open spec fn lowest_entries(
    r: Seq<(Seq<u8>, Seq<u8>)>,
    m: Map<Seq<u8>, Seq<u8>>,
    k: nat,
) -> bool {
    &&& r.len() == if m.dom().len() < k { m.dom().len() } else { k }
    &&& forall|i: int, j: int| 0 <= i < j < r.len() ==> lex_lt(r[i].0, r[j].0)
    &&& forall|i: int| 0 <= i < r.len() ==> m.contains_key(#[trigger] r[i].0) && m[r[i].0] == r[i].1
    &&& forall|key: Seq<u8>|
        #![trigger m.contains_key(key)]
        m.contains_key(key) && (forall|i: int| 0 <= i < r.len() ==> r[i].0 != key) ==> forall|i: int|
            0 <= i < r.len() ==> lex_lt(r[i].0, key)
}

/// `members` are the accounts of the `k` lowest entries of `m`, in order.
pub open spec fn nearest_members(members: Seq<Seq<u8>>, m: Map<Seq<u8>, Seq<u8>>, k: nat) -> bool {
    exists|r: Seq<(Seq<u8>, Seq<u8>)>|
        lowest_entries(r, m, k) && members == r.map_values(|e: (Seq<u8>, Seq<u8>)| e.1)
}

proof fn lemma_lowest_not_below(
    r1: Seq<(Seq<u8>, Seq<u8>)>,
    r2: Seq<(Seq<u8>, Seq<u8>)>,
    m: Map<Seq<u8>, Seq<u8>>,
    k: nat,
    i: int,
)
    requires
        lowest_entries(r1, m, k),
        lowest_entries(r2, m, k),
        0 <= i < r1.len(),
        forall|j: int| 0 <= j < i ==> r1[j] == r2[j],
    ensures
        !lex_lt(r1[i].0, r2[i].0),
{
    let a = r1[i].0;
    let b = r2[i].0;
    if lex_lt(a, b) {
        lemma_lex_irreflexive(a);
        assert(m.contains_key(a));
        if exists|j: int| 0 <= j < r2.len() && r2[j].0 == a {
            let j = choose|j: int| 0 <= j < r2.len() && r2[j].0 == a;
            if j < i {
                assert(r1[j] == r2[j]);
                assert(lex_lt(r1[j].0, r1[i].0));
            } else if j > i {
                assert(lex_lt(r2[i].0, r2[j].0));
                lemma_lex_asymmetric(a, b);
            }
        } else {
            assert(forall|j: int| 0 <= j < r2.len() ==> r2[j].0 != a);
            assert(lex_lt(r2[i].0, a));
            lemma_lex_asymmetric(a, b);
        }
    }
}

proof fn lemma_lowest_agree(
    r1: Seq<(Seq<u8>, Seq<u8>)>,
    r2: Seq<(Seq<u8>, Seq<u8>)>,
    m: Map<Seq<u8>, Seq<u8>>,
    k: nat,
    i: int,
)
    requires
        lowest_entries(r1, m, k),
        lowest_entries(r2, m, k),
        0 <= i < r1.len(),
    ensures
        r1[i] == r2[i],
    decreases i,
{
    assert forall|j: int| 0 <= j < i implies r1[j] == r2[j] by {
        lemma_lowest_agree(r1, r2, m, k, j);
    }
    lemma_lowest_not_below(r1, r2, m, k, i);
    lemma_lowest_not_below(r2, r1, m, k, i);
    if r1[i].0 != r2[i].0 {
        lemma_lex_total(r1[i].0, r2[i].0);
    }
    assert(m[r1[i].0] == r1[i].1);
    assert(m[r2[i].0] == r2[i].1);
}

/// The `k` lowest entries of a map are determined by the map: two lists
/// that both hold them are the same list.
pub proof fn lemma_lowest_entries_unique(
    r1: Seq<(Seq<u8>, Seq<u8>)>,
    r2: Seq<(Seq<u8>, Seq<u8>)>,
    m: Map<Seq<u8>, Seq<u8>>,
    k: nat,
)
    requires
        lowest_entries(r1, m, k),
        lowest_entries(r2, m, k),
    ensures
        r1 == r2,
{
    assert forall|i: int| 0 <= i < r1.len() implies r1[i] == r2[i] by {
        lemma_lowest_agree(r1, r2, m, k, i);
    }
    assert(r1 =~= r2);
}

/// The committee that `nearest_members` describes is unique: two lists of
/// members that are both the accounts of the `k` lowest entries of a map
/// are the same list.
pub proof fn lemma_nearest_members_unique(
    members1: Seq<Seq<u8>>,
    members2: Seq<Seq<u8>>,
    m: Map<Seq<u8>, Seq<u8>>,
    k: nat,
)
    requires
        nearest_members(members1, m, k),
        nearest_members(members2, m, k),
    ensures
        members1 == members2,
{
    let r1 = choose|r: Seq<(Seq<u8>, Seq<u8>)>|
        lowest_entries(r, m, k) && members1 == r.map_values(|e: (Seq<u8>, Seq<u8>)| e.1);
    let r2 = choose|r: Seq<(Seq<u8>, Seq<u8>)>|
        lowest_entries(r, m, k) && members2 == r.map_values(|e: (Seq<u8>, Seq<u8>)| e.1);
    lemma_lowest_entries_unique(r1, r2, m, k);
}

/// The tally reads the reveals only at committed accounts: two reveal maps
/// that give every committed account the same number give the same check
/// result and the same revealed numbers.
pub proof fn lemma_tally_reads_committed_reveals(
    commits: Seq<(Vec<u8>, Vec<u8>)>,
    reveals1: Map<Seq<u8>, u64>,
    reveals2: Map<Seq<u8>, u64>,
)
    requires
        forall|i: int|
            0 <= i < commits.len() ==> revealed_value(reveals1, #[trigger] commits[i].0@) == revealed_value(
                reveals2,
                commits[i].0@,
            ),
    ensures
        all_commits_match(commits, reveals1) == all_commits_match(commits, reveals2),
        revealed_numbers(commits, reveals1) == revealed_numbers(commits, reveals2),
{
    assert forall|i: int| 0 <= i < commits.len() implies commit_matches(commits[i], reveals1)
        == commit_matches(commits[i], reveals2) by {
        assert(revealed_value(reveals1, commits[i].0@) == revealed_value(reveals2, commits[i].0@));
    }
    assert(revealed_numbers(commits, reveals1) =~= revealed_numbers(commits, reveals2));
}

/// The outcome of a round whose commitments all matched.
pub struct VoteTally {
    /// The revealed numbers, in commitment order.
    pub random_numbers: Vec<u64>,
    /// The xor of the revealed numbers: the round's random number.
    pub random_number: u64,
    /// The next committee, nearest first.
    pub members: Vec<Vec<u8>>,
}

/// The view of a list of byte strings.
pub open spec fn bytes_seqs(v: Seq<Vec<u8>>) -> Seq<Seq<u8>> {
    v.map_values(|b: Vec<u8>| b@)
}

/// A copy of a byte string.
pub fn copy_bytes(b: &Vec<u8>) -> (r: Vec<u8>)
    ensures
        r@ == b@,
{
    let mut r: Vec<u8> = Vec::new();
    let mut i: usize = 0;
    while i < b.len()
        invariant
            i <= b@.len(),
            r@ == b@.take(i as int),
        decreases b@.len() - i,
    {
        r.push(b[i]);
        i = i + 1;
        assert(r@ =~= b@.take(i as int));
    }
    assert(b@.take(b@.len() as int) =~= b@);
    r
}

/// A copy of a list of byte strings.
pub fn copy_byte_lists(v: &Vec<Vec<u8>>) -> (r: Vec<Vec<u8>>)
    ensures
        bytes_seqs(r@) == bytes_seqs(v@),
{
    let mut r: Vec<Vec<u8>> = Vec::new();
    let mut i: usize = 0;
    while i < v.len()
        invariant
            i <= v@.len(),
            r@.len() == i,
            forall|t: int| 0 <= t < i ==> (#[trigger] r@[t])@ == v@[t]@,
        decreases v@.len() - i,
    {
        r.push(copy_bytes(&v[i]));
        i = i + 1;
    }
    assert(bytes_seqs(r@) =~= bytes_seqs(v@));
    r
}

/// The commitment to `n`: the digest of its big-endian bytes.
pub fn commitment(n: u64) -> (h: Vec<u8>)
    ensures
        h@ == commitment_of(n),
        h@.len() == 32,
{
    let b = u64_to_be_bytes(n);
    blake2_256(b.as_slice())
}

/// Checks every commitment against the number revealed for its account, in
/// commitment order. The revealed numbers when all match; `None` as soon as
/// one does not.
pub fn check_reveals(commits: &Vec<(Vec<u8>, Vec<u8>)>, reveals: &StorageMap<u64>) -> (r: Option<Vec<u64>>)
    requires
        reveals.wf(),
    ensures
        r is Some <==> all_commits_match(commits@, reveals@),
        r matches Some(v) ==> v@ == revealed_numbers(commits@, reveals@),
{
    let mut numbers: Vec<u64> = Vec::new();
    let mut i: usize = 0;
    while i < commits.len()
        invariant
            reveals.wf(),
            i <= commits@.len(),
            numbers@ == revealed_numbers(commits@.take(i as int), reveals@),
            forall|j: int| 0 <= j < i ==> #[trigger] commit_matches(commits@[j], reveals@),
        decreases commits@.len() - i,
    {
        let value: u64 = match reveals.get(commits[i].0.as_slice()) {
            Some(v) => *v,
            None => 0,
        };
        let h = commitment(value);
        if !bytes_equal(h.as_slice(), commits[i].1.as_slice()) {
            assert(!commit_matches(commits@[i as int], reveals@));
            return None;
        }
        numbers.push(value);
        i = i + 1;
        assert(numbers@ =~= revealed_numbers(commits@.take(i as int), reveals@));
    }
    assert(commits@.take(commits@.len() as int) =~= commits@);
    Some(numbers)
}

/// The xor of all numbers.
pub fn xor_numbers(v: &Vec<u64>) -> (r: u64)
    ensures
        r == xor_all(v@),
{
    let mut r: u64 = 0;
    let mut i: usize = 0;
    while i < v.len()
        invariant
            i <= v@.len(),
            r == xor_all(v@.take(i as int)),
        decreases v@.len() - i,
    {
        assert(v@.take(i + 1).drop_last() =~= v@.take(i as int));
        r = r ^ v[i];
        i = i + 1;
    }
    assert(v@.take(v@.len() as int) =~= v@);
    r
}

/// Invariant of the ranking built by `nearest_committee`: strictly
/// increasing keys, listing exactly the entries of `m`.
pub open spec fn ranking_of(s: Seq<(Vec<u8>, Vec<u8>)>, m: Map<Seq<u8>, Seq<u8>>) -> bool {
    &&& forall|i: int, j: int| 0 <= i < j < s.len() ==> lex_lt(s[i].0@, s[j].0@)
    &&& forall|i: int| 0 <= i < s.len() ==> m.contains_key(#[trigger] s[i].0@) && m[s[i].0@] == s[i].1@
    &&& forall|key: Seq<u8>| #[trigger] m.contains_key(key) ==> exists|i: int| 0 <= i < s.len() && s[i].0@ == key
}

proof fn lemma_entries_map_step(entries: Seq<(Seq<u8>, Seq<u8>)>, n: int)
    requires
        0 <= n < entries.len(),
    ensures
        entries_map(entries.take(n + 1)) == entries_map(entries.take(n)).insert(entries[n].0, entries[n].1),
{
    assert(entries.take(n + 1).drop_last() =~= entries.take(n));
}

/// Inserts `(key, account)` into the ranking, keeping it sorted by key; an
/// entry with the same key is replaced.
fn rank_insert(ranking: &mut Vec<(Vec<u8>, Vec<u8>)>, key: Vec<u8>, account: Vec<u8>, Ghost(m): Ghost<Map<Seq<u8>, Seq<u8>>>)
    requires
        ranking_of(old(ranking)@, m),
    ensures
        ranking_of(final(ranking)@, m.insert(key@, account@)),
{
    let ghost k = key@;
    let ghost a = account@;
    let ghost m2 = m.insert(k, a);
    let mut p: usize = 0;
    while p < ranking.len()
        invariant
            p <= ranking@.len(),
            k == key@,
            forall|j: int| 0 <= j < p ==> lex_lt(#[trigger] ranking@[j].0@, k),
        ensures
            p <= ranking@.len(),
            forall|j: int| 0 <= j < p ==> lex_lt(#[trigger] ranking@[j].0@, k),
            p < ranking@.len() ==> !lex_lt(ranking@[p as int].0@, k),
        decreases ranking@.len() - p,
    {
        if !bytes_less(ranking[p].0.as_slice(), key.as_slice()) {
            break;
        }
        p = p + 1;
    }
    let ghost old_r = ranking@;
    if p < ranking.len() && bytes_equal(ranking[p].0.as_slice(), key.as_slice()) {
        ranking.set(p, (key, account));
        proof {
            assert forall|i: int, j: int| 0 <= i < j < ranking@.len() implies lex_lt(ranking@[i].0@, ranking@[j].0@) by {
                assert(old_r[p as int].0@ == k);
            }
            assert forall|i: int| 0 <= i < ranking@.len() implies m2.contains_key(#[trigger] ranking@[i].0@) && m2[ranking@[i].0@] == ranking@[i].1@ by {
                if i != p {
                    assert(old_r[i] == ranking@[i]);
                    if i < p {
                        lemma_lex_irreflexive(k);
                        assert(lex_lt(old_r[i].0@, old_r[p as int].0@));
                    } else {
                        assert(lex_lt(old_r[p as int].0@, old_r[i].0@));
                        lemma_lex_irreflexive(k);
                    }
                }
            }
            assert forall|key2: Seq<u8>| #[trigger] m2.contains_key(key2) implies exists|i: int| 0 <= i < ranking@.len() && ranking@[i].0@ == key2 by {
                if key2 == k {
                    assert(ranking@[p as int].0@ == key2);
                } else {
                    assert(m.contains_key(key2));
                    let i = choose|i: int| 0 <= i < old_r.len() && old_r[i].0@ == key2;
                    assert(ranking@[i].0@ == key2);
                }
            }
        }
    } else {
        proof {
            if p < old_r.len() {
                assert(!lex_lt(old_r[p as int].0@, k));
                lemma_lex_total(old_r[p as int].0@, k);
            }
        }
        ranking.insert(p, (key, account));
        proof {
            let r = ranking@;
            assert(r =~= old_r.insert(p as int, r[p as int]));
            assert forall|i: int, j: int| 0 <= i < j < r.len() implies lex_lt(r[i].0@, r[j].0@) by {
                if j < p {
                    assert(r[i] == old_r[i] && r[j] == old_r[j]);
                } else if j == p {
                    assert(r[i] == old_r[i]);
                } else if i == p {
                    assert(r[j] == old_r[j - 1]);
                    if j - 1 > p {
                        assert(lex_lt(old_r[p as int].0@, old_r[j - 1].0@));
                        lemma_lex_transitive(k, old_r[p as int].0@, old_r[j - 1].0@);
                    }
                } else if i < p {
                    assert(r[i] == old_r[i] && r[j] == old_r[j - 1]);
                    assert(lex_lt(old_r[i].0@, k));
                    lemma_lex_transitive(old_r[i].0@, k, old_r[p as int].0@);
                    if j - 1 > p {
                        assert(lex_lt(old_r[p as int].0@, old_r[j - 1].0@));
                        lemma_lex_transitive(old_r[i].0@, old_r[p as int].0@, old_r[j - 1].0@);
                    }
                } else {
                    assert(r[i] == old_r[i - 1] && r[j] == old_r[j - 1]);
                }
            }
            assert(!m.contains_key(k)) by {
                if m.contains_key(k) {
                    let i = choose|i: int| 0 <= i < old_r.len() && old_r[i].0@ == k;
                    if i < p {
                        lemma_lex_irreflexive(k);
                    } else if i == p {
                    } else {
                        assert(lex_lt(old_r[p as int].0@, old_r[i].0@));
                        lemma_lex_asymmetric(k, old_r[p as int].0@);
                    }
                }
            }
            assert forall|i: int| 0 <= i < r.len() implies m2.contains_key(#[trigger] r[i].0@) && m2[r[i].0@] == r[i].1@ by {
                if i < p {
                    assert(r[i] == old_r[i]);
                } else if i > p {
                    assert(r[i] == old_r[i - 1]);
                }
            }
            assert forall|key2: Seq<u8>| #[trigger] m2.contains_key(key2) implies exists|i: int| 0 <= i < r.len() && r[i].0@ == key2 by {
                if key2 == k {
                    assert(r[p as int].0@ == key2);
                } else {
                    assert(m.contains_key(key2));
                    let i = choose|i: int| 0 <= i < old_r.len() && old_r[i].0@ == key2;
                    if i < p {
                        assert(r[i].0@ == key2);
                    } else {
                        assert(r[i + 1].0@ == key2);
                    }
                }
            }
        }
    }
}

/// The view of a ranking: `(distance, account)` byte strings.
pub open spec fn ranking_view(s: Seq<(Vec<u8>, Vec<u8>)>) -> Seq<(Seq<u8>, Seq<u8>)> {
    s.map_values(|e: (Vec<u8>, Vec<u8>)| (e.0@, e.1@))
}

proof fn lemma_ranking_lowest(s: Seq<(Vec<u8>, Vec<u8>)>, m: Map<Seq<u8>, Seq<u8>>, n: int)
    requires
        ranking_of(s, m),
        n == if s.len() < COMMITTEE_SIZE { s.len() as int } else { COMMITTEE_SIZE as int },
    ensures
        lowest_entries(ranking_view(s).take(n), m, COMMITTEE_SIZE as nat),
{
    let ks = s.map_values(|e: (Vec<u8>, Vec<u8>)| e.0@);
    assert(ks.no_duplicates()) by {
        assert forall|i: int, j: int| 0 <= i < ks.len() && 0 <= j < ks.len() && i != j implies ks[i] != ks[j] by {
            if i < j {
                assert(lex_lt(s[i].0@, s[j].0@));
                lemma_lex_irreflexive(s[i].0@);
            } else {
                assert(lex_lt(s[j].0@, s[i].0@));
                lemma_lex_irreflexive(s[j].0@);
            }
        }
    }
    assert(ks.to_set() =~= m.dom()) by {
        assert forall|x: Seq<u8>| ks.to_set().contains(x) <==> m.dom().contains(x) by {
            if ks.contains(x) {
                let i = choose|i: int| 0 <= i < ks.len() && ks[i] == x;
                assert(m.contains_key(s[i].0@));
            }
            if m.contains_key(x) {
                let i = choose|i: int| 0 <= i < s.len() && s[i].0@ == x;
                assert(ks[i] == x);
            }
        }
    }
    ks.unique_seq_to_set();
    let r = ranking_view(s).take(n);
    assert forall|i: int| 0 <= i < r.len() implies m.contains_key(#[trigger] r[i].0) && m[r[i].0] == r[i].1 by {
        assert(r[i] == (s[i].0@, s[i].1@));
    }
    assert forall|key: Seq<u8>|
        m.contains_key(key) && (forall|i: int| 0 <= i < r.len() ==> r[i].0 != key) implies forall|i: int|
            0 <= i < r.len() ==> lex_lt(r[i].0, key) by {
        let j = choose|j: int| 0 <= j < s.len() && s[j].0@ == key;
        if j < n {
            assert(r[j].0 == key);
        }
        assert forall|i: int| 0 <= i < r.len() implies lex_lt(r[i].0, key) by {
            assert(r[i].0 == s[i].0@);
        }
    }
}

/// The next committee: the accounts of the commitments nearest to `random`,
/// at most `COMMITTEE_SIZE` of them, nearest first. Entries with the same
/// distance keep the later commitment, as inserting them one after another
/// into an ordered map does.
pub fn nearest_committee(commits: &Vec<(Vec<u8>, Vec<u8>)>, random: u64) -> (members: Vec<Vec<u8>>)
    ensures
        nearest_members(
            bytes_seqs(members@),
            entries_map(distance_entries(commits@, random)),
            COMMITTEE_SIZE as nat,
        ),
{
    let ghost entries = distance_entries(commits@, random);
    let rh = commitment(random);
    let mut ranking: Vec<(Vec<u8>, Vec<u8>)> = Vec::new();
    let mut i: usize = 0;
    assert(entries.take(0) =~= Seq::<(Seq<u8>, Seq<u8>)>::empty());
    while i < commits.len()
        invariant
            i <= commits@.len(),
            entries == distance_entries(commits@, random),
            rh@ == commitment_of(random),
            rh@.len() == 32,
            ranking_of(ranking@, entries_map(entries.take(i as int))),
        decreases commits@.len() - i,
    {
        let h = blake2_256(commits[i].0.as_slice());
        let d = xor_bytes_exec(&h, &rh);
        let acc = copy_bytes(&commits[i].0);
        proof {
            lemma_entries_map_step(entries, i as int);
            assert(entries[i as int] == (d@, acc@));
        }
        rank_insert(&mut ranking, d, acc, Ghost(entries_map(entries.take(i as int))));
        i = i + 1;
    }
    assert(entries.take(commits@.len() as int) =~= entries);
    let n: usize = if ranking.len() < COMMITTEE_SIZE { ranking.len() } else { COMMITTEE_SIZE };
    proof {
        lemma_ranking_lowest(ranking@, entries_map(entries), n as int);
    }
    let mut members: Vec<Vec<u8>> = Vec::new();
    let mut j: usize = 0;
    while j < n
        invariant
            j <= n,
            n <= ranking@.len(),
            members@.len() == j,
            forall|t: int| 0 <= t < j ==> (#[trigger] members@[t])@ == ranking@[t].1@,
        decreases n - j,
    {
        members.push(copy_bytes(&ranking[j].1));
        j = j + 1;
    }
    proof {
        let r = ranking_view(ranking@).take(n as int);
        assert(bytes_seqs(members@) =~= r.map_values(|e: (Seq<u8>, Seq<u8>)| e.1));
    }
    members
}

/// Tallies a round: `None` when some commitment does not match its reveal;
/// otherwise the revealed numbers, their xor, and the committee nearest to
/// that xor.
pub fn tally_votes(commits: &Vec<(Vec<u8>, Vec<u8>)>, reveals: &StorageMap<u64>) -> (r: Option<VoteTally>)
    requires
        reveals.wf(),
    ensures
        r is Some <==> all_commits_match(commits@, reveals@),
        r matches Some(t) ==> {
            &&& t.random_numbers@ == revealed_numbers(commits@, reveals@)
            &&& t.random_number == xor_all(t.random_numbers@)
            &&& nearest_members(
                bytes_seqs(t.members@),
                entries_map(distance_entries(commits@, t.random_number)),
                COMMITTEE_SIZE as nat,
            )
        },
{
    match check_reveals(commits, reveals) {
        None => None,
        Some(numbers) => {
            let random_number = xor_numbers(&numbers);
            let members = nearest_committee(commits, random_number);
            Some(VoteTally { random_numbers: numbers, random_number, members })
        },
    }
}

proof fn lemma_xor_swap(a: u64, b: u64, c: u64)
    by (bit_vector)
    ensures
        (a ^ b) ^ c == (a ^ c) ^ b,
{
}

proof fn lemma_xor_all_remove(s: Seq<u64>, j: int)
    requires
        0 <= j < s.len(),
    ensures
        xor_all(s) == xor_all(s.remove(j)) ^ s[j],
    decreases s.len(),
{
    if j == s.len() - 1 {
        assert(s.remove(j) =~= s.drop_last());
    } else {
        let t = s.drop_last();
        lemma_xor_all_remove(t, j);
        assert(s.remove(j) =~= t.remove(j).push(s.last()));
        assert(s.remove(j).drop_last() =~= t.remove(j));
        lemma_xor_swap(xor_all(t.remove(j)), s[j], s.last());
    }
}

/// The round's random number does not depend on the order in which the
/// revealed numbers are combined: any rearrangement of them has the same
/// xor.
pub proof fn lemma_xor_all_permutation(s1: Seq<u64>, s2: Seq<u64>)
    requires
        s1.to_multiset() == s2.to_multiset(),
    ensures
        xor_all(s1) == xor_all(s2),
    decreases s1.len(),
{
    broadcast use vstd::seq_lib::to_multiset_len, vstd::seq_lib::to_multiset_contains,
        vstd::seq_lib::to_multiset_remove;
    if s1.len() == 0 {
        assert(s1.len() == s1.to_multiset().len());
        assert(s2.len() == s2.to_multiset().len());
        assert(s2.len() == 0);
        assert(s2 =~= s1);
    } else {
        let x = s1.last();
        let n = s1.len() - 1;
        assert(s1.contains(x)) by {
            assert(s1[n] == x);
        }
        assert(s1.to_multiset().count(x) > 0);
        assert(s2.to_multiset().count(x) > 0);
        assert(s2.contains(x));
        let j = choose|j: int| 0 <= j < s2.len() && s2[j] == x;
        assert(s1.remove(n) =~= s1.drop_last());
        assert(s1.remove(n).to_multiset() == s1.to_multiset().remove(x));
        assert(s2.remove(j).to_multiset() == s2.to_multiset().remove(x));
        lemma_xor_all_permutation(s1.drop_last(), s2.remove(j));
        lemma_xor_all_remove(s2, j);
    }
}

/// A commitment is accepted when its account revealed the number it was
/// made for.
pub proof fn lemma_reveal_of_committed_number(c: (Vec<u8>, Vec<u8>), reveals: Map<Seq<u8>, u64>, n: u64)
    requires
        c.1@ == commitment_of(n),
        revealed_value(reveals, c.0@) == n,
    ensures
        commit_matches(c, reveals),
{
}

proof fn lemma_revealed_numbers_permutation(
    c1: Seq<(Vec<u8>, Vec<u8>)>,
    c2: Seq<(Vec<u8>, Vec<u8>)>,
    reveals: Map<Seq<u8>, u64>,
)
    requires
        c1.to_multiset() == c2.to_multiset(),
    ensures
        revealed_numbers(c1, reveals).to_multiset() == revealed_numbers(c2, reveals).to_multiset(),
    decreases c1.len(),
{
    broadcast use vstd::seq_lib::to_multiset_len, vstd::seq_lib::to_multiset_contains,
        vstd::seq_lib::to_multiset_remove, vstd::seq_lib::to_multiset_build,
        vstd::seq_lib::to_multiset_insert;
    let r1 = revealed_numbers(c1, reveals);
    let r2 = revealed_numbers(c2, reveals);
    if c1.len() == 0 {
        assert(c1.len() == c1.to_multiset().len());
        assert(c2.len() == c2.to_multiset().len());
        assert(r1 =~= r2);
    } else {
        let x = c1.last();
        let n = c1.len() - 1;
        assert(c1.contains(x)) by {
            assert(c1[n] == x);
        }
        assert(c1.to_multiset().count(x) > 0);
        assert(c2.contains(x));
        let j = choose|j: int| 0 <= j < c2.len() && c2[j] == x;
        assert(c1.remove(n) =~= c1.drop_last());
        assert(c1.remove(n).to_multiset() == c1.to_multiset().remove(x));
        assert(c2.remove(j).to_multiset() == c2.to_multiset().remove(x));
        lemma_revealed_numbers_permutation(c1.drop_last(), c2.remove(j), reveals);
        let v = revealed_value(reveals, x.0@);
        assert(r1 =~= revealed_numbers(c1.drop_last(), reveals).push(v));
        assert(r2.remove(j) =~= revealed_numbers(c2.remove(j), reveals));
        assert(r2 =~= r2.remove(j).insert(j, v));
        assert(r2.remove(j).insert(j, v).to_multiset() == r2.remove(j).to_multiset().insert(v));
    }
}

/// The round's random number is the same however storage lists the
/// commitments: two listings of the same commitments give the same xor of
/// revealed numbers.
pub proof fn lemma_round_random_order_independent(
    c1: Seq<(Vec<u8>, Vec<u8>)>,
    c2: Seq<(Vec<u8>, Vec<u8>)>,
    reveals: Map<Seq<u8>, u64>,
)
    requires
        c1.to_multiset() == c2.to_multiset(),
    ensures
        xor_all(revealed_numbers(c1, reveals)) == xor_all(revealed_numbers(c2, reveals)),
{
    lemma_revealed_numbers_permutation(c1, c2, reveals);
    lemma_xor_all_permutation(revealed_numbers(c1, reveals), revealed_numbers(c2, reveals));
}

proof fn lemma_xor_cancel(a: u64, x: u64)
    by (bit_vector)
    ensures
        (a ^ x) ^ x == a,
        0u64 ^ x == x,
{
}

/// The round's random number is an exclusive or: a single number is its own
/// combination, and a number revealed twice cancels out.
pub proof fn lemma_xor_all_cancels(s: Seq<u64>, x: u64)
    ensures
        xor_all(seq![x]) == x,
        xor_all(s.push(x).push(x)) == xor_all(s),
{
    lemma_xor_cancel(xor_all(s), x);
    let one = seq![x];
    assert(one.drop_last() =~= Seq::<u64>::empty());
    assert(xor_all(one) == xor_all(one.drop_last()) ^ one.last());
    let t = s.push(x);
    let u = t.push(x);
    assert(u.drop_last() =~= t);
    assert(t.drop_last() =~= s);
    assert(xor_all(t) == xor_all(s) ^ x);
    assert(xor_all(u) == xor_all(t) ^ x);
}

/// The tally reads, for each commitment in turn, the number its account
/// revealed, and 0 for an account that revealed nothing; a commitment
/// passes exactly when it is the commitment to that number.
pub proof fn lemma_revealed_number_of_each_commitment(
    commits: Seq<(Vec<u8>, Vec<u8>)>,
    reveals: Map<Seq<u8>, u64>,
    i: int,
)
    requires
        0 <= i < commits.len(),
    ensures
        revealed_numbers(commits, reveals).len() == commits.len(),
        reveals.contains_key(commits[i].0@) ==> revealed_numbers(commits, reveals)[i] == reveals[commits[i].0@],
        !reveals.contains_key(commits[i].0@) ==> revealed_numbers(commits, reveals)[i] == 0,
        commit_matches(commits[i], reveals) <==> commits[i].1@ == blake2_256_digest(
            be_u64_bytes(revealed_numbers(commits, reveals)[i]),
        ),
{
}

/// Every key of the map that inserting entries gives came from some entry,
/// whose key maps to the value of some entry with that key; and every entry's
/// key is in the map.
proof fn lemma_entries_map_origin(entries: Seq<(Seq<u8>, Seq<u8>)>)
    ensures
        forall|k: Seq<u8>|
            #[trigger] entries_map(entries).contains_key(k) ==> exists|i: int|
                0 <= i < entries.len() && entries[i].0 == k && entries_map(entries)[k] == entries[i].1,
        forall|i: int| 0 <= i < entries.len() ==> entries_map(entries).contains_key(#[trigger] entries[i].0),
        entries_map(entries).dom().finite(),
    decreases entries.len(),
{
    if entries.len() > 0 {
        let t = entries.drop_last();
        lemma_entries_map_origin(t);
        let n = entries.len() - 1;
        assert forall|k: Seq<u8>| #[trigger] entries_map(entries).contains_key(k) implies exists|i: int|
            0 <= i < entries.len() && entries[i].0 == k && entries_map(entries)[k] == entries[i].1 by {
            if k == entries[n].0 {
                assert(entries_map(entries)[k] == entries[n].1);
            } else {
                assert(entries_map(t).contains_key(k));
                let i = choose|i: int| 0 <= i < t.len() && t[i].0 == k && entries_map(t)[k] == t[i].1;
                assert(entries[i] == t[i]);
            }
        }
        assert forall|i: int| 0 <= i < entries.len() implies entries_map(entries).contains_key(#[trigger] entries[i].0) by {
            if i < n {
                assert(entries[i] == t[i]);
                assert(entries_map(t).contains_key(t[i].0));
            }
        }
    }
}

/// The next committee is the committers nearest to the round's number: at
/// most `COMMITTEE_SIZE` of them, nearest first, each strictly nearer than
/// the next, and every committer left out is farther than all of them
/// (unless it lies at exactly a member's distance).
pub proof fn lemma_committee_is_nearest(commits: Seq<(Vec<u8>, Vec<u8>)>, random: u64, members: Seq<Seq<u8>>)
    requires
        nearest_members(members, entries_map(distance_entries(commits, random)), COMMITTEE_SIZE as nat),
    ensures
        members.len() <= COMMITTEE_SIZE,
        commits.len() > 0 ==> members.len() > 0,
        ({
            let distances = entries_map(distance_entries(commits, random)).dom().len();
            members.len() == if distances < COMMITTEE_SIZE { distances } else { COMMITTEE_SIZE as nat }
        }),
        forall|i: int, j: int|
            0 <= i < j < members.len() ==> lex_lt(distance(members[i], random), distance(members[j], random)),
        forall|k: int|
            0 <= k < commits.len() ==> (exists|i: int|
                0 <= i < members.len() && distance(members[i], random) == distance(#[trigger] commits[k].0@, random))
                || forall|i: int| 0 <= i < members.len() ==> lex_lt(distance(members[i], random), distance(commits[k].0@, random)),
{
    let e = distance_entries(commits, random);
    let m = entries_map(e);
    lemma_entries_map_origin(e);
    let r = choose|r: Seq<(Seq<u8>, Seq<u8>)>|
        lowest_entries(r, m, COMMITTEE_SIZE as nat) && members == r.map_values(|x: (Seq<u8>, Seq<u8>)| x.1);
    assert forall|i: int| 0 <= i < r.len() implies r[i].0 == distance(#[trigger] r[i].1, random) by {
        assert(m.contains_key(r[i].0));
        let t = choose|t: int| 0 <= t < e.len() && e[t].0 == r[i].0 && m[r[i].0] == e[t].1;
        assert(e[t] == (distance(commits[t].0@, random), commits[t].0@));
    }
    if commits.len() > 0 {
        assert(m.contains_key(e[0].0));
        assert(m.dom().len() > 0) by {
            assert(m.dom().contains(e[0].0));
            if m.dom().len() == 0 {
                m.dom().lemma_len0_is_empty();
            }
        }
    }
    assert forall|i: int, j: int| 0 <= i < j < members.len() implies lex_lt(
        distance(members[i], random),
        distance(members[j], random),
    ) by {
        assert(members[i] == r[i].1 && members[j] == r[j].1);
    }
    assert forall|k: int| 0 <= k < commits.len() implies (exists|i: int|
        0 <= i < members.len() && distance(members[i], random) == distance(#[trigger] commits[k].0@, random))
        || forall|i: int| 0 <= i < members.len() ==> lex_lt(distance(members[i], random), distance(commits[k].0@, random)) by {
        let d = distance(commits[k].0@, random);
        assert(e[k].0 == d);
        assert(m.contains_key(d));
        if exists|i: int| 0 <= i < r.len() && r[i].0 == d {
            let i = choose|i: int| 0 <= i < r.len() && r[i].0 == d;
            assert(members[i] == r[i].1);
            assert(distance(members[i], random) == d);
        } else {
            assert forall|i: int| 0 <= i < members.len() implies lex_lt(distance(members[i], random), d) by {
                assert(members[i] == r[i].1);
                assert(lex_lt(r[i].0, d));
            }
        }
    }
}

} // verus!
