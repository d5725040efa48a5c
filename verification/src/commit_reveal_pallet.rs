//! The commit-reveal pallet driven by unsigned transactions: its storage and
//! calls, and the decisions of its off-chain worker, which commits a random
//! number derived from the local authority key, reveals it, and tallies the
//! round into the next committee.

use vstd::prelude::*;
use crate::bytes::{be_value, u64_from_be_prefix};
use crate::byte_map::ByteKeyMap;
use crate::storage_map::{KeyHasher, StorageMap};
use crate::origin::{DispatchError, RawOrigin, ensure_none};
use crate::tally::{commitment, commitment_of, copy_byte_lists, bytes_seqs, tally_votes, VoteTally};

verus! {

pub const STATE_INIT: u64 = 0;
pub const STATE_COMMIT: u64 = 1;
pub const STATE_WAIT_COMMIT_DONE: u64 = 2;
pub const STATE_REVEAL: u64 = 3;
pub const STATE_WAIT_REVEAL_DONE: u64 = 4;
pub const STATE_REVEAL_DONE: u64 = 5;
pub const STATE_FINISH: u64 = 6;

/// How many commitments (and reveals) a round waits for.
pub const MEMBER_COUNT: u64 = 5;

/// Error which may occur while executing the off-chain code.
#[derive(PartialEq, Eq, Structural, Debug, Clone, Copy)]
pub enum OffchainErr {
    WaitingForInclusion(u64),
    SubmitTransaction,
    GetLocalStorage,
    VerifyCommitHash,
}

/// The character of the decimal digit `d`.
pub open spec fn digit_char(d: nat) -> char {
    if d == 0 {
        '0'
    } else if d == 1 {
        '1'
    } else if d == 2 {
        '2'
    } else if d == 3 {
        '3'
    } else if d == 4 {
        '4'
    } else if d == 5 {
        '5'
    } else if d == 6 {
        '6'
    } else if d == 7 {
        '7'
    } else if d == 8 {
        '8'
    } else {
        '9'
    }
}

/// The decimal digits of `n`, most significant first, as `{:?}` and `{}`
/// print an unsigned integer.
pub open spec fn decimal(n: nat) -> Seq<char>
    decreases n,
{
    if n < 10 {
        seq![digit_char(n)]
    } else {
        decimal(n / 10) + seq![digit_char(n % 10)]
    }
}

/// What an off-chain error prints.
pub open spec fn offchain_err_text(e: OffchainErr) -> Seq<char> {
    match e {
        OffchainErr::WaitingForInclusion(block) => "Heartbeat already sent at "@ + decimal(block as nat)
            + ". Waiting for inclusion."@,
        OffchainErr::SubmitTransaction => "Failed to submit transaction"@,
        OffchainErr::GetLocalStorage => "Failed to get local storage"@,
        OffchainErr::VerifyCommitHash => "Commit hash verify failed"@,
    }
}

/// The text of the decimal digit `d`.
fn digit_text(d: u64) -> (t: &'static str)
    requires
        d < 10,
    ensures
        t@ == seq![digit_char(d as nat)],
{
    if d == 0 {
        proof { reveal_strlit("0"); }
        "0"
    } else if d == 1 {
        proof { reveal_strlit("1"); }
        "1"
    } else if d == 2 {
        proof { reveal_strlit("2"); }
        "2"
    } else if d == 3 {
        proof { reveal_strlit("3"); }
        "3"
    } else if d == 4 {
        proof { reveal_strlit("4"); }
        "4"
    } else if d == 5 {
        proof { reveal_strlit("5"); }
        "5"
    } else if d == 6 {
        proof { reveal_strlit("6"); }
        "6"
    } else if d == 7 {
        proof { reveal_strlit("7"); }
        "7"
    } else if d == 8 {
        proof { reveal_strlit("8"); }
        "8"
    } else {
        proof { reveal_strlit("9"); }
        "9"
    }
}

/// Appends the decimal digits of `n` to `s`.
fn append_decimal(s: &mut String, n: u64)
    ensures
        final(s)@ == old(s)@ + decimal(n as nat),
    decreases n,
{
    if n >= 10 {
        append_decimal(s, n / 10);
    }
    s.append(digit_text(n % 10));
    assert(s@ =~= old(s)@ + decimal(n as nat));
}

impl OffchainErr {
    /// The text the error prints.
    pub fn message(&self) -> (m: String)
        ensures
            m@ == offchain_err_text(*self),
    {
        match self {
            OffchainErr::WaitingForInclusion(block) => {
                let mut m = String::from_str("Heartbeat already sent at ");
                append_decimal(&mut m, *block);
                m.append(". Waiting for inclusion.");
                m
            },
            OffchainErr::SubmitTransaction => String::from_str("Failed to submit transaction"),
            OffchainErr::GetLocalStorage => String::from_str("Failed to get local storage"),
            OffchainErr::VerifyCommitHash => String::from_str("Commit hash verify failed"),
        }
    }
}

/// The calls of the pallet, by their arguments.
#[derive(Debug)]
pub enum Call {
    SayHello(u64),
    ProposalCommit(u64, Vec<u8>, Vec<u8>),
    ProposalReveal(u64, Vec<u8>, u64),
    InsertTestmap(Vec<u8>, u64),
}

/// What `validate_unsigned` accepts an unsigned call with: the parameters
/// handed to `ValidTransaction::with_tag_prefix(..)` and its builder.
pub struct UnsignedValidity {
    pub tag_prefix: &'static str,
    pub priority: u64,
    /// The tag provided is `(session index, 0)`.
    pub provides_session: u32,
    pub provides_index: i32,
    pub longevity: u64,
    pub propagate: bool,
}

/// Validates an unsigned call: each call of the pallet is valid, tagged with
/// the current session and the configured priority, for two blocks, and is
/// not propagated.
pub fn validate_unsigned(call: &Call, session_index: u32, priority: u64) -> (v: UnsignedValidity)
    ensures
        v.tag_prefix@ == "CommitReveal"@,
        v.priority == priority,
        v.provides_session == session_index,
        v.provides_index == 0,
        v.longevity == 2,
        !v.propagate,
{
    match call {
        Call::SayHello(_) | Call::ProposalCommit(_, _, _) | Call::ProposalReveal(_, _, _)
        | Call::InsertTestmap(_, _) => UnsignedValidity {
            tag_prefix: "CommitReveal",
            priority,
            provides_session: session_index,
            provides_index: 0,
            longevity: 2,
            propagate: false,
        },
    }
}

/// The genesis configuration: the initial authorities.
pub struct GenesisConfig {
    pub authorities: Vec<Vec<u8>>,
}

impl Default for GenesisConfig {
    fn default() -> (g: Self)
        ensures
            g.authorities@.len() == 0,
    {
        GenesisConfig { authorities: Vec::new() }
    }
}

/// What tallying the round does to storage `before`, giving `after` and the
/// result `r`: commitments, reveals and the test map stay; `r` is `Ok`
/// exactly when every commitment matches its reveal; then it holds the
/// revealed numbers in storage order, their xor, and the committee nearest
/// to that xor, which storage now holds as the next committee. Otherwise it
/// is `VerifyCommitHash` and the next committee stays.
pub open spec fn tally_outcome(before: Pallet, after: Pallet, r: Result<VoteTally, OffchainErr>) -> bool {
    &&& after.commit_listing() == before.commit_listing()
    &&& after.commits() == before.commits()
    &&& after.reveals() == before.reveals()
    &&& after.test_entries() == before.test_entries()
    &&& (r is Ok <==> crate::tally::all_commits_match(before.commit_listing(), before.reveals()))
    &&& (r is Err ==> r == Err::<VoteTally, OffchainErr>(OffchainErr::VerifyCommitHash)
        && after.members() == before.members())
    &&& (r matches Ok(t) ==> {
        &&& t.random_numbers@ == crate::tally::revealed_numbers(before.commit_listing(), before.reveals())
        &&& t.random_number == crate::tally::xor_all(t.random_numbers@)
        &&& crate::tally::nearest_members(
            after.members(),
            crate::tally::entries_map(crate::tally::distance_entries(before.commit_listing(), t.random_number)),
            crate::tally::COMMITTEE_SIZE as nat,
        )
        &&& after.members() == bytes_seqs(t.members@)
    })
}

/// The pallet's storage: commitments and reveals by authority key, the test
/// map, and the next committee.
pub struct Pallet {
    commit_result: StorageMap<Vec<u8>>,
    reveal_result: StorageMap<u64>,
    test_map: ByteKeyMap<u64>,
    next_members: Vec<Vec<u8>>,
}

impl Pallet {
    pub closed spec fn wf(&self) -> bool {
        &&& self.commit_result.wf()
        &&& self.reveal_result.wf()
        &&& self.commit_result.hasher() == KeyHasher::Blake2_128Concat
        &&& self.reveal_result.hasher() == KeyHasher::Blake2_128Concat
        &&& self.test_map.wf()
    }

    /// Commitment hashes by authority key.
    pub closed spec fn commits(&self) -> Map<Seq<u8>, Vec<u8>> {
        self.commit_result@
    }

    /// The commitments in storage order.
    pub closed spec fn commit_listing(&self) -> Seq<(Vec<u8>, Vec<u8>)> {
        self.commit_result.listing()
    }

    /// Revealed numbers by authority key.
    pub closed spec fn reveals(&self) -> Map<Seq<u8>, u64> {
        self.reveal_result@
    }

    pub closed spec fn test_entries(&self) -> Map<Seq<u8>, u64> {
        self.test_map@
    }

    /// The next committee.
    pub closed spec fn members(&self) -> Seq<Seq<u8>> {
        bytes_seqs(self.next_members@)
    }


    /// The storage order of the commitments lists each stored commitment
    /// once, and nothing else.
    pub proof fn lemma_commit_listing(&self)
        requires
            self.wf(),
        ensures
            crate::storage_map::in_storage_order(KeyHasher::Blake2_128Concat, self.commit_listing()),
            crate::byte_map::listing_keys(self.commit_listing()).no_duplicates(),
            self.commit_listing().len() == self.commits().dom().len(),
            forall|i: int|
                0 <= i < self.commit_listing().len() ==> self.commits().contains_key(
                    #[trigger] self.commit_listing()[i].0@,
                ) && self.commits()[self.commit_listing()[i].0@] == self.commit_listing()[i].1,
            forall|k: Seq<u8>|
                #[trigger] self.commits().contains_key(k) ==> exists|i: int|
                    0 <= i < self.commit_listing().len() && self.commit_listing()[i].0@ == k,
    {
        self.commit_result.lemma_listing();
        assert forall|k: Seq<u8>| #[trigger] self.commits().contains_key(k) implies exists|i: int|
            0 <= i < self.commit_listing().len() && self.commit_listing()[i].0@ == k by {
            assert(self.commit_result@.contains_key(k));
            let i = choose|i: int| 0 <= i < self.commit_result.listing().len() && self.commit_result.listing()[i].0@ == k;
            assert(self.commit_listing()[i].0@ == k);
        }
    }

    /// Empty storage.
    pub fn new() -> (p: Self)
        ensures
            p.wf(),
            p.commits() == Map::<Seq<u8>, Vec<u8>>::empty(),
            p.reveals() == Map::<Seq<u8>, u64>::empty(),
            p.test_entries() == Map::<Seq<u8>, u64>::empty(),
            p.members() == Seq::<Seq<u8>>::empty(),
    {
        let p = Pallet {
            commit_result: StorageMap::new(KeyHasher::Blake2_128Concat),
            reveal_result: StorageMap::new(KeyHasher::Blake2_128Concat),
            test_map: ByteKeyMap::new(),
            next_members: Vec::new(),
        };
        assert(p.members() =~= Seq::<Seq<u8>>::empty());
        p
    }

    /// The weight the block initialisation hook takes: none.
    pub fn on_initialize(&self, now: u64) -> (w: u64)
        ensures
            w == 0,
    {
        0
    }

    /// Greets from an unsigned transaction; refused for any other origin.
    pub fn say_hello(&self, origin: &RawOrigin, now: u64) -> (r: Result<(), DispatchError>)
        ensures
            r is Ok <==> origin is Unsigned,
            r is Err ==> r == Err::<(), DispatchError>(DispatchError::BadOrigin),
    {
        ensure_none(origin)
    }

    /// Records the commitment `hash` of `authority_id`, replacing an earlier
    /// one; only from an unsigned transaction.
    pub fn proposal_commit(
        &mut self,
        origin: &RawOrigin,
        now: u64,
        authority_id: Vec<u8>,
        hash: Vec<u8>,
    ) -> (r: Result<(), DispatchError>)
        requires
            old(self).wf(),
        ensures
            final(self).wf(),
            r is Ok <==> origin is Unsigned,
            r is Err ==> r == Err::<(), DispatchError>(DispatchError::BadOrigin),
            final(self).commits() == if r is Ok {
                old(self).commits().insert(authority_id@, hash)
            } else {
                old(self).commits()
            },
            final(self).reveals() == old(self).reveals(),
            final(self).test_entries() == old(self).test_entries(),
            final(self).members() == old(self).members(),
    {
        ensure_none(origin)?;
        self.commit_result.insert(authority_id, hash);
        Ok(())
    }

    /// Records the number revealed by `authority_id`, replacing an earlier
    /// one; only from an unsigned transaction.
    pub fn proposal_reveal(
        &mut self,
        origin: &RawOrigin,
        now: u64,
        authority_id: Vec<u8>,
        reveal_num: u64,
    ) -> (r: Result<(), DispatchError>)
        requires
            old(self).wf(),
        ensures
            final(self).wf(),
            r is Ok <==> origin is Unsigned,
            r is Err ==> r == Err::<(), DispatchError>(DispatchError::BadOrigin),
            final(self).reveals() == if r is Ok {
                old(self).reveals().insert(authority_id@, reveal_num)
            } else {
                old(self).reveals()
            },
            final(self).commit_listing() == old(self).commit_listing(),
            final(self).commits() == old(self).commits(),
            final(self).test_entries() == old(self).test_entries(),
            final(self).members() == old(self).members(),
    {
        ensure_none(origin)?;
        self.reveal_result.insert(authority_id, reveal_num);
        Ok(())
    }

    /// Stores `n` under `authority_vec` in the test map; only from an
    /// unsigned transaction.
    pub fn insert_testmap(&mut self, origin: &RawOrigin, authority_vec: Vec<u8>, n: u64) -> (r: Result<(), DispatchError>)
        requires
            old(self).wf(),
        ensures
            final(self).wf(),
            r is Ok <==> origin is Unsigned,
            r is Err ==> r == Err::<(), DispatchError>(DispatchError::BadOrigin),
            final(self).test_entries() == if r is Ok {
                old(self).test_entries().insert(authority_vec@, n)
            } else {
                old(self).test_entries()
            },
            final(self).commit_listing() == old(self).commit_listing(),
            final(self).commits() == old(self).commits(),
            final(self).reveals() == old(self).reveals(),
            final(self).members() == old(self).members(),
    {
        ensure_none(origin)?;
        self.test_map.insert(authority_vec, n);
        Ok(())
    }

    /// The stored commitments, in storage order.
    pub fn commit_entries(&self) -> (e: &Vec<(Vec<u8>, Vec<u8>)>)
        ensures
            e@ == self.commit_listing(),
    {
        self.commit_result.entries()
    }

    /// The stored reveals, in storage order.
    pub fn reveal_entries(&self) -> (e: &Vec<(Vec<u8>, u64)>)
        requires
            self.wf(),
        ensures
            e@.len() == self.reveals().dom().len(),
            forall|i: int|
                0 <= i < e@.len() ==> self.reveals().contains_key(#[trigger] e@[i].0@) && self.reveals()[e@[i].0@]
                    == e@[i].1,
            crate::storage_map::in_storage_order(KeyHasher::Blake2_128Concat, e@),
    {
        proof {
            self.reveal_result.lemma_listing();
        }
        self.reveal_result.entries()
    }

    /// The number of stored commitments.
    pub fn commit_count(&self) -> (n: usize)
        requires
            self.wf(),
        ensures
            n == self.commits().dom().len(),
    {
        self.commit_result.len()
    }

    /// The number of stored reveals.
    pub fn reveal_count(&self) -> (n: usize)
        requires
            self.wf(),
        ensures
            n == self.reveals().dom().len(),
    {
        self.reveal_result.len()
    }

    /// The next committee.
    pub fn next_members(&self) -> (m: &Vec<Vec<u8>>)
        ensures
            bytes_seqs(m@) == self.members(),
    {
        &self.next_members
    }

    /// Clears the commitments, the reveals and the next committee.
    pub fn clean_pallet_storage(&mut self)
        requires
            old(self).wf(),
        ensures
            final(self).wf(),
            storage_cleaned(*old(self), *final(self)),
    {
        self.commit_result.clear();
        self.reveal_result.clear();
        self.next_members = Vec::new();
        assert(self.members() =~= Seq::<Seq<u8>>::empty());
    }

    /// Clears the reveals only.
    pub fn clear_reveals(&mut self)
        requires
            old(self).wf(),
        ensures
            final(self).wf(),
            final(self).reveals() == Map::<Seq<u8>, u64>::empty(),
            final(self).commit_listing() == old(self).commit_listing(),
            final(self).commits() == old(self).commits(),
            final(self).members() == old(self).members(),
            final(self).test_entries() == old(self).test_entries(),
    {
        self.reveal_result.clear();
    }

    /// Tallies the round: checks each commitment against its reveal and, when
    /// all match, stores the committee nearest to the xor of the revealed
    /// numbers. `VerifyCommitHash` (storage untouched) when one does not match.
    pub fn verify_vote_result(&mut self) -> (r: Result<VoteTally, OffchainErr>)
        requires
            old(self).wf(),
        ensures
            final(self).wf(),
            tally_outcome(*old(self), *final(self), r),
    {
        let listing = self.commit_result.entries();
        match tally_votes(listing, &self.reveal_result) {
            None => Err(OffchainErr::VerifyCommitHash),
            Some(t) => {
                let members = copy_byte_lists(&t.members);
                self.next_members = members;
                Ok(t)
            },
        }
    }
}

/// A stage of the round and the block at which it was entered, as the
/// off-chain worker keeps them in local storage.
#[derive(PartialEq, Eq, Structural, Debug, Clone, Copy)]
pub struct StageMark {
    pub state: u64,
    pub index: u64,
}

/// The outside work that a stage asks of the off-chain worker.
#[derive(PartialEq, Eq, Structural, Debug, Clone, Copy)]
pub enum StageWork {
    Idle,
    /// Clear the commitments, reveals and next committee.
    CleanStorage,
    /// Commit the authority's number (`commit_proposal`).
    SendCommit,
    /// Reveal the stored number (`reveal_proposal`).
    SendReveal,
    /// Tally the round (`Pallet::verify_vote_result`).
    VerifyVotes,
}

/// What the worker does at a block: the work, and the stage to record
/// afterwards (only if the work succeeded, when `mark_needs_success`). The
/// worker's result is the work's result.
#[derive(PartialEq, Eq, Structural, Debug, Clone, Copy)]
pub struct StagePlan {
    pub work: StageWork,
    pub mark: Option<StageMark>,
    pub mark_needs_success: bool,
}

pub open spec fn plan_of(work: StageWork, mark: Option<StageMark>, needs_success: bool) -> StagePlan {
    StagePlan { work, mark, mark_needs_success: needs_success }
}

pub open spec fn idle_plan() -> StagePlan {
    plan_of(StageWork::Idle, None, false)
}

/// The step of the round from `state`, entered at block `last`, at block
/// `block`, with `commits` commitments and `reveals` reveals stored.
pub open spec fn stage_step(state: u64, last: u64, block: u64, commits: u64, reveals: u64) -> StagePlan {
    let mark = |s: u64| Some(StageMark { state: s, index: block });
    if state == STATE_INIT {
        plan_of(StageWork::CleanStorage, mark(STATE_COMMIT), false)
    } else if state == STATE_COMMIT {
        if block == last + 5 {
            plan_of(StageWork::SendCommit, mark(STATE_WAIT_COMMIT_DONE), true)
        } else {
            idle_plan()
        }
    } else if state == STATE_WAIT_COMMIT_DONE {
        if commits == MEMBER_COUNT && block > last + 5 {
            plan_of(StageWork::Idle, mark(STATE_REVEAL), false)
        } else {
            idle_plan()
        }
    } else if state == STATE_REVEAL {
        if block == last + 5 {
            plan_of(StageWork::SendReveal, mark(STATE_WAIT_REVEAL_DONE), true)
        } else {
            idle_plan()
        }
    } else if state == STATE_WAIT_REVEAL_DONE {
        if reveals == MEMBER_COUNT && block == last + 5 {
            plan_of(StageWork::Idle, mark(STATE_REVEAL_DONE), false)
        } else {
            idle_plan()
        }
    } else if state == STATE_REVEAL_DONE {
        plan_of(StageWork::VerifyVotes, mark(STATE_FINISH), false)
    } else {
        idle_plan()
    }
}

/// Where the worker would fail on a missing value in local storage: from
/// block 5 on, with an authority key, the stage must be stored, and so must
/// its block once the stage was read.
pub open spec fn select_members_2_fails(
    block: u64,
    has_authority: bool,
    state: Result<Option<u64>, ()>,
    index: Result<Option<u64>, ()>,
) -> bool {
    block >= 5 && has_authority && (state == Ok::<Option<u64>, ()>(None) || (state is Ok
        && index == Ok::<Option<u64>, ()>(None)))
}

/// The worker's plan at `block`: before block 5 it only records the initial
/// stage at block 1; without an authority key it does nothing; a failed
/// read of the stage or of its block is `GetLocalStorage`; otherwise it
/// takes the step of the stored stage.
pub open spec fn select_members_2_plan(
    block: u64,
    has_authority: bool,
    state: Result<Option<u64>, ()>,
    index: Result<Option<u64>, ()>,
    commits: u64,
    reveals: u64,
) -> Result<StagePlan, OffchainErr> {
    if block < 5 {
        if block == 1 {
            Ok(plan_of(StageWork::Idle, Some(StageMark { state: STATE_INIT, index: 1 }), false))
        } else {
            Ok(idle_plan())
        }
    } else if !has_authority {
        Ok(idle_plan())
    } else {
        match state {
            Err(_) => Err(OffchainErr::GetLocalStorage),
            Ok(s) => match index {
                Err(_) => Err(OffchainErr::GetLocalStorage),
                Ok(i) => Ok(stage_step(s.unwrap(), i.unwrap(), block, commits, reveals)),
            },
        }
    }
}

/// Whether `b == a + d`, without overflow.
pub fn is_sum(a: u64, d: u64, b: u64) -> (r: bool)
    ensures
        r == (b == a + d),
{
    a <= u64::MAX - d && b == a + d
}

/// Whether `b > a + d`, without overflow.
pub fn exceeds_sum(a: u64, d: u64, b: u64) -> (r: bool)
    ensures
        r == (b > a + d),
{
    a <= u64::MAX - d && b > a + d
}

fn stage_step_exec(state: u64, last: u64, block: u64, commits: u64, reveals: u64) -> (p: StagePlan)
    ensures
        p == stage_step(state, last, block, commits, reveals),
{
    let idle = StagePlan { work: StageWork::Idle, mark: None, mark_needs_success: false };
    if state == STATE_INIT {
        StagePlan { work: StageWork::CleanStorage, mark: Some(StageMark { state: STATE_COMMIT, index: block }), mark_needs_success: false }
    } else if state == STATE_COMMIT {
        if is_sum(last, 5, block) {
            StagePlan { work: StageWork::SendCommit, mark: Some(StageMark { state: STATE_WAIT_COMMIT_DONE, index: block }), mark_needs_success: true }
        } else {
            idle
        }
    } else if state == STATE_WAIT_COMMIT_DONE {
        if commits == MEMBER_COUNT && exceeds_sum(last, 5, block) {
            StagePlan { work: StageWork::Idle, mark: Some(StageMark { state: STATE_REVEAL, index: block }), mark_needs_success: false }
        } else {
            idle
        }
    } else if state == STATE_REVEAL {
        if is_sum(last, 5, block) {
            StagePlan { work: StageWork::SendReveal, mark: Some(StageMark { state: STATE_WAIT_REVEAL_DONE, index: block }), mark_needs_success: true }
        } else {
            idle
        }
    } else if state == STATE_WAIT_REVEAL_DONE {
        if reveals == MEMBER_COUNT && is_sum(last, 5, block) {
            StagePlan { work: StageWork::Idle, mark: Some(StageMark { state: STATE_REVEAL_DONE, index: block }), mark_needs_success: false }
        } else {
            idle
        }
    } else if state == STATE_REVEAL_DONE {
        StagePlan { work: StageWork::VerifyVotes, mark: Some(StageMark { state: STATE_FINISH, index: block }), mark_needs_success: false }
    } else {
        idle
    }
}

/// The off-chain worker's decision at `block` (see `select_members_2_plan`),
/// given whether a local authority key exists, the stage and its block as
/// read from local storage, and the numbers of stored commitments and
/// reveals.
pub fn select_members_2(
    block: u64,
    has_authority: bool,
    state: Result<Option<u64>, ()>,
    index: Result<Option<u64>, ()>,
    commits: u64,
    reveals: u64,
) -> (r: Result<StagePlan, OffchainErr>)
    requires
        !select_members_2_fails(block, has_authority, state, index),
    ensures
        r == select_members_2_plan(block, has_authority, state, index, commits, reveals),
{
    if block < 5 {
        if block == 1 {
            return Ok(StagePlan { work: StageWork::Idle, mark: Some(StageMark { state: STATE_INIT, index: 1 }), mark_needs_success: false });
        }
        return Ok(StagePlan { work: StageWork::Idle, mark: None, mark_needs_success: false });
    }
    if !has_authority {
        return Ok(StagePlan { work: StageWork::Idle, mark: None, mark_needs_success: false });
    }
    let s = match state {
        Err(_) => return Err(OffchainErr::GetLocalStorage),
        Ok(s) => s.unwrap(),
    };
    let last = match index {
        Err(_) => return Err(OffchainErr::GetLocalStorage),
        Ok(i) => i.unwrap(),
    };
    Ok(stage_step_exec(s, last, block, commits, reveals))
}

/// The stage to record once the planned work has run with the given outcome.
pub fn mark_after(plan: &StagePlan, work_ok: bool) -> (m: Option<StageMark>)
    ensures
        m == if plan.mark_needs_success && !work_ok { None } else { plan.mark },
{
    if plan.mark_needs_success && !work_ok {
        None
    } else {
        plan.mark
    }
}

/// The number an authority commits to at `block`: the first eight bytes of
/// its public key, big-endian, xor the block number.
pub open spec fn authority_number(raw: Seq<u8>, block: u64) -> u64 {
    (be_value(raw.take(8)) as u64) ^ block
}

/// A commitment to send: the number and its commitment hash.
pub struct CommitProposal {
    pub random: u64,
    pub hash: Vec<u8>,
}

/// The number that the authority with public key `authority_raw` draws at
/// `block`.
pub fn authority_number_exec(authority_raw: &[u8], block: u64) -> (n: u64)
    requires
        authority_raw@.len() >= 8,
    ensures
        n == authority_number(authority_raw@, block),
{
    let public_u64 = u64_from_be_prefix(authority_raw);
    public_u64 ^ block
}

/// What the authority commits to at `block`: its number and the number's
/// commitment hash.
pub fn commit_proposal(authority_raw: &[u8], block: u64) -> (p: CommitProposal)
    requires
        authority_raw@.len() >= 8,
    ensures
        p.random == authority_number(authority_raw@, block),
        p.hash@ == commitment_of(p.random),
{
    let random = authority_number_exec(authority_raw, block);
    let hash = commitment(random);
    CommitProposal { random, hash }
}

/// What to reveal, from the local-storage read of the committed number: a
/// failed read is `GetLocalStorage`; a missing number reveals nothing.
pub fn reveal_proposal(stored: Result<Option<u64>, ()>) -> (r: Result<Option<u64>, OffchainErr>)
    ensures
        r == match stored {
            Ok(n) => Ok::<Option<u64>, OffchainErr>(n),
            Err(_) => Err(OffchainErr::GetLocalStorage),
        },
{
    match stored {
        Ok(n) => Ok(n),
        Err(_) => Err(OffchainErr::GetLocalStorage),
    }
}

/// The work of the block-scheduled round (`select_members`), by the block
/// number modulo 43.
#[derive(PartialEq, Eq, Structural, Debug, Clone, Copy)]
pub enum ScheduleWork {
    Idle,
    /// Clear the commitments, reveals and next committee.
    ClearRound,
    /// Store the authority's number and commit to it.
    SendCommit,
    /// Reveal the stored number.
    SendReveal,
    /// Tally the round.
    Tally,
}

pub open spec fn select_members_schedule(block: u64, has_authority: bool) -> ScheduleWork {
    let n = block % 43;
    if n == 3 {
        ScheduleWork::ClearRound
    } else if n == 5 && has_authority {
        ScheduleWork::SendCommit
    } else if n == 20 && has_authority {
        ScheduleWork::SendReveal
    } else if n == 37 {
        ScheduleWork::Tally
    } else {
        ScheduleWork::Idle
    }
}

/// The work of the block-scheduled round at `block`.
pub fn select_members(block: u64, has_authority: bool) -> (w: ScheduleWork)
    ensures
        w == select_members_schedule(block, has_authority),
{
    let n = block % 43;
    if n == 3 {
        ScheduleWork::ClearRound
    } else if n == 5 && has_authority {
        ScheduleWork::SendCommit
    } else if n == 20 && has_authority {
        ScheduleWork::SendReveal
    } else if n == 37 {
        ScheduleWork::Tally
    } else {
        ScheduleWork::Idle
    }
}

/// The work of the storage exercise (`_map_test`), by the block number
/// modulo 37.
#[derive(PartialEq, Eq, Structural, Debug, Clone, Copy)]
pub enum MapTestWork {
    Idle,
    /// Clear the reveals.
    ClearReveals,
    /// Reveal the authority's number for this block directly.
    RevealAuthorityNumber,
    /// Show the commitments.
    ShowCommits,
}

pub open spec fn map_test_schedule(block: u64, has_authority: bool) -> MapTestWork {
    let n = block % 37;
    if n == 1 {
        MapTestWork::ClearReveals
    } else if n == 5 {
        if has_authority { MapTestWork::RevealAuthorityNumber } else { MapTestWork::Idle }
    } else if n == 36 {
        MapTestWork::ShowCommits
    } else {
        MapTestWork::Idle
    }
}

/// The work of the storage exercise at `block`.
pub fn map_test(block: u64, has_authority: bool) -> (w: MapTestWork)
    ensures
        w == map_test_schedule(block, has_authority),
{
    let n = block % 37;
    if n == 1 {
        MapTestWork::ClearReveals
    } else if n == 5 {
        if has_authority { MapTestWork::RevealAuthorityNumber } else { MapTestWork::Idle }
    } else if n == 36 {
        MapTestWork::ShowCommits
    } else {
        MapTestWork::Idle
    }
}

/// Whether the key listing exercise (`_offchain_test_1`) lists the local
/// authority keys at block `n`: from block 10 on, at blocks ending in 1.
pub fn lists_authorities(n: u64) -> (r: bool)
    ensures
        r == (n >= 10 && n % 10 == 1),
{
    n >= 10 && n % 10 == 1
}

/// What a step of an off-chain worker leaves to the node, once the library
/// has done the storage work of the step itself.
pub struct WorkerStep {
    /// The worker's result, unless the submission below fails.
    pub result: Result<(), OffchainErr>,
    /// A number to store under the local key of the committed number.
    pub store_random: Option<u64>,
    /// An unsigned call to submit; a failed submission makes the result
    /// `SubmitTransaction`.
    pub submit: Option<Call>,
    /// The stage to record in local storage.
    pub mark: Option<StageMark>,
    /// Whether `mark` is recorded only once the submission succeeded.
    pub mark_needs_submit: bool,
    /// The tally, when the step tallied a round whose commitments all
    /// matched.
    pub tally: Option<VoteTally>,
}

/// Storage `after` is storage `before`.
pub open spec fn storage_kept(before: Pallet, after: Pallet) -> bool {
    &&& after.commit_listing() == before.commit_listing()
    &&& after.commits() == before.commits()
    &&& after.reveals() == before.reveals()
    &&& after.test_entries() == before.test_entries()
    &&& after.members() == before.members()
}

/// Storage `after` is storage `before` with the commitments, the reveals and
/// the next committee cleared.
pub open spec fn storage_cleaned(before: Pallet, after: Pallet) -> bool {
    &&& after.commit_listing() == Seq::<(Vec<u8>, Vec<u8>)>::empty()
    &&& after.commits() == Map::<Seq<u8>, Vec<u8>>::empty()
    &&& after.reveals() == Map::<Seq<u8>, u64>::empty()
    &&& after.members() == Seq::<Seq<u8>>::empty()
    &&& after.test_entries() == before.test_entries()
}

/// A step that leaves nothing to the node.
pub open spec fn quiet_step(s: WorkerStep) -> bool {
    &&& s.store_random is None
    &&& s.submit is None
    &&& s.mark is None
    &&& !s.mark_needs_submit
    &&& s.tally is None
}

/// A step that commits the number of `authority` at `block`: it stores the
/// number and submits `proposal_commit` with the number's commitment.
pub open spec fn commit_step(s: WorkerStep, authority: Seq<u8>, block: u64) -> bool {
    &&& s.result == Ok::<(), OffchainErr>(())
    &&& s.store_random == Some(authority_number(authority, block))
    &&& (s.submit matches Some(Call::ProposalCommit(b, a, h)) && b == block && a@ == authority
        && h@ == commitment_of(authority_number(authority, block)))
    &&& s.tally is None
}

/// A step that reveals, for `authority` at `block`, the number read from
/// local storage: a failed read is `GetLocalStorage`; a missing number
/// reveals nothing; otherwise it submits `proposal_reveal` with it.
pub open spec fn reveal_step(s: WorkerStep, authority: Seq<u8>, block: u64, stored: Result<Option<u64>, ()>) -> bool {
    &&& s.store_random is None
    &&& s.tally is None
    &&& match stored {
        Err(_) => s.result == Err::<(), OffchainErr>(OffchainErr::GetLocalStorage) && s.submit is None,
        Ok(None) => s.result == Ok::<(), OffchainErr>(()) && s.submit is None,
        Ok(Some(n)) => s.result == Ok::<(), OffchainErr>(()) && (s.submit matches Some(
            Call::ProposalReveal(b, a, m),
        ) && b == block && a@ == authority && m == n),
    }
}

/// A step that tallied storage `before` into `after`: its result and tally
/// are those of `Pallet::verify_vote_result`.
pub open spec fn tally_step(s: WorkerStep, before: Pallet, after: Pallet) -> bool {
    &&& s.store_random is None
    &&& s.submit is None
    &&& tally_outcome(
        before,
        after,
        match s.tally {
            Some(t) => Ok(t),
            None => Err(OffchainErr::VerifyCommitHash),
        },
    )
    &&& s.result == if s.tally is Some {
        Ok::<(), OffchainErr>(())
    } else {
        Err::<(), OffchainErr>(OffchainErr::VerifyCommitHash)
    }
}

impl WorkerStep {
    fn quiet(result: Result<(), OffchainErr>) -> (s: Self)
        ensures
            quiet_step(s),
            s.result == result,
    {
        WorkerStep { result, store_random: None, submit: None, mark: None, mark_needs_submit: false, tally: None }
    }

    /// The worker's result and the stage to record, once the node has
    /// submitted the step's call (`submit_ok` says whether that succeeded;
    /// it is ignored when there was nothing to submit).
    pub fn finish(&self, submit_ok: bool) -> (r: (Result<(), OffchainErr>, Option<StageMark>))
        ensures
            r.0 == if self.submit is Some && !submit_ok {
                Err::<(), OffchainErr>(OffchainErr::SubmitTransaction)
            } else {
                self.result
            },
            r.1 == if self.mark_needs_submit && self.submit is Some && !submit_ok {
                None
            } else {
                self.mark
            },
    {
        let failed = self.submit.is_some() && !submit_ok;
        let result = if failed { Err(OffchainErr::SubmitTransaction) } else { self.result };
        let mark = if self.mark_needs_submit && failed { None } else { self.mark };
        (result, mark)
    }
}

impl Pallet {
    fn commit_work(authority: &Vec<u8>, block: u64) -> (s: WorkerStep)
        requires
            authority@.len() >= 8,
        ensures
            commit_step(s, authority@, block),
            s.mark is None,
            !s.mark_needs_submit,
    {
        let p = commit_proposal(authority.as_slice(), block);
        let acc = crate::tally::copy_bytes(authority);
        WorkerStep {
            result: Ok(()),
            store_random: Some(p.random),
            submit: Some(Call::ProposalCommit(block, acc, p.hash)),
            mark: None,
            mark_needs_submit: false,
            tally: None,
        }
    }

    fn reveal_work(authority: &Vec<u8>, block: u64, stored: Result<Option<u64>, ()>) -> (s: WorkerStep)
        ensures
            reveal_step(s, authority@, block, stored),
            s.mark is None,
            !s.mark_needs_submit,
    {
        match reveal_proposal(stored) {
            Err(e) => WorkerStep::quiet(Err(e)),
            Ok(None) => WorkerStep::quiet(Ok(())),
            Ok(Some(n)) => {
                let acc = crate::tally::copy_bytes(authority);
                WorkerStep {
                    result: Ok(()),
                    store_random: None,
                    submit: Some(Call::ProposalReveal(block, acc, n)),
                    mark: None,
                    mark_needs_submit: false,
                    tally: None,
                }
            },
        }
    }

    fn tally_work(&mut self) -> (s: WorkerStep)
        requires
            old(self).wf(),
        ensures
            final(self).wf(),
            tally_step(s, *old(self), *final(self)),
            s.mark is None,
            !s.mark_needs_submit,
    {
        match self.verify_vote_result() {
            Ok(t) => WorkerStep {
                result: Ok(()),
                store_random: None,
                submit: None,
                mark: None,
                mark_needs_submit: false,
                tally: Some(t),
            },
            Err(e) => WorkerStep::quiet(Err(e)),
        }
    }

    /// One step of the staged round (`select_members_2`) at `block`, with
    /// the first local authority key, if any, and what local storage holds
    /// for the stage, its block and the committed number: the library
    /// clears or tallies storage itself and leaves to the node the writes to
    /// local storage and the submission.
    pub fn select_members_2_step(
        &mut self,
        block: u64,
        authority: &Option<Vec<u8>>,
        state: Result<Option<u64>, ()>,
        index: Result<Option<u64>, ()>,
        stored: Result<Option<u64>, ()>,
    ) -> (s: WorkerStep)
        requires
            old(self).wf(),
            !select_members_2_fails(block, authority is Some, state, index),
            select_members_2_plan(
                block,
                authority is Some,
                state,
                index,
                old(self).commits().dom().len() as u64,
                old(self).reveals().dom().len() as u64,
            ) matches Ok(p) && p.work == StageWork::SendCommit ==> (authority matches Some(a) ==> a@.len() >= 8),
        ensures
            final(self).wf(),
            ({
                let plan = select_members_2_plan(
                    block,
                    authority is Some,
                    state,
                    index,
                    old(self).commits().dom().len() as u64,
                    old(self).reveals().dom().len() as u64,
                );
                match plan {
                    Err(e) => s.result == Err::<(), OffchainErr>(e) && quiet_step(s)
                        && storage_kept(*old(self), *final(self)),
                    Ok(p) => match p.work {
                        StageWork::Idle => s.result == Ok::<(), OffchainErr>(()) && s.store_random is None
                            && s.submit is None && s.tally is None && s.mark == p.mark
                            && !s.mark_needs_submit && storage_kept(*old(self), *final(self)),
                        StageWork::CleanStorage => s.result == Ok::<(), OffchainErr>(()) && s.store_random is None
                            && s.submit is None && s.tally is None && s.mark == p.mark
                            && !s.mark_needs_submit && storage_cleaned(*old(self), *final(self)),
                        StageWork::SendCommit => (authority matches Some(a) && commit_step(s, a@, block))
                            && s.mark == p.mark && s.mark_needs_submit
                            && storage_kept(*old(self), *final(self)),
                        StageWork::SendReveal => (authority matches Some(a) && reveal_step(s, a@, block, stored))
                            && s.mark == (if stored is Err { None } else { p.mark })
                            && s.mark_needs_submit == (stored matches Ok(Some(_)))
                            && storage_kept(*old(self), *final(self)),
                        StageWork::VerifyVotes => tally_step(s, *old(self), *final(self)) && s.mark == p.mark
                            && !s.mark_needs_submit,
                    },
                }
            }),
    {
        let commits = self.commit_count() as u64;
        let reveals = self.reveal_count() as u64;
        let plan = match select_members_2(block, authority.is_some(), state, index, commits, reveals) {
            Err(e) => return WorkerStep::quiet(Err(e)),
            Ok(p) => p,
        };
        match plan.work {
            StageWork::Idle => {
                let mut s = WorkerStep::quiet(Ok(()));
                s.mark = plan.mark;
                s
            },
            StageWork::CleanStorage => {
                self.clean_pallet_storage();
                let mut s = WorkerStep::quiet(Ok(()));
                s.mark = plan.mark;
                s
            },
            StageWork::SendCommit => {
                let mut s = match authority {
                    Some(a) => Self::commit_work(a, block),
                    None => WorkerStep::quiet(Ok(())),
                };
                s.mark = plan.mark;
                s.mark_needs_submit = true;
                s
            },
            StageWork::SendReveal => {
                let mut s = match authority {
                    Some(a) => Self::reveal_work(a, block, stored),
                    None => WorkerStep::quiet(Ok(())),
                };
                if s.result.is_ok() {
                    s.mark = plan.mark;
                }
                s.mark_needs_submit = s.submit.is_some();
                s
            },
            StageWork::VerifyVotes => {
                let mut s = self.tally_work();
                s.mark = plan.mark;
                s
            },
        }
    }

    /// One step of the block-scheduled round (`select_members`) at `block`,
    /// with the first local authority key, if any, and what local storage
    /// holds for the committed number.
    pub fn select_members_step(&mut self, block: u64, authority: &Option<Vec<u8>>, stored: Result<Option<u64>, ()>) -> (s: WorkerStep)
        requires
            old(self).wf(),
            select_members_schedule(block, authority is Some) == ScheduleWork::SendCommit ==> (authority matches Some(
                a,
            ) ==> a@.len() >= 8),
        ensures
            final(self).wf(),
            s.mark is None,
            !s.mark_needs_submit,
            match select_members_schedule(block, authority is Some) {
                ScheduleWork::Idle => s.result == Ok::<(), OffchainErr>(()) && quiet_step(s)
                    && storage_kept(*old(self), *final(self)),
                ScheduleWork::ClearRound => s.result == Ok::<(), OffchainErr>(()) && quiet_step(s)
                    && storage_cleaned(*old(self), *final(self)),
                ScheduleWork::SendCommit => (authority matches Some(a) && commit_step(s, a@, block))
                    && storage_kept(*old(self), *final(self)),
                ScheduleWork::SendReveal => (authority matches Some(a) && reveal_step(s, a@, block, stored))
                    && storage_kept(*old(self), *final(self)),
                ScheduleWork::Tally => tally_step(s, *old(self), *final(self)),
            },
    {
        match select_members(block, authority.is_some()) {
            ScheduleWork::Idle => WorkerStep::quiet(Ok(())),
            ScheduleWork::ClearRound => {
                self.clean_pallet_storage();
                WorkerStep::quiet(Ok(()))
            },
            ScheduleWork::SendCommit => match authority {
                Some(a) => Self::commit_work(a, block),
                None => WorkerStep::quiet(Ok(())),
            },
            ScheduleWork::SendReveal => match authority {
                Some(a) => Self::reveal_work(a, block, stored),
                None => WorkerStep::quiet(Ok(())),
            },
            ScheduleWork::Tally => self.tally_work(),
        }
    }

    /// One step of the storage exercise (`_map_test`) at `block`, with the
    /// first local authority key, if any: it clears the reveals itself, or
    /// leaves to the node a `proposal_reveal` of the authority's number.
    pub fn map_test_step(&mut self, block: u64, authority: &Option<Vec<u8>>) -> (s: WorkerStep)
        requires
            old(self).wf(),
            map_test_schedule(block, authority is Some) == MapTestWork::RevealAuthorityNumber ==> (
            authority matches Some(a) ==> a@.len() >= 8),
        ensures
            final(self).wf(),
            s.result == Ok::<(), OffchainErr>(()),
            s.store_random is None,
            s.mark is None,
            !s.mark_needs_submit,
            s.tally is None,
            match map_test_schedule(block, authority is Some) {
                MapTestWork::ClearReveals => s.submit is None
                    && final(self).reveals() == Map::<Seq<u8>, u64>::empty()
                    && final(self).commit_listing() == old(self).commit_listing()
                    && final(self).commits() == old(self).commits()
                    && final(self).test_entries() == old(self).test_entries()
                    && final(self).members() == old(self).members(),
                MapTestWork::RevealAuthorityNumber => (authority matches Some(a) && (s.submit matches Some(
                    Call::ProposalReveal(b, acc, n),
                ) && b == block && acc@ == a@ && n == authority_number(a@, block)))
                    && storage_kept(*old(self), *final(self)),
                _ => s.submit is None && storage_kept(*old(self), *final(self)),
            },
    {
        match map_test(block, authority.is_some()) {
            MapTestWork::ClearReveals => {
                self.clear_reveals();
                WorkerStep::quiet(Ok(()))
            },
            MapTestWork::RevealAuthorityNumber => match authority {
                Some(a) => {
                    let n = authority_number_exec(a.as_slice(), block);
                    let acc = crate::tally::copy_bytes(a);
                    WorkerStep {
                        result: Ok(()),
                        store_random: None,
                        submit: Some(Call::ProposalReveal(block, acc, n)),
                        mark: None,
                        mark_needs_submit: false,
                        tally: None,
                    }
                },
                None => WorkerStep::quiet(Ok(())),
            },
            _ => WorkerStep::quiet(Ok(())),
        }
    }
}

/// The round advances one stage at a time and remembers when: every stage
/// the worker records is the successor of the stored one (or the initial
/// stage, recorded at block 1), entered at the current block; the
/// commitment is sent only in the commit stage, five blocks after entering
/// it, the reveal only in the reveal stage, five blocks after entering it,
/// and the tally only in the reveal-done stage.
pub proof fn lemma_stage_progress(
    block: u64,
    has_authority: bool,
    state: Result<Option<u64>, ()>,
    index: Result<Option<u64>, ()>,
    commits: u64,
    reveals: u64,
)
    requires
        !select_members_2_fails(block, has_authority, state, index),
        select_members_2_plan(block, has_authority, state, index, commits, reveals) is Ok,
    ensures
        ({
            let p = select_members_2_plan(block, has_authority, state, index, commits, reveals).unwrap();
            &&& p.mark matches Some(m) ==> (m.index == block && if block < 5 {
                block == 1 && m.state == STATE_INIT
            } else {
                state matches Ok(Some(s)) && s < STATE_FINISH && m.state == s + 1
            })
            &&& p.work == StageWork::SendCommit ==> (index matches Ok(Some(last)) && block == last + 5
                && state == Ok::<Option<u64>, ()>(Some(STATE_COMMIT)))
            &&& p.work == StageWork::SendReveal ==> (index matches Ok(Some(last)) && block == last + 5
                && state == Ok::<Option<u64>, ()>(Some(STATE_REVEAL)))
            &&& p.work == StageWork::VerifyVotes ==> state == Ok::<Option<u64>, ()>(Some(STATE_REVEAL_DONE))
            &&& p.work == StageWork::CleanStorage ==> state == Ok::<Option<u64>, ()>(Some(STATE_INIT))
        }),
{
}

/// What an authority commits to, it can reveal: a stored commitment made by
/// `commit_proposal` for the authority's number passes the tally's check
/// once that number is revealed for the same key.
pub proof fn lemma_own_commitment_accepted(p: &Pallet, i: int, raw: Seq<u8>, block: u64)
    requires
        0 <= i < p.commit_listing().len(),
        p.commit_listing()[i].1@ == commitment_of(authority_number(raw, block)),
        p.reveals().contains_key(p.commit_listing()[i].0@),
        p.reveals()[p.commit_listing()[i].0@] == authority_number(raw, block),
    ensures
        crate::tally::commit_matches(p.commit_listing()[i], p.reveals()),
{
}

/// Reveals from accounts that never committed change nothing in a tally:
/// tallying two storages that hold the same commitments, and reveals that
/// give every committed account the same number, gives the same result,
/// the same revealed numbers and round's number, and the same next
/// committee.
pub proof fn lemma_tally_ignores_uncommitted_reveals(
    before1: Pallet,
    after1: Pallet,
    r1: Result<VoteTally, OffchainErr>,
    before2: Pallet,
    after2: Pallet,
    r2: Result<VoteTally, OffchainErr>,
)
    requires
        before1.wf(),
        tally_outcome(before1, after1, r1),
        tally_outcome(before2, after2, r2),
        before2.commit_listing() == before1.commit_listing(),
        forall|k: Seq<u8>|
            #[trigger] before1.commits().contains_key(k) ==> crate::tally::revealed_value(before1.reveals(), k)
                == crate::tally::revealed_value(before2.reveals(), k),
    ensures
        r1 is Ok <==> r2 is Ok,
        r1 is Err ==> r1 == r2,
        r1 matches Ok(t1) ==> (r2 matches Ok(t2) && t1.random_numbers@ == t2.random_numbers@
            && t1.random_number == t2.random_number && after1.members() == after2.members()),
{
    let l = before1.commit_listing();
    before1.lemma_commit_listing();
    assert forall|i: int| 0 <= i < l.len() implies crate::tally::revealed_value(before1.reveals(), #[trigger] l[i].0@)
        == crate::tally::revealed_value(before2.reveals(), l[i].0@) by {
        assert(before1.commits().contains_key(l[i].0@));
    }
    crate::tally::lemma_tally_reads_committed_reveals(l, before1.reveals(), before2.reveals());
    if r1 is Ok && r2 is Ok {
        let t1 = r1->Ok_0;
        let t2 = r2->Ok_0;
        crate::tally::lemma_nearest_members_unique(
            after1.members(),
            after2.members(),
            crate::tally::entries_map(crate::tally::distance_entries(l, t1.random_number)),
            crate::tally::COMMITTEE_SIZE as nat,
        );
    }
}

/// A waiting stage moves on only with every member counted: the stage after
/// waiting for commitments is recorded only when `MEMBER_COUNT` commitments
/// are stored, and the stage after waiting for reveals only when
/// `MEMBER_COUNT` reveals are stored; with any other count the worker does
/// nothing and records nothing.
pub proof fn lemma_waits_for_every_member(
    block: u64,
    has_authority: bool,
    last: u64,
    commits: u64,
    reveals: u64,
)
    ensures
        ({
            let idle = Ok::<StagePlan, OffchainErr>(
                StagePlan { work: StageWork::Idle, mark: None, mark_needs_success: false },
            );
            let waiting_commits = select_members_2_plan(
                block,
                has_authority,
                Ok(Some(STATE_WAIT_COMMIT_DONE)),
                Ok(Some(last)),
                commits,
                reveals,
            );
            let waiting_reveals = select_members_2_plan(
                block,
                has_authority,
                Ok(Some(STATE_WAIT_REVEAL_DONE)),
                Ok(Some(last)),
                commits,
                reveals,
            );
            &&& block >= 5 && commits != MEMBER_COUNT ==> waiting_commits == idle
            &&& block >= 5 && reveals != MEMBER_COUNT ==> waiting_reveals == idle
            &&& (waiting_commits matches Ok(p) && p.mark matches Some(m) && m.state == STATE_REVEAL) ==> commits
                == MEMBER_COUNT && block > last + 5
            &&& (waiting_reveals matches Ok(p) && p.mark matches Some(m) && m.state == STATE_REVEAL_DONE)
                ==> reveals == MEMBER_COUNT && block == last + 5
        }),
{
}

/// The round moves on where it is due: from block 5, with an authority key,
/// the initial stage clears storage and enters the commit stage; the commit
/// stage commits five blocks after it was entered; the commitments are
/// waited for until all `MEMBER_COUNT` are stored, more than five blocks on;
/// the reveal stage reveals five blocks after it was entered; the reveals
/// are waited for until all are stored, exactly five blocks on; and the
/// round is then tallied. Each step records the next stage at the current
/// block; a commitment or reveal only once it was sent.
pub proof fn lemma_round_advances(block: u64, last: u64, commits: u64, reveals: u64)
    requires
        block >= 5,
    ensures
        ({
            let plan = |s: u64| select_members_2_plan(block, true, Ok(Some(s)), Ok(Some(last)), commits, reveals);
            let at = |s: u64| Some(StageMark { state: s, index: block });
            &&& plan(STATE_INIT) == Ok::<StagePlan, OffchainErr>(
                StagePlan { work: StageWork::CleanStorage, mark: at(STATE_COMMIT), mark_needs_success: false },
            )
            &&& block == last + 5 ==> plan(STATE_COMMIT) == Ok::<StagePlan, OffchainErr>(
                StagePlan { work: StageWork::SendCommit, mark: at(STATE_WAIT_COMMIT_DONE), mark_needs_success: true },
            )
            &&& commits == MEMBER_COUNT && block > last + 5 ==> plan(STATE_WAIT_COMMIT_DONE) == Ok::<
                StagePlan,
                OffchainErr,
            >(StagePlan { work: StageWork::Idle, mark: at(STATE_REVEAL), mark_needs_success: false })
            &&& block == last + 5 ==> plan(STATE_REVEAL) == Ok::<StagePlan, OffchainErr>(
                StagePlan { work: StageWork::SendReveal, mark: at(STATE_WAIT_REVEAL_DONE), mark_needs_success: true },
            )
            &&& reveals == MEMBER_COUNT && block == last + 5 ==> plan(STATE_WAIT_REVEAL_DONE) == Ok::<
                StagePlan,
                OffchainErr,
            >(StagePlan { work: StageWork::Idle, mark: at(STATE_REVEAL_DONE), mark_needs_success: false })
            &&& plan(STATE_REVEAL_DONE) == Ok::<StagePlan, OffchainErr>(
                StagePlan { work: StageWork::VerifyVotes, mark: at(STATE_FINISH), mark_needs_success: false },
            )
            &&& block != last + 5 ==> plan(STATE_COMMIT) == Ok::<StagePlan, OffchainErr>(
                StagePlan { work: StageWork::Idle, mark: None, mark_needs_success: false },
            ) && plan(STATE_REVEAL) == Ok::<StagePlan, OffchainErr>(
                StagePlan { work: StageWork::Idle, mark: None, mark_needs_success: false },
            )
            &&& plan(STATE_FINISH) == Ok::<StagePlan, OffchainErr>(
                StagePlan { work: StageWork::Idle, mark: None, mark_needs_success: false },
            )
        }),
{
}

/// Before block 5 the worker only records the initial stage, at block 1,
/// whatever local storage holds; from block 5 on, without an authority key,
/// it does nothing.
pub proof fn lemma_quiet_without_round(
    block: u64,
    has_authority: bool,
    state: Result<Option<u64>, ()>,
    index: Result<Option<u64>, ()>,
    commits: u64,
    reveals: u64,
)
    ensures
        block < 5 ==> select_members_2_plan(block, has_authority, state, index, commits, reveals) == Ok::<
            StagePlan,
            OffchainErr,
        >(
            StagePlan {
                work: StageWork::Idle,
                mark: if block == 1 { Some(StageMark { state: STATE_INIT, index: 1 }) } else { None },
                mark_needs_success: false,
            },
        ),
        block >= 5 && !has_authority ==> select_members_2_plan(block, has_authority, state, index, commits, reveals)
            == Ok::<StagePlan, OffchainErr>(
            StagePlan { work: StageWork::Idle, mark: None, mark_needs_success: false },
        ),
        block >= 5 && has_authority && (state is Err || (state is Ok && index is Err)) ==> select_members_2_plan(
            block,
            has_authority,
            state,
            index,
            commits,
            reveals,
        ) == Err::<StagePlan, OffchainErr>(OffchainErr::GetLocalStorage),
{
}

/// The block-scheduled round does each of its works at one block of every
/// 43: it clears the round exactly at blocks 3 mod 43, commits exactly at
/// blocks 5 mod 43 and reveals exactly at blocks 20 mod 43 (both only with
/// an authority key), tallies exactly at blocks 37 mod 43, and does nothing
/// at every other block.
pub proof fn lemma_schedule_blocks(block: u64, has_authority: bool)
    ensures
        (select_members_schedule(block, has_authority) == ScheduleWork::ClearRound) <==> block % 43 == 3,
        (select_members_schedule(block, has_authority) == ScheduleWork::SendCommit) <==> (block % 43 == 5
            && has_authority),
        (select_members_schedule(block, has_authority) == ScheduleWork::SendReveal) <==> (block % 43 == 20
            && has_authority),
        (select_members_schedule(block, has_authority) == ScheduleWork::Tally) <==> block % 43 == 37,
{
}

/// The storage exercise clears the reveals exactly at blocks 1 mod 37,
/// reveals the authority's number exactly at blocks 5 mod 37 (with an
/// authority key), shows the commitments exactly at blocks 36 mod 37, and
/// does nothing at every other block.
pub proof fn lemma_map_test_blocks(block: u64, has_authority: bool)
    ensures
        (map_test_schedule(block, has_authority) == MapTestWork::ClearReveals) <==> block % 37 == 1,
        (map_test_schedule(block, has_authority) == MapTestWork::RevealAuthorityNumber) <==> (block % 37 == 5
            && has_authority),
        (map_test_schedule(block, has_authority) == MapTestWork::ShowCommits) <==> block % 37 == 36,
{
}

proof fn lemma_xor_recovers(p: u64, b: u64, c: u64)
    by (bit_vector)
    ensures
        (p ^ b) ^ b == p,
        (p ^ b) ^ (p ^ c) == b ^ c,
{
}

/// The number an authority commits to hides its key prefix under the block
/// number and nothing else: xoring it with the block number gives back the
/// big-endian value of the key's first eight bytes, and the numbers of one
/// key at two blocks differ exactly in the bits in which the blocks differ.
pub proof fn lemma_authority_number_masks_block(raw: Seq<u8>, block: u64, other: u64)
    requires
        raw.len() >= 8,
    ensures
        authority_number(raw, block) ^ block == be_value(raw.take(8)),
        authority_number(raw, block) ^ authority_number(raw, other) == block ^ other,
{
    crate::bytes::lemma_be_value_bound(raw.take(8));
    assert(crate::bytes::pow256(8) == 0x1_0000_0000_0000_0000) by {
        reveal_with_fuel(crate::bytes::pow256, 9);
    }
    let p = be_value(raw.take(8)) as u64;
    lemma_xor_recovers(p, block, other);
}

} // verus!
