//! The commit-reveal pallet driven by signed transactions: each local
//! account commits to a random number drawn from the node's random seed,
//! reveals it, and the round is tallied into the next committee; the worker
//! starts a new round twenty blocks after a tally.

use vstd::prelude::*;
use crate::bytes::{be_value, u64_from_be_prefix, xor_bytes, xor_bytes_exec};
use crate::storage_map::{KeyHasher, StorageMap};
use crate::commit_reveal_pallet::{
    StageMark, STATE_INIT, STATE_COMMIT, STATE_WAIT_COMMIT_DONE, STATE_REVEAL,
    STATE_WAIT_REVEAL_DONE, STATE_REVEAL_DONE, STATE_FINISH, is_sum,
};
use crate::hashing::{blake2_256, blake2_256_digest};
use crate::origin::{DispatchError, RawOrigin, ensure_signed};
use crate::tally::{commitment, commitment_of, copy_byte_lists, bytes_seqs, tally_votes, VoteTally};

verus! {

/// How many commitments (and reveals) a round waits for.
pub const MEMBER_COUNT: usize = 5;

/// The errors of the off-chain worker, each with its message.
#[derive(PartialEq, Eq, Structural, Debug, Clone, Copy)]
pub enum WorkerError {
    /// Reading the stage or its block from local storage failed.
    GetLocalError,
    /// No local account can sign.
    NoLocalAccounts,
    /// Reading the committed number from local storage failed.
    GetLocalErr,
    /// A commitment did not match its reveal.
    HashVerifyFailed,
}

impl WorkerError {
    /// The message the worker reports.
    pub fn message(&self) -> (m: &'static str)
        ensures
            m@ == match self {
                WorkerError::GetLocalError => "GetLocalError"@,
                WorkerError::NoLocalAccounts => "No local accounts available. Consider adding one via `author_insertKey` RPC."@,
                WorkerError::GetLocalErr => "GetLocalErr"@,
                WorkerError::HashVerifyFailed => "hash verify failed"@,
            },
    {
        match self {
            WorkerError::GetLocalError => "GetLocalError",
            WorkerError::NoLocalAccounts => "No local accounts available. Consider adding one via `author_insertKey` RPC.",
            WorkerError::GetLocalErr => "GetLocalErr",
            WorkerError::HashVerifyFailed => "hash verify failed",
        }
    }
}

/// Events of the pallet.
pub enum Event {
    /// A new price was accepted: `[price, who]`.
    NewPrice(u32, Vec<u8>),
}

/// Payload used to hold price data required to submit a transaction.
pub struct PricePayload<Public, BlockNumber> {
    block_number: BlockNumber,
    price: u32,
    public: Public,
}

impl<Public, BlockNumber> PricePayload<Public, BlockNumber> {
    pub closed spec fn spec_block_number(&self) -> BlockNumber {
        self.block_number
    }

    pub closed spec fn spec_price(&self) -> u32 {
        self.price
    }

    pub closed spec fn spec_public(&self) -> Public {
        self.public
    }

    pub fn new(block_number: BlockNumber, price: u32, public: Public) -> (p: Self)
        ensures
            p.spec_block_number() == block_number,
            p.spec_price() == price,
            p.spec_public() == public,
    {
        PricePayload { block_number, price, public }
    }

    /// The public key that signs the payload.
    pub fn public(&self) -> (k: &Public)
        ensures
            *k == self.spec_public(),
    {
        &self.public
    }

    pub fn block_number(&self) -> (b: &BlockNumber)
        ensures
            *b == self.spec_block_number(),
    {
        &self.block_number
    }

    pub fn price(&self) -> (p: u32)
        ensures
            p == self.spec_price(),
    {
        self.price
    }
}

/// What tallying the round does to storage `before`, giving `after` and the
/// result `r`: everything but the next committee stays; `r` is `Ok` exactly
/// when every commitment matches its reveal; then it holds the revealed
/// numbers in storage order, their xor, and the committee nearest to that
/// xor, which storage now holds as the next committee. Otherwise it is
/// `HashVerifyFailed` and the next committee stays.
pub open spec fn signed_tally_outcome(before: Pallet, after: Pallet, r: Result<VoteTally, WorkerError>) -> bool {
    &&& after.commit_listing() == before.commit_listing()
    &&& after.commits() == before.commits()
    &&& after.reveals() == before.reveals()
    &&& after.spec_prices() == before.spec_prices()
    &&& after.spec_next_unsigned_at() == before.spec_next_unsigned_at()
    &&& (r is Ok <==> crate::tally::all_commits_match(before.commit_listing(), before.reveals()))
    &&& (r is Err ==> r == Err::<VoteTally, WorkerError>(WorkerError::HashVerifyFailed)
        && after.members() == before.members())
    &&& (r matches Ok(t) ==> {
        &&& t.random_numbers@ == crate::tally::revealed_numbers(before.commit_listing(), before.reveals())
        &&& t.random_number == crate::tally::xor_all(t.random_numbers@)
        &&& crate::tally::nearest_members(
            after.members(),
            crate::tally::entries_map(crate::tally::distance_entries(before.commit_listing(), t.random_number)),
            crate::tally::COMMITTEE_SIZE as nat,
        )
        &&& after.members() == bytes_seqs(t.members@)
    })
}

/// Storage `after` is storage `before`.
pub open spec fn signed_storage_kept(before: Pallet, after: Pallet) -> bool {
    &&& after.commit_listing() == before.commit_listing()
    &&& after.commits() == before.commits()
    &&& after.reveals() == before.reveals()
    &&& after.members() == before.members()
    &&& after.spec_prices() == before.spec_prices()
    &&& after.spec_next_unsigned_at() == before.spec_next_unsigned_at()
}

/// Storage `after` is storage `before` with the commitments and the reveals
/// cleared.
pub open spec fn signed_storage_cleaned(before: Pallet, after: Pallet) -> bool {
    &&& after.commit_listing() == Seq::<(Vec<u8>, Vec<u8>)>::empty()
    &&& after.commits() == Map::<Seq<u8>, Vec<u8>>::empty()
    &&& after.reveals() == Map::<Seq<u8>, u64>::empty()
    &&& after.members() == before.members()
    &&& after.spec_prices() == before.spec_prices()
    &&& after.spec_next_unsigned_at() == before.spec_next_unsigned_at()
}

/// The pallet's storage: commitments and reveals by account, the next
/// committee, the price list and the block of the next unsigned transaction.
pub struct Pallet {
    commit_result: StorageMap<Vec<u8>>,
    reveal_result: StorageMap<u64>,
    next_members: Vec<Vec<u8>>,
    prices: Vec<u32>,
    next_unsigned_at: u64,
}

impl Pallet {
    pub closed spec fn wf(&self) -> bool {
        &&& self.commit_result.wf()
        &&& self.reveal_result.wf()
        &&& self.commit_result.hasher() == KeyHasher::Twox64Concat
        &&& self.reveal_result.hasher() == KeyHasher::Twox64Concat
    }

    /// Commitment hashes by account.
    pub closed spec fn commits(&self) -> Map<Seq<u8>, Vec<u8>> {
        self.commit_result@
    }

    /// The commitments in storage order.
    pub closed spec fn commit_listing(&self) -> Seq<(Vec<u8>, Vec<u8>)> {
        self.commit_result.listing()
    }

    /// Revealed numbers by account.
    pub closed spec fn reveals(&self) -> Map<Seq<u8>, u64> {
        self.reveal_result@
    }

    /// The next committee.
    pub closed spec fn members(&self) -> Seq<Seq<u8>> {
        bytes_seqs(self.next_members@)
    }

    pub closed spec fn spec_prices(&self) -> Seq<u32> {
        self.prices@
    }

    pub closed spec fn spec_next_unsigned_at(&self) -> u64 {
        self.next_unsigned_at
    }


    /// The storage order of the commitments lists each stored commitment
    /// once, and nothing else.
    pub proof fn lemma_commit_listing(&self)
        requires
            self.wf(),
        ensures
            crate::storage_map::in_storage_order(KeyHasher::Twox64Concat, self.commit_listing()),
            crate::byte_map::listing_keys(self.commit_listing()).no_duplicates(),
            self.commit_listing().len() == self.commits().dom().len(),
            forall|i: int|
                0 <= i < self.commit_listing().len() ==> self.commits().contains_key(
                    #[trigger] self.commit_listing()[i].0@,
                ) && self.commits()[self.commit_listing()[i].0@] == self.commit_listing()[i].1,
            forall|k: Seq<u8>|
                #[trigger] self.commits().contains_key(k) ==> exists|i: int|
                    0 <= i < self.commit_listing().len() && self.commit_listing()[i].0@ == k,
    {
        self.commit_result.lemma_listing();
        assert forall|k: Seq<u8>| #[trigger] self.commits().contains_key(k) implies exists|i: int|
            0 <= i < self.commit_listing().len() && self.commit_listing()[i].0@ == k by {
            assert(self.commit_result@.contains_key(k));
            let i = choose|i: int| 0 <= i < self.commit_result.listing().len() && self.commit_result.listing()[i].0@ == k;
            assert(self.commit_listing()[i].0@ == k);
        }
    }

    /// Empty storage.
    pub fn new() -> (p: Self)
        ensures
            p.wf(),
            p.commits() == Map::<Seq<u8>, Vec<u8>>::empty(),
            p.reveals() == Map::<Seq<u8>, u64>::empty(),
            p.members() == Seq::<Seq<u8>>::empty(),
            p.spec_prices() == Seq::<u32>::empty(),
            p.spec_next_unsigned_at() == 0,
    {
        let p = Pallet {
            commit_result: StorageMap::new(KeyHasher::Twox64Concat),
            reveal_result: StorageMap::new(KeyHasher::Twox64Concat),
            next_members: Vec::new(),
            prices: Vec::new(),
            next_unsigned_at: 0,
        };
        assert(p.members() =~= Seq::<Seq<u8>>::empty());
        p
    }

    /// The recently submitted prices.
    pub fn prices(&self) -> (p: &Vec<u32>)
        ensures
            p@ == self.spec_prices(),
    {
        &self.prices
    }

    /// The block at which the next unsigned transaction is accepted.
    pub fn next_unsigned_at(&self) -> (b: u64)
        ensures
            b == self.spec_next_unsigned_at(),
    {
        self.next_unsigned_at
    }

    /// Records the caller's commitment `hash`, replacing an earlier one;
    /// only from a signed transaction.
    pub fn proposal_commit(&mut self, origin: &RawOrigin, now: u64, hash: Vec<u8>) -> (r: Result<(), DispatchError>)
        requires
            old(self).wf(),
        ensures
            final(self).wf(),
            r is Ok <==> origin is Signed,
            r is Err ==> r == Err::<(), DispatchError>(DispatchError::BadOrigin),
            final(self).commits() == match origin {
                RawOrigin::Signed(who) => old(self).commits().insert(who@, hash),
                _ => old(self).commits(),
            },
            final(self).reveals() == old(self).reveals(),
            final(self).members() == old(self).members(),
            final(self).spec_prices() == old(self).spec_prices(),
            final(self).spec_next_unsigned_at() == old(self).spec_next_unsigned_at(),
    {
        let caller = ensure_signed(origin)?;
        self.commit_result.insert(caller, hash);
        Ok(())
    }

    /// Records the number revealed by the caller, replacing an earlier one;
    /// only from a signed transaction.
    pub fn proposal_reveal(&mut self, origin: &RawOrigin, now: u64, num: u64) -> (r: Result<(), DispatchError>)
        requires
            old(self).wf(),
        ensures
            final(self).wf(),
            r is Ok <==> origin is Signed,
            r is Err ==> r == Err::<(), DispatchError>(DispatchError::BadOrigin),
            final(self).reveals() == match origin {
                RawOrigin::Signed(who) => old(self).reveals().insert(who@, num),
                _ => old(self).reveals(),
            },
            final(self).commit_listing() == old(self).commit_listing(),
            final(self).commits() == old(self).commits(),
            final(self).members() == old(self).members(),
            final(self).spec_prices() == old(self).spec_prices(),
            final(self).spec_next_unsigned_at() == old(self).spec_next_unsigned_at(),
    {
        let caller = ensure_signed(origin)?;
        self.reveal_result.insert(caller, num);
        Ok(())
    }

    /// The stored commitments, in storage order.
    pub fn commit_entries(&self) -> (e: &Vec<(Vec<u8>, Vec<u8>)>)
        ensures
            e@ == self.commit_listing(),
    {
        self.commit_result.entries()
    }

    /// The stored reveals, in storage order.
    pub fn reveal_entries(&self) -> (e: &Vec<(Vec<u8>, u64)>)
        requires
            self.wf(),
        ensures
            e@.len() == self.reveals().dom().len(),
            forall|i: int|
                0 <= i < e@.len() ==> self.reveals().contains_key(#[trigger] e@[i].0@) && self.reveals()[e@[i].0@]
                    == e@[i].1,
            crate::storage_map::in_storage_order(KeyHasher::Twox64Concat, e@),
    {
        proof {
            self.reveal_result.lemma_listing();
        }
        self.reveal_result.entries()
    }

    /// The number of stored commitments.
    pub fn commit_count(&self) -> (n: usize)
        requires
            self.wf(),
        ensures
            n == self.commits().dom().len(),
    {
        self.commit_result.len()
    }

    /// The number of stored reveals.
    pub fn reveal_count(&self) -> (n: usize)
        requires
            self.wf(),
        ensures
            n == self.reveals().dom().len(),
    {
        self.reveal_result.len()
    }

    /// The next committee.
    pub fn next_members(&self) -> (m: &Vec<Vec<u8>>)
        ensures
            bytes_seqs(m@) == self.members(),
    {
        &self.next_members
    }

    /// Clears the commitments and the reveals; the committee stays.
    pub fn clean_pallet_storage(&mut self)
        requires
            old(self).wf(),
        ensures
            final(self).wf(),
            signed_storage_cleaned(*old(self), *final(self)),
    {
        self.commit_result.clear();
        self.reveal_result.clear();
    }

    /// Tallies the round: checks each commitment against its reveal and, when
    /// all match, stores the committee nearest to the xor of the revealed
    /// numbers. `HashVerifyFailed` (storage untouched) when one does not match.
    pub fn verify_vote_result(&mut self) -> (r: Result<VoteTally, WorkerError>)
        requires
            old(self).wf(),
        ensures
            final(self).wf(),
            signed_tally_outcome(*old(self), *final(self), r),
    {
        let listing = self.commit_result.entries();
        match tally_votes(listing, &self.reveal_result) {
            None => Err(WorkerError::HashVerifyFailed),
            Some(t) => {
                self.next_members = copy_byte_lists(&t.members);
                Ok(t)
            },
        }
    }
}

/// The outside work that a stage asks of the off-chain worker.
#[derive(PartialEq, Eq, Structural, Debug, Clone, Copy)]
pub enum SignedWork {
    Idle,
    /// Clear commitments and reveals, then draw this round's number from the
    /// node's random seed (`random_from_seed`) and store it.
    CleanAndDraw,
    /// Commit the stored number from every local account (`signed_commit`).
    SendCommit,
    /// Reveal the stored number from every local account (`signed_reveal`).
    SendReveal,
    /// Tally the round (`Pallet::verify_vote_result`).
    VerifyVotes,
}

/// What the worker does at a block: the work, and the stage to record
/// afterwards (only if the work succeeded, when `mark_needs_success`). The
/// worker's result is the work's result.
#[derive(PartialEq, Eq, Structural, Debug, Clone, Copy)]
pub struct SignedPlan {
    pub work: SignedWork,
    pub mark: Option<StageMark>,
    pub mark_needs_success: bool,
}

pub open spec fn signed_plan_of(work: SignedWork, mark: Option<StageMark>, needs_success: bool) -> SignedPlan {
    SignedPlan { work, mark, mark_needs_success: needs_success }
}

pub open spec fn signed_idle() -> SignedPlan {
    signed_plan_of(SignedWork::Idle, None, false)
}

/// The step of the round from `state`, entered at block `last`, at block
/// `block`, with `commits` commitments and `reveals` reveals stored.
pub open spec fn signed_step(state: u64, last: u64, block: u64, commits: usize, reveals: usize) -> SignedPlan {
    let mark = |s: u64| Some(StageMark { state: s, index: block });
    if state == STATE_INIT {
        signed_plan_of(SignedWork::CleanAndDraw, mark(STATE_COMMIT), false)
    } else if state == STATE_COMMIT {
        if block == last + 5 {
            signed_plan_of(SignedWork::SendCommit, mark(STATE_WAIT_COMMIT_DONE), true)
        } else {
            signed_idle()
        }
    } else if state == STATE_WAIT_COMMIT_DONE {
        if commits == MEMBER_COUNT {
            signed_plan_of(SignedWork::Idle, mark(STATE_REVEAL), false)
        } else {
            signed_idle()
        }
    } else if state == STATE_REVEAL {
        if block == last + 5 {
            signed_plan_of(SignedWork::SendReveal, mark(STATE_WAIT_REVEAL_DONE), true)
        } else {
            signed_idle()
        }
    } else if state == STATE_WAIT_REVEAL_DONE {
        if reveals == MEMBER_COUNT {
            signed_plan_of(SignedWork::Idle, mark(STATE_REVEAL_DONE), false)
        } else {
            signed_idle()
        }
    } else if state == STATE_REVEAL_DONE {
        if block == last + 5 {
            signed_plan_of(SignedWork::VerifyVotes, mark(STATE_FINISH), false)
        } else {
            signed_idle()
        }
    } else if state == STATE_FINISH {
        if block == last + 20 {
            signed_plan_of(SignedWork::Idle, mark(STATE_INIT), false)
        } else {
            signed_idle()
        }
    } else {
        signed_idle()
    }
}

/// Where the worker would fail on a missing value in local storage: from
/// block 3 on, the stage must be stored, and so must its block once the
/// stage was read.
pub open spec fn submit_signed_tx_fails(
    block: u64,
    state: Result<Option<u64>, ()>,
    index: Result<Option<u64>, ()>,
) -> bool {
    block >= 3 && (state == Ok::<Option<u64>, ()>(None) || (state is Ok && index == Ok::<
        Option<u64>,
        (),
    >(None)))
}

/// The worker's plan at `block`: before block 3 it only records the initial
/// stage at block 1; a failed read of the stage or of its block is
/// `GetLocalError`; otherwise it takes the step of the stored stage.
pub open spec fn submit_signed_tx_plan(
    block: u64,
    state: Result<Option<u64>, ()>,
    index: Result<Option<u64>, ()>,
    commits: usize,
    reveals: usize,
) -> Result<SignedPlan, WorkerError> {
    if block < 3 {
        if block == 1 {
            Ok(signed_plan_of(SignedWork::Idle, Some(StageMark { state: STATE_INIT, index: 1 }), false))
        } else {
            Ok(signed_idle())
        }
    } else {
        match state {
            Err(_) => Err(WorkerError::GetLocalError),
            Ok(s) => match index {
                Err(_) => Err(WorkerError::GetLocalError),
                Ok(i) => Ok(signed_step(s.unwrap(), i.unwrap(), block, commits, reveals)),
            },
        }
    }
}

fn signed_step_exec(state: u64, last: u64, block: u64, commits: usize, reveals: usize) -> (p: SignedPlan)
    ensures
        p == signed_step(state, last, block, commits, reveals),
{
    let idle = SignedPlan { work: SignedWork::Idle, mark: None, mark_needs_success: false };
    if state == STATE_INIT {
        SignedPlan { work: SignedWork::CleanAndDraw, mark: Some(StageMark { state: STATE_COMMIT, index: block }), mark_needs_success: false }
    } else if state == STATE_COMMIT {
        if is_sum(last, 5, block) {
            SignedPlan { work: SignedWork::SendCommit, mark: Some(StageMark { state: STATE_WAIT_COMMIT_DONE, index: block }), mark_needs_success: true }
        } else {
            idle
        }
    } else if state == STATE_WAIT_COMMIT_DONE {
        if commits == MEMBER_COUNT {
            SignedPlan { work: SignedWork::Idle, mark: Some(StageMark { state: STATE_REVEAL, index: block }), mark_needs_success: false }
        } else {
            idle
        }
    } else if state == STATE_REVEAL {
        if is_sum(last, 5, block) {
            SignedPlan { work: SignedWork::SendReveal, mark: Some(StageMark { state: STATE_WAIT_REVEAL_DONE, index: block }), mark_needs_success: true }
        } else {
            idle
        }
    } else if state == STATE_WAIT_REVEAL_DONE {
        if reveals == MEMBER_COUNT {
            SignedPlan { work: SignedWork::Idle, mark: Some(StageMark { state: STATE_REVEAL_DONE, index: block }), mark_needs_success: false }
        } else {
            idle
        }
    } else if state == STATE_REVEAL_DONE {
        if is_sum(last, 5, block) {
            SignedPlan { work: SignedWork::VerifyVotes, mark: Some(StageMark { state: STATE_FINISH, index: block }), mark_needs_success: false }
        } else {
            idle
        }
    } else if state == STATE_FINISH {
        if is_sum(last, 20, block) {
            SignedPlan { work: SignedWork::Idle, mark: Some(StageMark { state: STATE_INIT, index: block }), mark_needs_success: false }
        } else {
            idle
        }
    } else {
        idle
    }
}

/// The off-chain worker's decision at `block` (see `submit_signed_tx_plan`),
/// given the stage and its block as read from local storage and the numbers
/// of stored commitments and reveals.
pub fn submit_signed_tx(
    block: u64,
    state: Result<Option<u64>, ()>,
    index: Result<Option<u64>, ()>,
    commits: usize,
    reveals: usize,
) -> (r: Result<SignedPlan, WorkerError>)
    requires
        !submit_signed_tx_fails(block, state, index),
    ensures
        r == submit_signed_tx_plan(block, state, index, commits, reveals),
{
    if block < 3 {
        if block == 1 {
            return Ok(SignedPlan { work: SignedWork::Idle, mark: Some(StageMark { state: STATE_INIT, index: 1 }), mark_needs_success: false });
        }
        return Ok(SignedPlan { work: SignedWork::Idle, mark: None, mark_needs_success: false });
    }
    let s = match state {
        Err(_) => return Err(WorkerError::GetLocalError),
        Ok(s) => s.unwrap(),
    };
    let last = match index {
        Err(_) => return Err(WorkerError::GetLocalError),
        Ok(i) => i.unwrap(),
    };
    Ok(signed_step_exec(s, last, block, commits, reveals))
}

/// The stage to record once the planned work has run with the given outcome.
pub fn signed_mark_after(plan: &SignedPlan, work_ok: bool) -> (m: Option<StageMark>)
    ensures
        m == if plan.mark_needs_success && !work_ok { None } else { plan.mark },
{
    if plan.mark_needs_success && !work_ok {
        None
    } else {
        plan.mark
    }
}

/// The round's number drawn from the node's random seed: its first eight
/// bytes, big-endian.
pub fn random_from_seed(seed: &[u8]) -> (n: u64)
    requires
        seed@.len() >= 8,
    ensures
        n as nat == be_value(seed@.take(8)),
{
    u64_from_be_prefix(seed)
}

/// The commitment every local account sends: `NoLocalAccounts` when no
/// account can sign, `GetLocalErr` when reading the stored number failed,
/// otherwise the number and its commitment hash.
pub fn signed_commit(can_sign: bool, stored: Result<Option<u64>, ()>) -> (r: Result<(u64, Vec<u8>), WorkerError>)
    requires
        !(can_sign && stored == Ok::<Option<u64>, ()>(None)),
    ensures
        !can_sign ==> r == Err::<(u64, Vec<u8>), WorkerError>(WorkerError::NoLocalAccounts),
        can_sign && stored is Err ==> r == Err::<(u64, Vec<u8>), WorkerError>(WorkerError::GetLocalErr),
        can_sign && stored is Ok ==> (r matches Ok((n, h)) && stored == Ok::<Option<u64>, ()>(Some(n))
            && h@ == commitment_of(n)),
{
    if !can_sign {
        return Err(WorkerError::NoLocalAccounts);
    }
    let n = match stored {
        Err(_) => return Err(WorkerError::GetLocalErr),
        Ok(n) => n.unwrap(),
    };
    Ok((n, commitment(n)))
}

/// The number every local account reveals: `NoLocalAccounts` when no
/// account can sign, `GetLocalErr` when reading the stored number failed,
/// otherwise the stored number.
pub fn signed_reveal(can_sign: bool, stored: Result<Option<u64>, ()>) -> (r: Result<u64, WorkerError>)
    requires
        !(can_sign && stored == Ok::<Option<u64>, ()>(None)),
    ensures
        !can_sign ==> r == Err::<u64, WorkerError>(WorkerError::NoLocalAccounts),
        can_sign && stored is Err ==> r == Err::<u64, WorkerError>(WorkerError::GetLocalErr),
        can_sign && stored is Ok ==> (r matches Ok(n) && stored == Ok::<Option<u64>, ()>(Some(n))),
{
    if !can_sign {
        return Err(WorkerError::NoLocalAccounts);
    }
    match stored {
        Err(_) => Err(WorkerError::GetLocalErr),
        Ok(n) => Ok(n.unwrap()),
    }
}

/// Whether the seed mixing (`offchain_cb`) runs at block `n`: at blocks
/// ending in 2.
pub fn mixes_seed_at(n: u64) -> (r: bool)
    ensures
        r == (n % 10 == 2),
{
    n % 10 == 2
}

/// The seed mixed with its own hash: the hash of the 32-byte seed xor the
/// seed.
pub fn mix_seed(seed: &[u8]) -> (r: Vec<u8>)
    requires
        seed@.len() == 32,
    ensures
        r@ == xor_bytes(blake2_256_digest(seed@), seed@),
{
    let s0 = blake2_256(seed);
    let mut s2: Vec<u8> = Vec::new();
    let mut i: usize = 0;
    while i < seed.len()
        invariant
            i <= seed@.len(),
            s2@ == seed@.take(i as int),
        decreases seed@.len() - i,
    {
        s2.push(seed[i]);
        i = i + 1;
        assert(s2@ =~= seed@.take(i as int));
    }
    assert(seed@.take(seed@.len() as int) =~= seed@);
    xor_bytes_exec(&s0, &s2)
}

/// What a step of the off-chain worker leaves to the node, once the library
/// has done the storage work of the step itself.
pub struct SignedStep {
    /// The worker's result.
    pub result: Result<(), WorkerError>,
    /// A number to store under the local key of the round's number.
    pub store_random: Option<u64>,
    /// The number and its commitment, which every local account sends with
    /// `proposal_commit` (a failed send is only reported).
    pub send_commit: Option<(u64, Vec<u8>)>,
    /// The number every local account reveals with `proposal_reveal` (a
    /// failed send is only reported).
    pub send_reveal: Option<u64>,
    /// The stage to record in local storage.
    pub mark: Option<StageMark>,
    /// The tally, when the step tallied a round whose commitments all
    /// matched.
    pub tally: Option<VoteTally>,
}

/// A step that leaves nothing to the node but, perhaps, a stage to record.
pub open spec fn signed_quiet(s: SignedStep) -> bool {
    &&& s.store_random is None
    &&& s.send_commit is None
    &&& s.send_reveal is None
    &&& s.tally is None
}

impl SignedStep {
    fn quiet(result: Result<(), WorkerError>, mark: Option<StageMark>) -> (s: Self)
        ensures
            signed_quiet(s),
            s.result == result,
            s.mark == mark,
    {
        SignedStep { result, store_random: None, send_commit: None, send_reveal: None, mark, tally: None }
    }
}

impl Pallet {
    /// One step of the staged round (`submit_signed_tx`) at `block`, with
    /// what local storage holds for the stage, its block and the round's
    /// number, whether some local account can sign, and the node's random
    /// seed: the library clears or tallies storage itself and leaves to the
    /// node the writes to local storage and the signed transactions.
    pub fn submit_signed_tx_step(
        &mut self,
        block: u64,
        state: Result<Option<u64>, ()>,
        index: Result<Option<u64>, ()>,
        can_sign: bool,
        stored: Result<Option<u64>, ()>,
        seed: &[u8],
    ) -> (s: SignedStep)
        requires
            old(self).wf(),
            !submit_signed_tx_fails(block, state, index),
            seed@.len() >= 8,
            submit_signed_tx_plan(
                block,
                state,
                index,
                old(self).commits().dom().len() as usize,
                old(self).reveals().dom().len() as usize,
            ) matches Ok(p) && (p.work == SignedWork::SendCommit || p.work == SignedWork::SendReveal)
                ==> !(can_sign && stored == Ok::<Option<u64>, ()>(None)),
        ensures
            final(self).wf(),
            ({
                let plan = submit_signed_tx_plan(
                    block,
                    state,
                    index,
                    old(self).commits().dom().len() as usize,
                    old(self).reveals().dom().len() as usize,
                );
                match plan {
                    Err(e) => s.result == Err::<(), WorkerError>(e) && signed_quiet(s) && s.mark is None
                        && signed_storage_kept(*old(self), *final(self)),
                    Ok(p) => match p.work {
                        SignedWork::Idle => s.result == Ok::<(), WorkerError>(()) && signed_quiet(s)
                            && s.mark == p.mark && signed_storage_kept(*old(self), *final(self)),
                        SignedWork::CleanAndDraw => s.result == Ok::<(), WorkerError>(())
                            && (s.store_random matches Some(n) && n as nat == be_value(seed@.take(8)))
                            && s.send_commit is None && s.send_reveal is None && s.tally is None
                            && s.mark == p.mark && signed_storage_cleaned(*old(self), *final(self)),
                        SignedWork::SendCommit => s.store_random is None && s.send_reveal is None
                            && s.tally is None && signed_storage_kept(*old(self), *final(self)) && if !can_sign {
                            s.result == Err::<(), WorkerError>(WorkerError::NoLocalAccounts)
                                && s.send_commit is None && s.mark is None
                        } else if stored is Err {
                            s.result == Err::<(), WorkerError>(WorkerError::GetLocalErr)
                                && s.send_commit is None && s.mark is None
                        } else {
                            s.result == Ok::<(), WorkerError>(()) && s.mark == p.mark
                                && (s.send_commit matches Some((n, h)) && stored == Ok::<Option<u64>, ()>(Some(n))
                                && h@ == commitment_of(n))
                        },
                        SignedWork::SendReveal => s.store_random is None && s.send_commit is None
                            && s.tally is None && signed_storage_kept(*old(self), *final(self)) && if !can_sign {
                            s.result == Err::<(), WorkerError>(WorkerError::NoLocalAccounts)
                                && s.send_reveal is None && s.mark is None
                        } else if stored is Err {
                            s.result == Err::<(), WorkerError>(WorkerError::GetLocalErr)
                                && s.send_reveal is None && s.mark is None
                        } else {
                            s.result == Ok::<(), WorkerError>(()) && s.mark == p.mark
                                && (s.send_reveal matches Some(n) && stored == Ok::<Option<u64>, ()>(Some(n)))
                        },
                        SignedWork::VerifyVotes => s.store_random is None && s.send_commit is None
                            && s.send_reveal is None && s.mark == p.mark && signed_tally_outcome(
                            *old(self),
                            *final(self),
                            match s.tally {
                                Some(t) => Ok(t),
                                None => Err(WorkerError::HashVerifyFailed),
                            },
                        ) && s.result == if s.tally is Some {
                            Ok::<(), WorkerError>(())
                        } else {
                            Err::<(), WorkerError>(WorkerError::HashVerifyFailed)
                        },
                    },
                }
            }),
    {
        let commits = self.commit_count();
        let reveals = self.reveal_count();
        let plan = match submit_signed_tx(block, state, index, commits, reveals) {
            Err(e) => return SignedStep::quiet(Err(e), None),
            Ok(p) => p,
        };
        match plan.work {
            SignedWork::Idle => SignedStep::quiet(Ok(()), plan.mark),
            SignedWork::CleanAndDraw => {
                self.clean_pallet_storage();
                let n = random_from_seed(seed);
                let mut s = SignedStep::quiet(Ok(()), plan.mark);
                s.store_random = Some(n);
                s
            },
            SignedWork::SendCommit => match signed_commit(can_sign, stored) {
                Err(e) => SignedStep::quiet(Err(e), None),
                Ok(c) => {
                    let mut s = SignedStep::quiet(Ok(()), plan.mark);
                    s.send_commit = Some(c);
                    s
                },
            },
            SignedWork::SendReveal => match signed_reveal(can_sign, stored) {
                Err(e) => SignedStep::quiet(Err(e), None),
                Ok(n) => {
                    let mut s = SignedStep::quiet(Ok(()), plan.mark);
                    s.send_reveal = Some(n);
                    s
                },
            },
            SignedWork::VerifyVotes => match self.verify_vote_result() {
                Ok(t) => {
                    let mut s = SignedStep::quiet(Ok(()), plan.mark);
                    s.tally = Some(t);
                    s
                },
                Err(e) => SignedStep::quiet(Err(e), plan.mark),
            },
        }
    }
}

/// The round goes through its stages one at a time, and starts over twenty
/// blocks after the tally: every stage the worker records is the successor
/// of the stored one in the cycle (or the initial stage, recorded at block
/// 1), entered at the current block; commitments and reveals are sent five
/// blocks after entering their stage, and the tally five blocks after the
/// reveals are complete.
pub proof fn lemma_stage_cycle(
    block: u64,
    state: Result<Option<u64>, ()>,
    index: Result<Option<u64>, ()>,
    commits: usize,
    reveals: usize,
)
    requires
        !submit_signed_tx_fails(block, state, index),
        submit_signed_tx_plan(block, state, index, commits, reveals) is Ok,
    ensures
        ({
            let p = submit_signed_tx_plan(block, state, index, commits, reveals).unwrap();
            &&& p.mark matches Some(m) ==> (m.index == block && if block < 3 {
                block == 1 && m.state == STATE_INIT
            } else {
                state matches Ok(Some(s)) && s <= STATE_FINISH && m.state == if s == STATE_FINISH {
                    STATE_INIT as int
                } else {
                    s + 1
                }
            })
            &&& p.work == SignedWork::SendCommit ==> (index matches Ok(Some(last)) && block == last + 5
                && state == Ok::<Option<u64>, ()>(Some(STATE_COMMIT)))
            &&& p.work == SignedWork::SendReveal ==> (index matches Ok(Some(last)) && block == last + 5
                && state == Ok::<Option<u64>, ()>(Some(STATE_REVEAL)))
            &&& p.work == SignedWork::VerifyVotes ==> (index matches Ok(Some(last)) && block == last + 5
                && state == Ok::<Option<u64>, ()>(Some(STATE_REVEAL_DONE)))
            &&& p.work == SignedWork::CleanAndDraw ==> state == Ok::<Option<u64>, ()>(Some(STATE_INIT))
        }),
{
}

/// What every local account commits to, it reveals and has accepted: the
/// commitment `signed_commit` makes for the stored number passes the tally's
/// check once `signed_reveal` has revealed that number for the account.
pub proof fn lemma_signed_commitment_accepted(p: &Pallet, i: int, n: u64)
    requires
        0 <= i < p.commit_listing().len(),
        p.commit_listing()[i].1@ == commitment_of(n),
        p.reveals().contains_key(p.commit_listing()[i].0@),
        p.reveals()[p.commit_listing()[i].0@] == n,
    ensures
        crate::tally::commit_matches(p.commit_listing()[i], p.reveals()),
{
}

/// Reveals from accounts that never committed change nothing in a tally:
/// tallying two storages that hold the same commitments, and reveals that
/// give every committed account the same number, gives the same result,
/// the same revealed numbers and round's number, and the same next
/// committee.
pub proof fn lemma_signed_tally_ignores_uncommitted_reveals(
    before1: Pallet,
    after1: Pallet,
    r1: Result<VoteTally, WorkerError>,
    before2: Pallet,
    after2: Pallet,
    r2: Result<VoteTally, WorkerError>,
)
    requires
        before1.wf(),
        signed_tally_outcome(before1, after1, r1),
        signed_tally_outcome(before2, after2, r2),
        before2.commit_listing() == before1.commit_listing(),
        forall|k: Seq<u8>|
            #[trigger] before1.commits().contains_key(k) ==> crate::tally::revealed_value(before1.reveals(), k)
                == crate::tally::revealed_value(before2.reveals(), k),
    ensures
        r1 is Ok <==> r2 is Ok,
        r1 is Err ==> r1 == r2,
        r1 matches Ok(t1) ==> (r2 matches Ok(t2) && t1.random_numbers@ == t2.random_numbers@
            && t1.random_number == t2.random_number && after1.members() == after2.members()),
{
    let l = before1.commit_listing();
    before1.lemma_commit_listing();
    assert forall|i: int| 0 <= i < l.len() implies crate::tally::revealed_value(before1.reveals(), #[trigger] l[i].0@)
        == crate::tally::revealed_value(before2.reveals(), l[i].0@) by {
        assert(before1.commits().contains_key(l[i].0@));
    }
    crate::tally::lemma_tally_reads_committed_reveals(l, before1.reveals(), before2.reveals());
    if r1 is Ok && r2 is Ok {
        let t1 = r1->Ok_0;
        let t2 = r2->Ok_0;
        crate::tally::lemma_nearest_members_unique(
            after1.members(),
            after2.members(),
            crate::tally::entries_map(crate::tally::distance_entries(l, t1.random_number)),
            crate::tally::COMMITTEE_SIZE as nat,
        );
    }
}

/// A waiting stage moves on only with every member counted: the reveal
/// stage is recorded only when `MEMBER_COUNT` commitments are stored, and
/// the stage after waiting for reveals only when `MEMBER_COUNT` reveals are
/// stored; with any other count the worker does nothing and records nothing.
pub proof fn lemma_signed_waits_for_every_member(block: u64, last: u64, commits: usize, reveals: usize)
    ensures
        ({
            let idle = Ok::<SignedPlan, WorkerError>(
                SignedPlan { work: SignedWork::Idle, mark: None, mark_needs_success: false },
            );
            let waiting_commits = submit_signed_tx_plan(
                block,
                Ok(Some(STATE_WAIT_COMMIT_DONE)),
                Ok(Some(last)),
                commits,
                reveals,
            );
            let waiting_reveals = submit_signed_tx_plan(
                block,
                Ok(Some(STATE_WAIT_REVEAL_DONE)),
                Ok(Some(last)),
                commits,
                reveals,
            );
            &&& block >= 3 && commits != MEMBER_COUNT ==> waiting_commits == idle
            &&& block >= 3 && reveals != MEMBER_COUNT ==> waiting_reveals == idle
            &&& (waiting_commits matches Ok(p) && p.mark matches Some(m) && m.state == STATE_REVEAL) ==> commits
                == MEMBER_COUNT
            &&& (waiting_reveals matches Ok(p) && p.mark matches Some(m) && m.state == STATE_REVEAL_DONE)
                ==> reveals == MEMBER_COUNT
        }),
{
}

/// The round moves on where it is due: from block 3, the initial stage
/// clears storage, draws the round's number and enters the commit stage;
/// commitments are sent five blocks after entering the commit stage; the
/// reveal stage is entered as soon as all `MEMBER_COUNT` commitments are
/// stored; reveals are sent five blocks after entering it; the tally stage
/// is entered as soon as all reveals are stored; the tally runs five blocks
/// later; and a new round starts twenty blocks after that. Each step records
/// the next stage at the current block; sending only once it succeeded.
pub proof fn lemma_signed_round_advances(block: u64, last: u64, commits: usize, reveals: usize)
    requires
        block >= 3,
    ensures
        ({
            let plan = |s: u64| submit_signed_tx_plan(block, Ok(Some(s)), Ok(Some(last)), commits, reveals);
            let at = |s: u64| Some(StageMark { state: s, index: block });
            let idle = Ok::<SignedPlan, WorkerError>(
                SignedPlan { work: SignedWork::Idle, mark: None, mark_needs_success: false },
            );
            &&& plan(STATE_INIT) == Ok::<SignedPlan, WorkerError>(
                SignedPlan { work: SignedWork::CleanAndDraw, mark: at(STATE_COMMIT), mark_needs_success: false },
            )
            &&& block == last + 5 ==> plan(STATE_COMMIT) == Ok::<SignedPlan, WorkerError>(
                SignedPlan { work: SignedWork::SendCommit, mark: at(STATE_WAIT_COMMIT_DONE), mark_needs_success: true },
            )
            &&& commits == MEMBER_COUNT ==> plan(STATE_WAIT_COMMIT_DONE) == Ok::<SignedPlan, WorkerError>(
                SignedPlan { work: SignedWork::Idle, mark: at(STATE_REVEAL), mark_needs_success: false },
            )
            &&& block == last + 5 ==> plan(STATE_REVEAL) == Ok::<SignedPlan, WorkerError>(
                SignedPlan { work: SignedWork::SendReveal, mark: at(STATE_WAIT_REVEAL_DONE), mark_needs_success: true },
            )
            &&& reveals == MEMBER_COUNT ==> plan(STATE_WAIT_REVEAL_DONE) == Ok::<SignedPlan, WorkerError>(
                SignedPlan { work: SignedWork::Idle, mark: at(STATE_REVEAL_DONE), mark_needs_success: false },
            )
            &&& block == last + 5 ==> plan(STATE_REVEAL_DONE) == Ok::<SignedPlan, WorkerError>(
                SignedPlan { work: SignedWork::VerifyVotes, mark: at(STATE_FINISH), mark_needs_success: false },
            )
            &&& block == last + 20 ==> plan(STATE_FINISH) == Ok::<SignedPlan, WorkerError>(
                SignedPlan { work: SignedWork::Idle, mark: at(STATE_INIT), mark_needs_success: false },
            )
            &&& block != last + 5 ==> plan(STATE_COMMIT) == idle && plan(STATE_REVEAL) == idle && plan(
                STATE_REVEAL_DONE,
            ) == idle
            &&& block != last + 20 ==> plan(STATE_FINISH) == idle
        }),
{
}

/// Before block 3 the worker only records the initial stage, at block 1,
/// whatever local storage holds; from block 3 on, a failed read of the
/// stage or of its block is `GetLocalError`.
pub proof fn lemma_signed_quiet_before_round(
    block: u64,
    state: Result<Option<u64>, ()>,
    index: Result<Option<u64>, ()>,
    commits: usize,
    reveals: usize,
)
    ensures
        block < 3 ==> submit_signed_tx_plan(block, state, index, commits, reveals) == Ok::<SignedPlan, WorkerError>(
            SignedPlan {
                work: SignedWork::Idle,
                mark: if block == 1 { Some(StageMark { state: STATE_INIT, index: 1 }) } else { None },
                mark_needs_success: false,
            },
        ),
        block >= 3 && (state is Err || (state is Ok && index is Err)) ==> submit_signed_tx_plan(
            block,
            state,
            index,
            commits,
            reveals,
        ) == Err::<SignedPlan, WorkerError>(WorkerError::GetLocalError),
{
}

} // verus!
