use commit_reveal::commit_reveal_pallet::{
    StageMark, STATE_COMMIT, STATE_FINISH, STATE_INIT, STATE_REVEAL, STATE_REVEAL_DONE,
    STATE_WAIT_COMMIT_DONE, STATE_WAIT_REVEAL_DONE,
};
use commit_reveal::origin::{DispatchError, RawOrigin};
use commit_reveal::signed_tx_pallet::{
    mix_seed, mixes_seed_at, random_from_seed, signed_commit, signed_mark_after, signed_reveal,
    submit_signed_tx, Pallet, PricePayload, SignedWork, WorkerError,
};
use commit_reveal::tally::commitment;
use sp_core::Hasher;

fn plan(block: u64, state: u64, last: u64, commits: usize, reveals: usize) -> (SignedWork, Option<StageMark>, bool) {
    let p = submit_signed_tx(block, Ok(Some(state)), Ok(Some(last)), commits, reveals).unwrap();
    (p.work, p.mark, p.mark_needs_success)
}

#[test]
fn signed_calls_record_the_caller() {
    let mut p = Pallet::new();
    assert_eq!(p.proposal_commit(&RawOrigin::Unsigned, 1, vec![1; 32]), Err(DispatchError::BadOrigin));
    assert_eq!(p.proposal_commit(&RawOrigin::Signed(vec![7; 32]), 1, commitment(3)), Ok(()));
    assert_eq!(p.proposal_reveal(&RawOrigin::Signed(vec![7; 32]), 2, 3), Ok(()));
    assert_eq!(p.proposal_reveal(&RawOrigin::Root, 2, 3), Err(DispatchError::BadOrigin));
    assert_eq!((p.commit_count(), p.reveal_count()), (1, 1));
    let t = p.verify_vote_result().unwrap();
    assert_eq!(t.random_number, 3);
    assert_eq!(p.next_members(), &vec![vec![7u8; 32]]);
    p.clean_pallet_storage();
    assert_eq!((p.commit_count(), p.reveal_count()), (0, 0));
    assert_eq!(p.next_members().len(), 1);
    assert!(p.prices().is_empty());
    assert_eq!(p.next_unsigned_at(), 0);
}

#[test]
fn tampered_signed_round_fails() {
    let mut p = Pallet::new();
    p.proposal_commit(&RawOrigin::Signed(vec![7; 32]), 1, commitment(3)).unwrap();
    p.proposal_reveal(&RawOrigin::Signed(vec![7; 32]), 2, 4).unwrap();
    let e = p.verify_vote_result().err().unwrap();
    assert_eq!(e, WorkerError::HashVerifyFailed);
    assert_eq!(e.message(), "hash verify failed");
}

#[test]
fn signed_round_cycle() {
    assert_eq!(submit_signed_tx(1, Ok(None), Ok(None), 0, 0).unwrap().mark, Some(StageMark { state: STATE_INIT, index: 1 }));
    assert_eq!(submit_signed_tx(2, Err(()), Err(()), 0, 0).unwrap().mark, None);
    assert_eq!(submit_signed_tx(3, Err(()), Ok(Some(1)), 0, 0), Err(WorkerError::GetLocalError));
    assert_eq!(plan(3, STATE_INIT, 1, 0, 0), (SignedWork::CleanAndDraw, Some(StageMark { state: STATE_COMMIT, index: 3 }), false));
    assert_eq!(plan(8, STATE_COMMIT, 3, 0, 0), (SignedWork::SendCommit, Some(StageMark { state: STATE_WAIT_COMMIT_DONE, index: 8 }), true));
    assert_eq!(plan(9, STATE_WAIT_COMMIT_DONE, 8, 5, 0), (SignedWork::Idle, Some(StageMark { state: STATE_REVEAL, index: 9 }), false));
    assert_eq!(plan(14, STATE_REVEAL, 9, 5, 0), (SignedWork::SendReveal, Some(StageMark { state: STATE_WAIT_REVEAL_DONE, index: 14 }), true));
    assert_eq!(plan(15, STATE_WAIT_REVEAL_DONE, 14, 5, 5), (SignedWork::Idle, Some(StageMark { state: STATE_REVEAL_DONE, index: 15 }), false));
    assert_eq!(plan(16, STATE_REVEAL_DONE, 15, 5, 5).1, None);
    assert_eq!(plan(20, STATE_REVEAL_DONE, 15, 5, 5), (SignedWork::VerifyVotes, Some(StageMark { state: STATE_FINISH, index: 20 }), false));
    assert_eq!(plan(39, STATE_FINISH, 20, 5, 5).1, None);
    assert_eq!(plan(40, STATE_FINISH, 20, 5, 5), (SignedWork::Idle, Some(StageMark { state: STATE_INIT, index: 40 }), false));
}

#[test]
fn signed_mark_only_after_success() {
    let p = submit_signed_tx(14, Ok(Some(STATE_REVEAL)), Ok(Some(9)), 0, 0).unwrap();
    assert_eq!(signed_mark_after(&p, false), None);
    assert_eq!(signed_mark_after(&p, true), Some(StageMark { state: STATE_WAIT_REVEAL_DONE, index: 14 }));
}

#[test]
fn signed_commit_and_reveal_preconditions() {
    assert_eq!(signed_commit(false, Ok(Some(3))).err(), Some(WorkerError::NoLocalAccounts));
    assert_eq!(signed_commit(true, Err(())).err(), Some(WorkerError::GetLocalErr));
    assert_eq!(signed_commit(true, Ok(Some(3))).unwrap(), (3, commitment(3)));
    assert_eq!(signed_reveal(false, Ok(Some(3))), Err(WorkerError::NoLocalAccounts));
    assert_eq!(signed_reveal(true, Err(())), Err(WorkerError::GetLocalErr));
    assert_eq!(signed_reveal(true, Ok(Some(9))), Ok(9));
    assert_eq!(WorkerError::GetLocalErr.message(), "GetLocalErr");
    assert_eq!(WorkerError::GetLocalError.message(), "GetLocalError");
}

#[test]
fn seed_number_and_mix() {
    let mut seed = [0u8; 32];
    seed[6] = 1;
    seed[7] = 2;
    seed[20] = 0xff;
    assert_eq!(random_from_seed(&seed), 0x0102);
    let h = <sp_core::Blake2Hasher as Hasher>::hash(&seed).0;
    let expected: Vec<u8> = h.iter().zip(seed.iter()).map(|(a, b)| a ^ b).collect();
    assert_eq!(mix_seed(&seed), expected);
    assert!(mixes_seed_at(12));
    assert!(!mixes_seed_at(13));
}

#[test]
fn price_payload_parts() {
    let p = PricePayload::new(5u32, 100, [1u8; 4]);
    assert_eq!(*p.public(), [1u8; 4]);
    assert_eq!(*p.block_number(), 5);
    assert_eq!(p.price(), 100);
}

#[test]
fn signed_steps_touch_storage() {
    let mut seed = [0u8; 32];
    seed[7] = 9;
    let mut p = Pallet::new();
    p.proposal_commit(&RawOrigin::Signed(vec![7; 32]), 1, commitment(3)).unwrap();
    let s = p.submit_signed_tx_step(1, Ok(None), Ok(None), true, Ok(None), &seed);
    assert_eq!(s.mark, Some(StageMark { state: STATE_INIT, index: 1 }));
    assert_eq!(p.commit_count(), 1);
    let s = p.submit_signed_tx_step(10, Ok(Some(STATE_INIT)), Ok(Some(1)), true, Ok(None), &seed);
    assert_eq!(s.store_random, Some(9));
    assert_eq!(s.mark, Some(StageMark { state: STATE_COMMIT, index: 10 }));
    assert_eq!(p.commit_count(), 0);
    let s = p.submit_signed_tx_step(15, Ok(Some(STATE_COMMIT)), Ok(Some(10)), false, Ok(Some(9)), &seed);
    assert_eq!((s.result, s.mark), (Err(WorkerError::NoLocalAccounts), None));
    let s = p.submit_signed_tx_step(15, Ok(Some(STATE_COMMIT)), Ok(Some(10)), true, Err(()), &seed);
    assert_eq!((s.result, s.mark), (Err(WorkerError::GetLocalErr), None));
    let s = p.submit_signed_tx_step(15, Ok(Some(STATE_COMMIT)), Ok(Some(10)), true, Ok(Some(9)), &seed);
    assert_eq!(s.send_commit, Some((9, commitment(9))));
    assert_eq!(s.mark, Some(StageMark { state: STATE_WAIT_COMMIT_DONE, index: 15 }));
    let s = p.submit_signed_tx_step(26, Ok(Some(STATE_REVEAL)), Ok(Some(21)), true, Ok(Some(9)), &seed);
    assert_eq!(s.send_reveal, Some(9));
    p.proposal_commit(&RawOrigin::Signed(vec![7; 32]), 1, commitment(3)).unwrap();
    p.proposal_reveal(&RawOrigin::Signed(vec![7; 32]), 1, 3).unwrap();
    let s = p.submit_signed_tx_step(40, Ok(Some(STATE_REVEAL_DONE)), Ok(Some(35)), true, Ok(Some(9)), &seed);
    assert_eq!(s.result, Ok(()));
    assert_eq!(s.mark, Some(StageMark { state: STATE_FINISH, index: 40 }));
    assert_eq!(s.tally.unwrap().random_number, 3);
    assert_eq!(p.next_members(), &vec![vec![7u8; 32]]);
    let s = p.submit_signed_tx_step(9, Err(()), Ok(Some(1)), true, Ok(Some(9)), &seed);
    assert_eq!((s.result, s.mark), (Err(WorkerError::GetLocalError), None));
}
