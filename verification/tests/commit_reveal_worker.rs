use commit_reveal::commit_reveal_pallet::{
    authority_number_exec, commit_proposal, lists_authorities, map_test, mark_after, reveal_proposal,
    select_members, select_members_2, validate_unsigned, Call, GenesisConfig, MapTestWork, OffchainErr,
    Pallet, ScheduleWork, StageMark, StageWork, STATE_COMMIT, STATE_FINISH, STATE_INIT, STATE_REVEAL,
    STATE_REVEAL_DONE, STATE_WAIT_COMMIT_DONE, STATE_WAIT_REVEAL_DONE,
};
use commit_reveal::tally::VoteTally;
use commit_reveal::origin::{DispatchError, RawOrigin};
use commit_reveal::tally::commitment;

fn key(i: u8) -> Vec<u8> {
    let mut k = vec![0u8; 32];
    k[0] = i;
    k[7] = 1;
    k
}

#[test]
fn calls_need_an_unsigned_origin() {
    let mut p = Pallet::new();
    assert_eq!(p.say_hello(&RawOrigin::Unsigned, 3), Ok(()));
    assert_eq!(p.say_hello(&RawOrigin::Root, 3), Err(DispatchError::BadOrigin));
    assert_eq!(
        p.proposal_commit(&RawOrigin::Signed(vec![1]), 3, key(1), vec![9; 32]),
        Err(DispatchError::BadOrigin)
    );
    assert_eq!(p.commit_count(), 0);
    assert_eq!(p.proposal_commit(&RawOrigin::Unsigned, 3, key(1), vec![9; 32]), Ok(()));
    assert_eq!(p.proposal_commit(&RawOrigin::Unsigned, 4, key(1), vec![8; 32]), Ok(()));
    assert_eq!(p.commit_count(), 1);
    assert_eq!(p.proposal_reveal(&RawOrigin::Unsigned, 4, key(1), 77), Ok(()));
    assert_eq!(p.reveal_count(), 1);
    assert_eq!(p.insert_testmap(&RawOrigin::Unsigned, vec![1, 2], 5), Ok(()));
    assert_eq!(p.insert_testmap(&RawOrigin::Root, vec![1, 2], 6), Err(DispatchError::BadOrigin));
}

#[test]
fn clean_storage_empties_the_round() {
    let mut p = Pallet::new();
    p.proposal_commit(&RawOrigin::Unsigned, 1, key(1), commitment(5)).unwrap();
    p.proposal_reveal(&RawOrigin::Unsigned, 1, key(1), 5).unwrap();
    assert!(p.verify_vote_result().is_ok());
    assert_eq!(p.next_members().len(), 1);
    p.clean_pallet_storage();
    assert_eq!(p.commit_count(), 0);
    assert_eq!(p.reveal_count(), 0);
    assert!(p.next_members().is_empty());
}

#[test]
fn full_round_elects_committee() {
    let mut p = Pallet::new();
    for i in 1..=5u8 {
        let prop = commit_proposal(&key(i), 20);
        p.proposal_commit(&RawOrigin::Unsigned, 20, key(i), prop.hash).unwrap();
    }
    for i in 1..=5u8 {
        p.proposal_reveal(&RawOrigin::Unsigned, 25, key(i), authority_number_exec(&key(i), 20)).unwrap();
    }
    let t = p.verify_vote_result().expect("honest round");
    assert_eq!(t.random_numbers.len(), 5);
    assert_eq!(p.next_members().len(), 3);
    assert_eq!(p.next_members(), &t.members);
}

#[test]
fn tampered_reveal_is_refused() {
    let mut p = Pallet::new();
    p.proposal_commit(&RawOrigin::Unsigned, 1, key(1), commitment(5)).unwrap();
    p.proposal_reveal(&RawOrigin::Unsigned, 1, key(1), 6).unwrap();
    assert!(matches!(p.verify_vote_result(), Err(OffchainErr::VerifyCommitHash)));
    assert!(p.next_members().is_empty());
}

#[test]
fn authority_number_is_key_prefix_xor_block() {
    let k = vec![0, 0, 0, 0, 0, 0, 1, 0, 0xaa, 0xbb];
    assert_eq!(authority_number_exec(&k, 0x0f), 0x010f);
    let prop = commit_proposal(&k, 0x0f);
    assert_eq!(prop.random, 0x010f);
    assert_eq!(prop.hash, commitment(0x010f));
}

#[test]
fn reveal_proposal_reads_local_storage() {
    assert_eq!(reveal_proposal(Ok(Some(4))), Ok(Some(4)));
    assert_eq!(reveal_proposal(Ok(None)), Ok(None));
    assert_eq!(reveal_proposal(Err(())), Err(OffchainErr::GetLocalStorage));
}

fn plan(block: u64, state: u64, last: u64, commits: u64, reveals: u64) -> (StageWork, Option<StageMark>, bool) {
    let p = select_members_2(block, true, Ok(Some(state)), Ok(Some(last)), commits, reveals).unwrap();
    (p.work, p.mark, p.mark_needs_success)
}

#[test]
fn early_blocks_only_initialise() {
    let p = select_members_2(1, false, Ok(None), Ok(None), 0, 0).unwrap();
    assert_eq!(p.mark, Some(StageMark { state: STATE_INIT, index: 1 }));
    assert_eq!(p.work, StageWork::Idle);
    let p = select_members_2(3, true, Err(()), Err(()), 0, 0).unwrap();
    assert_eq!(p.mark, None);
    let p = select_members_2(9, false, Err(()), Err(()), 0, 0).unwrap();
    assert_eq!(p.mark, None);
    assert_eq!(select_members_2(9, true, Err(()), Ok(Some(1)), 0, 0), Err(OffchainErr::GetLocalStorage));
    assert_eq!(select_members_2(9, true, Ok(Some(1)), Err(()), 0, 0), Err(OffchainErr::GetLocalStorage));
}

#[test]
fn stages_advance_in_order() {
    assert_eq!(plan(10, STATE_INIT, 1, 0, 0), (StageWork::CleanStorage, Some(StageMark { state: STATE_COMMIT, index: 10 }), false));
    assert_eq!(plan(15, STATE_COMMIT, 10, 0, 0), (StageWork::SendCommit, Some(StageMark { state: STATE_WAIT_COMMIT_DONE, index: 15 }), true));
    assert_eq!(plan(14, STATE_COMMIT, 10, 0, 0).1, None);
    assert_eq!(plan(20, STATE_WAIT_COMMIT_DONE, 15, 5, 0).1, None);
    assert_eq!(plan(21, STATE_WAIT_COMMIT_DONE, 15, 5, 0), (StageWork::Idle, Some(StageMark { state: STATE_REVEAL, index: 21 }), false));
    assert_eq!(plan(21, STATE_WAIT_COMMIT_DONE, 15, 4, 0).1, None);
    assert_eq!(plan(26, STATE_REVEAL, 21, 5, 0), (StageWork::SendReveal, Some(StageMark { state: STATE_WAIT_REVEAL_DONE, index: 26 }), true));
    assert_eq!(plan(31, STATE_WAIT_REVEAL_DONE, 26, 5, 5), (StageWork::Idle, Some(StageMark { state: STATE_REVEAL_DONE, index: 31 }), false));
    assert_eq!(plan(32, STATE_WAIT_REVEAL_DONE, 26, 5, 5).1, None);
    assert_eq!(plan(40, STATE_REVEAL_DONE, 31, 5, 5), (StageWork::VerifyVotes, Some(StageMark { state: STATE_FINISH, index: 40 }), false));
    assert_eq!(plan(99, STATE_FINISH, 40, 5, 5), (StageWork::Idle, None, false));
    assert_eq!(plan(99, 42, 40, 5, 5), (StageWork::Idle, None, false));
}

#[test]
fn failed_commit_keeps_the_stage() {
    let p = select_members_2(15, true, Ok(Some(STATE_COMMIT)), Ok(Some(10)), 0, 0).unwrap();
    assert_eq!(mark_after(&p, false), None);
    assert_eq!(mark_after(&p, true), Some(StageMark { state: STATE_WAIT_COMMIT_DONE, index: 15 }));
    let v = select_members_2(40, true, Ok(Some(STATE_REVEAL_DONE)), Ok(Some(31)), 0, 0).unwrap();
    assert_eq!(mark_after(&v, false), Some(StageMark { state: STATE_FINISH, index: 40 }));
}

#[test]
fn block_schedule() {
    assert_eq!(select_members(43 + 3, false), ScheduleWork::ClearRound);
    assert_eq!(select_members(5, true), ScheduleWork::SendCommit);
    assert_eq!(select_members(5, false), ScheduleWork::Idle);
    assert_eq!(select_members(20, true), ScheduleWork::SendReveal);
    assert_eq!(select_members(86 + 37, false), ScheduleWork::Tally);
    assert_eq!(select_members(6, true), ScheduleWork::Idle);
    assert_eq!(map_test(38, false), MapTestWork::ClearReveals);
    assert_eq!(map_test(42, true), MapTestWork::RevealAuthorityNumber);
    assert_eq!(map_test(42, false), MapTestWork::Idle);
    assert_eq!(map_test(36, true), MapTestWork::ShowCommits);
    assert!(lists_authorities(21));
    assert!(!lists_authorities(1));
    assert!(!lists_authorities(22));
}

#[test]
fn unsigned_calls_are_valid() {
    let v = validate_unsigned(&Call::SayHello(1), 7, 100);
    assert_eq!(v.tag_prefix, "CommitReveal");
    assert_eq!((v.priority, v.provides_session, v.provides_index, v.longevity, v.propagate), (100, 7, 0, 2, false));
    let v = validate_unsigned(&Call::InsertTestmap(vec![1], 2), 3, 4);
    assert_eq!((v.priority, v.provides_session), (4, 3));
}

#[test]
fn genesis_default_has_no_authorities() {
    let g = GenesisConfig::default();
    assert!(g.authorities.is_empty());
}

#[test]
fn initialisation_takes_no_weight() {
    let p = Pallet::new();
    assert_eq!(p.on_initialize(12), 0);
}

fn stored_key(k: &[u8]) -> Vec<u8> {
    let mut s = sp_crypto_hashing::blake2_128(k).to_vec();
    s.extend_from_slice(k);
    s
}

fn honest_pallet(n: u8) -> Pallet {
    let mut p = Pallet::new();
    for i in 1..=n {
        let prop = commit_proposal(&key(i), 20);
        p.proposal_commit(&RawOrigin::Unsigned, 20, key(i), prop.hash).unwrap();
        p.proposal_reveal(&RawOrigin::Unsigned, 25, key(i), prop.random).unwrap();
    }
    p
}

#[test]
fn offchain_error_texts() {
    assert_eq!(
        OffchainErr::WaitingForInclusion(1234).message(),
        "Heartbeat already sent at 1234. Waiting for inclusion."
    );
    assert_eq!(OffchainErr::WaitingForInclusion(0).message(), "Heartbeat already sent at 0. Waiting for inclusion.");
    assert_eq!(
        OffchainErr::WaitingForInclusion(u64::MAX).message(),
        "Heartbeat already sent at 18446744073709551615. Waiting for inclusion."
    );
    assert_eq!(OffchainErr::SubmitTransaction.message(), "Failed to submit transaction");
    assert_eq!(OffchainErr::GetLocalStorage.message(), "Failed to get local storage");
    assert_eq!(OffchainErr::VerifyCommitHash.message(), "Commit hash verify failed");
}

#[test]
fn tally_reads_commitments_in_storage_order() {
    let mut p = honest_pallet(5);
    let t = p.verify_vote_result().unwrap();
    let mut order: Vec<(Vec<u8>, u64)> =
        (1..=5u8).map(|i| (stored_key(&key(i)), authority_number_exec(&key(i), 20))).collect();
    order.sort();
    let expected: Vec<u64> = order.into_iter().map(|(_, n)| n).collect();
    assert_eq!(t.random_numbers, expected);
    assert_eq!(t.random_number, expected.iter().fold(0, |a, b| a ^ b));
    let stored: Vec<Vec<u8>> = p.commit_entries().iter().map(|(k, _)| stored_key(k)).collect();
    let mut sorted = stored.clone();
    sorted.sort();
    assert_eq!(stored, sorted);
    let revealed: Vec<Vec<u8>> = p.reveal_entries().iter().map(|(k, _)| stored_key(k)).collect();
    assert_eq!(revealed, sorted);
}

#[test]
fn uncommitted_reveal_changes_nothing() {
    let mut p1 = honest_pallet(4);
    let mut p2 = honest_pallet(4);
    p2.proposal_reveal(&RawOrigin::Unsigned, 25, key(9), 12345).unwrap();
    let t1: VoteTally = p1.verify_vote_result().unwrap();
    let t2: VoteTally = p2.verify_vote_result().unwrap();
    assert_eq!(t1.random_numbers, t2.random_numbers);
    assert_eq!(t1.random_number, t2.random_number);
    assert_eq!(p1.next_members(), p2.next_members());
}

#[test]
fn staged_step_runs_a_round() {
    let auth = Some(key(3));
    let mut p = Pallet::new();
    p.proposal_commit(&RawOrigin::Unsigned, 1, key(1), commitment(5)).unwrap();
    let s = p.select_members_2_step(1, &auth, Ok(None), Ok(None), Ok(None));
    assert_eq!(s.mark, Some(StageMark { state: STATE_INIT, index: 1 }));
    assert_eq!(p.commit_count(), 1);
    let s = p.select_members_2_step(10, &auth, Ok(Some(STATE_INIT)), Ok(Some(1)), Ok(None));
    assert_eq!(s.result, Ok(()));
    assert_eq!(s.mark, Some(StageMark { state: STATE_COMMIT, index: 10 }));
    assert_eq!(p.commit_count(), 0);
    let s = p.select_members_2_step(15, &auth, Ok(Some(STATE_COMMIT)), Ok(Some(10)), Ok(None));
    let n = authority_number_exec(&key(3), 15);
    assert_eq!(s.store_random, Some(n));
    match &s.submit {
        Some(Call::ProposalCommit(b, a, h)) => {
            assert_eq!((*b, a.clone(), h.clone()), (15, key(3), commitment(n)));
        }
        _ => panic!("expected a commitment"),
    }
    assert_eq!(s.finish(false), (Err(OffchainErr::SubmitTransaction), None));
    assert_eq!(s.finish(true), (Ok(()), Some(StageMark { state: STATE_WAIT_COMMIT_DONE, index: 15 })));
    let s = p.select_members_2_step(26, &auth, Ok(Some(STATE_REVEAL)), Ok(Some(21)), Err(()));
    assert_eq!(s.finish(true), (Err(OffchainErr::GetLocalStorage), None));
    let s = p.select_members_2_step(26, &auth, Ok(Some(STATE_REVEAL)), Ok(Some(21)), Ok(Some(n)));
    assert!(matches!(&s.submit, Some(Call::ProposalReveal(26, a, m)) if *a == key(3) && *m == n));
    assert_eq!(s.finish(true).1, Some(StageMark { state: STATE_WAIT_REVEAL_DONE, index: 26 }));
    let mut q = honest_pallet(5);
    let s = q.select_members_2_step(40, &auth, Ok(Some(STATE_REVEAL_DONE)), Ok(Some(31)), Ok(None));
    assert_eq!(s.result, Ok(()));
    assert_eq!(s.mark, Some(StageMark { state: STATE_FINISH, index: 40 }));
    assert_eq!(q.next_members(), &s.tally.unwrap().members);
    let mut bad = Pallet::new();
    bad.proposal_commit(&RawOrigin::Unsigned, 1, key(1), commitment(5)).unwrap();
    let s = bad.select_members_2_step(40, &auth, Ok(Some(STATE_REVEAL_DONE)), Ok(Some(31)), Ok(None));
    assert_eq!(s.finish(true), (Err(OffchainErr::VerifyCommitHash), Some(StageMark { state: STATE_FINISH, index: 40 })));
    assert!(s.tally.is_none());
}

#[test]
fn scheduled_steps_touch_storage() {
    let auth = Some(key(4));
    let mut p = honest_pallet(3);
    let s = p.select_members_step(37, &auth, Ok(None));
    assert_eq!(s.result, Ok(()));
    assert_eq!(p.next_members().len(), 3);
    let s = p.select_members_step(43 + 3, &auth, Ok(None));
    assert!(s.submit.is_none());
    assert_eq!((p.commit_count(), p.reveal_count(), p.next_members().len()), (0, 0, 0));
    let s = p.select_members_step(5, &auth, Ok(None));
    assert_eq!(s.store_random, Some(authority_number_exec(&key(4), 5)));
    let s = p.select_members_step(20, &auth, Ok(None));
    assert!(s.submit.is_none() && s.result == Ok(()));
    let s = p.select_members_step(20, &auth, Err(()));
    assert_eq!(s.result, Err(OffchainErr::GetLocalStorage));
    let mut q = honest_pallet(2);
    let s = q.map_test_step(38, &auth);
    assert!(s.submit.is_none());
    assert_eq!((q.commit_count(), q.reveal_count()), (2, 0));
    let s = q.map_test_step(42, &auth);
    assert!(matches!(&s.submit, Some(Call::ProposalReveal(42, a, m)) if *a == key(4) && *m == authority_number_exec(&key(4), 42)));
    let s = q.map_test_step(42, &None);
    assert!(s.submit.is_none());
}

#[test]
fn short_keys_are_fine_where_no_commitment_is_due() {
    let short = Some(vec![1u8, 2]);
    let mut p = honest_pallet(2);
    let s = p.map_test_step(38, &short);
    assert_eq!(s.result, Ok(()));
    assert_eq!(p.reveal_count(), 0);
    let s = p.select_members_step(20, &short, Ok(Some(7)));
    assert!(matches!(&s.submit, Some(Call::ProposalReveal(20, a, 7)) if *a == vec![1u8, 2]));
    let s = p.select_members_2_step(26, &short, Ok(Some(STATE_REVEAL)), Ok(Some(21)), Ok(Some(7)));
    assert!(matches!(&s.submit, Some(Call::ProposalReveal(26, a, 7)) if *a == vec![1u8, 2]));
}
