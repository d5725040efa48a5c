use commit_reveal::byte_map::ByteKeyMap;
use commit_reveal::storage_map::{KeyHasher, StorageMap};
use commit_reveal::tally::{check_reveals, commitment, nearest_committee, tally_votes, xor_numbers};
use sp_core::Hasher;

fn blake2(data: &[u8]) -> Vec<u8> {
    <sp_core::Blake2Hasher as Hasher>::hash(data).0.to_vec()
}

fn xor(a: &[u8], b: &[u8]) -> Vec<u8> {
    a.iter().zip(b.iter()).map(|(x, y)| x ^ y).collect()
}

fn account(i: u8) -> Vec<u8> {
    vec![i; 32]
}

#[test]
fn commitment_is_hash_of_big_endian_bytes() {
    let c = commitment(0x0102_0304_0506_0708);
    assert_eq!(c, blake2(&[1, 2, 3, 4, 5, 6, 7, 8]));
    assert_eq!(c.len(), 32);
    assert_ne!(c, vec![1, 2, 3, 4, 5, 6, 7, 8]);
}

#[test]
fn commitment_of_zero_known_digest() {
    // BLAKE2b-256 of eight zero bytes, as sp-core computes it.
    assert_eq!(commitment(0), blake2(&[0u8; 8]));
}

#[test]
fn xor_of_numbers() {
    assert_eq!(xor_numbers(&vec![]), 0);
    assert_eq!(xor_numbers(&vec![0b1100, 0b1010, 0b0001]), 0b0111);
    assert_eq!(xor_numbers(&vec![5, 5]), 0);
}

#[test]
fn xor_is_order_independent() {
    let a = vec![3u64, 77, 1 << 63, 12345];
    let b = vec![12345u64, 1 << 63, 3, 77];
    assert_eq!(xor_numbers(&a), xor_numbers(&b));
}

fn honest_round(numbers: &[u64]) -> (Vec<(Vec<u8>, Vec<u8>)>, StorageMap<u64>) {
    let mut commits = Vec::new();
    let mut reveals = StorageMap::new(KeyHasher::Twox64Concat);
    for (i, n) in numbers.iter().enumerate() {
        commits.push((account(i as u8), commitment(*n)));
        reveals.insert(account(i as u8), *n);
    }
    (commits, reveals)
}

#[test]
fn honest_round_is_accepted() {
    let numbers = [11u64, 22, 33, 44, 55];
    let (commits, reveals) = honest_round(&numbers);
    let t = tally_votes(&commits, &reveals).expect("all commitments match");
    assert_eq!(t.random_numbers, numbers.to_vec());
    assert_eq!(t.random_number, 11 ^ 22 ^ 33 ^ 44 ^ 55);
    assert_eq!(t.members.len(), 3);
}

#[test]
fn wrong_reveal_fails_the_round() {
    let (commits, mut reveals) = honest_round(&[1, 2, 3]);
    reveals.insert(account(1), 99);
    assert!(tally_votes(&commits, &reveals).is_none());
    assert!(check_reveals(&commits, &reveals).is_none());
}

#[test]
fn missing_reveal_counts_as_zero() {
    let commits = vec![(account(0), commitment(0))];
    let reveals = StorageMap::new(KeyHasher::Twox64Concat);
    assert_eq!(check_reveals(&commits, &reveals), Some(vec![0]));
    let commits = vec![(account(0), commitment(5))];
    assert_eq!(check_reveals(&commits, &reveals), None);
}

#[test]
fn committee_is_nearest_three() {
    let commits: Vec<(Vec<u8>, Vec<u8>)> = (0..6u8).map(|i| (account(i), vec![])).collect();
    let random = 0xdead_beef_u64;
    let members = nearest_committee(&commits, random);
    let rh = blake2(&random.to_be_bytes());
    let mut ranked: Vec<(Vec<u8>, Vec<u8>)> =
        commits.iter().map(|(a, _)| (xor(&blake2(a), &rh), a.clone())).collect();
    ranked.sort();
    let expected: Vec<Vec<u8>> = ranked.into_iter().take(3).map(|(_, a)| a).collect();
    assert_eq!(members, expected);
}

#[test]
fn committee_of_fewer_than_three() {
    let commits = vec![(account(1), vec![]), (account(2), vec![])];
    let members = nearest_committee(&commits, 7);
    assert_eq!(members.len(), 2);
    assert!(members.contains(&account(1)) && members.contains(&account(2)));
    assert!(nearest_committee(&vec![], 7).is_empty());
}

#[test]
fn committee_keeps_later_of_equal_distance() {
    // the same account twice has the same distance: one entry, the later one
    let commits = vec![(account(1), vec![1]), (account(1), vec![2])];
    let members = nearest_committee(&commits, 3);
    assert_eq!(members, vec![account(1)]);
}

#[test]
fn byte_map_read_after_write() {
    let mut m: ByteKeyMap<u64> = ByteKeyMap::new();
    m.insert(vec![1, 2], 5);
    m.insert(vec![3], 6);
    m.insert(vec![1, 2], 7);
    assert_eq!(m.len(), 2);
    assert_eq!(m.get(&[1, 2]), Some(&7));
    assert_eq!(m.get(&[9]), None);
    assert_eq!(m.remove(&[3]), Some(6));
    assert_eq!(m.len(), 1);
    m.clear();
    assert_eq!(m.len(), 0);
}

fn stored_key(k: &[u8]) -> Vec<u8> {
    let mut s = sp_crypto_hashing::twox_64(k).to_vec();
    s.extend_from_slice(k);
    s
}

#[test]
fn storage_map_lists_in_stored_key_order() {
    let keys: Vec<Vec<u8>> = vec![vec![3], vec![1, 2], vec![9, 9, 9], vec![0], account(7), account(2)];
    let mut m: StorageMap<u64> = StorageMap::new(KeyHasher::Twox64Concat);
    for (i, k) in keys.iter().enumerate() {
        m.insert(k.clone(), i as u64);
    }
    m.insert(vec![1, 2], 40);
    let mut expected: Vec<(Vec<u8>, Vec<u8>, u64)> =
        keys.iter().enumerate().map(|(i, k)| (stored_key(k), k.clone(), i as u64)).collect();
    expected.sort();
    let expected: Vec<(Vec<u8>, u64)> = expected
        .into_iter()
        .map(|(_, k, v)| (k.clone(), if k == vec![1, 2] { 40 } else { v }))
        .collect();
    assert_eq!(m.entries(), &expected);
    assert_eq!(m.len(), 6);
    assert_eq!(m.get(&[1, 2]), Some(&40));
    assert_eq!(m.get(&[5]), None);
    m.clear();
    assert_eq!(m.len(), 0);
    assert!(m.entries().is_empty());
}


#[test]
fn blake2_storage_map_lists_in_stored_key_order() {
    let keys: Vec<Vec<u8>> = vec![account(5), account(1), vec![4, 4], account(9)];
    let mut m: StorageMap<u64> = StorageMap::new(KeyHasher::Blake2_128Concat);
    for (i, k) in keys.iter().enumerate() {
        m.insert(k.clone(), i as u64);
    }
    let mut expected: Vec<(Vec<u8>, Vec<u8>, u64)> = keys
        .iter()
        .enumerate()
        .map(|(i, k)| {
            let mut s = sp_crypto_hashing::blake2_128(k).to_vec();
            s.extend_from_slice(k);
            (s, k.clone(), i as u64)
        })
        .collect();
    expected.sort();
    let expected: Vec<(Vec<u8>, u64)> = expected.into_iter().map(|(_, k, v)| (k, v)).collect();
    assert_eq!(m.entries(), &expected);
}
