use commit_reveal::wire::{decode_web_message, encode_vote_data, encode_web_message, VoteData, WebMessage};
use parity_scale_codec::{Compact, Decode, Encode};

fn election(entries: &[(&[u8], u64)]) -> WebMessage {
    WebMessage::ElectionData(entries.iter().map(|(p, n)| (p.to_vec(), *n)).collect())
}

#[test]
fn vote_encoding_matches_scale() {
    let v = VoteData::new(0x0102_0304_0506_0708, 0x0a0b_0c0d);
    assert_eq!(encode_vote_data(&v), (0x0102_0304_0506_0708u64, 0x0a0b_0c0du32).encode());
    let m = WebMessage::VoteData(v);
    assert_eq!(encode_web_message(&m), (0u8, 0x0102_0304_0506_0708u64, 0x0a0b_0c0du32).encode());
}

#[test]
fn vote_bytes_exact() {
    let v = VoteData::new(1, 2);
    assert_eq!(encode_vote_data(&v), vec![1, 0, 0, 0, 0, 0, 0, 0, 2, 0, 0, 0]);
}

#[test]
fn election_encoding_matches_scale() {
    let entries: Vec<(Vec<u8>, u64)> = vec![(vec![0, 4, 1, 2, 3, 4], 7), (vec![9; 70], 1 << 40)];
    let m = WebMessage::ElectionData(entries.clone());
    assert_eq!(encode_web_message(&m), (1u8, entries).encode());
}

#[test]
fn compact_lengths_match_scale() {
    for n in [0usize, 1, 63, 64, 65, 300, 16383, 16384, 20000] {
        let peer = vec![5u8; n];
        let m = WebMessage::ElectionData(vec![(peer.clone(), 3)]);
        let bytes = encode_web_message(&m);
        let mut expected = vec![1u8];
        expected.extend(Compact(1u32).encode());
        expected.extend(Compact(n as u32).encode());
        expected.extend(&peer);
        expected.extend(3u64.encode());
        assert_eq!(bytes, expected, "length {}", n);
    }
}

#[test]
fn decode_roundtrip_with_trailing_bytes() {
    let m = election(&[(&[0, 2, 7, 8], 5), (&[0, 1, 9], 6)]);
    let mut bytes = encode_web_message(&m);
    bytes.extend([0xff, 0xee]);
    match decode_web_message(&bytes) {
        Some(WebMessage::ElectionData(list)) => {
            assert_eq!(list, vec![(vec![0, 2, 7, 8], 5), (vec![0, 1, 9], 6)]);
        }
        _ => panic!("election list expected"),
    }
    let v = VoteData::new(42, 9);
    let bytes = encode_web_message(&WebMessage::VoteData(v));
    match decode_web_message(&bytes) {
        Some(WebMessage::VoteData(d)) => assert_eq!(d, v),
        _ => panic!("vote expected"),
    }
}

#[test]
fn decode_matches_scale_decoder() {
    let entries: Vec<(Vec<u8>, u64)> = vec![(vec![1, 2, 3], 10), (vec![], 11)];
    let bytes = (1u8, entries.clone()).encode();
    let ours = match decode_web_message(&bytes) {
        Some(WebMessage::ElectionData(list)) => list,
        _ => panic!("election list expected"),
    };
    let theirs = <Vec<(Vec<u8>, u64)>>::decode(&mut &bytes[1..]).unwrap();
    assert_eq!(ours, theirs);
}

#[test]
fn decode_refuses_malformed() {
    // unknown variant
    assert!(decode_web_message(&[2, 0, 0]).is_none());
    // empty input
    assert!(decode_web_message(&[]).is_none());
    // vote too short
    assert!(decode_web_message(&[0, 1, 2, 3]).is_none());
    // compact length 1 written in two-byte mode is refused, as by the codec
    let non_canonical = [1u8, 0b0000_0101, 0];
    assert!(decode_web_message(&non_canonical).is_none());
    assert!(<Compact<u32>>::decode(&mut &non_canonical[1..]).is_err());
    // list announces more entries than the bytes hold
    assert!(decode_web_message(&[1, 8, 0]).is_none());
    // entry bytes cut short
    assert!(decode_web_message(&[1, 4, 12, 1, 2]).is_none());
}

#[test]
fn big_compact_mode_roundtrip() {
    let n: u32 = 0x4000_0000;
    let mut bytes = vec![1u8];
    bytes.extend(Compact(n).encode());
    assert_eq!(bytes[1], 3);
    // the list claims 2^30 entries but holds none: refused
    assert!(decode_web_message(&bytes).is_none());
}
