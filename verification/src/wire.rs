//! The wire format of the producer-select protocol: a vote is the
//! little-endian vote number and sync block number; a protocol message is a
//! one-byte variant index followed by a vote or by the election list, a
//! compact-length-prefixed list of `(peer id bytes, vote number)`, with the
//! compact integers of the SCALE codec.

use vstd::prelude::*;
use parity_scale_codec::{Compact, Decode};

verus! {

// ---------------------------------------------------------------------------
// Fixed-width little-endian integers

pub open spec fn le_u16(x: u16) -> Seq<u8> {
    seq![(x & 0xff) as u8, ((x >> 8u16) & 0xff) as u8]
}

pub open spec fn le_u32(x: u32) -> Seq<u8> {
    seq![
        (x & 0xff) as u8,
        ((x >> 8u32) & 0xff) as u8,
        ((x >> 16u32) & 0xff) as u8,
        ((x >> 24u32) & 0xff) as u8,
    ]
}

pub open spec fn le_u64(x: u64) -> Seq<u8> {
    seq![
        (x & 0xff) as u8,
        ((x >> 8u64) & 0xff) as u8,
        ((x >> 16u64) & 0xff) as u8,
        ((x >> 24u64) & 0xff) as u8,
        ((x >> 32u64) & 0xff) as u8,
        ((x >> 40u64) & 0xff) as u8,
        ((x >> 48u64) & 0xff) as u8,
        ((x >> 56u64) & 0xff) as u8,
    ]
}

pub open spec fn u16_of(b0: u8, b1: u8) -> u16 {
    (b0 as u16) | ((b1 as u16) << 8u16)
}

pub open spec fn u32_of(b0: u8, b1: u8, b2: u8, b3: u8) -> u32 {
    (b0 as u32) | ((b1 as u32) << 8u32) | ((b2 as u32) << 16u32) | ((b3 as u32) << 24u32)
}

pub open spec fn u64_of(b0: u8, b1: u8, b2: u8, b3: u8, b4: u8, b5: u8, b6: u8, b7: u8) -> u64 {
    (b0 as u64) | ((b1 as u64) << 8u64) | ((b2 as u64) << 16u64) | ((b3 as u64) << 24u64) | ((
    b4 as u64) << 32u64) | ((b5 as u64) << 40u64) | ((b6 as u64) << 48u64) | ((b7 as u64)
        << 56u64)
}

/// The value of the first two bytes of `b`, little-endian.
pub open spec fn read_u16(b: Seq<u8>) -> u16 {
    u16_of(b[0], b[1])
}

pub open spec fn read_u32(b: Seq<u8>) -> u32 {
    u32_of(b[0], b[1], b[2], b[3])
}

pub open spec fn read_u64(b: Seq<u8>) -> u64 {
    u64_of(b[0], b[1], b[2], b[3], b[4], b[5], b[6], b[7])
}

proof fn lemma_u16_bits(x: u16)
    by (bit_vector)
    ensures
        u16_of((x & 0xff) as u8, ((x >> 8u16) & 0xff) as u8) == x,
{
}

proof fn lemma_u16_bytes(b0: u8, b1: u8)
    by (bit_vector)
    ensures
        (u16_of(b0, b1) & 0xff) as u8 == b0,
        ((u16_of(b0, b1) >> 8u16) & 0xff) as u8 == b1,
{
}

proof fn lemma_u32_bits(x: u32)
    by (bit_vector)
    ensures
        u32_of(
            (x & 0xff) as u8,
            ((x >> 8u32) & 0xff) as u8,
            ((x >> 16u32) & 0xff) as u8,
            ((x >> 24u32) & 0xff) as u8,
        ) == x,
{
}

proof fn lemma_u32_bytes(b0: u8, b1: u8, b2: u8, b3: u8)
    by (bit_vector)
    ensures
        (u32_of(b0, b1, b2, b3) & 0xff) as u8 == b0,
        ((u32_of(b0, b1, b2, b3) >> 8u32) & 0xff) as u8 == b1,
        ((u32_of(b0, b1, b2, b3) >> 16u32) & 0xff) as u8 == b2,
        ((u32_of(b0, b1, b2, b3) >> 24u32) & 0xff) as u8 == b3,
{
}

proof fn lemma_u64_bits(x: u64)
    by (bit_vector)
    ensures
        u64_of(
            (x & 0xff) as u8,
            ((x >> 8u64) & 0xff) as u8,
            ((x >> 16u64) & 0xff) as u8,
            ((x >> 24u64) & 0xff) as u8,
            ((x >> 32u64) & 0xff) as u8,
            ((x >> 40u64) & 0xff) as u8,
            ((x >> 48u64) & 0xff) as u8,
            ((x >> 56u64) & 0xff) as u8,
        ) == x,
{
}

proof fn lemma_u64_bytes(b0: u8, b1: u8, b2: u8, b3: u8, b4: u8, b5: u8, b6: u8, b7: u8)
    by (bit_vector)
    ensures
        (u64_of(b0, b1, b2, b3, b4, b5, b6, b7) & 0xff) as u8 == b0,
        ((u64_of(b0, b1, b2, b3, b4, b5, b6, b7) >> 8u64) & 0xff) as u8 == b1,
        ((u64_of(b0, b1, b2, b3, b4, b5, b6, b7) >> 16u64) & 0xff) as u8 == b2,
        ((u64_of(b0, b1, b2, b3, b4, b5, b6, b7) >> 24u64) & 0xff) as u8 == b3,
        ((u64_of(b0, b1, b2, b3, b4, b5, b6, b7) >> 32u64) & 0xff) as u8 == b4,
        ((u64_of(b0, b1, b2, b3, b4, b5, b6, b7) >> 40u64) & 0xff) as u8 == b5,
        ((u64_of(b0, b1, b2, b3, b4, b5, b6, b7) >> 48u64) & 0xff) as u8 == b6,
        ((u64_of(b0, b1, b2, b3, b4, b5, b6, b7) >> 56u64) & 0xff) as u8 == b7,
{
}

/// Reading back a written `u16`, and writing back a read one.
pub proof fn lemma_le_u16(x: u16, b: Seq<u8>)
    ensures
        read_u16(le_u16(x) + b) == x,
        b.len() >= 2 ==> le_u16(read_u16(b)) == b.take(2),
{
    lemma_u16_bits(x);
    if b.len() >= 2 {
        lemma_u16_bytes(b[0], b[1]);
        assert(le_u16(read_u16(b)) =~= b.take(2));
    }
}

pub proof fn lemma_le_u32(x: u32, b: Seq<u8>)
    ensures
        read_u32(le_u32(x) + b) == x,
        b.len() >= 4 ==> le_u32(read_u32(b)) == b.take(4),
{
    lemma_u32_bits(x);
    if b.len() >= 4 {
        lemma_u32_bytes(b[0], b[1], b[2], b[3]);
        assert(le_u32(read_u32(b)) =~= b.take(4));
    }
}

pub proof fn lemma_le_u64(x: u64, b: Seq<u8>)
    ensures
        read_u64(le_u64(x) + b) == x,
        b.len() >= 8 ==> le_u64(read_u64(b)) == b.take(8),
{
    lemma_u64_bits(x);
    if b.len() >= 8 {
        lemma_u64_bytes(b[0], b[1], b[2], b[3], b[4], b[5], b[6], b[7]);
        assert(le_u64(read_u64(b)) =~= b.take(8));
    }
}

fn push_u16(out: &mut Vec<u8>, x: u16)
    ensures
        final(out)@ == old(out)@ + le_u16(x),
{
    out.push((x & 0xff) as u8);
    out.push(((x >> 8u16) & 0xff) as u8);
    assert(final(out)@ =~= old(out)@ + le_u16(x));
}

fn push_u32(out: &mut Vec<u8>, x: u32)
    ensures
        final(out)@ == old(out)@ + le_u32(x),
{
    out.push((x & 0xff) as u8);
    out.push(((x >> 8u32) & 0xff) as u8);
    out.push(((x >> 16u32) & 0xff) as u8);
    out.push(((x >> 24u32) & 0xff) as u8);
    assert(final(out)@ =~= old(out)@ + le_u32(x));
}

fn push_u64(out: &mut Vec<u8>, x: u64)
    ensures
        final(out)@ == old(out)@ + le_u64(x),
{
    out.push((x & 0xff) as u8);
    out.push(((x >> 8u64) & 0xff) as u8);
    out.push(((x >> 16u64) & 0xff) as u8);
    out.push(((x >> 24u64) & 0xff) as u8);
    out.push(((x >> 32u64) & 0xff) as u8);
    out.push(((x >> 40u64) & 0xff) as u8);
    out.push(((x >> 48u64) & 0xff) as u8);
    out.push(((x >> 56u64) & 0xff) as u8);
    assert(final(out)@ =~= old(out)@ + le_u64(x));
}

fn get_u32(b: &[u8], pos: usize) -> (x: u32)
    requires
        pos + 4 <= b@.len(),
    ensures
        x == read_u32(b@.skip(pos as int)),
{
    (b[pos] as u32) | ((b[pos + 1] as u32) << 8u32) | ((b[pos + 2] as u32) << 16u32) | ((b[pos
        + 3] as u32) << 24u32)
}

fn get_u64(b: &[u8], pos: usize) -> (x: u64)
    requires
        pos + 8 <= b@.len(),
    ensures
        x == read_u64(b@.skip(pos as int)),
{
    (b[pos] as u64) | ((b[pos + 1] as u64) << 8u64) | ((b[pos + 2] as u64) << 16u64) | ((b[pos
        + 3] as u64) << 24u64) | ((b[pos + 4] as u64) << 32u64) | ((b[pos + 5] as u64) << 40u64)
        | ((b[pos + 6] as u64) << 48u64) | ((b[pos + 7] as u64) << 56u64)
}

// ---------------------------------------------------------------------------
// Compact integers (`Compact<u32>` of the SCALE codec)

/// The compact encoding of `n`: one byte below 2^6, two below 2^14, four
/// below 2^30, otherwise the byte 3 and the four bytes of `n`. The two low
/// bits of the first byte tell the mode.
pub open spec fn compact_u32(n: u32) -> Seq<u8> {
    if n <= 0x3f {
        seq![((n << 2u32) & 0xff) as u8]
    } else if n <= 0x3fff {
        le_u16((((n << 2u32) | 1) & 0xffff) as u16)
    } else if n <= 0x3fff_ffff {
        le_u32((n << 2u32) | 2)
    } else {
        seq![3u8] + le_u32(n)
    }
}

/// Decoding a compact integer from the front of `b`: the value whose
/// compact encoding `b` starts with, and the length of that encoding
/// (`lemma_compact_prefix_unique`: there is at most one such value); `None`
/// when `b` starts with no compact encoding.
pub open spec fn parse_compact(b: Seq<u8>) -> Option<(u32, nat)> {
    if exists|n: u32| (#[trigger] compact_u32(n)).is_prefix_of(b) {
        let n = choose|n: u32| (#[trigger] compact_u32(n)).is_prefix_of(b);
        Some((n, compact_u32(n).len()))
    } else {
        None
    }
}

proof fn lemma_compact_mode0(n: u32)
    by (bit_vector)
    requires
        n <= 0x3f,
    ensures
        (((n << 2u32) & 0xff) as u8) & 3 == 0,
        ((((n << 2u32) & 0xff) as u8) >> 2u8) as u32 == n,
{
}

proof fn lemma_compact_mode1(n: u32)
    by (bit_vector)
    requires
        0x3f < n <= 0x3fff,
    ensures
        ((((((n << 2u32) | 1) & 0xffff) as u16) & 0xff) as u8) & 3 == 1,
        (((((n << 2u32) | 1) & 0xffff) as u16) >> 2u16) as u32 == n,
{
}

proof fn lemma_compact_mode2(n: u32)
    by (bit_vector)
    requires
        0x3fff < n <= 0x3fff_ffff,
    ensures
        ((((n << 2u32) | 2) & 0xff) as u8) & 3 == 2,
        ((n << 2u32) | 2) >> 2u32 == n,
{
}

proof fn lemma_three()
    by (bit_vector)
    ensures
        (3u8 & 3) == 3,
{
}

/// What the bytes of a compact encoding tell, whatever follows them: its
/// mode in the low two bits of the first byte, and its value.
proof fn lemma_compact_reads(n: u32, rest: Seq<u8>)
    ensures
        ({
            let b = compact_u32(n) + rest;
            &&& b.len() >= 1
            &&& n <= 0x3f ==> b[0] & 3 == 0 && ((b[0] >> 2u8) as u32) == n
            &&& 0x3f < n <= 0x3fff ==> b[0] & 3 == 1 && b.len() >= 2 && ((read_u16(b) >> 2u16) as u32) == n
            &&& 0x3fff < n <= 0x3fff_ffff ==> b[0] & 3 == 2 && b.len() >= 4 && (read_u32(b) >> 2u32) == n
            &&& 0x3fff_ffff < n ==> b[0] & 3 == 3 && b.len() >= 5 && read_u32(b.drop_first()) == n
        }),
{
    let e = compact_u32(n) + rest;
    if n <= 0x3f {
        lemma_compact_mode0(n);
        assert(e[0] == ((n << 2u32) & 0xff) as u8);
    } else if n <= 0x3fff {
        let w = (((n << 2u32) | 1) & 0xffff) as u16;
        lemma_compact_mode1(n);
        lemma_le_u16(w, rest);
        assert(e == le_u16(w) + rest);
        assert(e[0] == (w & 0xff) as u8);
    } else if n <= 0x3fff_ffff {
        let w = (n << 2u32) | 2;
        lemma_compact_mode2(n);
        lemma_le_u32(w, rest);
        assert(e == le_u32(w) + rest);
        assert(e[0] == (w & 0xff) as u8);
    } else {
        lemma_three();
        lemma_le_u32(n, rest);
        assert(e.drop_first() =~= le_u32(n) + rest);
        assert(e[0] == 3u8);
    }
}

/// No byte string starts with the compact encodings of two different
/// values.
pub proof fn lemma_compact_prefix_unique(m: u32, n: u32, b: Seq<u8>)
    requires
        compact_u32(m).is_prefix_of(b),
        compact_u32(n).is_prefix_of(b),
    ensures
        m == n,
{
    let rm = b.skip(compact_u32(m).len() as int);
    let rn = b.skip(compact_u32(n).len() as int);
    assert(compact_u32(m) + rm =~= b);
    assert(compact_u32(n) + rn =~= b);
    lemma_compact_reads(m, rm);
    lemma_compact_reads(n, rn);
}

/// Decoding reads back what encoding wrote, whatever follows it.
pub proof fn lemma_compact_roundtrip(n: u32, rest: Seq<u8>)
    ensures
        parse_compact(compact_u32(n) + rest) == Some((n, compact_u32(n).len())),
{
    let e = compact_u32(n) + rest;
    assert(compact_u32(n).is_prefix_of(e)) by {
        assert(e.subrange(0, compact_u32(n).len() as int) =~= compact_u32(n));
    }
    let m = choose|m: u32| (#[trigger] compact_u32(m)).is_prefix_of(e);
    lemma_compact_prefix_unique(m, n, e);
}

/// A decoded compact integer was written in its encoding.
pub proof fn lemma_compact_sound(b: Seq<u8>)
    requires
        parse_compact(b) is Some,
    ensures
        ({
            let (n, k) = parse_compact(b).unwrap();
            k == compact_u32(n).len() && k <= b.len() && b.take(k as int) == compact_u32(n)
        }),
{
    let (n, k) = parse_compact(b).unwrap();
    assert(b.take(k as int) =~= b.subrange(0, k as int));
}

/// Appends the compact encoding of `n`.
fn push_compact(out: &mut Vec<u8>, n: u32)
    ensures
        final(out)@ == old(out)@ + compact_u32(n),
{
    if n <= 0x3f {
        out.push(((n << 2u32) & 0xff) as u8);
        assert(final(out)@ =~= old(out)@ + compact_u32(n));
    } else if n <= 0x3fff {
        push_u16(out, (((n << 2u32) | 1) & 0xffff) as u16);
    } else if n <= 0x3fff_ffff {
        push_u32(out, (n << 2u32) | 2);
    } else {
        out.push(3u8);
        push_u32(out, n);
        assert(final(out)@ =~= old(out)@ + compact_u32(n));
    }
}

/// Calls `<Compact<u32> as Decode>::decode` of parity-scale-codec on
/// `data`: the value and how many bytes of `data` are left after it, or
/// `None` when decoding fails. Trusted, as the decoder's source shows it: a
/// decoded value takes exactly the bytes of its compact encoding (the
/// decoder refuses a value written in a longer mode than it needs, and a
/// big-integer prefix other than four bytes), and data that starts with the
/// compact encoding of a value decodes.
#[verifier::external_body]
fn decode_compact_u32(data: &[u8]) -> (r: Option<(u32, usize)>)
    ensures
        match r {
            Some((n, left)) => compact_u32(n).len() + left == data@.len() && compact_u32(n).is_prefix_of(data@),
            None => forall|n: u32| !(#[trigger] compact_u32(n)).is_prefix_of(data@),
        },
{
    let mut input = data;
    match <Compact<u32> as Decode>::decode(&mut input) {
        Ok(c) => Some((c.0, input.len())),
        Err(_) => None,
    }
}

/// Decodes a compact integer at `pos`: its value and the position after it.
fn read_compact(b: &[u8], pos: usize) -> (r: Option<(u32, usize)>)
    requires
        pos <= b@.len(),
    ensures
        match parse_compact(b@.skip(pos as int)) {
            Some((n, k)) => r == Some((n, (pos + k) as usize)),
            None => r is None,
        },
{
    let rest = vstd::slice::slice_subrange(b, pos, b.len());
    assert(rest@ =~= b@.skip(pos as int));
    match decode_compact_u32(rest) {
        Some((n, left)) => {
            proof {
                let m = choose|m: u32| (#[trigger] compact_u32(m)).is_prefix_of(rest@);
                lemma_compact_prefix_unique(m, n, rest@);
            }
            Some((n, b.len() - left))
        },
        None => None,
    }
}

// ---------------------------------------------------------------------------
// Votes and protocol messages

/// A vote: the voted number and the block number of the round it is for.
#[derive(PartialEq, Eq, Structural, Clone, Copy, Debug)]
pub struct VoteData {
    pub vote_num: u64,
    pub sync_id: u32,
}

impl VoteData {
    pub fn new(vote_num: u64, sync_id: u32) -> (v: Self)
        ensures
            v.vote_num == vote_num,
            v.sync_id == sync_id,
    {
        VoteData { vote_num, sync_id }
    }
}

/// A message of the protocol.
pub enum WebMessage {
    /// A vote.
    VoteData(VoteData),
    /// The election result: `(peer id bytes, vote number)` by vote number.
    ElectionData(Vec<(Vec<u8>, u64)>),
}

/// A message, with byte strings as sequences.
pub enum WebMessageView {
    VoteData(VoteData),
    ElectionData(Seq<(Seq<u8>, u64)>),
}

/// The view of an election list.
pub open spec fn election_view(s: Seq<(Vec<u8>, u64)>) -> Seq<(Seq<u8>, u64)> {
    s.map_values(|e: (Vec<u8>, u64)| (e.0@, e.1))
}

impl View for WebMessage {
    type V = WebMessageView;

    open spec fn view(&self) -> WebMessageView {
        match self {
            WebMessage::VoteData(v) => WebMessageView::VoteData(*v),
            WebMessage::ElectionData(s) => WebMessageView::ElectionData(election_view(s@)),
        }
    }
}

pub open spec fn encode_vote(v: VoteData) -> Seq<u8> {
    le_u64(v.vote_num) + le_u32(v.sync_id)
}

pub open spec fn parse_vote(b: Seq<u8>) -> Option<(VoteData, nat)> {
    if b.len() < 12 {
        None
    } else {
        Some((VoteData { vote_num: read_u64(b), sync_id: read_u32(b.skip(8)) }, 12))
    }
}

#[verifier::opaque]
pub open spec fn encode_peer_vote(e: (Seq<u8>, u64)) -> Seq<u8> {
    compact_u32(e.0.len() as u32) + e.0 + le_u64(e.1)
}

#[verifier::opaque]
pub open spec fn parse_peer_vote(b: Seq<u8>) -> Option<((Seq<u8>, u64), nat)> {
    match parse_compact(b) {
        None => None,
        Some((n, k)) => if b.len() < k + n + 8 {
            None
        } else {
            Some(((b.subrange(k as int, k + n), read_u64(b.skip(k + n))), (k + n + 8) as nat))
        },
    }
}

pub open spec fn encode_peer_votes(s: Seq<(Seq<u8>, u64)>) -> Seq<u8>
    decreases s.len(),
{
    if s.len() == 0 {
        Seq::empty()
    } else {
        encode_peer_vote(s[0]) + encode_peer_votes(s.drop_first())
    }
}

pub open spec fn parse_peer_votes(b: Seq<u8>, count: nat) -> Option<(Seq<(Seq<u8>, u64)>, nat)>
    decreases count,
{
    if count == 0 {
        Some((Seq::empty(), 0))
    } else {
        match parse_peer_vote(b) {
            None => None,
            Some((e, k)) => match parse_peer_votes(b.skip(k as int), (count - 1) as nat) {
                None => None,
                Some((rest, k2)) => Some((seq![e] + rest, k + k2)),
            },
        }
    }
}

/// Whether every length in an election list fits the compact length prefix.
pub open spec fn peer_votes_encodable(s: Seq<(Seq<u8>, u64)>) -> bool {
    s.len() <= u32::MAX && forall|i: int| 0 <= i < s.len() ==> (#[trigger] s[i]).0.len() <= u32::MAX
}

/// Whether a message can be written: its lengths fit the length prefixes.
pub open spec fn encodable(m: WebMessageView) -> bool {
    match m {
        WebMessageView::VoteData(_) => true,
        WebMessageView::ElectionData(s) => peer_votes_encodable(s),
    }
}

/// The bytes of a message: its variant index, then its contents.
pub open spec fn encode_web(m: WebMessageView) -> Seq<u8> {
    match m {
        WebMessageView::VoteData(v) => seq![0u8] + encode_vote(v),
        WebMessageView::ElectionData(s) => seq![1u8] + compact_u32(s.len() as u32) + encode_peer_votes(s),
    }
}

/// Decoding a message from the front of `b` (bytes after it are ignored).
pub open spec fn parse_web(b: Seq<u8>) -> Option<WebMessageView> {
    if b.len() < 1 {
        None
    } else if b[0] == 0 {
        match parse_vote(b.drop_first()) {
            None => None,
            Some((v, _)) => Some(WebMessageView::VoteData(v)),
        }
    } else if b[0] == 1 {
        match parse_compact(b.drop_first()) {
            None => None,
            Some((n, k)) => match parse_peer_votes(b.drop_first().skip(k as int), n as nat) {
                None => None,
                Some((s, _)) => Some(WebMessageView::ElectionData(s)),
            },
        }
    } else {
        None
    }
}

proof fn lemma_vote_roundtrip(v: VoteData, rest: Seq<u8>)
    ensures
        parse_vote(encode_vote(v) + rest) == Some((v, 12nat)),
{
    let e = encode_vote(v) + rest;
    lemma_le_u64(v.vote_num, le_u32(v.sync_id) + rest);
    assert(e =~= le_u64(v.vote_num) + (le_u32(v.sync_id) + rest));
    lemma_le_u32(v.sync_id, rest);
    assert(e.skip(8) =~= le_u32(v.sync_id) + rest);
}

proof fn lemma_vote_sound(b: Seq<u8>)
    requires
        parse_vote(b) is Some,
    ensures
        b.take(12) == encode_vote(parse_vote(b).unwrap().0),
{
    lemma_le_u64(0, b);
    lemma_le_u32(0, b.skip(8));
    assert(b.skip(8).take(4) =~= b.subrange(8, 12));
    assert(b.take(12) =~= b.take(8) + b.subrange(8, 12));
}

proof fn lemma_peer_vote_roundtrip(e: (Seq<u8>, u64), rest: Seq<u8>)
    requires
        e.0.len() <= u32::MAX,
    ensures
        parse_peer_vote(encode_peer_vote(e) + rest) == Some((e, encode_peer_vote(e).len())),
{
    reveal(encode_peer_vote);
    reveal(parse_peer_vote);
    let n = e.0.len() as u32;
    let c = compact_u32(n);
    let b = encode_peer_vote(e) + rest;
    assert(b =~= c + (e.0 + le_u64(e.1) + rest));
    lemma_compact_roundtrip(n, e.0 + le_u64(e.1) + rest);
    let k = c.len();
    assert(b.subrange(k as int, k + n) =~= e.0);
    assert(b.skip(k + n) =~= le_u64(e.1) + rest);
    lemma_le_u64(e.1, rest);
}

proof fn lemma_peer_vote_sound(b: Seq<u8>)
    requires
        parse_peer_vote(b) is Some,
    ensures
        ({
            let (e, k) = parse_peer_vote(b).unwrap();
            &&& e.0.len() <= u32::MAX
            &&& k <= b.len()
            &&& k == encode_peer_vote(e).len()
            &&& b.take(k as int) == encode_peer_vote(e)
        }),
{
    reveal(encode_peer_vote);
    reveal(parse_peer_vote);
    let (n, k) = parse_compact(b).unwrap();
    lemma_compact_sound(b);
    let (e, t) = parse_peer_vote(b).unwrap();
    assert(e.0.len() == n);
    lemma_le_u64(0, b.skip(k + n));
    assert(b.skip(k + n).take(8) =~= b.subrange(k + n, k + n + 8));
    assert(b.take(t as int) =~= b.take(k as int) + b.subrange(k as int, k + n) + b.subrange(k + n, k + n + 8));
}

proof fn lemma_peer_votes_roundtrip(s: Seq<(Seq<u8>, u64)>, rest: Seq<u8>)
    requires
        forall|i: int| 0 <= i < s.len() ==> (#[trigger] s[i]).0.len() <= u32::MAX,
    ensures
        parse_peer_votes(encode_peer_votes(s) + rest, s.len()) == Some((s, encode_peer_votes(s).len())),
    decreases s.len(),
{
    if s.len() > 0 {
        let tail = s.drop_first();
        assert forall|i: int| 0 <= i < tail.len() implies (#[trigger] tail[i]).0.len() <= u32::MAX by {
            assert(tail[i] == s[i + 1]);
        }
        lemma_peer_votes_roundtrip(tail, rest);
        let e = encode_peer_vote(s[0]);
        let et = encode_peer_votes(tail);
        let b = encode_peer_votes(s) + rest;
        assert(encode_peer_votes(s) == e + et);
        assert(b =~= e + (et + rest));
        assert(s[0].0.len() <= u32::MAX);
        lemma_peer_vote_roundtrip(s[0], et + rest);
        assert(parse_peer_vote(b) == Some((s[0], e.len())));
        assert(b.skip(e.len() as int) =~= et + rest);
        assert(parse_peer_votes(b.skip(e.len() as int), tail.len()) == Some((tail, et.len())));
        assert(seq![s[0]] + tail =~= s);
    } else {
        assert(s =~= Seq::<(Seq<u8>, u64)>::empty());
    }
}

proof fn lemma_peer_votes_sound(b: Seq<u8>, count: nat)
    requires
        parse_peer_votes(b, count) is Some,
    ensures
        ({
            let (s, k) = parse_peer_votes(b, count).unwrap();
            &&& s.len() == count
            &&& forall|i: int| 0 <= i < s.len() ==> (#[trigger] s[i]).0.len() <= u32::MAX
            &&& k <= b.len()
            &&& k == encode_peer_votes(s).len()
            &&& b.take(k as int) == encode_peer_votes(s)
        }),
    decreases count,
{
    if count > 0 {
        let (e, k1) = parse_peer_vote(b).unwrap();
        lemma_peer_vote_sound(b);
        lemma_peer_votes_sound(b.skip(k1 as int), (count - 1) as nat);
        let (rest, k2) = parse_peer_votes(b.skip(k1 as int), (count - 1) as nat).unwrap();
        let s = seq![e] + rest;
        assert(s.drop_first() =~= rest);
        assert(s[0] == e);
        assert forall|i: int| 0 <= i < s.len() implies (#[trigger] s[i]).0.len() <= u32::MAX by {
            if i > 0 {
                assert(s[i] == rest[i - 1]);
            }
        }
        assert(b.take((k1 + k2) as int) =~= b.take(k1 as int) + b.skip(k1 as int).take(k2 as int));
    } else {
        let (s, k) = parse_peer_votes(b, count).unwrap();
        assert(b.take(0) =~= encode_peer_votes(s));
    }
}

/// Decoding a written message gives it back, whatever bytes follow it.
pub proof fn lemma_web_roundtrip(m: WebMessageView, rest: Seq<u8>)
    requires
        encodable(m),
    ensures
        parse_web(encode_web(m) + rest) == Some(m),
{
    let b = encode_web(m) + rest;
    match m {
        WebMessageView::VoteData(v) => {
            assert(b.drop_first() =~= encode_vote(v) + rest);
            lemma_vote_roundtrip(v, rest);
        },
        WebMessageView::ElectionData(s) => {
            let c = compact_u32(s.len() as u32);
            assert(b.drop_first() =~= c + (encode_peer_votes(s) + rest));
            lemma_compact_roundtrip(s.len() as u32, encode_peer_votes(s) + rest);
            assert(b.drop_first().skip(c.len() as int) =~= encode_peer_votes(s) + rest);
            lemma_peer_votes_roundtrip(s, rest);
        },
    }
}

/// A decoded message is written at the front of the bytes it came from.
pub proof fn lemma_web_sound(b: Seq<u8>)
    requires
        parse_web(b) is Some,
    ensures
        encodable(parse_web(b).unwrap()),
        encode_web(parse_web(b).unwrap()).is_prefix_of(b),
{
    let m = parse_web(b).unwrap();
    let t = b.drop_first();
    if b[0] == 0 {
        lemma_vote_sound(t);
        assert(b.take(13) =~= seq![0u8] + t.take(12));
        assert(encode_web(m) =~= b.take(13));
    } else {
        let (n, k) = parse_compact(t).unwrap();
        lemma_compact_sound(t);
        lemma_peer_votes_sound(t.skip(k as int), n as nat);
        let (s, k2) = parse_peer_votes(t.skip(k as int), n as nat).unwrap();
        assert(b.take((1 + k + k2) as int) =~= seq![1u8] + t.take(k as int) + t.skip(k as int).take(k2 as int));
        assert(encode_web(m) =~= b.take((1 + k + k2) as int));
    }
}

/// A message is decoded from `b` exactly when a writable message is written
/// at its front, and then it is that message.
pub proof fn lemma_web_decodes_prefix(b: Seq<u8>, m: WebMessageView)
    requires
        encodable(m),
        encode_web(m).is_prefix_of(b),
    ensures
        parse_web(b) == Some(m),
{
    let e = encode_web(m);
    assert(b =~= e + b.skip(e.len() as int));
    lemma_web_roundtrip(m, b.skip(e.len() as int));
}

/// The bytes of a vote.
pub fn encode_vote_data(v: &VoteData) -> (r: Vec<u8>)
    ensures
        r@ == encode_vote(*v),
{
    let mut out: Vec<u8> = Vec::new();
    push_u64(&mut out, v.vote_num);
    push_u32(&mut out, v.sync_id);
    assert(out@ =~= encode_vote(*v));
    out
}

/// The bytes of a message.
pub fn encode_web_message(m: &WebMessage) -> (r: Vec<u8>)
    requires
        encodable(m@),
    ensures
        r@ == encode_web(m@),
{
    let mut out: Vec<u8> = Vec::new();
    match m {
        WebMessage::VoteData(v) => {
            out.push(0u8);
            push_u64(&mut out, v.vote_num);
            push_u32(&mut out, v.sync_id);
            assert(out@ =~= encode_web(m@));
        },
        WebMessage::ElectionData(s) => {
            let ghost sv = election_view(s@);
            out.push(1u8);
            push_compact(&mut out, s.len() as u32);
            let ghost start = out@;
            let mut i: usize = 0;
            assert(sv.skip(0) =~= sv);
            while i < s.len()
                invariant
                    i <= s@.len(),
                    sv == election_view(s@),
                    peer_votes_encodable(sv),
                    start == seq![1u8] + compact_u32(sv.len() as u32),
                    out@ + encode_peer_votes(sv.skip(i as int)) == start + encode_peer_votes(sv),
                decreases s@.len() - i,
            {
                let ghost before = out@;
                let peer = &s[i].0;
                assert(sv[i as int].0.len() <= u32::MAX);
                push_compact(&mut out, peer.len() as u32);
                let mut j: usize = 0;
                let ghost mid = out@;
                while j < peer.len()
                    invariant
                        j <= peer@.len(),
                        out@ == mid + peer@.take(j as int),
                    decreases peer@.len() - j,
                {
                    out.push(peer[j]);
                    j = j + 1;
                    assert(out@ =~= mid + peer@.take(j as int));
                }
                assert(peer@.take(peer@.len() as int) =~= peer@);
                push_u64(&mut out, s[i].1);
                proof {
                    reveal(encode_peer_vote);
                    let t = sv.skip(i as int);
                    assert(t[0] == sv[i as int]);
                    assert(t.drop_first() =~= sv.skip(i + 1));
                    assert(out@ =~= before + encode_peer_vote(sv[i as int]));
                    assert(encode_peer_votes(t) == encode_peer_vote(t[0]) + encode_peer_votes(t.drop_first()));
                    assert(out@ + encode_peer_votes(sv.skip(i + 1)) =~= before + encode_peer_votes(t));
                }
                i = i + 1;
            }
            proof {
                assert(sv.skip(s@.len() as int) =~= Seq::<(Seq<u8>, u64)>::empty());
                assert(out@ =~= out@ + encode_peer_votes(sv.skip(s@.len() as int)));
            }
        },
    }
    out
}

/// Decodes the list of `count` election entries starting at `pos`.
fn read_peer_votes(b: &[u8], pos: usize, count: u32) -> (r: Option<Vec<(Vec<u8>, u64)>>)
    requires
        pos <= b@.len(),
    ensures
        match parse_peer_votes(b@.skip(pos as int), count as nat) {
            Some((s, _)) => r matches Some(v) && election_view(v@) == s,
            None => r is None,
        },
{
    let mut items: Vec<(Vec<u8>, u64)> = Vec::new();
    let mut p: usize = pos;
    let mut i: u32 = 0;
    while i < count
        invariant
            pos <= p <= b@.len(),
            i <= count,
            parse_peer_votes(b@.skip(pos as int), count as nat) == match parse_peer_votes(b@.skip(p as int), (count - i) as nat) {
                Some((rest, k2)) => Some((election_view(items@) + rest, ((p - pos) + k2) as nat)),
                None => None::<(Seq<(Seq<u8>, u64)>, nat)>,
            },
        decreases count - i,
    {
        let ghost sp = b@.skip(p as int);
        proof {
            reveal(parse_peer_vote);
        }
        let (n, q) = match read_compact(b, p) {
            Some(x) => x,
            None => return None,
        };
        let nn = n as usize;
        if b.len() - q < nn || b.len() - q - nn < 8 {
            return None;
        }
        let mut peer: Vec<u8> = Vec::new();
        let mut j: usize = 0;
        while j < nn
            invariant
                q + nn <= b@.len(),
                b@.len() <= usize::MAX,
                j <= nn,
                peer@ == b@.subrange(q as int, q + j),
            decreases nn - j,
        {
            peer.push(b[q + j]);
            j = j + 1;
            assert(peer@ =~= b@.subrange(q as int, q + j));
        }
        let vote = get_u64(b, q + nn);
        proof {
            let k = (q - p) as nat;
            assert(sp.subrange(k as int, k + n) =~= b@.subrange(q as int, q + nn));
            assert(sp.skip(k + n) =~= b@.skip(q + nn));
            assert(sp.skip((k + n + 8) as int) =~= b@.skip(q + nn + 8));
            assert(election_view(items@.push((peer, vote))) =~= election_view(items@) + seq![(peer@, vote)]);
        }
        items.push((peer, vote));
        p = q + nn + 8;
        i = i + 1;
        proof {
            let ev = election_view(items@);
            match parse_peer_votes(b@.skip(p as int), (count - i) as nat) {
                Some((rest, k2)) => {
                    assert(ev + rest =~= election_view(items@.drop_last()) + (seq![ev.last()] + rest));
                },
                None => {},
            }
        }
    }
    proof {
        assert(parse_peer_votes(b@.skip(p as int), 0) == Some((Seq::<(Seq<u8>, u64)>::empty(), 0nat)));
        assert(election_view(items@) + Seq::<(Seq<u8>, u64)>::empty() =~= election_view(items@));
    }
    Some(items)
}

/// Decodes a message from the front of `b`; bytes after it are ignored.
/// A message comes back exactly when a writable message is written at the
/// front of `b`, and it is that message.
pub fn decode_web_message(b: &[u8]) -> (r: Option<WebMessage>)
    ensures
        match r {
            Some(m) => parse_web(b@) == Some(m@),
            None => parse_web(b@) is None,
        },
        r matches Some(m) ==> encodable(m@) && encode_web(m@).is_prefix_of(b@),
        r is None ==> forall|m: WebMessageView| encodable(m) ==> !(#[trigger] encode_web(m)).is_prefix_of(b@),
{
    let r = decode_web_message_inner(b);
    proof {
        if r is Some {
            lemma_web_sound(b@);
        } else {
            assert forall|m: WebMessageView| encodable(m) implies !(#[trigger] encode_web(m)).is_prefix_of(b@) by {
                if encode_web(m).is_prefix_of(b@) {
                    lemma_web_decodes_prefix(b@, m);
                }
            }
        }
    }
    r
}

fn decode_web_message_inner(b: &[u8]) -> (r: Option<WebMessage>)
    ensures
        match r {
            Some(m) => parse_web(b@) == Some(m@),
            None => parse_web(b@) is None,
        },
{
    if b.len() < 1 {
        return None;
    }
    let t = b[0];
    if t == 0 {
        if b.len() < 13 {
            return None;
        }
        let vote_num = get_u64(b, 1);
        let sync_id = get_u32(b, 9);
        proof {
            assert(b@.skip(1) =~= b@.drop_first());
            assert(b@.skip(9) =~= b@.drop_first().skip(8));
        }
        Some(WebMessage::VoteData(VoteData { vote_num, sync_id }))
    } else if t == 1 {
        let (n, q) = match read_compact(b, 1) {
            Some(x) => x,
            None => {
                assert(b@.skip(1) =~= b@.drop_first());
                return None;
            },
        };
        proof {
            assert(b@.skip(1) =~= b@.drop_first());
            assert(b@.drop_first().skip(q - 1) =~= b@.skip(q as int));
        }
        match read_peer_votes(b, q, n) {
            Some(items) => Some(WebMessage::ElectionData(items)),
            None => None,
        }
    } else {
        None
    }
}

} // verus!
