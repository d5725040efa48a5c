//! Byte-level helpers: big-endian integers, byte-wise xor and the
//! lexicographic order of byte strings.

use vstd::prelude::*;

verus! {

/// The eight big-endian bytes of `x`, most significant first.
pub open spec fn be_u64_bytes(x: u64) -> Seq<u8> {
    Seq::new(8, |i: int| ((x >> ((8 * (7 - i)) as u64)) & 0xff) as u8)
}

/// The value of a byte string read as a big-endian unsigned integer.
pub open spec fn be_value(s: Seq<u8>) -> nat
    decreases s.len(),
{
    if s.len() == 0 {
        0
    } else {
        be_value(s.drop_last()) * 256 + s.last() as nat
    }
}

/// Byte-wise xor of two byte strings, as long as the first one.
pub open spec fn xor_bytes(a: Seq<u8>, b: Seq<u8>) -> Seq<u8> {
    Seq::new(a.len(), |i: int| a[i] ^ b[i])
}

/// The lexicographic order of byte strings (the order of `[u8]` and of
/// fixed-size hashes): a proper prefix comes first.
pub open spec fn lex_lt(a: Seq<u8>, b: Seq<u8>) -> bool
    decreases a.len(),
{
    if a.len() == 0 {
        b.len() > 0
    } else if b.len() == 0 {
        false
    } else if a[0] != b[0] {
        a[0] < b[0]
    } else {
        lex_lt(a.drop_first(), b.drop_first())
    }
}

/// `256` to the power `n`.
pub open spec fn pow256(n: nat) -> nat
    decreases n,
{
    if n == 0 {
        1
    } else {
        256 * pow256((n - 1) as nat)
    }
}

pub proof fn lemma_pow256_monotone(m: nat, n: nat)
    requires
        m <= n,
    ensures
        pow256(m) <= pow256(n),
    decreases n,
{
    if m < n {
        lemma_pow256_monotone(m, (n - 1) as nat);
    }
}

pub proof fn lemma_be_value_bound(s: Seq<u8>)
    ensures
        be_value(s) < pow256(s.len()),
    decreases s.len(),
{
    if s.len() > 0 {
        lemma_be_value_bound(s.drop_last());
        let p = pow256((s.len() - 1) as nat);
        let v = be_value(s.drop_last());
        let b = s.last();
        assert(v * 256 + b < p * 256) by (nonlinear_arith)
            requires
                v < p,
                b < 256,
        ;
    }
}

pub proof fn lemma_lex_irreflexive(a: Seq<u8>)
    ensures
        !lex_lt(a, a),
    decreases a.len(),
{
    if a.len() > 0 {
        lemma_lex_irreflexive(a.drop_first());
    }
}

pub proof fn lemma_lex_asymmetric(a: Seq<u8>, b: Seq<u8>)
    requires
        lex_lt(a, b),
    ensures
        !lex_lt(b, a),
    decreases a.len(),
{
    if a.len() > 0 && b.len() > 0 && a[0] == b[0] {
        lemma_lex_asymmetric(a.drop_first(), b.drop_first());
    }
}

pub proof fn lemma_lex_transitive(a: Seq<u8>, b: Seq<u8>, c: Seq<u8>)
    requires
        lex_lt(a, b),
        lex_lt(b, c),
    ensures
        lex_lt(a, c),
    decreases a.len(),
{
    if a.len() > 0 && b.len() > 0 && c.len() > 0 && a[0] == b[0] && b[0] == c[0] {
        lemma_lex_transitive(a.drop_first(), b.drop_first(), c.drop_first());
    }
}

pub proof fn lemma_lex_total(a: Seq<u8>, b: Seq<u8>)
    requires
        a != b,
    ensures
        lex_lt(a, b) || lex_lt(b, a),
    decreases a.len(),
{
    if a.len() > 0 && b.len() > 0 && a[0] == b[0] {
        if a.drop_first() == b.drop_first() {
            assert(a =~= seq![a[0]] + a.drop_first());
            assert(b =~= seq![b[0]] + b.drop_first());
        }
        lemma_lex_total(a.drop_first(), b.drop_first());
    } else if a.len() == 0 && b.len() == 0 {
        assert(a =~= b);
    }
}

/// The big-endian bytes of `x`.
pub fn u64_to_be_bytes(x: u64) -> (r: Vec<u8>)
    ensures
        r@ == be_u64_bytes(x),
{
    let mut r: Vec<u8> = Vec::new();
    let mut i: u64 = 0;
    while i < 8
        invariant
            i <= 8,
            r@.len() == i,
            forall|j: int| 0 <= j < i ==> r@[j] == be_u64_bytes(x)[j],
        decreases 8 - i,
    {
        let shift: u64 = 8 * (7 - i);
        let b: u8 = ((x >> shift) & 0xff) as u8;
        r.push(b);
        i = i + 1;
    }
    assert(r@ =~= be_u64_bytes(x));
    r
}

/// Reads the first eight bytes of `bytes` as a big-endian `u64`.
pub fn u64_from_be_prefix(bytes: &[u8]) -> (r: u64)
    requires
        bytes@.len() >= 8,
    ensures
        r as nat == be_value(bytes@.take(8)),
{
    let mut v: u64 = 0;
    let mut i: usize = 0;
    while i < 8
        invariant
            i <= 8,
            bytes@.len() >= 8,
            v as nat == be_value(bytes@.take(i as int)),
        decreases 8 - i,
    {
        proof {
            lemma_be_value_bound(bytes@.take(i as int));
            lemma_pow256_monotone(i as nat, 7);
            reveal_with_fuel(pow256, 8);
            assert(bytes@.take(i + 1).drop_last() =~= bytes@.take(i as int));
        }
        v = v * 256 + bytes[i] as u64;
        i = i + 1;
    }
    v
}

/// Byte-wise xor of two byte strings of the same length.
pub fn xor_bytes_exec(a: &Vec<u8>, b: &Vec<u8>) -> (r: Vec<u8>)
    requires
        a@.len() == b@.len(),
    ensures
        r@ == xor_bytes(a@, b@),
{
    let mut r: Vec<u8> = Vec::new();
    let mut i: usize = 0;
    while i < a.len()
        invariant
            i <= a@.len(),
            a@.len() == b@.len(),
            r@.len() == i,
            forall|j: int| 0 <= j < i ==> r@[j] == a@[j] ^ b@[j],
        decreases a@.len() - i,
    {
        r.push(a[i] ^ b[i]);
        i = i + 1;
    }
    assert(r@ =~= xor_bytes(a@, b@));
    r
}

/// Whether two byte strings are equal.
pub fn bytes_equal(a: &[u8], b: &[u8]) -> (r: bool)
    ensures
        r == (a@ == b@),
{
    if a.len() != b.len() {
        return false;
    }
    let mut i: usize = 0;
    while i < a.len()
        invariant
            i <= a@.len(),
            a@.len() == b@.len(),
            forall|j: int| 0 <= j < i ==> a@[j] == b@[j],
        decreases a@.len() - i,
    {
        if a[i] != b[i] {
            return false;
        }
        i = i + 1;
    }
    assert(a@ =~= b@);
    true
}

/// Whether `a` comes before `b` in the lexicographic order of byte strings.
pub fn bytes_less(a: &[u8], b: &[u8]) -> (r: bool)
    ensures
        r == lex_lt(a@, b@),
{
    let mut i: usize = 0;
    assert(a@.skip(0) =~= a@);
    assert(b@.skip(0) =~= b@);
    while i < a.len() && i < b.len()
        invariant
            i <= a@.len(),
            i <= b@.len(),
            lex_lt(a@, b@) == lex_lt(a@.skip(i as int), b@.skip(i as int)),
        decreases a@.len() - i,
    {
        if a[i] != b[i] {
            return a[i] < b[i];
        }
        assert(a@.skip(i as int).drop_first() =~= a@.skip(i + 1));
        assert(b@.skip(i as int).drop_first() =~= b@.skip(i + 1));
        i = i + 1;
    }
    i < b.len()
}

proof fn lemma_be_bytes_bits(x: u64, b0: u64, b1: u64, b2: u64, b3: u64, b4: u64, b5: u64, b6: u64, b7: u64)
    by (bit_vector)
    requires
        b0 == (x >> 56u64) & 0xff,
        b1 == (x >> 48u64) & 0xff,
        b2 == (x >> 40u64) & 0xff,
        b3 == (x >> 32u64) & 0xff,
        b4 == (x >> 24u64) & 0xff,
        b5 == (x >> 16u64) & 0xff,
        b6 == (x >> 8u64) & 0xff,
        b7 == x & 0xff,
    ensures
        b0 * 0x100_0000_0000_0000 + b1 * 0x1_0000_0000_0000 + b2 * 0x100_0000_0000 + b3 * 0x1_0000_0000
            + b4 * 0x100_0000 + b5 * 0x1_0000 + b6 * 0x100 + b7 == x,
{
}

proof fn lemma_byte_cast(y: u64)
    by (bit_vector)
    ensures
        (((y & 0xff) as u8) as u64) == y & 0xff,
{
}

/// The bytes of a number are big-endian: read back most significant first,
/// they give the number.
pub proof fn lemma_be_u64_bytes_value(x: u64)
    ensures
        be_u64_bytes(x).len() == 8,
        be_value(be_u64_bytes(x)) == x,
{
    let b = be_u64_bytes(x);
    reveal_with_fuel(be_value, 9);
    assert(b.take(8) =~= b);
    assert(b.drop_last() =~= b.take(7));
    assert(b.take(7).drop_last() =~= b.take(6));
    assert(b.take(6).drop_last() =~= b.take(5));
    assert(b.take(5).drop_last() =~= b.take(4));
    assert(b.take(4).drop_last() =~= b.take(3));
    assert(b.take(3).drop_last() =~= b.take(2));
    assert(b.take(2).drop_last() =~= b.take(1));
    assert(b.take(1).drop_last() =~= b.take(0));
    assert(x >> 0u64 == x) by (bit_vector);
    lemma_byte_cast(x >> 56u64);
    lemma_byte_cast(x >> 48u64);
    lemma_byte_cast(x >> 40u64);
    lemma_byte_cast(x >> 32u64);
    lemma_byte_cast(x >> 24u64);
    lemma_byte_cast(x >> 16u64);
    lemma_byte_cast(x >> 8u64);
    lemma_byte_cast(x >> 0u64);
    assert(b[0] == ((x >> 56u64) & 0xff) as u8);
    assert(b[1] == ((x >> 48u64) & 0xff) as u8);
    assert(b[2] == ((x >> 40u64) & 0xff) as u8);
    assert(b[3] == ((x >> 32u64) & 0xff) as u8);
    assert(b[4] == ((x >> 24u64) & 0xff) as u8);
    assert(b[5] == ((x >> 16u64) & 0xff) as u8);
    assert(b[6] == ((x >> 8u64) & 0xff) as u8);
    assert(b[7] == ((x >> 0u64) & 0xff) as u8);
    lemma_be_bytes_bits(
        x,
        b[0] as u64,
        b[1] as u64,
        b[2] as u64,
        b[3] as u64,
        b[4] as u64,
        b[5] as u64,
        b[6] as u64,
        b[7] as u64,
    );
}

} // verus!
