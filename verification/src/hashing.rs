//! The hashes the runtime uses: the 256-bit BLAKE2b hash that its `Hashing`
//! (`BlakeTwo256`) computes, taken from sp-core, and the 64-bit xxHash and
//! 128-bit BLAKE2b hash that the `Twox64Concat` and `Blake2_128Concat`
//! storage hashers put in front of each map key.

use vstd::prelude::*;
use sp_core::Hasher;

verus! {

/// The 32-byte BLAKE2b-256 digest of `data`, as sp-core's `Blake2Hasher`
/// computes it.
pub uninterp spec fn blake2_256_digest(data: Seq<u8>) -> Seq<u8>;

/// Calls `<sp_core::Blake2Hasher as hash_db::Hasher>::hash`, the hasher behind
/// `BlakeTwo256`. Trusted: the result is the digest named
/// `blake2_256_digest` of the input bytes, 32 bytes long (the `H256` that
/// the call returns). Nothing else about the digest is claimed.
#[verifier::external_body]
pub(crate) fn blake2_256(data: &[u8]) -> (r: Vec<u8>)
    ensures
        r@ == blake2_256_digest(data@),
        r@.len() == 32,
{
    <sp_core::Blake2Hasher as Hasher>::hash(data).0.to_vec()
}

/// The 8-byte xxHash64 (seed 0, little-endian) of `data`, as
/// `sp_crypto_hashing::twox_64` computes it.
pub uninterp spec fn twox_64_digest(data: Seq<u8>) -> Seq<u8>;

/// Calls `sp_crypto_hashing::twox_64`. Trusted: the result is the digest
/// named `twox_64_digest` of the input bytes, 8 bytes long (the `[u8; 8]`
/// that the call returns). Nothing else about the digest is claimed.
#[verifier::external_body]
pub(crate) fn twox_64(data: &[u8]) -> (r: Vec<u8>)
    ensures
        r@ == twox_64_digest(data@),
        r@.len() == 8,
{
    sp_crypto_hashing::twox_64(data).to_vec()
}

/// The 16-byte BLAKE2b-128 digest of `data`, as
/// `sp_crypto_hashing::blake2_128` computes it.
pub uninterp spec fn blake2_128_digest(data: Seq<u8>) -> Seq<u8>;

/// Calls `sp_crypto_hashing::blake2_128`. Trusted: the result is the digest
/// named `blake2_128_digest` of the input bytes, 16 bytes long (the
/// `[u8; 16]` that the call returns). Nothing else about the digest is
/// claimed.
#[verifier::external_body]
pub(crate) fn blake2_128(data: &[u8]) -> (r: Vec<u8>)
    ensures
        r@ == blake2_128_digest(data@),
        r@.len() == 16,
{
    sp_crypto_hashing::blake2_128(data).to_vec()
}

} // verus!
