//! The hash primitives: SHA-256, double SHA-256 and RIPEMD-160 over SHA-256.
//!
//! The two digest functions themselves come from the `sha2` and `ripemd160`
//! crates; their results are only named here, never restated.

use vstd::prelude::*;
use sha2::Digest;
use ripemd160::Digest as RipemdDigest;

verus! {

/// The SHA-256 digest of a byte string; a function of the input alone.
pub uninterp spec fn sha256_of(data: Seq<u8>) -> Seq<u8>;

/// The RIPEMD-160 digest of a byte string; a function of the input alone.
pub uninterp spec fn ripemd160_of(data: Seq<u8>) -> Seq<u8>;

/// The double SHA-256 digest.
pub open spec fn dsha256_of(data: Seq<u8>) -> Seq<u8> {
    sha256_of(sha256_of(data))
}

/// RIPEMD-160 of SHA-256, the 20-byte script- and key-hash.
pub open spec fn hash160_of(data: Seq<u8>) -> Seq<u8> {
    ripemd160_of(sha256_of(data))
}

/// Relies on sha2's `Sha256::digest`: a 32-byte digest of the input alone.
#[verifier::external_body]
pub fn single_sha256(data: &[u8]) -> (r: [u8; 32])
    ensures
        r@ == sha256_of(data@),
        r@.len() == 32,
{
    let sha = sha2::Sha256::digest(data);
    let mut arr = [0u8; 32];
    arr.copy_from_slice(&sha[..]);
    arr
}

/// Relies on ripemd160's `Ripemd160::digest`: a 20-byte digest of the input
/// alone.
#[verifier::external_body]
fn ripemd160_digest(data: &[u8]) -> (r: [u8; 20])
    ensures
        r@ == ripemd160_of(data@),
        r@.len() == 20,
{
    let mut arr = [0u8; 20];
    arr.copy_from_slice(&ripemd160::Ripemd160::digest(data));
    arr
}

pub fn double_sha256(data: &[u8]) -> (r: [u8; 32])
    ensures
        r@ == dsha256_of(data@),
        r@.len() == 32,
{
    let first = single_sha256(data);
    single_sha256(first.as_slice())
}

pub fn hash160(data: &[u8]) -> (r: [u8; 20])
    ensures
        r@ == hash160_of(data@),
        r@.len() == 20,
{
    let first = single_sha256(data);
    ripemd160_digest(first.as_slice())
}

} // verus!
