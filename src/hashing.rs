//! The hash functions of the Bitcoin wire formats.
use vstd::prelude::*;
use sha2::Digest;

verus! {

/// What SHA-256 gives for a byte string.
pub uninterp spec fn sha256_of(data: Seq<u8>) -> Seq<u8>;

/// What RIPEMD-160 gives for a byte string.
pub uninterp spec fn ripemd160_of(data: Seq<u8>) -> Seq<u8>;

/// Bitcoin's double SHA-256.
pub open spec fn sha256d_of(data: Seq<u8>) -> Seq<u8> {
    sha256_of(sha256_of(data))
}

/// Bitcoin's HASH160: RIPEMD-160 over SHA-256.
pub open spec fn hash160_of(data: Seq<u8>) -> Seq<u8> {
    ripemd160_of(sha256_of(data))
}

/// Relies on sha2::Sha256::digest: the 32-byte SHA-256 digest of `data`.
#[verifier::external_body]
fn sha256(data: &[u8]) -> (r: [u8; 32])
    ensures
        r@ == sha256_of(data@),
{
    let digest = sha2::Sha256::digest(data);
    let mut out = [0u8; 32];
    out.copy_from_slice(&digest);
    out
}

/// Relies on ripemd160::Ripemd160::digest: the 20-byte RIPEMD-160 digest of `data`.
#[verifier::external_body]
fn ripemd160(data: &[u8]) -> (r: [u8; 20])
    ensures
        r@ == ripemd160_of(data@),
{
    let digest = ripemd160::Ripemd160::digest(data);
    let mut out = [0u8; 20];
    out.copy_from_slice(&digest);
    out
}

/// Double SHA-256 of `data`.
pub fn sha256d(data: &[u8]) -> (r: [u8; 32])
    ensures
        r@ == sha256d_of(data@),
{
    let once = sha256(data);
    sha256(once.as_slice())
}

/// HASH160 of `data`.
pub fn hash160(data: &[u8]) -> (r: [u8; 20])
    ensures
        r@ == hash160_of(data@),
{
    let once = sha256(data);
    ripemd160(once.as_slice())
}

} // verus!
