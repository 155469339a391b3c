//! SHA-256, through the `sha2` crate.
use sha2::Digest;
use vstd::prelude::*;

verus! {

#[verifier::external_type_specification]
#[verifier::external_body]
pub struct ExSha256(sha2::Sha256);

/// The SHA-256 digest of a byte string.
pub uninterp spec fn sha256(data: Seq<u8>) -> [u8; 32];

/// The bytes that a running SHA-256 computation has taken in.
pub uninterp spec fn absorbed(hasher: sha2::Sha256) -> Seq<u8>;

/// `sha2::Sha256::new`: a computation that has taken in nothing.
#[verifier::external_body]
pub(crate) fn hasher_new() -> (r: sha2::Sha256)
    ensures
        absorbed(r) == Seq::<u8>::empty(),
{
    sha2::Sha256::new()
}

/// `sha2::Sha256::update`: takes in `bytes` behind what came before.
#[verifier::external_body]
pub(crate) fn hasher_update(hasher: &mut sha2::Sha256, bytes: &[u8])
    ensures
        absorbed(*final(hasher)) == absorbed(*old(hasher)) + bytes@,
{
    hasher.update(bytes);
}

/// `sha2::Sha256::finalize`: the digest of all that was taken in.
#[verifier::external_body]
pub(crate) fn hasher_finalize(hasher: sha2::Sha256) -> (r: [u8; 32])
    ensures
        r == sha256(absorbed(hasher)),
{
    hasher.finalize().into()
}

/// The SHA-256 digest of `bytes`.
pub fn sha256_bytes(bytes: &[u8]) -> (r: [u8; 32])
    ensures
        r == sha256(bytes@),
{
    let mut hasher = hasher_new();
    hasher_update(&mut hasher, bytes);
    assert(absorbed(hasher) =~= bytes@);
    hasher_finalize(hasher)
}

} // verus!
