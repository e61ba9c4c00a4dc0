//! The SHA3-256 hash, as the random oracle of the Fiat-Shamir proofs.
use sha3::{Digest, Sha3_256};
use vstd::prelude::*;

verus! {

/// The SHA3-256 digest of `data`.
pub uninterp spec fn sha3_256(data: Seq<u8>) -> Seq<u8>;

/// `Sha3_256::new`, `Digest::update` and `Digest::finalize` from the `sha3`
/// crate: the 32-byte SHA3-256 digest of `data`.  The digest function itself
/// is not written out; it is the name `sha3_256`.
#[verifier::external_body]
pub(crate) fn sha3_256_digest(data: &Vec<u8>) -> (r: [u8; 32])
    ensures
        r@ == sha3_256(data@),
{
    let mut hasher = Sha3_256::new();
    hasher.update(data);
    hasher.finalize().into()
}

} // verus!
