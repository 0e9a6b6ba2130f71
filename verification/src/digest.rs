//! The cryptographic hash of the library.

use sha2::{Digest, Sha256};
use vstd::prelude::*;

verus! {

/// The SHA-256 digest of a byte string.
pub uninterp spec fn sha256(data: Seq<u8>) -> Seq<u8>;

/// The length of a digest in bytes.
pub const DIGEST_LENGTH: usize = 32;

/// Calls `sha2::Sha256::digest` (through the `Digest` trait) on `data` and
/// copies the output into a vector. Not proved: that the output is the value
/// named `sha256` of the input, and that it has 32 bytes, the fixed output
/// size of `Sha256`.
#[verifier::external_body]
pub(crate) fn sha256_digest(data: &[u8]) -> (r: Vec<u8>)
    ensures
        r@ == sha256(data@),
        r@.len() == DIGEST_LENGTH,
{
    Sha256::digest(data).to_vec()
}

} // verus!
