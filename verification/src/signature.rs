//! Signatures of single keys.

use helium_crypto::{PublicKey, Verify};
use vstd::prelude::*;
use vstd::slice::slice_subrange;

verus! {

/// The type nibble of secp256k1 keys in a key's first byte.
pub const KEY_TYPE_SECP256K1: u8 = 3;

/// Whether `signature` is a signature of `message` under the key whose
/// canonical bytes are `key`; false where `key` is not the encoding of a key.
pub uninterp spec fn signature_valid(key: Seq<u8>, message: Seq<u8>, signature: Seq<u8>) -> bool;

/// Whether `point` is the SEC1 encoding of a point of the curve secp256k1
/// that can be a public key.
pub uninterp spec fn secp256k1_point(point: Seq<u8>) -> bool;

/// The keys that signatures are checked for. A key that announces the type
/// secp256k1 is one only where what follows its first byte is a point of that
/// curve: the decoder of such keys stops the process on any other point.
pub open spec fn checkable(key: Seq<u8>) -> bool {
    key.len() == 0 || key[0] % 16 != KEY_TYPE_SECP256K1 || secp256k1_point(key.skip(1))
}

/// Whether this library accepts `signature` as one of `message` under `key`.
pub open spec fn accepts(key: Seq<u8>, message: Seq<u8>, signature: Seq<u8>) -> bool {
    checkable(key) && signature_valid(key, message, signature)
}

/// Calls `k256::PublicKey::from_sec1_bytes` on `point`. Not proved: that the
/// call succeeds exactly where the value named `secp256k1_point` is true.
#[verifier::external_body]
pub(crate) fn decodes_secp256k1(point: &[u8]) -> (r: bool)
    ensures
        r == secp256k1_point(point@),
{
    k256::PublicKey::from_sec1_bytes(point).is_ok()
}

/// Calls `helium_crypto::PublicKey::from_bytes` on `key` and, where that gives
/// a key, `helium_crypto::Verify::verify` on it with `message` and
/// `signature`. Not proved: that the answer is the value named
/// `signature_valid` of the three byte strings, true exactly where both calls
/// return `Ok`. The keys left out by `requires` are those on which
/// `from_bytes` may panic: for the type secp256k1 it decodes what follows the
/// first byte as `k256::PublicKey::from_sec1_bytes` does, and unwraps where
/// the bytes are read but are no point of the curve.
#[verifier::external_body]
pub(crate) fn check_signature(key: &[u8], message: &[u8], signature: &[u8]) -> (r: bool)
    requires
        checkable(key@),
    ensures
        r == signature_valid(key@, message@, signature@),
{
    match PublicKey::from_bytes(key) {
        Ok(public_key) => public_key.verify(message, signature).is_ok(),
        Err(_) => false,
    }
}

/// Checks one signature under one key.
pub fn verify_signature(key: &[u8], message: &[u8], signature: &[u8]) -> (r: bool)
    ensures
        r == accepts(key@, message@, signature@),
{
    if key.len() > 0 && key[0] % 16 == KEY_TYPE_SECP256K1 {
        proof {
            assert(key@.subrange(1, key@.len() as int) =~= key@.skip(1));
        }
        if !decodes_secp256k1(slice_subrange(key, 1, key.len())) {
            return false;
        }
    }
    check_signature(key, message, signature)
}

} // verus!
