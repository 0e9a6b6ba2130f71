//! Base64 text for the content hash of a manifest.

use base64::engine::general_purpose::STANDARD;
use base64::Engine;
use vstd::prelude::*;

verus! {

/// The standard base64 text, with padding, of a byte string.
pub uninterp spec fn base64_text(data: Seq<u8>) -> Seq<char>;

/// The bytes that a text is the standard base64 text of; `None` where it is
/// that of none.
pub uninterp spec fn base64_bytes(text: Seq<char>) -> Option<Seq<u8>>;

/// The error of `base64`'s decoder.
#[verifier::external_type_specification]
#[verifier::external_body]
pub struct ExDecodeError(base64::DecodeError);

/// Calls `base64::Engine::encode` on the engine
/// `base64::engine::general_purpose::STANDARD`. Not proved: that the string is
/// the value named `base64_text` of the bytes. The lengths left out by
/// `requires` are among those for which the encoder cannot allocate its
/// output and panics.
#[verifier::external_body]
pub(crate) fn base64_encode(data: &[u8]) -> (r: String)
    requires
        data@.len() <= usize::MAX / 2,
    ensures
        r@ == base64_text(data@),
{
    STANDARD.encode(data)
}

/// Calls `base64::Engine::decode` on the engine
/// `base64::engine::general_purpose::STANDARD`. Not proved: that the call
/// succeeds exactly on the texts on which the value named `base64_bytes` is
/// some byte string, and then returns that byte string.
#[verifier::external_body]
pub(crate) fn base64_decode(text: &str) -> (r: Result<Vec<u8>, base64::DecodeError>)
    ensures
        match r {
            Ok(data) => base64_bytes(text@) == Some(data@),
            Err(_) => base64_bytes(text@).is_none(),
        },
{
    STANDARD.decode(text)
}

} // verus!
