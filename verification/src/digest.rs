//! The handshake digest primitives: SHA-1 and Base64.

use vstd::prelude::*;

use base64::Engine;
use sha1::{Digest, Sha1};

verus! {

/// The SHA-1 digest of a byte sequence: a function of the input alone.
pub uninterp spec fn sha1_of(data: Seq<u8>) -> Seq<u8>;

/// The standard padded Base64 text of a byte sequence: a function of
/// the input alone.
pub uninterp spec fn base64_of(data: Seq<u8>) -> Seq<char>;

/// Relies on sha1's `Sha1` (`new`, `update`, `finalize`): the SHA-1
/// digest of the input, always 20 bytes.
#[verifier::external_body]
pub(crate) fn sha1_digest(data: &[u8]) -> (r: Vec<u8>)
    ensures
        r@ == sha1_of(data@),
        r@.len() == 20,
{
    let mut hasher = Sha1::new();
    hasher.update(data);
    hasher.finalize().to_vec()
}

/// Relies on base64's standard engine `encode`: the padded Base64 text
/// of the input.
#[verifier::external_body]
pub(crate) fn base64_encode(data: &[u8]) -> (r: String)
    ensures
        r@ == base64_of(data@),
{
    base64::engine::general_purpose::STANDARD.encode(data)
}

} // verus!
