//! Fresh random bytes for masking keys and ping nonces.

use vstd::prelude::*;

verus! {

/// Relies on `rand::fill`: four bytes from the thread's generator.
/// Nothing is promised of a random value.
#[verifier::external_body]
pub(crate) fn random_mask_key() -> [u8; 4] {
    let mut key = [0u8; 4];
    rand::fill(&mut key[..]);
    key
}

/// Relies on `rand::fill`: eight bytes from the thread's generator.
/// Nothing is promised of a random value.
#[verifier::external_body]
pub(crate) fn random_nonce() -> [u8; 8] {
    let mut nonce = [0u8; 8];
    rand::fill(&mut nonce[..]);
    nonce
}

} // verus!
