//! The masking primitive: a byte buffer XORed against a 4-byte key.

use vstd::prelude::*;

verus! {

/// The bytes of `payload` XORed against the 4-byte `key`: byte `i` is
/// combined with `key[i % 4]`.
pub open spec fn mask_seq(payload: Seq<u8>, key: Seq<u8>) -> Seq<u8>
    recommends
        key.len() == 4,
{
    Seq::new(payload.len(), |i: int| payload[i] ^ key[i % 4])
}

/// Masking twice with the same key restores the original bytes.
pub proof fn lemma_mask_involutive(payload: Seq<u8>, key: Seq<u8>)
    requires
        key.len() == 4,
    ensures
        mask_seq(mask_seq(payload, key), key) == payload,
{
    let m = mask_seq(mask_seq(payload, key), key);
    assert forall|i: int| 0 <= i < payload.len() implies m[i] == payload[i] by {
        let k = key[i % 4];
        let b = payload[i];
        assert((b ^ k) ^ k == b) by (bit_vector);
    }
    assert(m =~= payload);
}

/// Masks `payload` in place with `mask_key`.
pub fn mask(payload: &mut Vec<u8>, mask_key: [u8; 4])
    ensures
        final(payload)@ == mask_seq(old(payload)@, mask_key@),
{
    mask_lin(payload, mask_key)
}

/// The plain byte-at-a-time masking loop.
pub fn mask_lin(payload: &mut Vec<u8>, mask_key: [u8; 4])
    ensures
        final(payload)@ == mask_seq(old(payload)@, mask_key@),
{
    let n = payload.len();
    let mut i: usize = 0;
    while i < n
        invariant
            i <= n,
            n == payload.len(),
            payload@.len() == old(payload)@.len(),
            forall|j: int| 0 <= j < i ==> payload@[j] == old(payload)@[j] ^ mask_key@[j % 4],
            forall|j: int| i <= j < n ==> payload@[j] == old(payload)@[j],
        decreases n - i,
    {
        let b = payload[i];
        let k = mask_key[i % 4];
        payload.set(i, b ^ k);
        i += 1;
    }
    assert(payload@ =~= mask_seq(old(payload)@, mask_key@));
}

} // verus!
