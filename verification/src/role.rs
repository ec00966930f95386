//! Role policies: the client masks outgoing frames and expects unmasked
//! input; the server never masks and expects masked input.

use vstd::prelude::*;

verus! {

/// Whether outgoing frames carry a mask.
pub trait EncodePolicy {
    /// True when this role masks the frames it sends.
    spec fn spec_mask_outgoing() -> bool;

    /// True when this role masks the frames it sends.
    fn mask_outgoing() -> (b: bool)
        ensures
            b == Self::spec_mask_outgoing(),
    ;
}

/// Whether incoming frames must carry a mask.
pub trait DecodePolicy {
    /// True when frames received by this role must be masked.
    spec fn spec_expect_masked() -> bool;

    /// True when frames received by this role must be masked.
    fn expect_masked() -> (b: bool)
        ensures
            b == Self::spec_expect_masked(),
    ;
}

/// The client role: masks what it sends, expects unmasked input.
#[derive(Copy, Clone, Debug)]
pub struct Client;

/// The server role: never masks, expects masked input.
#[derive(Copy, Clone, Debug)]
pub struct Server;

impl EncodePolicy for Client {
    open spec fn spec_mask_outgoing() -> bool {
        true
    }

    fn mask_outgoing() -> bool {
        true
    }
}

impl DecodePolicy for Client {
    open spec fn spec_expect_masked() -> bool {
        false
    }

    fn expect_masked() -> bool {
        false
    }
}

impl EncodePolicy for Server {
    open spec fn spec_mask_outgoing() -> bool {
        false
    }

    fn mask_outgoing() -> bool {
        false
    }
}

impl DecodePolicy for Server {
    open spec fn spec_expect_masked() -> bool {
        true
    }

    fn expect_masked() -> bool {
        true
    }
}

} // verus!
