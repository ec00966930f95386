//! Per-message DEFLATE contexts from flate2, held by the connection
//! engine and consulted once per message. The flate2 stream types take
//! a `std::io::Write` bound that cannot be declared here, so each is
//! held in an opaque struct of this crate.

use vstd::prelude::*;

use flate2::write::{DeflateDecoder, DeflateEncoder};
use std::io::Write;

verus! {

/// A DEFLATE compression stream with its dictionary context.
#[verifier::external_body]
pub struct Deflater {
    inner: DeflateEncoder<Vec<u8>>,
}

/// A DEFLATE decompression stream with its dictionary context.
#[verifier::external_body]
pub struct Inflater {
    inner: DeflateDecoder<Vec<u8>>,
}

/// Relies on `DeflateEncoder::new` with the fast compression setting.
#[verifier::external_body]
pub fn new_deflater() -> Deflater {
    Deflater { inner: DeflateEncoder::new(Vec::new(), flate2::Compression::fast()) }
}

/// Relies on `DeflateDecoder::new`.
#[verifier::external_body]
pub fn new_inflater() -> Inflater {
    Inflater { inner: DeflateDecoder::new(Vec::new()) }
}

/// Relies on flate2's `DeflateEncoder` (`reset`, `write_all`, `flush`,
/// `get_ref`): compresses one message and returns the bytes the sync
/// flush appended, resetting the stream first when the negotiated
/// parameters forbid carrying context across messages. Nothing is
/// promised of the compressed bytes; callers state what holds of any
/// outcome.
#[verifier::external_body]
pub(crate) fn deflate_message(enc: &mut Deflater, payload: &[u8], use_context: bool) -> (r: Vec<
    u8,
>) {
    if !use_context {
        let _ = enc.inner.reset(Vec::new());
    }
    let start = enc.inner.get_ref().len();
    let _ = enc.inner.write_all(payload);
    let _ = enc.inner.flush();
    enc.inner.get_ref()[start..].to_vec()
}

/// Relies on flate2's `DeflateDecoder` (`reset`, `write_all`, `flush`,
/// `get_ref`): inflates one message's bytes, resetting the stream first
/// when context is not carried across messages. `None` reports a
/// malformed DEFLATE stream; nothing is promised of the inflated bytes.
#[verifier::external_body]
pub(crate) fn inflate_message(dec: &mut Inflater, data: &[u8], use_context: bool) -> (r: Option<
    Vec<u8>,
>) {
    if !use_context {
        let _ = dec.inner.reset(Vec::new());
    }
    let start = dec.inner.get_ref().len();
    if dec.inner.write_all(data).is_err() || dec.inner.flush().is_err() {
        return None;
    }
    Some(dec.inner.get_ref()[start..].to_vec())
}

} // verus!
