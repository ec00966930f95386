//! Events delivered to the caller of a connection.

use vstd::prelude::*;

use vstd::utf8::{decode_utf8, valid_utf8};

use crate::text::str_from_utf8;

verus! {

/// UTF-8 validated bytes.
#[derive(Debug)]
pub struct Text {
    inner: Vec<u8>,
}

impl Text {
    /// The UTF-8 bytes.
    pub closed spec fn bytes_m(&self) -> Seq<u8> {
        self.inner@
    }

    /// Well-formed: the bytes are valid UTF-8.
    pub open spec fn wf(&self) -> bool {
        valid_utf8(self.bytes_m())
    }

    /// Wraps bytes already known to be valid UTF-8.
    pub fn new(bytes: Vec<u8>) -> (r: Self)
        requires
            valid_utf8(bytes@),
        ensures
            r.wf(),
            r.bytes_m() == bytes@,
    {
        Self { inner: bytes }
    }

    /// The text as a string slice.
    pub fn as_str(&self) -> (r: &str)
        requires
            self.wf(),
        ensures
            r@ == decode_utf8(self.bytes_m()),
    {
        str_from_utf8(self.inner.as_slice())
    }

    /// The text length in bytes.
    pub fn len(&self) -> (r: usize)
        ensures
            r == self.bytes_m().len(),
    {
        self.inner.len()
    }

    /// True when the text is empty.
    pub fn is_empty(&self) -> (r: bool)
        ensures
            r == (self.bytes_m().len() == 0),
    {
        self.inner.is_empty()
    }

    /// The text as bytes.
    pub fn as_bytes(&self) -> (r: &[u8])
        ensures
            r@ == self.bytes_m(),
    {
        self.inner.as_slice()
    }

    /// Hands the bytes out, consuming the wrapper.
    pub fn into_bytes(self) -> (r: Vec<u8>)
        ensures
            r@ == self.bytes_m(),
    {
        self.inner
    }
}

/// What a connection reports upward: a pong with its latency in
/// milliseconds, a text or binary message, the single final `Closed`, or
/// a payload that could not be queued.
#[derive(Debug)]
pub enum Event {
    Pong(u16),
    Text(Text),
    Binary(Vec<u8>),
    Closed,
    Error(Vec<u8>),
}

impl Event {
    /// The payload length an event carries.
    pub open spec fn spec_len(&self) -> nat {
        match self {
            Event::Text(s) => s.bytes_m().len(),
            Event::Binary(b) => b@.len(),
            _ => 0,
        }
    }

    /// The payload length an event carries.
    pub fn len(&self) -> (r: usize)
        ensures
            r == self.spec_len(),
    {
        match self {
            Event::Text(s) => s.len(),
            Event::Binary(b) => b.len(),
            _ => 0,
        }
    }
}

} // verus!
