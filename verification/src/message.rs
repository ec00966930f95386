//! Assembled messages, and the buffer a fragmented message accumulates
//! into while its continuation frames arrive.

use vstd::prelude::*;

use vstd::string::StringSliceAdditionalSpecFns;
use vstd::utf8::{decode_utf8, encode_utf8, valid_utf8};

use crate::text::string_from_utf8;

verus! {

/// An assembled message received from the peer.
#[derive(Debug)]
pub enum Message {
    /// A valid UTF-8 message.
    Text(String),
    /// Binary message bytes.
    Binary(Vec<u8>),
}

impl Message {
    /// The message payload as bytes: a text message's UTF-8 encoding, a
    /// binary message's own bytes.
    pub open spec fn spec_bytes(&self) -> Seq<u8> {
        match self {
            Message::Text(s) => encode_utf8(s@),
            Message::Binary(b) => b@,
        }
    }

    /// If the message is text, a reference to it; otherwise `None`.
    pub fn as_str(&self) -> (r: Option<&str>)
        ensures
            match self {
                Message::Text(s) => r matches Some(t) && t@ == s@,
                Message::Binary(_) => r is None,
            },
    {
        match self {
            Message::Binary(..) => None,
            Message::Text(s) => Some(s.as_str()),
        }
    }

    /// The message payload as bytes.
    pub fn as_bytes(&self) -> (r: &[u8])
        ensures
            r@ == self.spec_bytes(),
    {
        match self {
            Message::Binary(b) => b.as_slice(),
            Message::Text(s) => s.as_str().as_bytes(),
        }
    }

    /// The payload length in bytes.
    pub fn len(&self) -> (r: usize)
        ensures
            r == self.spec_bytes().len(),
    {
        match self {
            Message::Binary(b) => b.len(),
            Message::Text(s) => {
                let st = s.as_str();
                let n = st.as_bytes().len();
                proof {
                    assert(st@ == s@);
                    assert(st.spec_bytes() == encode_utf8(s@));
                }
                n
            },
        }
    }

    /// True when the payload is empty.
    pub fn is_empty(&self) -> (r: bool)
        ensures
            r == (self.spec_bytes().len() == 0),
    {
        self.len() == 0
    }
}

/// A partially assembled message: its kind, whether its first frame
/// carried the RSV1 bit, and the fragment bytes accumulated so far.
#[derive(Debug)]
pub struct PartialMessage {
    is_text: bool,
    compressed: bool,
    buf: Vec<u8>,
}

impl PartialMessage {
    /// Whether the message is text.
    pub closed spec fn is_text_m(&self) -> bool {
        self.is_text
    }

    /// Whether the message's first frame carried the RSV1 bit.
    pub closed spec fn compressed_m(&self) -> bool {
        self.compressed
    }

    /// The bytes accumulated so far.
    pub closed spec fn buf_m(&self) -> Seq<u8> {
        self.buf@
    }

    /// A fresh text message buffer.
    pub fn text(compressed: bool) -> (r: Self)
        ensures
            r.is_text_m(),
            r.compressed_m() == compressed,
            r.buf_m() == Seq::<u8>::empty(),
    {
        Self { is_text: true, compressed, buf: Vec::new() }
    }

    /// A fresh binary message buffer.
    pub fn binary(compressed: bool) -> (r: Self)
        ensures
            !r.is_text_m(),
            r.compressed_m() == compressed,
            r.buf_m() == Seq::<u8>::empty(),
    {
        Self { is_text: false, compressed, buf: Vec::new() }
    }

    /// Appends one fragment's payload.
    pub fn push_bytes(&mut self, bytes: &[u8])
        ensures
            final(self).buf_m() == old(self).buf_m() + bytes@,
            final(self).is_text_m() == old(self).is_text_m(),
            final(self).compressed_m() == old(self).compressed_m(),
    {
        let mut tail = vstd::slice::slice_to_vec(bytes);
        self.buf.append(&mut tail);
    }

    /// The number of bytes accumulated so far.
    pub fn len(&self) -> (r: usize)
        ensures
            r == self.buf_m().len(),
    {
        self.buf.len()
    }

    /// Whether the message is text.
    pub fn kind_is_text(&self) -> (r: bool)
        ensures
            r == self.is_text_m(),
    {
        self.is_text
    }

    /// Whether the message's first frame carried the RSV1 bit.
    pub fn marked_compressed(&self) -> (r: bool)
        ensures
            r == self.compressed_m(),
    {
        self.compressed
    }

    /// Hands the accumulated bytes out, consuming the buffer.
    pub fn into_bytes(self) -> (r: Vec<u8>)
        ensures
            r@ == self.buf_m(),
    {
        self.buf
    }
}

/// Builds the final message from fully assembled (and, if need be,
/// inflated) bytes: a text message must be valid UTF-8, a binary one is
/// taken as is.
pub fn finish_message(text: bool, data: Vec<u8>) -> (r: Option<Message>)
    ensures
        text ==> ({
            &&& r is Some <==> valid_utf8(data@)
            &&& r matches Some(m) ==> (m matches Message::Text(s) && s@ == decode_utf8(data@))
        }),
        !text ==> (r matches Some(m) && m == Message::Binary(data)),
{
    if text {
        match string_from_utf8(data) {
            Some(s) => Some(Message::Text(s)),
            None => None,
        }
    } else {
        Some(Message::Binary(data))
    }
}

} // verus!
