//! Control frames: Ping, Pong and Close. Always a single frame with FIN
//! set, never compressed, payload at most 125 bytes.

use vstd::prelude::*;

use core::marker::PhantomData;

use vstd::string::StringSliceAdditionalSpecFns;
use vstd::utf8::{encode_utf8_valid_utf8, is_char_boundary, valid_utf8};

use crate::error::CloseReason;
use crate::frames::opcode::Opcode;
use crate::frames::wire::{be16_bytes, encode_frame, frame_bytes};
use crate::rng::random_mask_key;
use crate::role::EncodePolicy;

verus! {

/// The largest close reason text carried beside the 2-byte code.
pub const MAX_CLOSE_TEXT: usize = 123;

/// The largest index at most `i` that falls on a character boundary of
/// the UTF-8 bytes `s`.
pub open spec fn spec_floor_boundary(s: Seq<u8>, i: int) -> int
    recommends
        valid_utf8(s),
    decreases i,
{
    if i <= 0 {
        0
    } else if is_char_boundary(s, i) {
        i
    } else {
        spec_floor_boundary(s, i - 1)
    }
}

/// The payload of a Close frame built from a code and a reason text:
/// the big-endian code, then the text truncated to 123 bytes at a
/// character boundary.
pub open spec fn spec_close_reason_payload(code: u16, text: Seq<u8>) -> Seq<u8> {
    let cap: int = if text.len() < MAX_CLOSE_TEXT { text.len() as int } else { MAX_CLOSE_TEXT as int };
    be16_bytes(code) + text.take(spec_floor_boundary(text, cap))
}

/// A control frame about to be encoded, with the payload borrowed from
/// the caller.
pub struct ControlFrame<'a, R: EncodePolicy> {
    opcode: Opcode,
    payload: &'a [u8],
    _p: PhantomData<R>,
}

impl<'a, R: EncodePolicy> ControlFrame<'a, R> {
    /// The frame's opcode.
    pub closed spec fn op_m(&self) -> Opcode {
        self.opcode
    }

    /// The frame's payload bytes.
    pub closed spec fn payload_m(&self) -> Seq<u8> {
        self.payload@
    }

    /// A Ping frame carrying `payload`.
    pub fn ping(payload: &'a [u8]) -> (r: Self)
        ensures
            r.op_m() == Opcode::Ping,
            r.payload_m() == payload@,
    {
        Self { opcode: Opcode::Ping, payload, _p: PhantomData }
    }

    /// A Pong frame carrying `payload`.
    pub fn pong(payload: &'a [u8]) -> (r: Self)
        ensures
            r.op_m() == Opcode::Pong,
            r.payload_m() == payload@,
    {
        Self { opcode: Opcode::Pong, payload, _p: PhantomData }
    }

    /// A Close frame carrying `payload`.
    pub fn close(payload: &'a [u8]) -> (r: Self)
        ensures
            r.op_m() == Opcode::Close,
            r.payload_m() == payload@,
    {
        Self { opcode: Opcode::Close, payload, _p: PhantomData }
    }

    /// Encodes the frame with the given masking key; only the client
    /// role masks.
    pub fn encode_with_key(self, key: [u8; 4]) -> (r: Vec<u8>)
        requires
            R::spec_mask_outgoing(),
            self.payload_m().len() <= 125,
        ensures
            r@ == frame_bytes(true, false, self.op_m(), Some(key@), self.payload_m()),
    {
        encode_frame(true, false, self.opcode, Some(key), self.payload)
    }

    /// Encodes the frame: FIN set, never compressed; a client role masks
    /// the payload with a fresh random key, a server sends it bare.
    pub fn encode(self) -> (r: Vec<u8>)
        requires
            self.payload_m().len() <= 125,
        ensures
            !R::spec_mask_outgoing() ==> r@ == frame_bytes(
                true,
                false,
                self.op_m(),
                None::<Seq<u8>>,
                self.payload_m(),
            ),
            R::spec_mask_outgoing() ==> exists|k: Seq<u8>|
                k.len() == 4 && r@ == frame_bytes(true, false, self.op_m(), Some(k), self.payload_m()),
    {
        if R::mask_outgoing() {
            let key = random_mask_key();
            let r = encode_frame(true, false, self.opcode, Some(key), self.payload);
            proof {
                assert(key@.len() == 4 && r@ == frame_bytes(
                    true,
                    false,
                    self.op_m(),
                    Some(key@),
                    self.payload_m(),
                ));
            }
            r
        } else {
            encode_frame(true, false, self.opcode, None, self.payload)
        }
    }

    /// Builds and encodes a Close frame for `reason`, with `text`
    /// truncated to 123 bytes at a character boundary.
    pub fn close_reason(reason: CloseReason, text: &str) -> (r: Vec<u8>)
        ensures
            ({
                let payload = spec_close_reason_payload(reason.spec_code(), text.spec_bytes());
                &&& !R::spec_mask_outgoing() ==> r@ == frame_bytes(
                    true,
                    false,
                    Opcode::Close,
                    None::<Seq<u8>>,
                    payload,
                )
                &&& R::spec_mask_outgoing() ==> exists|k: Seq<u8>|
                    k.len() == 4 && r@ == frame_bytes(true, false, Opcode::Close, Some(k), payload)
            }),
    {
        proof {
            encode_utf8_valid_utf8(text@);
        }
        let bytes = text.as_bytes();
        let cap: usize = if bytes.len() < MAX_CLOSE_TEXT {
            bytes.len()
        } else {
            MAX_CLOSE_TEXT
        };
        let mut l: usize = cap;
        while !text.is_char_boundary(l)
            invariant
                valid_utf8(text.spec_bytes()),
                0 <= l <= cap,
                cap <= text.spec_bytes().len(),
                spec_floor_boundary(text.spec_bytes(), cap as int) == spec_floor_boundary(
                    text.spec_bytes(),
                    l as int,
                ),
            decreases l,
        {
            proof {
                if l == 0 {
                    vstd::utf8::is_char_boundary_start_end_of_seq(text.spec_bytes());
                    assert(false);
                }
            }
            l = l - 1;
        }
        assert(l == spec_floor_boundary(text.spec_bytes(), cap as int));
        let code = reason.to_be_bytes();
        let mut payload: Vec<u8> = Vec::new();
        payload.push(code[0]);
        payload.push(code[1]);
        let (head, _) = bytes.split_at(l);
        let mut tail = vstd::slice::slice_to_vec(head);
        payload.append(&mut tail);
        proof {
            assert(payload@ =~= spec_close_reason_payload(reason.spec_code(), text.spec_bytes()));
        }
        ControlFrame::<R>::close(payload.as_slice()).encode()
    }
}

} // verus!
