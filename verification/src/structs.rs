//! The plain client fast path: whole buffers parsed into frames in one
//! pass, and messages sent as short masked fragments.

use vstd::prelude::*;

use vstd::slice::slice_index_get;

use crate::frames::data::{spec_message_frames, DataFrame};
use crate::frames::opcode::Opcode;
use crate::protocol::mask::{mask, mask_seq};
use crate::role::Client;

verus! {

/// The fragment bound of the fast send path.
pub const FAST_CHUNK: usize = 125;

/// A message queued on the fast send path; always masked, as a client.
pub struct SendMessage<'a> {
    opcode: Opcode,
    payload: &'a [u8],
}

impl<'a> SendMessage<'a> {
    /// The message's opcode.
    pub closed spec fn op_m(&self) -> Opcode {
        self.opcode
    }

    /// The message's payload bytes.
    pub closed spec fn payload_m(&self) -> Seq<u8> {
        self.payload@
    }

    /// A message carrying `payload` under `opcode`.
    pub fn new(payload: &'a [u8], opcode: Opcode) -> (r: Self)
        ensures
            r.op_m() == opcode,
            r.payload_m() == payload@,
    {
        Self { opcode, payload }
    }

    /// The message as masked wire fragments of at most 125 payload
    /// bytes each; an empty message produces no frames.
    pub fn frames(&self) -> (r: Vec<Vec<u8>>)
        ensures
            self.payload_m().len() == 0 ==> r.deep_view() == Seq::<Seq<u8>>::empty(),
            self.payload_m().len() > 0 ==> exists|keys: Option<Seq<Seq<u8>>>|
                #[trigger] spec_message_frames(
                    r.deep_view(),
                    self.op_m(),
                    self.payload_m(),
                    false,
                    FAST_CHUNK as int,
                    keys,
                ) && keys is Some,
    {
        if self.payload.len() == 0 {
            let r: Vec<Vec<u8>> = Vec::new();
            proof {
                assert(r.deep_view() =~= Seq::<Seq<u8>>::empty());
            }
            r
        } else {
            DataFrame::<Client>::new(self.payload, self.opcode).frames_bounded(
                self.payload,
                false,
                FAST_CHUNK,
            )
        }
    }
}

/// One frame read by the plain single-pass parser.
#[derive(Debug)]
pub struct Frame {
    pub opcode: Opcode,
    pub payload: Vec<u8>,
    pub is_fin: bool,
}

impl View for Frame {
    type V = (Opcode, bool, Seq<u8>);

    open spec fn view(&self) -> (Opcode, bool, Seq<u8>) {
        (self.opcode, self.is_fin, self.payload@)
    }
}

impl DeepView for Frame {
    type V = (Opcode, bool, Seq<u8>);

    open spec fn deep_view(&self) -> (Opcode, bool, Seq<u8>) {
        self.view()
    }
}

/// The frames a buffer holds under the plain layout: FIN and opcode,
/// then the mask bit with a 7-bit length, an optional 4-byte key, and
/// the payload, unmasked when a key was present. Parsing stops at a
/// truncated frame, a reserved opcode, or an extended-length marker.
pub open spec fn spec_simple_frames(buf: Seq<u8>) -> Seq<(Opcode, bool, Seq<u8>)>
    decreases buf.len(),
{
    if buf.len() < 2 {
        Seq::empty()
    } else {
        let fin = buf[0] & 0x80 != 0;
        match Opcode::spec_from_u8((buf[0] & 0x0f) as u8) {
            None => Seq::empty(),
            Some(op) => {
                let masked = buf[1] & 0x80 != 0;
                let len = (buf[1] & 0x7f) as int;
                let need: int = 2 + (if masked {
                    4int
                } else {
                    0int
                }) + len;
                if len > 125 || buf.len() < need {
                    Seq::empty()
                } else {
                    let payload = if masked {
                        mask_seq(buf.subrange(6, 6 + len), buf.subrange(2, 6))
                    } else {
                        buf.subrange(2, 2 + len)
                    };
                    seq![(op, fin, payload)] + spec_simple_frames(buf.skip(need))
                }
            },
        }
    }
}

impl Frame {
    /// Parses every complete frame out of `buf` in one pass.
    pub fn parse_bytes(buf: &[u8]) -> (r: Vec<Frame>)
        ensures
            r.deep_view() == spec_simple_frames(buf@),
    {
        let mut out: Vec<Frame> = Vec::new();
        let mut rest: &[u8] = buf;
        loop
            invariant
                spec_simple_frames(buf@) == out.deep_view() + spec_simple_frames(rest@),
            ensures
                spec_simple_frames(rest@) == Seq::<(Opcode, bool, Seq<u8>)>::empty(),
                spec_simple_frames(buf@) == out.deep_view() + spec_simple_frames(rest@),
            decreases rest@.len(),
        {
            if rest.len() < 2 {
                break ;
            }
            let b0 = *slice_index_get(rest, 0);
            let b1 = *slice_index_get(rest, 1);
            let opcode = match Opcode::try_from(b0 & 0x0f) {
                Ok(op) => op,
                Err(()) => {
                    break ;
                },
            };
            let is_fin = b0 & 0x80 != 0;
            let masked = b1 & 0x80 != 0;
            let len = (b1 & 0x7f) as usize;
            assert(b1 & 0x7f <= 127) by (bit_vector);
            let need: usize = 2 + (if masked {
                4
            } else {
                0
            }) + len;
            if len > 125 || rest.len() < need {
                break ;
            }
            let (_, after_header) = rest.split_at(2);
            let payload: Vec<u8>;
            if masked {
                let (key_bytes, body) = after_header.split_at(4);
                let key: [u8; 4] = [
                    *slice_index_get(key_bytes, 0),
                    *slice_index_get(key_bytes, 1),
                    *slice_index_get(key_bytes, 2),
                    *slice_index_get(key_bytes, 3),
                ];
                let (chunk, _) = body.split_at(len);
                let mut p = vstd::slice::slice_to_vec(chunk);
                mask(&mut p, key);
                proof {
                    assert(key@ =~= rest@.subrange(2, 6));
                    assert(chunk@ =~= rest@.subrange(6, 6 + len as int));
                }
                payload = p;
            } else {
                let (chunk, _) = after_header.split_at(len);
                let p = vstd::slice::slice_to_vec(chunk);
                proof {
                    assert(chunk@ =~= rest@.subrange(2, 2 + len as int));
                }
                payload = p;
            }
            let ghost out0 = out.deep_view();
            let ghost rest0 = rest@;
            let frame = Frame { opcode, payload, is_fin };
            out.push(frame);
            let (_, tail) = rest.split_at(need);
            rest = tail;
            proof {
                assert(tail@ =~= rest0.skip(need as int));
                assert(spec_simple_frames(rest0) == seq![frame@] + spec_simple_frames(tail@));
                assert(out.deep_view() =~= out0.push(frame@));
                assert(out.deep_view() + spec_simple_frames(tail@) =~= out0 + spec_simple_frames(
                    rest0,
                ));
            }
        }
        proof {
            assert(out.deep_view() + Seq::<(Opcode, bool, Seq<u8>)>::empty() =~= out.deep_view());
        }
        out
    }
}

} // verus!
