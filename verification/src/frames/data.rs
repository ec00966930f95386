//! Data frames: Text and Binary messages, split into fragments of at
//! most `MAX_FRAME_PAYLOAD` bytes, optionally compressed, and masked by
//! the client role.

use vstd::prelude::*;

use core::marker::PhantomData;

use crate::compress::{deflate_message, Deflater};
use crate::frames::opcode::Opcode;
use crate::frames::wire::{encode_frame, frame_bytes, spec_chunks};
use crate::rng::random_mask_key;
use crate::role::EncodePolicy;
use crate::MAX_FRAME_PAYLOAD;

verus! {

/// True when `frames` is exactly the fragment sequence of one message:
/// `payload` split at `max`, the first fragment carrying `op` (and the
/// RSV1 bit when `comp`), later ones Continuation, FIN on the last, each
/// masked with the matching key of `keys` when one is given.
pub open spec fn spec_message_frames(
    frames: Seq<Seq<u8>>,
    op: Opcode,
    payload: Seq<u8>,
    comp: bool,
    max: int,
    keys: Option<Seq<Seq<u8>>>,
) -> bool {
    let chunks = spec_chunks(payload, max);
    &&& frames.len() == chunks.len()
    &&& (keys matches Some(ks) ==> ks.len() == chunks.len() && forall|i: int|
        0 <= i < ks.len() ==> (#[trigger] ks[i]).len() == 4)
    &&& forall|i: int|
        0 <= i < chunks.len() ==> #[trigger] frames[i] == frame_bytes(
            i == chunks.len() - 1,
            comp && i == 0,
            if i == 0 {
                op
            } else {
                Opcode::Cont
            },
            match keys {
                Some(ks) => Some(ks[i]),
                None => None,
            },
            chunks[i],
        )
}

/// A data message about to be encoded, with the payload borrowed from
/// the caller.
#[derive(Debug)]
pub struct DataFrame<'a, P: EncodePolicy> {
    opcode: Opcode,
    payload: &'a [u8],
    _p: PhantomData<P>,
}

impl<'a, P: EncodePolicy> DataFrame<'a, P> {
    /// The message's opcode.
    pub closed spec fn op_m(&self) -> Opcode {
        self.opcode
    }

    /// The message's payload bytes.
    pub closed spec fn payload_m(&self) -> Seq<u8> {
        self.payload@
    }

    /// A data message carrying `payload` under `opcode`.
    pub fn new(payload: &'a [u8], opcode: Opcode) -> (r: Self)
        ensures
            r.op_m() == opcode,
            r.payload_m() == payload@,
    {
        Self { opcode, payload, _p: PhantomData }
    }

    /// Encodes the message: compressed through the DEFLATE stream when
    /// one is given (with the sync-flush tail stripped, per RFC 7692),
    /// then split into fragments.
    pub fn encode(self, deflater: &mut Option<Deflater>, use_context: bool) -> (r: Vec<Vec<u8>>)
        ensures
            (*old(deflater)) is None ==> exists|keys: Option<Seq<Seq<u8>>>|
                #[trigger] spec_message_frames(
                    r.deep_view(),
                    self.op_m(),
                    self.payload_m(),
                    false,
                    MAX_FRAME_PAYLOAD as int,
                    keys,
                ) && (keys is Some <==> P::spec_mask_outgoing()),
            (*old(deflater)) is Some ==> exists|d: Seq<u8>, keys: Option<Seq<Seq<u8>>>|
                #[trigger] spec_message_frames(
                    r.deep_view(),
                    self.op_m(),
                    d,
                    true,
                    MAX_FRAME_PAYLOAD as int,
                    keys,
                ) && (keys is Some <==> P::spec_mask_outgoing()),
    {
        match deflater {
            Some(enc) => {
                let mut compressed = deflate_message(enc, self.payload, use_context);
                // strip the trailing 00 00 FF FF the sync flush appends
                let n = compressed.len();
                if n >= 4 {
                    compressed.truncate(n - 4);
                }
                let r = self.all_frames(compressed.as_slice(), true);
                proof {
                    let keys = choose|keys: Option<Seq<Seq<u8>>>|
                        #[trigger] spec_message_frames(
                            r.deep_view(),
                            self.op_m(),
                            compressed@,
                            true,
                            MAX_FRAME_PAYLOAD as int,
                            keys,
                        ) && (keys is Some <==> P::spec_mask_outgoing());
                    assert(spec_message_frames(
                        r.deep_view(),
                        self.op_m(),
                        compressed@,
                        true,
                        MAX_FRAME_PAYLOAD as int,
                        keys,
                    ) && (keys is Some <==> P::spec_mask_outgoing()));
                }
                r
            },
            None => {
                let r = self.all_frames(self.payload, false);
                proof {
                    let keys = choose|keys: Option<Seq<Seq<u8>>>|
                        #[trigger] spec_message_frames(
                            r.deep_view(),
                            self.op_m(),
                            self.payload_m(),
                            false,
                            MAX_FRAME_PAYLOAD as int,
                            keys,
                        ) && (keys is Some <==> P::spec_mask_outgoing());
                    assert(spec_message_frames(
                        r.deep_view(),
                        self.op_m(),
                        self.payload_m(),
                        false,
                        MAX_FRAME_PAYLOAD as int,
                        keys,
                    ) && (keys is Some <==> P::spec_mask_outgoing()));
                }
                r
            },
        }
    }

    /// Splits `payload` into fragments and encodes each: the first
    /// carries the message opcode and, when `compressed`, the RSV1 bit;
    /// later fragments are Continuation frames; FIN marks the last.
    pub fn all_frames(&self, payload: &[u8], compressed: bool) -> (r: Vec<Vec<u8>>)
        ensures
            exists|keys: Option<Seq<Seq<u8>>>|
                #[trigger] spec_message_frames(
                    r.deep_view(),
                    self.op_m(),
                    payload@,
                    compressed,
                    MAX_FRAME_PAYLOAD as int,
                    keys,
                ) && (keys is Some <==> P::spec_mask_outgoing()),
    {
        self.frames_bounded(payload, compressed, MAX_FRAME_PAYLOAD)
    }

    /// Splits `payload` into fragments of at most `limit` bytes and
    /// encodes each as `all_frames` does.
    pub fn frames_bounded(&self, payload: &[u8], compressed: bool, limit: usize) -> (r: Vec<
        Vec<u8>,
    >)
        requires
            limit >= 1,
        ensures
            exists|keys: Option<Seq<Seq<u8>>>|
                #[trigger] spec_message_frames(
                    r.deep_view(),
                    self.op_m(),
                    payload@,
                    compressed,
                    limit as int,
                    keys,
                ) && (keys is Some <==> P::spec_mask_outgoing()),
    {
        let ghost whole = payload@;
        let ghost max = limit as int;
        let mut chunks: Vec<Vec<u8>> = Vec::new();
        let ghost mut keys: Seq<Seq<u8>> = Seq::empty();
        let mut rest: &[u8] = payload;
        let mut first = true;
        let ghost spec_cs = spec_chunks(whole, max);
        while rest.len() > limit
            invariant
                max == limit as int,
                limit >= 1,
                spec_cs == spec_chunks(whole, max),
                spec_cs =~= spec_cs.take(chunks@.len() as int) + spec_chunks(rest@, max),
                chunks@.len() < spec_cs.len(),
                first <==> chunks@.len() == 0,
                keys.len() == chunks@.len(),
                forall|i: int| 0 <= i < keys.len() ==> (#[trigger] keys[i]).len() == 4,
                forall|i: int|
                    0 <= i < chunks@.len() ==> (#[trigger] chunks@[i])@ == frame_bytes(
                        false,
                        compressed && i == 0,
                        if i == 0 {
                            self.op_m()
                        } else {
                            Opcode::Cont
                        },
                        if P::spec_mask_outgoing() {
                            Some(keys[i])
                        } else {
                            None
                        },
                        spec_cs[i],
                    ),
            decreases rest@.len(),
        {
            let (chunk, tail) = rest.split_at(limit);
            let ghost i = chunks@.len() as int;
            proof {
                assert(spec_chunks(rest@, max) == seq![rest@.take(max)] + spec_chunks(
                    rest@.skip(max),
                    max,
                ));
                assert(spec_cs[i] == rest@.take(max));
                lemma_chunks_len(rest@.skip(max), max);
            }
            let (frame, k) = self.single_frame(chunk, &mut first, false, compressed);
            chunks.push(frame);
            proof {
                keys = keys.push(k@);
                assert(spec_cs =~= spec_cs.take(chunks@.len() as int) + spec_chunks(
                    rest@.skip(max),
                    max,
                ));
            }
            rest = tail;
        }
        let ghost i = chunks@.len() as int;
        proof {
            assert(spec_chunks(rest@, max) == seq![rest@]);
            assert(spec_cs[i] == rest@);
            assert(i == spec_cs.len() - 1);
        }
        let (frame, k) = self.single_frame(rest, &mut first, true, compressed);
        chunks.push(frame);
        proof {
            keys = keys.push(k@);
            assert forall|j: int| 0 <= j < chunks@.len() implies #[trigger] chunks.deep_view()[j]
                == chunks@[j]@ by {
                assert(chunks@[j].deep_view() =~= chunks@[j]@);
            }
            let ko: Option<Seq<Seq<u8>>> = if P::spec_mask_outgoing() {
                Some(keys)
            } else {
                None
            };
            assert(spec_message_frames(
                chunks.deep_view(),
                self.op_m(),
                whole,
                compressed,
                max,
                ko,
            ));
        }
        chunks
    }

    /// Encodes one fragment with an explicit masking key; only the
    /// client role masks.
    pub fn frame_with_key(
        &self,
        chunk: &[u8],
        first: bool,
        last: bool,
        compressed: bool,
        key: [u8; 4],
    ) -> (r: Vec<u8>)
        requires
            P::spec_mask_outgoing(),
        ensures
            r@ == frame_bytes(
                last,
                first && compressed,
                if first {
                    self.op_m()
                } else {
                    Opcode::Cont
                },
                Some(key@),
                chunk@,
            ),
    {
        let op = if first {
            self.opcode
        } else {
            Opcode::Cont
        };
        encode_frame(last, first && compressed, op, Some(key), chunk)
    }

    /// Encodes one fragment, masking with a fresh random key when the
    /// role asks for it; clears `first` for the fragments that follow.
    fn single_frame(&self, chunk: &[u8], first: &mut bool, last: bool, compressed: bool) -> (r: (
        Vec<u8>,
        Ghost<Seq<u8>>,
    ))
        ensures
            *final(first) == false,
            r.1@.len() == 4,
            P::spec_mask_outgoing() ==> r.0@ == frame_bytes(
                last,
                *old(first) && compressed,
                if *old(first) {
                    self.op_m()
                } else {
                    Opcode::Cont
                },
                Some(r.1@),
                chunk@,
            ),
            !P::spec_mask_outgoing() ==> r.0@ == frame_bytes(
                last,
                *old(first) && compressed,
                if *old(first) {
                    self.op_m()
                } else {
                    Opcode::Cont
                },
                None::<Seq<u8>>,
                chunk@,
            ),
    {
        let op = if *first {
            self.opcode
        } else {
            Opcode::Cont
        };
        let rsv1 = *first && compressed;
        *first = false;
        if P::mask_outgoing() {
            let key = random_mask_key();
            let ghost kv = key@;
            (encode_frame(last, rsv1, op, Some(key), chunk), Ghost(kv))
        } else {
            let ghost kv = seq![0u8, 0u8, 0u8, 0u8];
            (encode_frame(last, rsv1, op, None, chunk), Ghost(kv))
        }
    }
}

/// A chunk list is never empty.
proof fn lemma_chunks_len(payload: Seq<u8>, max: int)
    requires
        max > 0,
    ensures
        spec_chunks(payload, max).len() >= 1,
    decreases payload.len(),
{
    if payload.len() > max {
        lemma_chunks_len(payload.skip(max), max);
    }
}

} // verus!
