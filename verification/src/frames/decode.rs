//! The incremental frame decoder: a state machine that turns a byte
//! stream into validated frames. On under-supplied input it reports
//! `Incomplete` without losing bytes and resumes where it left off.

use vstd::prelude::*;

use core::marker::PhantomData;

use bytes::BytesMut;

use crate::bytebuf::{buf_extend, buf_len, buf_new, buf_split_to_vec, byte_buf};
use crate::frames::opcode::Opcode;
use crate::frames::wire::{
    be16, spec_run, state_rank, valid_close_payload, CtxModel, DecodeState, FrameModel,
    ParseOutcome,
};
use crate::protocol::mask::mask;
use crate::role::DecodePolicy;
use crate::text::utf8_is_valid;
use crate::MAX_FRAME_PAYLOAD;

verus! {

/// One complete frame handed up by the decoder: its opcode, the
/// unmasked payload, the FIN bit and the RSV1 (compression) bit.
#[derive(Debug)]
pub struct DecodedFrame {
    pub opcode: Opcode,
    pub payload: Vec<u8>,
    pub is_fin: bool,
    pub compressed: bool,
}

impl View for DecodedFrame {
    type V = FrameModel;

    open spec fn view(&self) -> FrameModel {
        FrameModel {
            fin: self.is_fin,
            compressed: self.compressed,
            opcode: self.opcode,
            payload: self.payload@,
        }
    }
}

/// The decoder's answer when it could make progress: a complete frame,
/// or a request for more bytes.
#[derive(Debug)]
pub enum FrameState {
    Complete(DecodedFrame),
    Incomplete,
}

/// Terminal decode errors: a protocol violation, to be answered with
/// close code 1002, or an oversized frame, answered with 1009.
#[derive(Debug, Copy, Clone, PartialEq, Eq, Structural)]
pub enum FrameParseError {
    ProtoError,
    SizeErr,
}

/// The per-frame header context, rebuilt at each frame start.
struct DecodeContext {
    is_fin: bool,
    opcode: Opcode,
    payload_len: usize,
    mask_key: [u8; 4],
    compressed: bool,
}

impl View for DecodeContext {
    type V = CtxModel;

    closed spec fn view(&self) -> CtxModel {
        CtxModel {
            fin: self.is_fin,
            comp: self.compressed,
            op: self.opcode,
            len: self.payload_len as int,
            key: self.mask_key@,
        }
    }
}

/// Validates a Close frame payload: empty, or a 2-byte code in the
/// ranges the wire admits followed by a valid UTF-8 reason.
pub fn is_valid_close_payload(bytes: &Vec<u8>) -> (r: bool)
    ensures
        r == valid_close_payload(bytes@),
{
    let n = bytes.len();
    if n == 0 {
        true
    } else if n == 1 {
        false
    } else {
        let code: u16 = (bytes[0] as u16) << 8 | bytes[1] as u16;
        assert(code == be16(bytes@[0], bytes@[1]));
        if (1000 <= code && code <= 1011) || (3000 <= code && code <= 4999) {
            let (_, tail) = bytes.as_slice().split_at(2);
            let ok = utf8_is_valid(tail);
            assert(tail@ =~= bytes@.skip(2));
            ok
        } else {
            false
        }
    }
}

proof fn seq_add_empty(s: Seq<u8>)
    ensures
        s + Seq::<u8>::empty() == s,
{
    assert(s + Seq::<u8>::empty() =~= s);
}

proof fn seq_push_assoc(a: Seq<u8>, b: Seq<u8>, c: Seq<u8>)
    ensures
        (a + b) + c == a + (b + c),
{
    assert((a + b) + c =~= a + (b + c));
}

/// The incremental decoder for one connection, validating input under
/// the masking expectation of role `P`.
pub struct FrameDecoder<P: DecodePolicy> {
    buf: BytesMut,
    state: DecodeState,
    ctx: DecodeContext,
    compressed: bool,
    _p: PhantomData<P>,
}

impl<P: DecodePolicy> FrameDecoder<P> {
    /// The decoder's position in the model machine.
    pub closed spec fn state_m(&self) -> DecodeState {
        self.state
    }

    /// The model of the per-frame context.
    pub closed spec fn ctx_m(&self) -> CtxModel {
        self.ctx@
    }

    /// The bytes pushed but not yet consumed.
    pub closed spec fn buf_m(&self) -> Seq<u8> {
        byte_buf(self.buf)
    }

    /// Whether compression was negotiated, so the RSV1 bit is admitted.
    pub closed spec fn ac_m(&self) -> bool {
        self.compressed
    }

    /// A fresh decoder, at a frame boundary with nothing buffered.
    pub fn new(compressed: bool) -> (r: Self)
        ensures
            r.state_m() == DecodeState::Header1,
            r.buf_m() == Seq::<u8>::empty(),
            r.ac_m() == compressed,
    {
        FrameDecoder {
            buf: buf_new(),
            state: DecodeState::Header1,
            ctx: DecodeContext {
                is_fin: false,
                opcode: Opcode::Cont,
                payload_len: 0,
                mask_key: [0u8, 0u8, 0u8, 0u8],
                compressed: false,
            },
            compressed,
            _p: PhantomData,
        }
    }

    /// Appends bytes read from the transport to the decoder's buffer.
    pub fn push_bytes(&mut self, bytes: &[u8])
        ensures
            final(self).buf_m() == old(self).buf_m() + bytes@,
            final(self).state_m() == old(self).state_m(),
            final(self).ctx_m() == old(self).ctx_m(),
            final(self).ac_m() == old(self).ac_m(),
    {
        buf_extend(&mut self.buf, bytes);
    }

    /// Attempts to decode the next frame from the buffered bytes.
    ///
    /// The result follows the model machine exactly: a complete frame is
    /// returned with the bytes after it kept for the next call; on
    /// under-supplied input nothing is consumed observably (decoding any
    /// later extension of the input gives the same outcome); protocol
    /// and size violations are reported as terminal errors.
    pub fn next_frame(&mut self) -> (r: Result<Option<FrameState>, FrameParseError>)
        ensures
            final(self).ac_m() == old(self).ac_m(),
            ({
                let em = P::spec_expect_masked();
                let ac = old(self).ac_m();
                match spec_run(old(self).state_m(), old(self).ctx_m(), old(self).buf_m(), em, ac) {
                    ParseOutcome::Done { frame, rest } => {
                        &&& r matches Ok(Some(FrameState::Complete(df))) && df@ == frame
                        &&& final(self).state_m() == DecodeState::Header1
                        &&& final(self).buf_m() == rest
                    },
                    ParseOutcome::Incomplete => {
                        &&& r matches Ok(ro) && !(ro matches Some(FrameState::Complete(_)))
                        &&& forall|ext: Seq<u8>|
                            spec_run(
                                final(self).state_m(),
                                final(self).ctx_m(),
                                final(self).buf_m() + ext,
                                em,
                                ac,
                            ) == spec_run(
                                old(self).state_m(),
                                old(self).ctx_m(),
                                old(self).buf_m() + ext,
                                em,
                                ac,
                            )
                    },
                    ParseOutcome::ProtoErr => r == Err::<Option<FrameState>, FrameParseError>(
                        FrameParseError::ProtoError,
                    ),
                    ParseOutcome::SizeErr => r == Err::<Option<FrameState>, FrameParseError>(
                        FrameParseError::SizeErr,
                    ),
                }
            }),
    {
        let ghost em = P::spec_expect_masked();
        let ghost ac = self.compressed;
        loop
            invariant
                self.ac_m() == old(self).ac_m(),
                em == P::spec_expect_masked(),
                ac == old(self).ac_m(),
                forall|ext: Seq<u8>|
                    spec_run(self.state_m(), self.ctx_m(), self.buf_m() + ext, em, ac) == spec_run(
                        old(self).state_m(),
                        old(self).ctx_m(),
                        old(self).buf_m() + ext,
                        em,
                        ac,
                    ),
            decreases state_rank(self.state_m()),
        {
            let ghost pre = *self;
            match self.state {
                DecodeState::Header1 => {
                    if buf_len(&self.buf) == 0 {
                        proof {
                            seq_add_empty(self.buf_m());
                            seq_add_empty(old(self).buf_m());
                        }
                        return Ok(None);
                    }
                    let front = buf_split_to_vec(&mut self.buf, 1);
                    let b = front[0];
                    proof {
                        assert(pre.buf_m() =~= seq![b] + self.buf_m());
                    }
                    match self.parse_header1(b) {
                        Ok(next) => {
                            proof {
                                assert forall|ext: Seq<u8>|
                                    spec_run(next, self.ctx_m(), self.buf_m() + ext, em, ac)
                                        == spec_run(
                                        old(self).state_m(),
                                        old(self).ctx_m(),
                                        old(self).buf_m() + ext,
                                        em,
                                        ac,
                                    ) by {
                                    seq_push_assoc(seq![b], self.buf_m(), ext);
                                    assert(spec_run(
                                        DecodeState::Header1,
                                        pre.ctx_m(),
                                        seq![b] + (self.buf_m() + ext),
                                        em,
                                        ac,
                                    ) == spec_run(next, self.ctx_m(), self.buf_m() + ext, em, ac));
                                }
                            }
                            self.state = next;
                        },
                        Err(e) => {
                            proof {
                                seq_add_empty(old(self).buf_m());
                                seq_add_empty(self.buf_m());
                                assert(spec_run(
                                    DecodeState::Header1,
                                    pre.ctx_m(),
                                    seq![b] + self.buf_m(),
                                    em,
                                    ac,
                                ) == ParseOutcome::ProtoErr);
                            }
                            return Err(e);
                        },
                    }
                },
                DecodeState::Header2 => {
                    match self.parse_header2() {
                        Ok(Some(next)) => {
                            self.state = next;
                        },
                        Ok(None) => {
                            return Ok(Some(FrameState::Incomplete));
                        },
                        Err(e) => {
                            proof {
                                seq_add_empty(old(self).buf_m());
                                seq_add_empty(pre.buf_m());
                            }
                            return Err(e);
                        },
                    }
                },
                DecodeState::ExtendedLen => {
                    match self.parse_extended_len() {
                        Ok(Some(next)) => {
                            self.state = next;
                        },
                        Ok(None) => {
                            return Ok(Some(FrameState::Incomplete));
                        },
                        Err(e) => {
                            proof {
                                seq_add_empty(old(self).buf_m());
                                seq_add_empty(pre.buf_m());
                            }
                            return Err(e);
                        },
                    }
                },
                DecodeState::MaskKey => {
                    match self.parse_mask_key() {
                        Some(next) => {
                            self.state = next;
                        },
                        None => {
                            return Ok(Some(FrameState::Incomplete));
                        },
                    }
                },
                DecodeState::Payload => {
                    match self.parse_payload() {
                        Ok(Some(payload)) => {
                            self.state = DecodeState::Header1;
                            let frame = DecodedFrame {
                                opcode: self.ctx.opcode,
                                payload,
                                is_fin: self.ctx.is_fin,
                                compressed: self.ctx.compressed,
                            };
                            proof {
                                seq_add_empty(old(self).buf_m());
                                seq_add_empty(pre.buf_m());
                            }
                            return Ok(Some(FrameState::Complete(frame)));
                        },
                        Ok(None) => {
                            return Ok(Some(FrameState::Incomplete));
                        },
                        Err(e) => {
                            proof {
                                seq_add_empty(old(self).buf_m());
                                seq_add_empty(pre.buf_m());
                            }
                            return Err(e);
                        },
                    }
                },
            }
        }
    }

    /// Reads FIN, the RSV bits and the opcode from the first header
    /// byte, starting a fresh frame context.
    fn parse_header1(&mut self, b: u8) -> (r: Result<DecodeState, FrameParseError>)
        ensures
            final(self).ac_m() == old(self).ac_m(),
            final(self).buf_m() == old(self).buf_m(),
            final(self).state_m() == old(self).state_m(),
            match r {
                Ok(st) => {
                    &&& state_rank(st) < state_rank(DecodeState::Header1)
                    &&& forall|rest: Seq<u8>|
                        spec_run(
                            DecodeState::Header1,
                            old(self).ctx_m(),
                            seq![b] + rest,
                            P::spec_expect_masked(),
                            old(self).ac_m(),
                        ) == spec_run(
                            st,
                            final(self).ctx_m(),
                            rest,
                            P::spec_expect_masked(),
                            old(self).ac_m(),
                        )
                },
                Err(e) => {
                    &&& e == FrameParseError::ProtoError
                    &&& forall|rest: Seq<u8>|
                        spec_run(
                            DecodeState::Header1,
                            old(self).ctx_m(),
                            seq![b] + rest,
                            P::spec_expect_masked(),
                            old(self).ac_m(),
                        ) == ParseOutcome::ProtoErr
                },
            },
    {
        let rsv = b & 0x30 > 0;
        let compressed = b & 0x40 > 0;
        if rsv || (compressed && !self.compressed) {
            proof {
                assert forall|rest: Seq<u8>| (seq![b] + rest)[0] == b by {}
            }
            return Err(FrameParseError::ProtoError);
        }
        let opcode = match Opcode::try_from(b & 0x0f) {
            Ok(op) => op,
            Err(()) => {
                proof {
                    assert forall|rest: Seq<u8>| (seq![b] + rest)[0] == b by {}
                }
                return Err(FrameParseError::ProtoError);
            },
        };
        self.ctx = DecodeContext {
            is_fin: b & 0x80 > 0,
            compressed,
            opcode,
            payload_len: 0,
            mask_key: [0u8, 0u8, 0u8, 0u8],
        };
        proof {
            assert(self.ctx_m().key =~= seq![0u8, 0u8, 0u8, 0u8]);
            assert forall|rest: Seq<u8>|
                spec_run(
                    DecodeState::Header1,
                    old(self).ctx_m(),
                    seq![b] + rest,
                    P::spec_expect_masked(),
                    old(self).ac_m(),
                ) == spec_run(
                    DecodeState::Header2,
                    self.ctx_m(),
                    rest,
                    P::spec_expect_masked(),
                    old(self).ac_m(),
                ) by {
                assert((seq![b] + rest)[0] == b);
                assert((seq![b] + rest).drop_first() =~= rest);
            }
        }
        Ok(DecodeState::Header2)
    }

    /// Reads the mask bit and the 7-bit length from the second header
    /// byte, and validates the control-frame rules.
    fn parse_header2(&mut self) -> (r: Result<Option<DecodeState>, FrameParseError>)
        ensures
            final(self).ac_m() == old(self).ac_m(),
            final(self).state_m() == old(self).state_m(),
            match r {
                Ok(Some(st)) => {
                    &&& state_rank(st) < state_rank(DecodeState::Header2)
                    &&& forall|ext: Seq<u8>|
                        spec_run(
                            DecodeState::Header2,
                            old(self).ctx_m(),
                            old(self).buf_m() + ext,
                            P::spec_expect_masked(),
                            old(self).ac_m(),
                        ) == spec_run(
                            st,
                            final(self).ctx_m(),
                            final(self).buf_m() + ext,
                            P::spec_expect_masked(),
                            old(self).ac_m(),
                        )
                },
                Ok(None) => {
                    &&& *final(self) == *old(self)
                    &&& spec_run(
                        DecodeState::Header2,
                        old(self).ctx_m(),
                        old(self).buf_m(),
                        P::spec_expect_masked(),
                        old(self).ac_m(),
                    ) is Incomplete
                },
                Err(e) => {
                    &&& e == FrameParseError::ProtoError
                    &&& spec_run(
                        DecodeState::Header2,
                        old(self).ctx_m(),
                        old(self).buf_m(),
                        P::spec_expect_masked(),
                        old(self).ac_m(),
                    ) == ParseOutcome::ProtoErr
                },
            },
    {
        if buf_len(&self.buf) == 0 {
            return Ok(None);
        }
        let ghost buf0 = self.buf_m();
        let front = buf_split_to_vec(&mut self.buf, 1);
        let b = front[0];
        proof {
            assert(buf0[0] == b);
            assert(buf0.drop_first() =~= self.buf_m());
        }
        let masked = (b & 0x80) > 0;
        if P::expect_masked() != masked {
            return Err(FrameParseError::ProtoError);
        }
        self.ctx.payload_len = (b & 0x7f) as usize;
        assert(b & 0x7f < 0x80) by (bit_vector);
        if self.ctx.opcode.is_control() && (!self.ctx.is_fin || self.ctx.compressed
            || self.ctx.payload_len > 125) {
            return Err(FrameParseError::ProtoError);
        }
        let next = if self.ctx.payload_len > 125 {
            DecodeState::ExtendedLen
        } else if P::expect_masked() {
            DecodeState::MaskKey
        } else {
            DecodeState::Payload
        };
        proof {
            assert forall|ext: Seq<u8>|
                spec_run(
                    DecodeState::Header2,
                    old(self).ctx_m(),
                    buf0 + ext,
                    P::spec_expect_masked(),
                    old(self).ac_m(),
                ) == spec_run(
                    next,
                    self.ctx_m(),
                    self.buf_m() + ext,
                    P::spec_expect_masked(),
                    old(self).ac_m(),
                ) by {
                assert((buf0 + ext)[0] == b);
                assert((buf0 + ext).drop_first() =~= self.buf_m() + ext);
            }
        }
        Ok(Some(next))
    }

    /// Reads the 2- or 8-byte extended length and enforces the frame
    /// size ceiling.
    fn parse_extended_len(&mut self) -> (r: Result<Option<DecodeState>, FrameParseError>)
        ensures
            final(self).ac_m() == old(self).ac_m(),
            final(self).state_m() == old(self).state_m(),
            match r {
                Ok(Some(st)) => {
                    &&& state_rank(st) < state_rank(DecodeState::ExtendedLen)
                    &&& forall|ext: Seq<u8>|
                        spec_run(
                            DecodeState::ExtendedLen,
                            old(self).ctx_m(),
                            old(self).buf_m() + ext,
                            P::spec_expect_masked(),
                            old(self).ac_m(),
                        ) == spec_run(
                            st,
                            final(self).ctx_m(),
                            final(self).buf_m() + ext,
                            P::spec_expect_masked(),
                            old(self).ac_m(),
                        )
                },
                Ok(None) => {
                    &&& *final(self) == *old(self)
                    &&& spec_run(
                        DecodeState::ExtendedLen,
                        old(self).ctx_m(),
                        old(self).buf_m(),
                        P::spec_expect_masked(),
                        old(self).ac_m(),
                    ) is Incomplete
                },
                Err(e) => {
                    &&& e == FrameParseError::SizeErr
                    &&& spec_run(
                        DecodeState::ExtendedLen,
                        old(self).ctx_m(),
                        old(self).buf_m(),
                        P::spec_expect_masked(),
                        old(self).ac_m(),
                    ) == ParseOutcome::SizeErr
                },
            },
    {
        let need: usize = if self.ctx.payload_len == 126 {
            2
        } else {
            8
        };
        if buf_len(&self.buf) < need {
            return Ok(None);
        }
        let ghost buf0 = self.buf_m();
        let v = buf_split_to_vec(&mut self.buf, need);
        let l: u64 = if need == 2 {
            let l16: u16 = (v[0] as u16) << 8 | v[1] as u16;
            assert(l16 == be16(buf0[0], buf0[1]));
            l16 as u64
        } else {
            let l64: u64 = (v[0] as u64) << 56 | (v[1] as u64) << 48 | (v[2] as u64) << 40 | (
            v[3] as u64) << 32 | (v[4] as u64) << 24 | (v[5] as u64) << 16 | (v[6] as u64) << 8 | (
            v[7] as u64);
            proof {
                assert(v@ =~= buf0.take(8));
            }
            l64
        };
        if l > MAX_FRAME_PAYLOAD as u64 {
            return Err(FrameParseError::SizeErr);
        }
        self.ctx.payload_len = l as usize;
        let next = if P::expect_masked() {
            DecodeState::MaskKey
        } else {
            DecodeState::Payload
        };
        proof {
            assert forall|ext: Seq<u8>|
                spec_run(
                    DecodeState::ExtendedLen,
                    old(self).ctx_m(),
                    buf0 + ext,
                    P::spec_expect_masked(),
                    old(self).ac_m(),
                ) == spec_run(
                    next,
                    self.ctx_m(),
                    self.buf_m() + ext,
                    P::spec_expect_masked(),
                    old(self).ac_m(),
                ) by {
                assert((buf0 + ext)[0] == buf0[0]);
                assert((buf0 + ext)[1] == buf0[1]);
                if need == 8 {
                    assert((buf0 + ext).take(8) =~= buf0.take(8));
                }
                assert((buf0 + ext).skip(need as int) =~= self.buf_m() + ext);
            }
        }
        Ok(Some(next))
    }

    /// Reads the 4-byte masking key.
    fn parse_mask_key(&mut self) -> (r: Option<DecodeState>)
        ensures
            final(self).ac_m() == old(self).ac_m(),
            final(self).state_m() == old(self).state_m(),
            match r {
                Some(st) => {
                    &&& state_rank(st) < state_rank(DecodeState::MaskKey)
                    &&& forall|ext: Seq<u8>|
                        spec_run(
                            DecodeState::MaskKey,
                            old(self).ctx_m(),
                            old(self).buf_m() + ext,
                            P::spec_expect_masked(),
                            old(self).ac_m(),
                        ) == spec_run(
                            st,
                            final(self).ctx_m(),
                            final(self).buf_m() + ext,
                            P::spec_expect_masked(),
                            old(self).ac_m(),
                        )
                },
                None => {
                    &&& *final(self) == *old(self)
                    &&& spec_run(
                        DecodeState::MaskKey,
                        old(self).ctx_m(),
                        old(self).buf_m(),
                        P::spec_expect_masked(),
                        old(self).ac_m(),
                    ) is Incomplete
                },
            },
    {
        if buf_len(&self.buf) < 4 {
            return None;
        }
        let ghost buf0 = self.buf_m();
        let v = buf_split_to_vec(&mut self.buf, 4);
        self.ctx.mask_key = [v[0], v[1], v[2], v[3]];
        proof {
            assert(self.ctx_m().key =~= buf0.take(4));
            assert forall|ext: Seq<u8>|
                spec_run(
                    DecodeState::MaskKey,
                    old(self).ctx_m(),
                    buf0 + ext,
                    P::spec_expect_masked(),
                    old(self).ac_m(),
                ) == spec_run(
                    DecodeState::Payload,
                    self.ctx_m(),
                    self.buf_m() + ext,
                    P::spec_expect_masked(),
                    old(self).ac_m(),
                ) by {
                assert((buf0 + ext).take(4) =~= buf0.take(4));
                assert((buf0 + ext).skip(4) =~= self.buf_m() + ext);
            }
        }
        Some(DecodeState::Payload)
    }

    /// Takes the payload once it is fully buffered, unmasks it when the
    /// role expects masked input, and validates Close payloads.
    fn parse_payload(&mut self) -> (r: Result<Option<Vec<u8>>, FrameParseError>)
        ensures
            final(self).ac_m() == old(self).ac_m(),
            final(self).state_m() == old(self).state_m(),
            final(self).ctx_m() == old(self).ctx_m(),
            match r {
                Ok(Some(payload)) => {
                    &&& forall|ext: Seq<u8>|
                        spec_run(
                            DecodeState::Payload,
                            old(self).ctx_m(),
                            old(self).buf_m() + ext,
                            P::spec_expect_masked(),
                            old(self).ac_m(),
                        ) == (ParseOutcome::Done {
                            frame: FrameModel {
                                fin: old(self).ctx_m().fin,
                                compressed: old(self).ctx_m().comp,
                                opcode: old(self).ctx_m().op,
                                payload: payload@,
                            },
                            rest: final(self).buf_m() + ext,
                        })
                },
                Ok(None) => {
                    &&& *final(self) == *old(self)
                    &&& spec_run(
                        DecodeState::Payload,
                        old(self).ctx_m(),
                        old(self).buf_m(),
                        P::spec_expect_masked(),
                        old(self).ac_m(),
                    ) is Incomplete
                },
                Err(e) => {
                    &&& e == FrameParseError::ProtoError
                    &&& spec_run(
                        DecodeState::Payload,
                        old(self).ctx_m(),
                        old(self).buf_m(),
                        P::spec_expect_masked(),
                        old(self).ac_m(),
                    ) == ParseOutcome::ProtoErr
                },
            },
    {
        if buf_len(&self.buf) < self.ctx.payload_len {
            return Ok(None);
        }
        let ghost buf0 = self.buf_m();
        let mut payload = buf_split_to_vec(&mut self.buf, self.ctx.payload_len);
        if P::expect_masked() {
            mask(&mut payload, self.ctx.mask_key);
        }
        let is_close = match self.ctx.opcode {
            Opcode::Close => true,
            _ => false,
        };
        if is_close && !is_valid_close_payload(&payload) {
            return Err(FrameParseError::ProtoError);
        }
        proof {
            assert forall|ext: Seq<u8>| (buf0 + ext).take(old(self).ctx_m().len) =~= buf0.take(
                old(self).ctx_m().len,
            ) by {}
            assert forall|ext: Seq<u8>| (buf0 + ext).skip(old(self).ctx_m().len) =~= self.buf_m()
                + ext by {}
        }
        Ok(Some(payload))
    }
}

} // verus!
