//! The wire format of RFC 6455 section 5.2, as specification functions:
//! what an encoded frame looks like, and what the incremental decoder
//! yields on any byte sequence.

use vstd::prelude::*;
use vstd::utf8::valid_utf8;

use crate::frames::opcode::Opcode;
use crate::protocol::mask::mask_seq;
use crate::MAX_FRAME_PAYLOAD;

verus! {

/// A 16-bit big-endian value read from two bytes.
pub open spec fn be16(b0: u8, b1: u8) -> u16 {
    ((b0 as u16) << 8 | b1 as u16) as u16
}

/// A 64-bit big-endian value read from eight bytes.
pub open spec fn be64(b: Seq<u8>) -> u64
    recommends
        b.len() == 8,
{
    ((b[0] as u64) << 56 | (b[1] as u64) << 48 | (b[2] as u64) << 40 | (b[3] as u64) << 32 | (
    b[4] as u64) << 24 | (b[5] as u64) << 16 | (b[6] as u64) << 8 | (b[7] as u64)) as u64
}

/// The two big-endian bytes of a 16-bit value.
pub open spec fn be16_bytes(v: u16) -> Seq<u8> {
    seq![(v >> 8) as u8, v as u8]
}

/// The eight big-endian bytes of a 64-bit value.
pub open spec fn be64_bytes(v: u64) -> Seq<u8> {
    seq![
        (v >> 56) as u8,
        (v >> 48) as u8,
        (v >> 40) as u8,
        (v >> 32) as u8,
        (v >> 24) as u8,
        (v >> 16) as u8,
        (v >> 8) as u8,
        v as u8,
    ]
}

/// The payload-length field of a frame header, without the mask bit:
/// one byte up to 125, `126` plus two big-endian bytes up to 65535, and
/// `127` plus eight big-endian bytes beyond that.
pub open spec fn spec_len_bytes(n: int) -> Seq<u8>
    recommends
        0 <= n <= u64::MAX,
{
    if n <= 125 {
        seq![n as u8]
    } else if n <= 65535 {
        seq![126u8] + be16_bytes(n as u16)
    } else {
        seq![127u8] + be64_bytes(n as u64)
    }
}

/// The full wire bytes of one frame. `mask` carries the 4-byte masking
/// key of a client frame, or `None` for an unmasked server frame.
pub open spec fn frame_bytes(
    fin: bool,
    comp: bool,
    op: Opcode,
    mask: Option<Seq<u8>>,
    payload: Seq<u8>,
) -> Seq<u8>
    recommends
        mask is Some ==> mask->0.len() == 4,
        payload.len() <= u64::MAX,
{
    let b0 = (op.spec_code() | (if fin {
        0x80u8
    } else {
        0u8
    }) | (if comp {
        0x40u8
    } else {
        0u8
    })) as u8;
    let lb = spec_len_bytes(payload.len() as int);
    let b1 = if mask is Some {
        (lb[0] | 0x80u8) as u8
    } else {
        lb[0]
    };
    let tail = match mask {
        Some(k) => k + mask_seq(payload, k),
        None => payload,
    };
    seq![b0, b1] + lb.skip(1) + tail
}

/// True of the close codes the decoder accepts on the wire.
pub open spec fn valid_close_code(code: u16) -> bool {
    1000 <= code <= 1011 || 3000 <= code <= 4999
}

/// True of a well-formed Close frame payload: empty, or a 2-byte code in
/// the accepted ranges followed by a valid UTF-8 reason.
pub open spec fn valid_close_payload(p: Seq<u8>) -> bool {
    ||| p.len() == 0
    ||| (p.len() >= 2 && valid_close_code(be16(p[0], p[1])) && valid_utf8(p.skip(2)))
}

/// One decoded frame, as the decoder's output is modelled.
pub struct FrameModel {
    /// The final fragment of a message.
    pub fin: bool,
    /// The RSV1 bit: the frame carries compressed data.
    pub compressed: bool,
    /// The frame's opcode.
    pub opcode: Opcode,
    /// The unmasked payload bytes.
    pub payload: Seq<u8>,
}

/// The decoder's position within one frame.
#[derive(Debug, Copy, Clone, PartialEq, Eq, Structural)]
pub enum DecodeState {
    Header1,
    Header2,
    ExtendedLen,
    MaskKey,
    Payload,
}

/// How many states remain from a given state; each transition strictly
/// descends.
pub open spec fn state_rank(st: DecodeState) -> int {
    match st {
        DecodeState::Header1 => 4,
        DecodeState::Header2 => 3,
        DecodeState::ExtendedLen => 2,
        DecodeState::MaskKey => 1,
        DecodeState::Payload => 0,
    }
}

/// The per-frame context the decoder accumulates while walking the
/// header.
pub struct CtxModel {
    pub fin: bool,
    pub comp: bool,
    pub op: Opcode,
    pub len: int,
    pub key: Seq<u8>,
}

/// The fresh context entered at each frame start.
pub open spec fn ctx_init() -> CtxModel {
    CtxModel { fin: false, comp: false, op: Opcode::Cont, len: 0, key: seq![0u8, 0u8, 0u8, 0u8] }
}

/// What one attempt at a frame yields: more bytes are needed, the frame
/// or stream is in error, or a frame is complete and `rest` is what
/// follows it.
pub enum ParseOutcome {
    Incomplete,
    ProtoErr,
    SizeErr,
    Done { frame: FrameModel, rest: Seq<u8> },
}

/// Runs the decoder from state `st` with context `ctx` over `input`.
/// `em` is the role's expectation that input frames are masked; `ac`
/// states whether compression was negotiated, admitting the RSV1 bit.
pub open spec fn spec_run(
    st: DecodeState,
    ctx: CtxModel,
    input: Seq<u8>,
    em: bool,
    ac: bool,
) -> ParseOutcome
    decreases state_rank(st),
{
    match st {
        DecodeState::Header1 => {
            if input.len() == 0 {
                ParseOutcome::Incomplete
            } else {
                let b0 = input[0];
                let rsv23 = b0 & 0x30 != 0;
                let comp = b0 & 0x40 != 0;
                if rsv23 || (comp && !ac) {
                    ParseOutcome::ProtoErr
                } else {
                    match Opcode::spec_from_u8((b0 & 0x0f) as u8) {
                        Option::None => ParseOutcome::ProtoErr,
                        Option::Some(op) => spec_run(
                            DecodeState::Header2,
                            CtxModel {
                                fin: b0 & 0x80 != 0,
                                comp,
                                op,
                                len: 0,
                                key: seq![0u8, 0u8, 0u8, 0u8],
                            },
                            input.drop_first(),
                            em,
                            ac,
                        ),
                    }
                }
            }
        },
        DecodeState::Header2 => {
            if input.len() == 0 {
                ParseOutcome::Incomplete
            } else {
                let b1 = input[0];
                let masked = b1 & 0x80 != 0;
                if masked != em {
                    ParseOutcome::ProtoErr
                } else {
                    let len7 = (b1 & 0x7f) as int;
                    if ctx.op.spec_is_control() && (!ctx.fin || ctx.comp || len7 > 125) {
                        ParseOutcome::ProtoErr
                    } else {
                        let ctx2 = CtxModel { len: len7, ..ctx };
                        if len7 > 125 {
                            spec_run(DecodeState::ExtendedLen, ctx2, input.drop_first(), em, ac)
                        } else if em {
                            spec_run(DecodeState::MaskKey, ctx2, input.drop_first(), em, ac)
                        } else {
                            spec_run(DecodeState::Payload, ctx2, input.drop_first(), em, ac)
                        }
                    }
                }
            }
        },
        DecodeState::ExtendedLen => {
            let need: int = if ctx.len == 126 {
                2
            } else {
                8
            };
            if input.len() < need {
                ParseOutcome::Incomplete
            } else {
                let l: int = if need == 2 {
                    be16(input[0], input[1]) as int
                } else {
                    be64(input.take(8)) as int
                };
                if l > MAX_FRAME_PAYLOAD {
                    ParseOutcome::SizeErr
                } else {
                    let ctx2 = CtxModel { len: l, ..ctx };
                    if em {
                        spec_run(DecodeState::MaskKey, ctx2, input.skip(need), em, ac)
                    } else {
                        spec_run(DecodeState::Payload, ctx2, input.skip(need), em, ac)
                    }
                }
            }
        },
        DecodeState::MaskKey => {
            if input.len() < 4 {
                ParseOutcome::Incomplete
            } else {
                spec_run(
                    DecodeState::Payload,
                    CtxModel { key: input.take(4), ..ctx },
                    input.skip(4),
                    em,
                    ac,
                )
            }
        },
        DecodeState::Payload => {
            if input.len() < ctx.len {
                ParseOutcome::Incomplete
            } else {
                let raw = input.take(ctx.len);
                let payload = if em {
                    mask_seq(raw, ctx.key)
                } else {
                    raw
                };
                if ctx.op == Opcode::Close && !valid_close_payload(payload) {
                    ParseOutcome::ProtoErr
                } else {
                    ParseOutcome::Done {
                        frame: FrameModel {
                            fin: ctx.fin,
                            compressed: ctx.comp,
                            opcode: ctx.op,
                            payload,
                        },
                        rest: input.skip(ctx.len),
                    }
                }
            }
        },
    }
}

/// Runs the decoder on `input` from the start of a frame.
pub open spec fn spec_parse(input: Seq<u8>, em: bool, ac: bool) -> ParseOutcome {
    spec_run(DecodeState::Header1, ctx_init(), input, em, ac)
}

/// The payload split into chunks of at most `max` bytes; the final
/// chunk may be shorter, and an empty payload yields one empty chunk.
pub open spec fn spec_chunks(payload: Seq<u8>, max: int) -> Seq<Seq<u8>>
    decreases payload.len(),
    when max > 0
{
    if payload.len() <= max {
        seq![payload]
    } else {
        seq![payload.take(max)] + spec_chunks(payload.skip(max), max)
    }
}

/// A payload always yields at least one chunk, and their concatenation
/// restores the payload.
pub proof fn lemma_spec_chunks(payload: Seq<u8>, max: int)
    requires
        max > 0,
    ensures
        spec_chunks(payload, max).len() >= 1,
        spec_chunks(payload, max).flatten() == payload,
    decreases payload.len(),
{
    let cs = spec_chunks(payload, max);
    if payload.len() <= max {
        assert(cs == seq![payload]);
        assert(cs.flatten() =~= payload) by {
            cs.lemma_flatten_one_element();
        }
    } else {
        lemma_spec_chunks(payload.skip(max), max);
        assert(cs.drop_first() =~= spec_chunks(payload.skip(max), max));
        assert(cs.flatten() == cs.first() + cs.drop_first().flatten()) by {
            assert(cs.len() >= 1);
        }
        assert(payload.take(max) + payload.skip(max) =~= payload);
    }
}

/// Builds the wire bytes of one frame, masking the payload when a key
/// is given.
#[verifier::rlimit(50)]
pub fn encode_frame(fin: bool, rsv1: bool, op: Opcode, key: Option<[u8; 4]>, payload: &[u8]) -> (r:
    Vec<u8>)
    ensures
        r@ == frame_bytes(
            fin,
            rsv1,
            op,
            match key {
                Option::Some(k) => Option::Some(k@),
                Option::None => Option::None,
            },
            payload@,
        ),
{
    let ghost keym: Option<Seq<u8>> = match key {
        Option::Some(k) => Option::Some(k@),
        Option::None => Option::None,
    };
    let mut buf: Vec<u8> = Vec::new();
    let b0 = op.code() | (if fin {
        0x80u8
    } else {
        0u8
    }) | (if rsv1 {
        0x40u8
    } else {
        0u8
    });
    buf.push(b0);
    let n = payload.len();
    let masked = match key {
        Option::Some(_) => true,
        Option::None => false,
    };
    if n <= 125 {
        let lb0 = n as u8;
        let b1 = if masked {
            lb0 | 0x80u8
        } else {
            lb0
        };
        buf.push(b1);
        proof {
            assert(spec_len_bytes(payload@.len() as int) =~= seq![lb0]);
            assert(buf@ =~= seq![b0, b1] + spec_len_bytes(payload@.len() as int).skip(1));
        }
    } else if n <= 65535 {
        let l16 = n as u16;
        let b1 = if masked {
            126u8 | 0x80u8
        } else {
            126u8
        };
        buf.push(b1);
        buf.push((l16 >> 8) as u8);
        buf.push(l16 as u8);
        proof {
            assert(126u8 | 0x80u8 == 0xfeu8) by (bit_vector);
            assert(spec_len_bytes(payload@.len() as int) =~= seq![126u8] + be16_bytes(l16));
            assert(buf@ =~= seq![b0, b1] + spec_len_bytes(payload@.len() as int).skip(1));
        }
    } else {
        let l64 = n as u64;
        let b1 = if masked {
            127u8 | 0x80u8
        } else {
            127u8
        };
        buf.push(b1);
        buf.push((l64 >> 56) as u8);
        buf.push((l64 >> 48) as u8);
        buf.push((l64 >> 40) as u8);
        buf.push((l64 >> 32) as u8);
        buf.push((l64 >> 24) as u8);
        buf.push((l64 >> 16) as u8);
        buf.push((l64 >> 8) as u8);
        buf.push(l64 as u8);
        proof {
            assert(127u8 | 0x80u8 == 0xffu8) by (bit_vector);
            assert(spec_len_bytes(payload@.len() as int) =~= seq![127u8] + be64_bytes(l64));
            assert(buf@ =~= seq![b0, b1] + spec_len_bytes(payload@.len() as int).skip(1));
        }
    }
    let ghost header = buf@;
    match key {
        Option::Some(k) => {
            buf.push(k[0]);
            buf.push(k[1]);
            buf.push(k[2]);
            buf.push(k[3]);
            let mut body = vstd::slice::slice_to_vec(payload);
            crate::protocol::mask::mask(&mut body, k);
            buf.append(&mut body);
            proof {
                assert(buf@ =~= header + (k@ + mask_seq(payload@, k@)));
            }
        },
        Option::None => {
            let mut body = vstd::slice::slice_to_vec(payload);
            buf.append(&mut body);
            proof {
                assert(buf@ =~= header + payload@);
            }
        },
    }
    proof {
        assert(buf@ =~= frame_bytes(fin, rsv1, op, keym, payload@));
    }
    buf
}

/// All frames carried by `input`, when it is exactly a sequence of
/// complete, well-formed frames; `None` when it is not.
pub open spec fn spec_decode_stream(input: Seq<u8>, em: bool, ac: bool) -> Option<Seq<FrameModel>>
    decreases input.len(),
{
    if input.len() == 0 {
        Option::Some(Seq::empty())
    } else {
        let o = spec_parse(input, em, ac);
        match o {
            ParseOutcome::Done { frame, rest } => {
                if rest.len() < input.len() {
                    match spec_decode_stream(rest, em, ac) {
                        Option::Some(frames) => Option::Some(seq![frame] + frames),
                        Option::None => Option::None,
                    }
                } else {
                    Option::None
                }
            },
            _ => Option::None,
        }
    }
}

} // verus!
