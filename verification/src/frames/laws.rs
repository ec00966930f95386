//! Laws of the frame codec: what the decoder yields on encoder output.

use vstd::prelude::*;

use crate::frames::opcode::Opcode;
use crate::frames::wire::{
    be16, be64, frame_bytes, spec_len_bytes, spec_parse, spec_run, state_rank, valid_close_payload,
    CtxModel, DecodeState, FrameModel, ParseOutcome,
};
use crate::protocol::mask::{lemma_mask_involutive, mask_seq};
use crate::MAX_FRAME_PAYLOAD;

verus! {

/// An outcome that is not a request for more bytes stays the same when
/// bytes are appended after the input, with the appended bytes carried
/// into `rest`.
pub proof fn lemma_run_extend(
    st: DecodeState,
    ctx: CtxModel,
    input: Seq<u8>,
    ext: Seq<u8>,
    em: bool,
    ac: bool,
)
    requires
        ctx.len >= 0,
        !(spec_run(st, ctx, input, em, ac) is Incomplete),
    ensures
        spec_run(st, ctx, input + ext, em, ac) == (match spec_run(st, ctx, input, em, ac) {
            ParseOutcome::Done { frame, rest } => ParseOutcome::Done { frame, rest: rest + ext },
            o => o,
        }),
    decreases state_rank(st),
{
    let full = input + ext;
    match st {
        DecodeState::Header1 => {
            assert(input.len() >= 1);
            assert(full[0] == input[0]);
            assert(full.drop_first() =~= input.drop_first() + ext);
            let b0 = input[0];
            if !(b0 & 0x30 != 0 || (b0 & 0x40 != 0 && !ac)) {
                match Opcode::spec_from_u8((b0 & 0x0f) as u8) {
                    Some(op) => {
                        let ctx2 = CtxModel {
                            fin: b0 & 0x80 != 0,
                            comp: b0 & 0x40 != 0,
                            op,
                            len: 0,
                            key: seq![0u8, 0u8, 0u8, 0u8],
                        };
                        lemma_run_extend(
                            DecodeState::Header2,
                            ctx2,
                            input.drop_first(),
                            ext,
                            em,
                            ac,
                        );
                    },
                    None => {},
                }
            }
        },
        DecodeState::Header2 => {
            assert(input.len() >= 1);
            assert(full[0] == input[0]);
            assert(full.drop_first() =~= input.drop_first() + ext);
            let b1 = input[0];
            let masked = b1 & 0x80 != 0;
            if masked == em {
                let len7 = (b1 & 0x7f) as int;
                if !(ctx.op.spec_is_control() && (!ctx.fin || ctx.comp || len7 > 125)) {
                    let ctx2 = CtxModel { len: len7, ..ctx };
                    let next = if len7 > 125 {
                        DecodeState::ExtendedLen
                    } else if em {
                        DecodeState::MaskKey
                    } else {
                        DecodeState::Payload
                    };
                    lemma_run_extend(next, ctx2, input.drop_first(), ext, em, ac);
                }
            }
        },
        DecodeState::ExtendedLen => {
            let need: int = if ctx.len == 126 {
                2
            } else {
                8
            };
            assert(input.len() >= need);
            assert(full[0] == input[0] && full[1] == input[1]);
            if need == 8 {
                assert(full.take(8) =~= input.take(8));
            }
            assert(full.skip(need) =~= input.skip(need) + ext);
            let l: int = if need == 2 {
                be16(input[0], input[1]) as int
            } else {
                be64(input.take(8)) as int
            };
            if l <= MAX_FRAME_PAYLOAD {
                let ctx2 = CtxModel { len: l, ..ctx };
                let next = if em {
                    DecodeState::MaskKey
                } else {
                    DecodeState::Payload
                };
                lemma_run_extend(next, ctx2, input.skip(need), ext, em, ac);
            }
        },
        DecodeState::MaskKey => {
            assert(input.len() >= 4);
            assert(full.take(4) =~= input.take(4));
            assert(full.skip(4) =~= input.skip(4) + ext);
            lemma_run_extend(
                DecodeState::Payload,
                CtxModel { key: input.take(4), ..ctx },
                input.skip(4),
                ext,
                em,
                ac,
            );
        },
        DecodeState::Payload => {
            assert(input.len() >= ctx.len);
            assert(full.take(ctx.len) =~= input.take(ctx.len));
            assert(full.skip(ctx.len) =~= input.skip(ctx.len) + ext);
        },
    }
}

/// Every frame the machine completes respects the frame invariants: a
/// control frame is final, uncompressed and carries at most 125 bytes; a
/// Close frame carries a well-formed payload; a compressed frame occurs
/// only when compression was negotiated; and the machine consumes at
/// least one byte, two from a frame boundary.
pub proof fn lemma_run_frame_invariants(
    st: DecodeState,
    ctx: CtxModel,
    input: Seq<u8>,
    em: bool,
    ac: bool,
)
    requires
        match st {
            DecodeState::Header1 => true,
            DecodeState::Header2 => !(ctx.comp && !ac),
            DecodeState::ExtendedLen => !ctx.op.spec_is_control() && !(ctx.comp && !ac),
            DecodeState::MaskKey | DecodeState::Payload => (ctx.op.spec_is_control() ==> (ctx.fin
                && !ctx.comp && ctx.len <= 125)) && !(ctx.comp && !ac) && ctx.len >= 0,
        },
        spec_run(st, ctx, input, em, ac) is Done,
    ensures
        ({
            let frame = spec_run(st, ctx, input, em, ac)->frame;
            let rest = spec_run(st, ctx, input, em, ac)->rest;
            &&& frame.opcode.spec_is_control() ==> (frame.fin && !frame.compressed
                && frame.payload.len() <= 125)
            &&& frame.opcode == Opcode::Close ==> valid_close_payload(frame.payload)
            &&& frame.compressed ==> ac
            &&& rest.len() <= input.len()
            &&& st == DecodeState::Header2 ==> rest.len() + 1 <= input.len()
            &&& st == DecodeState::Header1 ==> rest.len() + 2 <= input.len()
        }),
    decreases state_rank(st),
{
    match st {
        DecodeState::Header1 => {
            let b0 = input[0];
            if input.len() >= 1 && !(b0 & 0x30 != 0 || (b0 & 0x40 != 0 && !ac))
                && Opcode::spec_from_u8((b0 & 0x0f) as u8) is Some {
                let ctx2 = CtxModel {
                    fin: b0 & 0x80 != 0,
                    comp: b0 & 0x40 != 0,
                    op: Opcode::spec_from_u8((b0 & 0x0f) as u8)->0,
                    len: 0,
                    key: seq![0u8, 0u8, 0u8, 0u8],
                };
                lemma_run_frame_invariants(DecodeState::Header2, ctx2, input.drop_first(), em, ac);
            }
        },
        DecodeState::Header2 => {
            let b1 = input[0];
            let len7 = (b1 & 0x7f) as int;
            if input.len() >= 1 && (b1 & 0x80 != 0) == em && !(ctx.op.spec_is_control() && (
            !ctx.fin || ctx.comp || len7 > 125)) {
                let ctx2 = CtxModel { len: len7, ..ctx };
                let next = if len7 > 125 {
                    DecodeState::ExtendedLen
                } else if em {
                    DecodeState::MaskKey
                } else {
                    DecodeState::Payload
                };
                lemma_run_frame_invariants(next, ctx2, input.drop_first(), em, ac);
            }
        },
        DecodeState::ExtendedLen => {
            let need: int = if ctx.len == 126 {
                2
            } else {
                8
            };
            if input.len() >= need {
                let l: int = if need == 2 {
                    be16(input[0], input[1]) as int
                } else {
                    be64(input.take(8)) as int
                };
                if l <= MAX_FRAME_PAYLOAD {
                    let ctx2 = CtxModel { len: l, ..ctx };
                    let next = if em {
                        DecodeState::MaskKey
                    } else {
                        DecodeState::Payload
                    };
                    lemma_run_frame_invariants(next, ctx2, input.skip(need), em, ac);
                }
            }
        },
        DecodeState::MaskKey => {
            if input.len() >= 4 {
                lemma_run_frame_invariants(
                    DecodeState::Payload,
                    CtxModel { key: input.take(4), ..ctx },
                    input.skip(4),
                    em,
                    ac,
                );
            }
        },
        DecodeState::Payload => {},
    }
}

/// Decoding the wire bytes of one well-formed frame yields exactly that
/// frame, with the following bytes untouched. The masking expectation
/// agrees with the frame: a masked frame for a server, a bare one for a
/// client.
#[verifier::rlimit(100)]
pub proof fn lemma_frame_round_trip(
    fin: bool,
    comp: bool,
    op: Opcode,
    key: Option<Seq<u8>>,
    payload: Seq<u8>,
    rest: Seq<u8>,
    ac: bool,
)
    requires
        key matches Some(k) ==> k.len() == 4,
        payload.len() <= MAX_FRAME_PAYLOAD,
        comp ==> ac,
        op.spec_is_control() ==> fin && !comp && payload.len() <= 125,
        op == Opcode::Close ==> valid_close_payload(payload),
    ensures
        spec_parse(frame_bytes(fin, comp, op, key, payload) + rest, key is Some, ac)
            == (ParseOutcome::Done {
            frame: FrameModel { fin, compressed: comp, opcode: op, payload },
            rest,
        }),
{
    let em = key is Some;
    let n = payload.len() as int;
    let c = op.spec_code();
    let b0 = (c | (if fin {
        0x80u8
    } else {
        0u8
    }) | (if comp {
        0x40u8
    } else {
        0u8
    })) as u8;
    let lb = spec_len_bytes(n);
    let lb0 = lb[0];
    let b1 = if em {
        (lb0 | 0x80u8) as u8
    } else {
        lb0
    };
    let tail = match key {
        Some(k) => k + mask_seq(payload, k),
        None => payload,
    };
    let fb = frame_bytes(fin, comp, op, key, payload);
    let input = fb + rest;

    // First header byte: the bits come back apart.
    if fin {
        if comp {
            assert(b0 & 0x30 == 0 && b0 & 0x40 != 0 && b0 & 0x80 != 0 && b0 & 0x0f == c)
                by (bit_vector)
                requires
                    b0 == (c | 0x80u8 | 0x40u8) as u8,
                    c == 0 || c == 1 || c == 2 || c == 8 || c == 9 || c == 10,
            ;
        } else {
            assert(b0 & 0x30 == 0 && b0 & 0x40 == 0 && b0 & 0x80 != 0 && b0 & 0x0f == c)
                by (bit_vector)
                requires
                    b0 == (c | 0x80u8 | 0u8) as u8,
                    c == 0 || c == 1 || c == 2 || c == 8 || c == 9 || c == 10,
            ;
        }
    } else {
        if comp {
            assert(b0 & 0x30 == 0 && b0 & 0x40 != 0 && b0 & 0x80 == 0 && b0 & 0x0f == c)
                by (bit_vector)
                requires
                    b0 == (c | 0u8 | 0x40u8) as u8,
                    c == 0 || c == 1 || c == 2 || c == 8 || c == 9 || c == 10,
            ;
        } else {
            assert(b0 & 0x30 == 0 && b0 & 0x40 == 0 && b0 & 0x80 == 0 && b0 & 0x0f == c)
                by (bit_vector)
                requires
                    b0 == (c | 0u8 | 0u8) as u8,
                    c == 0 || c == 1 || c == 2 || c == 8 || c == 9 || c == 10,
            ;
        }
    }
    assert(Opcode::spec_from_u8(c) == Some(op));

    // Walk the machine over the frame bytes.
    assert(input[0] == b0);
    let input1 = input.drop_first();
    assert(input1 =~= seq![b1] + lb.skip(1) + tail + rest);
    let ctx1 = CtxModel {
        fin: b0 & 0x80 != 0,
        comp: b0 & 0x40 != 0,
        op,
        len: 0,
        key: seq![0u8, 0u8, 0u8, 0u8],
    };
    assert(spec_parse(input, em, ac) == spec_run(DecodeState::Header2, ctx1, input1, em, ac));

    // Second header byte: mask bit and 7-bit length.
    assert(lb0 <= 127 && lb0 as int == if n <= 125 {
        n
    } else if n <= 65535 {
        126int
    } else {
        127int
    });
    assert(input1[0] == b1);
    if em {
        assert(b1 & 0x80 != 0 && (b1 & 0x7f) as int == lb0 as int) by (bit_vector)
            requires
                b1 == (lb0 | 0x80u8) as u8,
                lb0 <= 127,
        ;
    } else {
        assert(b1 & 0x80 == 0 && (b1 & 0x7f) as int == lb0 as int) by (bit_vector)
            requires
                b1 == lb0,
                lb0 <= 127,
        ;
    }
    let len7 = (b1 & 0x7f) as int;
    let input2 = input1.drop_first();
    assert(input2 =~= lb.skip(1) + tail + rest);

    // Length resolution: direct, or through the extended-length bytes.
    let ctxn = CtxModel { len: n, ..ctx1 };
    let input_tail = tail + rest;
    let next = if em {
        DecodeState::MaskKey
    } else {
        DecodeState::Payload
    };
    if n <= 125 {
        assert(lb =~= seq![n as u8]);
        assert(input2 =~= input_tail);
        assert(spec_run(DecodeState::Header2, ctx1, input1, em, ac) == spec_run(
            next,
            ctxn,
            input_tail,
            em,
            ac,
        ));
    } else if n <= 65535 {
        let v = n as u16;
        assert(lb =~= seq![126u8, (v >> 8) as u8, v as u8]);
        assert(input2 =~= seq![(v >> 8) as u8, v as u8] + input_tail);
        assert(input2[0] == (v >> 8) as u8 && input2[1] == v as u8);
        assert(be16((v >> 8) as u8, v as u8) == v) by (bit_vector);
        assert(be16(input2[0], input2[1]) as int == n);
        assert(n <= MAX_FRAME_PAYLOAD);
        assert(input2.skip(2) =~= input_tail);
        let ctx126 = CtxModel { len: 126, ..ctx1 };
        assert(spec_run(DecodeState::Header2, ctx1, input1, em, ac) == spec_run(
            DecodeState::ExtendedLen,
            ctx126,
            input2,
            em,
            ac,
        ));
        assert(spec_run(DecodeState::ExtendedLen, ctx126, input2, em, ac) == spec_run(
            next,
            ctxn,
            input_tail,
            em,
            ac,
        ));
    } else {
        let v = n as u64;
        assert(lb =~= seq![127u8] + seq![
            (v >> 56) as u8,
            (v >> 48) as u8,
            (v >> 40) as u8,
            (v >> 32) as u8,
            (v >> 24) as u8,
            (v >> 16) as u8,
            (v >> 8) as u8,
            v as u8,
        ]);
        assert(input2 =~= seq![
            (v >> 56) as u8,
            (v >> 48) as u8,
            (v >> 40) as u8,
            (v >> 32) as u8,
            (v >> 24) as u8,
            (v >> 16) as u8,
            (v >> 8) as u8,
            v as u8,
        ] + input_tail);
        assert(input2.take(8) =~= seq![
            (v >> 56) as u8,
            (v >> 48) as u8,
            (v >> 40) as u8,
            (v >> 32) as u8,
            (v >> 24) as u8,
            (v >> 16) as u8,
            (v >> 8) as u8,
            v as u8,
        ]);
        assert(((((v >> 56) as u8) as u64) << 56 | (((v >> 48) as u8) as u64) << 48 | (((v
            >> 40) as u8) as u64) << 40 | (((v >> 32) as u8) as u64) << 32 | (((v
            >> 24) as u8) as u64) << 24 | (((v >> 16) as u8) as u64) << 16 | (((v
            >> 8) as u8) as u64) << 8 | ((v as u8) as u64)) as u64 == v) by (bit_vector);
        assert(be64(input2.take(8)) as int == n);
        assert(input2.skip(8) =~= input_tail);
        let ctx127 = CtxModel { len: 127, ..ctx1 };
        assert(spec_run(DecodeState::Header2, ctx1, input1, em, ac) == spec_run(
            DecodeState::ExtendedLen,
            ctx127,
            input2,
            em,
            ac,
        ));
        assert(spec_run(DecodeState::ExtendedLen, ctx127, input2, em, ac) == spec_run(
            next,
            ctxn,
            input_tail,
            em,
            ac,
        ));
    }
    assert(spec_run(DecodeState::Header2, ctx1, input1, em, ac) == spec_run(
        next,
        ctxn,
        input_tail,
        em,
        ac,
    ));

    // Mask key, then the payload itself.
    if em {
        let k = key->0;
        assert(input_tail =~= k + mask_seq(payload, k) + rest);
        assert(input_tail.take(4) =~= k);
        assert(input_tail.skip(4) =~= mask_seq(payload, k) + rest);
        let ctxk = CtxModel { key: k, ..ctxn };
        let body = mask_seq(payload, k) + rest;
        assert(spec_run(DecodeState::MaskKey, ctxn, input_tail, em, ac) == spec_run(
            DecodeState::Payload,
            ctxk,
            body,
            em,
            ac,
        ));
        assert(body.take(n) =~= mask_seq(payload, k));
        lemma_mask_involutive(payload, k);
        assert(mask_seq(body.take(n), k) == payload);
        assert(body.skip(n) =~= rest);
    } else {
        assert(input_tail =~= payload + rest);
        assert(input_tail.take(n) =~= payload);
        assert(input_tail.skip(n) =~= rest);
    }
}

} // verus!
