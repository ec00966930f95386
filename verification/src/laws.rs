//! Laws that span the codec and the reassembler: decoding the wire
//! bytes of an encoded message restores it.

use vstd::prelude::*;

use crate::frames::data::spec_message_frames;
use crate::frames::laws::lemma_frame_round_trip;
use crate::frames::opcode::Opcode;
use crate::frames::wire::{
    frame_bytes, lemma_spec_chunks, spec_chunks, spec_decode_stream, spec_parse, FrameModel,
    ParseOutcome,
};
use crate::ws::frame_handler::{spec_data_step, DataStep};
use crate::{MAX_FRAME_PAYLOAD, MAX_MESSAGE_SIZE};

verus! {

/// The masking key the frame at index `i` uses, when keys are in play.
pub open spec fn key_at(keys: Option<Seq<Seq<u8>>>, i: int) -> Option<Seq<u8>> {
    match keys {
        Some(ks) => Some(ks[i]),
        None => None,
    }
}

/// The frame models of one message: the payload's chunks, the opcode on
/// the first frame, Continuation after it, RSV1 on the first when
/// compressed, FIN on the last.
pub open spec fn spec_message_models(op: Opcode, payload: Seq<u8>, comp: bool, max: int) -> Seq<
    FrameModel,
> {
    let chunks = spec_chunks(payload, max);
    Seq::new(
        chunks.len(),
        |i: int|
            FrameModel {
                fin: i == chunks.len() - 1,
                compressed: comp && i == 0,
                opcode: if i == 0 {
                    op
                } else {
                    Opcode::Cont
                },
                payload: chunks[i],
            },
    )
}

/// Every chunk stays within the chunk bound.
pub proof fn lemma_chunks_bounds(payload: Seq<u8>, max: int)
    requires
        max > 0,
    ensures
        forall|i: int|
            0 <= i < spec_chunks(payload, max).len() ==> (#[trigger] spec_chunks(payload, max)[i]).len()
                <= max,
    decreases payload.len(),
{
    if payload.len() > max {
        lemma_chunks_bounds(payload.skip(max), max);
        assert forall|i: int| 0 <= i < spec_chunks(payload, max).len() implies (
        #[trigger] spec_chunks(payload, max)[i]).len() <= max by {
            if i > 0 {
                assert(spec_chunks(payload, max)[i] == spec_chunks(payload.skip(max), max)[i - 1]);
            }
        }
    }
}

/// The concatenation of the first `j` chunks is a prefix of the
/// payload, so its length never exceeds the payload's.
pub proof fn lemma_flatten_take_le(chunks: Seq<Seq<u8>>, j: int)
    requires
        0 <= j <= chunks.len(),
    ensures
        chunks.take(j).flatten().len() <= chunks.flatten().len(),
    decreases chunks.len() - j,
{
    if j == chunks.len() {
        assert(chunks.take(j) =~= chunks);
    } else {
        lemma_flatten_take_le(chunks, j + 1);
        assert(chunks.take(j + 1) =~= chunks.take(j).push(chunks[j]));
        chunks.take(j).lemma_flatten_push(chunks[j]);
    }
}

/// Decoding the concatenation of well-formed frames yields exactly
/// their models, in order.
pub proof fn lemma_decode_stream_of_frames(
    frames: Seq<Seq<u8>>,
    models: Seq<FrameModel>,
    keys: Option<Seq<Seq<u8>>>,
    ac: bool,
)
    requires
        frames.len() == models.len(),
        keys matches Some(ks) ==> ks.len() == frames.len() && (forall|i: int|
            0 <= i < ks.len() ==> (#[trigger] ks[i]).len() == 4),
        forall|i: int|
            0 <= i < frames.len() ==> #[trigger] frames[i] == frame_bytes(
                models[i].fin,
                models[i].compressed,
                models[i].opcode,
                key_at(keys, i),
                models[i].payload,
            ),
        forall|i: int|
            0 <= i < models.len() ==> {
                let m = #[trigger] models[i];
                &&& m.payload.len() <= MAX_FRAME_PAYLOAD
                &&& m.opcode.spec_is_control() ==> (m.fin && !m.compressed && m.payload.len()
                    <= 125)
                &&& m.opcode != Opcode::Close
                &&& m.compressed ==> ac
            },
    ensures
        spec_decode_stream(frames.flatten(), keys is Some, ac) == Some(models),
    decreases frames.len(),
{
    let em = keys is Some;
    if frames.len() == 0 {
        assert(frames.flatten().len() == 0);
        assert(models =~= Seq::<FrameModel>::empty());
    } else {
        let m0 = models[0];
        let fb = frames[0];
        let rest_frames = frames.drop_first();
        let rest_models = models.drop_first();
        let rest_keys: Option<Seq<Seq<u8>>> = match keys {
            Some(ks) => Some(ks.drop_first()),
            None => None,
        };
        let rest_bytes = rest_frames.flatten();
        assert(frames.flatten() == frames.first() + rest_frames.flatten());
        lemma_frame_round_trip(
            m0.fin,
            m0.compressed,
            m0.opcode,
            key_at(keys, 0),
            m0.payload,
            rest_bytes,
            ac,
        );
        let bytes = frames.flatten();
        assert(fb.len() >= 2) by {
            assert(fb == frame_bytes(
                m0.fin,
                m0.compressed,
                m0.opcode,
                key_at(keys, 0),
                m0.payload,
            ));
        }
        assert(bytes.len() >= 2);
        assert(spec_parse(bytes, em, ac) == ParseOutcome::Done {
            frame: FrameModel {
                fin: m0.fin,
                compressed: m0.compressed,
                opcode: m0.opcode,
                payload: m0.payload,
            },
            rest: rest_bytes,
        });
        assert(FrameModel {
            fin: m0.fin,
            compressed: m0.compressed,
            opcode: m0.opcode,
            payload: m0.payload,
        } == m0);
        assert(rest_bytes.len() < bytes.len());
        assert forall|i: int| 0 <= i < rest_frames.len() implies #[trigger] rest_frames[i]
            == frame_bytes(
            rest_models[i].fin,
            rest_models[i].compressed,
            rest_models[i].opcode,
            key_at(rest_keys, i),
            rest_models[i].payload,
        ) by {
            assert(rest_frames[i] == frames[i + 1]);
            assert(rest_models[i] == models[i + 1]);
            assert(key_at(rest_keys, i) == key_at(keys, i + 1));
        }
        assert forall|i: int| 0 <= i < rest_models.len() implies {
            let m = #[trigger] rest_models[i];
            &&& m.payload.len() <= MAX_FRAME_PAYLOAD
            &&& m.opcode.spec_is_control() ==> (m.fin && !m.compressed && m.payload.len() <= 125)
            &&& m.opcode != Opcode::Close
            &&& m.compressed ==> ac
        } by {
            assert(rest_models[i] == models[i + 1]);
            assert(models[i + 1].payload.len() <= MAX_FRAME_PAYLOAD);
        }
        lemma_decode_stream_of_frames(rest_frames, rest_models, rest_keys, ac);
        assert(seq![m0] + rest_models =~= models);
    }
}

/// What feeding a run of data frames to the reassembler yields.
pub enum AssembleOutcome {
    /// Some frame was refused, closing the connection with this reason.
    Refused(crate::error::CloseReason),
    /// All frames stored; the message awaits more fragments, with this
    /// buffer pending.
    Unfinished(Option<(bool, bool, Seq<u8>)>),
    /// The last frame completed the message: its kind, compression mark
    /// and assembled bytes.
    Message(bool, bool, Seq<u8>),
    /// A message completed before the last frame.
    Early,
}

/// Feeds data frames to the reassembly rules in order.
pub open spec fn spec_assemble(
    pending: Option<(bool, bool, Seq<u8>)>,
    models: Seq<FrameModel>,
) -> AssembleOutcome
    decreases models.len(),
{
    if models.len() == 0 {
        AssembleOutcome::Unfinished(pending)
    } else {
        match spec_data_step(pending, models[0]) {
            DataStep::Refuse(r) => AssembleOutcome::Refused(r),
            DataStep::Accum(t, c, d) => spec_assemble(Some((t, c, d)), models.drop_first()),
            DataStep::Complete(t, c, d) => if models.len() == 1 {
                AssembleOutcome::Message(t, c, d)
            } else {
                AssembleOutcome::Early
            },
        }
    }
}

/// Feeding the remaining fragments of one message completes it with the
/// whole payload.
proof fn lemma_assemble_suffix(op: Opcode, payload: Seq<u8>, comp: bool, max: int, j: int)
    requires
        max > 0,
        payload.len() <= MAX_MESSAGE_SIZE,
        op == Opcode::Text || op == Opcode::Bin,
        1 <= j < spec_chunks(payload, max).len(),
    ensures
        ({
            let chunks = spec_chunks(payload, max);
            let models = spec_message_models(op, payload, comp, max);
            spec_assemble(
                Some((op == Opcode::Text, comp, chunks.take(j).flatten())),
                models.skip(j),
            ) == AssembleOutcome::Message(op == Opcode::Text, comp, payload)
        }),
    decreases spec_chunks(payload, max).len() - j,
{
    let chunks = spec_chunks(payload, max);
    let models = spec_message_models(op, payload, comp, max);
    let n = chunks.len() as int;
    let text = op == Opcode::Text;
    let pending = Some((text, comp, chunks.take(j).flatten()));
    let suffix = models.skip(j);
    let mj = models[j];
    assert(suffix[0] == mj);
    assert(mj.opcode == Opcode::Cont && !mj.compressed && mj.payload == chunks[j]);
    lemma_spec_chunks(payload, max);
    assert(chunks.take(j + 1) =~= chunks.take(j).push(chunks[j]));
    chunks.take(j).lemma_flatten_push(chunks[j]);
    lemma_flatten_take_le(chunks, j + 1);
    assert(chunks.take(j).flatten().len() + chunks[j].len() <= payload.len());
    let grown = chunks.take(j).flatten() + chunks[j];
    assert(grown == chunks.take(j + 1).flatten());
    if j == n - 1 {
        assert(mj.fin);
        assert(spec_data_step(pending, mj) == DataStep::Complete(text, comp, grown));
        assert(chunks.take(j + 1) =~= chunks);
        assert(grown == payload);
        assert(suffix.len() == 1);
    } else {
        assert(!mj.fin);
        assert(spec_data_step(pending, mj) == DataStep::Accum(text, comp, grown));
        assert(suffix.drop_first() =~= models.skip(j + 1));
        lemma_assemble_suffix(op, payload, comp, max, j + 1);
    }
}

/// Encoder-decoder round trip. The wire bytes of one encoded message,
/// fed to a decoder of the matching role (masked frames are expected
/// exactly when keys were used), carry exactly the message's frame
/// models: FIN on the last fragment only, the opcode on the first. The
/// reassembly rules then accept every fragment and complete exactly one
/// message holding the original payload.
pub proof fn lemma_message_round_trip(
    frames: Seq<Seq<u8>>,
    op: Opcode,
    payload: Seq<u8>,
    comp: bool,
    keys: Option<Seq<Seq<u8>>>,
    ac: bool,
)
    requires
        spec_message_frames(frames, op, payload, comp, MAX_FRAME_PAYLOAD as int, keys),
        op == Opcode::Text || op == Opcode::Bin,
        payload.len() <= MAX_MESSAGE_SIZE,
        comp ==> ac,
    ensures
        ({
            let models = spec_message_models(op, payload, comp, MAX_FRAME_PAYLOAD as int);
            &&& spec_decode_stream(frames.flatten(), keys is Some, ac) == Some(models)
            &&& models.len() >= 1
            &&& models.last().fin
            &&& forall|i: int| 0 <= i < models.len() - 1 ==> !(#[trigger] models[i]).fin
            &&& spec_assemble(None, models) == AssembleOutcome::Message(
                op == Opcode::Text,
                comp,
                payload,
            )
        }),
{
    let max = MAX_FRAME_PAYLOAD as int;
    let chunks = spec_chunks(payload, max);
    let models = spec_message_models(op, payload, comp, max);
    let n = chunks.len() as int;
    lemma_spec_chunks(payload, max);
    lemma_chunks_bounds(payload, max);

    // The decoder sees exactly the models.
    assert forall|i: int| 0 <= i < models.len() implies {
        let m = #[trigger] models[i];
        &&& m.payload.len() <= MAX_FRAME_PAYLOAD
        &&& m.opcode.spec_is_control() ==> (m.fin && !m.compressed && m.payload.len() <= 125)
        &&& m.opcode != Opcode::Close
        &&& m.compressed ==> ac
    } by {
        assert(chunks[i].len() <= max);
    }
    lemma_decode_stream_of_frames(frames, models, keys, ac);

    // The reassembler accepts them and restores the payload.
    let text = op == Opcode::Text;
    let m0 = models[0];
    assert(m0.opcode == op && m0.compressed == comp && m0.payload == chunks[0]);
    if n == 1 {
        assert(m0.fin);
        assert(chunks[0] == payload) by {
            assert(chunks =~= seq![payload]);
        }
        assert(spec_data_step(None, m0) == DataStep::Complete(text, comp, payload));
        assert(models.len() == 1);
    } else {
        assert(!m0.fin);
        assert(spec_data_step(None, m0) == DataStep::Accum(text, comp, chunks[0]));
        assert(chunks.take(1) =~= seq![chunks[0]]);
        assert(chunks.take(1).flatten() == chunks[0]) by {
            chunks.take(1).lemma_flatten_one_element();
        }
        assert(models.drop_first() =~= models.skip(1));
        lemma_assemble_suffix(op, payload, comp, max, 1);
        lemma_flatten_take_le(chunks, 1);
    }
}

} // verus!
