//! Frame dispatch: what one validated frame means for the connection.
//! The decisions are pure; the caller performs the sends and delivers
//! the events.

use vstd::prelude::*;

use vstd::utf8::valid_utf8;

use crate::compress::{inflate_message, Inflater};
use crate::error::CloseReason;
use crate::frames::decode::DecodedFrame;
use crate::frames::opcode::Opcode;
use crate::frames::wire::{be16, FrameModel};
use crate::message::PartialMessage;
use crate::protocol::ping::{PingStats, PongError};
use crate::text::utf8_is_valid;
use crate::ws::event::{Event, Text};
use crate::ws::flags::{spec_begin_close, ConnFlags};
use crate::MAX_MESSAGE_SIZE;

verus! {

/// The reassembly buffer as a model value: kind, RSV1 flag of the first
/// frame, bytes so far.
pub open spec fn pending_m(p: Option<PartialMessage>) -> Option<(bool, bool, Seq<u8>)> {
    match p {
        Some(pm) => Some((pm.is_text_m(), pm.compressed_m(), pm.buf_m())),
        None => None,
    }
}

/// What the reassembler does with one data frame, before any
/// inflation: refuse it, keep accumulating, or complete a message.
pub enum DataStep {
    /// The frame violates the protocol or the size bound; the
    /// connection is closed with this reason.
    Refuse(CloseReason),
    /// A fragment was stored; the triple is the buffer's new model.
    Accum(bool, bool, Seq<u8>),
    /// The final fragment arrived; the triple is the whole message:
    /// kind, compression mark, assembled bytes.
    Complete(bool, bool, Seq<u8>),
}

/// The reassembly rules of one data frame against the pending buffer:
/// Text or Binary starts a message only when none is pending; a
/// Continuation extends the pending one and may not carry RSV1; a
/// message may not outgrow `MAX_MESSAGE_SIZE`.
pub open spec fn spec_data_step(pending: Option<(bool, bool, Seq<u8>)>, f: FrameModel) -> DataStep {
    if pending is None && (f.opcode == Opcode::Text || f.opcode == Opcode::Bin) {
        let text = f.opcode == Opcode::Text;
        if f.payload.len() > MAX_MESSAGE_SIZE {
            DataStep::Refuse(CloseReason::TooBig)
        } else if f.fin {
            DataStep::Complete(text, f.compressed, f.payload)
        } else {
            DataStep::Accum(text, f.compressed, f.payload)
        }
    } else {
        match pending {
            Some((text, comp, data)) => {
                if f.opcode == Opcode::Cont && !f.compressed {
                    if data.len() + f.payload.len() > MAX_MESSAGE_SIZE {
                        DataStep::Refuse(CloseReason::TooBig)
                    } else if f.fin {
                        DataStep::Complete(text, comp, data + f.payload)
                    } else {
                        DataStep::Accum(text, comp, data + f.payload)
                    }
                } else {
                    DataStep::Refuse(CloseReason::ProtoError)
                }
            },
            None => DataStep::Refuse(CloseReason::ProtoError),
        }
    }
}

/// The close code a peer's Close frame is answered with: Normal for a
/// well-formed payload, ProtoError for a 1-byte payload, a code that
/// must never appear on the wire, or a malformed reason text.
pub open spec fn spec_close_reply(p: Seq<u8>) -> CloseReason {
    if p.len() == 0 {
        CloseReason::Normal
    } else if p.len() == 1 {
        CloseReason::ProtoError
    } else if CloseReason::spec_from_code(be16(p[0], p[1])).spec_never_on_wire() || !valid_utf8(
        p.skip(2),
    ) {
        CloseReason::ProtoError
    } else {
        CloseReason::Normal
    }
}

/// What the caller must do after one frame was handled.
#[derive(Debug)]
pub enum FrameAction {
    /// Nothing.
    Idle,
    /// Deliver this event upward.
    Deliver(Event),
    /// Answer a Ping: send a Pong echoing these bytes.
    SendPong(Vec<u8>),
    /// Close the connection with this reason and text.
    SendClose(CloseReason, &'static str),
    /// Answer the peer's Close with this reason, then await the end of
    /// the stream.
    EchoClose(CloseReason),
}

/// One frame's outcome: the action to take, and whether frame
/// processing is over for this connection.
#[derive(Debug)]
pub struct HandleResult {
    pub action: FrameAction,
    pub done: bool,
}

/// Dispatches validated frames; the state it reads and writes is
/// carried by the caller.
pub struct Handler {}

impl Handler {
    /// A frame dispatcher.
    pub fn new() -> (r: Handler) {
        Handler {}
    }

    /// Applies one data frame to the reassembly buffer. A completed
    /// message is inflated when its first frame carried RSV1, then a
    /// text message is validated as UTF-8 and delivered; errors refuse
    /// the message with the reason the close must carry.
    pub fn handle_data(
        &self,
        frame: &DecodedFrame,
        partial_msg: &mut Option<PartialMessage>,
        inflater: &mut Option<Inflater>,
        use_context: bool,
    ) -> (r: HandleResult)
        ensures
            match spec_data_step(pending_m(*old(partial_msg)), frame@) {
                DataStep::Refuse(reason) => {
                    &&& r.action matches FrameAction::SendClose(rs, _) && rs == reason
                    &&& r.done
                },
                DataStep::Accum(text, comp, data) => {
                    &&& r.action is Idle
                    &&& !r.done
                    &&& pending_m(*final(partial_msg)) == Some((text, comp, data))
                },
                DataStep::Complete(text, comp, data) => {
                    &&& *final(partial_msg) is None
                    &&& !comp ==> if text {
                        if valid_utf8(data) {
                            &&& r.action matches FrameAction::Deliver(ev)
                            &&& ev matches Event::Text(t) && t.bytes_m() == data
                            &&& !r.done
                        } else {
                            &&& r.action matches FrameAction::SendClose(rs, _) && rs
                                == CloseReason::DataError
                            &&& r.done
                        }
                    } else {
                        &&& r.action matches FrameAction::Deliver(ev)
                        &&& ev matches Event::Binary(b) && b@ == data
                        &&& !r.done
                    }
                    &&& comp ==> ((*old(inflater)) is None ==> (r.action matches
                        FrameAction::SendClose(rs, _) && rs == CloseReason::ProtoError && r.done))
                    &&& comp ==> ((*old(inflater)) is Some ==> match r.action {
                        FrameAction::Deliver(ev) => (match ev {
                            Event::Text(t) => text && t.wf(),
                            Event::Binary(_) => !text,
                            _ => false,
                        }) && !r.done,
                        FrameAction::SendClose(rs, _) => (rs == CloseReason::ProtoError || (text
                            && rs == CloseReason::DataError)) && r.done,
                        _ => false,
                    })
                },
            },
    {
        let is_text_start = match frame.opcode {
            Opcode::Text => true,
            _ => false,
        };
        let is_bin_start = match frame.opcode {
            Opcode::Bin => true,
            _ => false,
        };
        let is_cont = match frame.opcode {
            Opcode::Cont => true,
            _ => false,
        };
        let taken = partial_msg.take();
        let starts = taken.is_none() && (is_text_start || is_bin_start);
        let continues = taken.is_some() && is_cont && !frame.compressed;
        let mut partial = match taken {
            Some(p) => {
                if !continues {
                    return HandleResult {
                        action: FrameAction::SendClose(CloseReason::ProtoError, "Unexpected frame"),
                        done: true,
                    };
                }
                p
            },
            None => {
                if !starts {
                    return HandleResult {
                        action: FrameAction::SendClose(CloseReason::ProtoError, "Unexpected frame"),
                        done: true,
                    };
                }
                if is_text_start {
                    PartialMessage::text(frame.compressed)
                } else {
                    PartialMessage::binary(frame.compressed)
                }
            },
        };
        if frame.payload.len() > MAX_MESSAGE_SIZE || partial.len() > MAX_MESSAGE_SIZE
            - frame.payload.len() {
            return HandleResult {
                action: FrameAction::SendClose(
                    CloseReason::TooBig,
                    "Message exceeded maximum size",
                ),
                done: true,
            };
        }
        partial.push_bytes(frame.payload.as_slice());
        proof {
            assert(partial.buf_m() =~= (match spec_data_step(pending_m(*old(partial_msg)), frame@) {
                DataStep::Accum(_, _, data) => data,
                DataStep::Complete(_, _, data) => data,
                DataStep::Refuse(_) => partial.buf_m(),
            }));
        }
        if !frame.is_fin {
            *partial_msg = Some(partial);
            return HandleResult { action: FrameAction::Idle, done: false };
        }
        let text = partial.kind_is_text();
        let comp = partial.marked_compressed();
        let mut data = partial.into_bytes();
        if comp {
            let dec = match inflater {
                Some(d) => d,
                None => {
                    return HandleResult {
                        action: FrameAction::SendClose(
                            CloseReason::ProtoError,
                            "bad deflate stream",
                        ),
                        done: true,
                    };
                },
            };
            // RFC 7692: restore the empty-block tail before inflating.
            data.push(0x00);
            data.push(0x00);
            data.push(0xFF);
            data.push(0xFF);
            match inflate_message(dec, data.as_slice(), use_context) {
                Some(out) => {
                    data = out;
                },
                None => {
                    return HandleResult {
                        action: FrameAction::SendClose(
                            CloseReason::ProtoError,
                            "bad deflate stream",
                        ),
                        done: true,
                    };
                },
            }
        }
        if text {
            if !utf8_is_valid(data.as_slice()) {
                return HandleResult {
                    action: FrameAction::SendClose(CloseReason::DataError, "Invalid UTF-8"),
                    done: true,
                };
            }
            HandleResult { action: FrameAction::Deliver(Event::Text(Text::new(data))), done: false }
        } else {
            HandleResult { action: FrameAction::Deliver(Event::Binary(data)), done: false }
        }
    }

    /// Credits a Pong against the outstanding ping: a matching nonce
    /// yields a latency event, a late one closes the connection for a
    /// policy violation, a mismatched one is ignored.
    pub fn handle_pong(&self, frame: &DecodedFrame, stats: &mut PingStats, now_ms: u64) -> (r:
        HandleResult)
        requires
            old(stats).wf(),
        ensures
            final(stats).wf(),
            !r.done,
            ({
                let elapsed: int = if now_ms >= old(stats).last_ping_m() {
                    now_ms - old(stats).last_ping_m()
                } else {
                    0
                };
                if frame@.payload != old(stats).nonce_m() {
                    &&& r.action is Idle
                    &&& *final(stats) == *old(stats)
                } else if elapsed > 65535 {
                    &&& r.action matches FrameAction::SendClose(rs, _) && rs == CloseReason::Policy
                    &&& *final(stats) == *old(stats)
                } else {
                    &&& r.action matches FrameAction::Deliver(ev) && ev matches Event::Pong(ms)
                        && ms == elapsed
                    &&& final(stats).history_m() == old(stats).history_m().update(
                        old(stats).idx_m(),
                        Some(elapsed as u16),
                    )
                }
            }),
    {
        match stats.on_pong(frame.payload.as_slice(), now_ms) {
            Ok(latency) => HandleResult {
                action: FrameAction::Deliver(Event::Pong(latency)),
                done: false,
            },
            Err(PongError::Late(_)) => HandleResult {
                action: FrameAction::SendClose(CloseReason::Policy, "ping timeout"),
                done: false,
            },
            Err(PongError::Nonce(_)) => HandleResult { action: FrameAction::Idle, done: false },
        }
    }

    /// Answers a Ping by echoing its payload in a Pong.
    pub fn handle_ping(&self, frame: &DecodedFrame) -> (r: HandleResult)
        ensures
            r.action matches FrameAction::SendPong(p) && p@ == frame@.payload,
            !r.done,
    {
        let payload = vstd::slice::slice_to_vec(frame.payload.as_slice());
        HandleResult { action: FrameAction::SendPong(payload), done: false }
    }

    /// Handles the peer's Close frame: the first closer echoes a Close
    /// carrying the reply code; either way frame processing ends.
    pub fn handle_close(&self, frame: &DecodedFrame, flags: &mut ConnFlags) -> (r: HandleResult)
        ensures
            r.done,
            *final(flags) == spec_begin_close(*old(flags)).0,
            old(flags).closing ==> r.action is Idle,
            !old(flags).closing ==> (r.action matches FrameAction::EchoClose(rs) && rs
                == spec_close_reply(frame@.payload)),
    {
        let first = flags.begin_close();
        if !first {
            return HandleResult { action: FrameAction::Idle, done: true };
        }
        let n = frame.payload.len();
        let reply = if n == 0 {
            CloseReason::Normal
        } else if n == 1 {
            CloseReason::ProtoError
        } else {
            let code = CloseReason::from_be_bytes([frame.payload[0], frame.payload[1]]);
            let never = match code {
                CloseReason::Rsv | CloseReason::NoneGiven | CloseReason::Abnormal
                    | CloseReason::Tls => true,
                _ => false,
            };
            let (_, tail) = frame.payload.as_slice().split_at(2);
            let tail_ok = utf8_is_valid(tail);
            proof {
                assert(tail@ =~= frame@.payload.skip(2));
            }
            if never || !tail_ok {
                CloseReason::ProtoError
            } else {
                CloseReason::Normal
            }
        };
        HandleResult { action: FrameAction::EchoClose(reply), done: true }
    }

    /// Dispatches one frame by its opcode.
    pub fn handle_frame(
        &self,
        frame: &DecodedFrame,
        partial_msg: &mut Option<PartialMessage>,
        stats: &mut PingStats,
        flags: &mut ConnFlags,
        inflater: &mut Option<Inflater>,
        use_context: bool,
        now_ms: u64,
    ) -> (r: HandleResult)
        requires
            old(stats).wf(),
        ensures
            final(stats).wf(),
            ({
                let op = frame@.opcode;
                &&& (op == Opcode::Text || op == Opcode::Bin || op == Opcode::Cont) ==> (
                *final(stats) == *old(stats) && *final(flags) == *old(flags))
                &&& op == Opcode::Pong ==> (*final(partial_msg) == *old(partial_msg)
                    && *final(flags) == *old(flags) && !r.done)
                &&& op == Opcode::Ping ==> ((r.action matches FrameAction::SendPong(p) && p@
                    == frame@.payload) && !r.done && *final(partial_msg) == *old(partial_msg)
                    && *final(stats) == *old(stats) && *final(flags) == *old(flags))
                &&& op == Opcode::Close ==> (r.done && *final(flags) == spec_begin_close(
                    *old(flags),
                ).0 && (!old(flags).closing ==> (r.action matches FrameAction::EchoClose(rs) && rs
                    == spec_close_reply(frame@.payload))) && *final(partial_msg)
                    == *old(partial_msg) && *final(stats) == *old(stats))
            }),
    {
        match frame.opcode {
            Opcode::Text | Opcode::Bin | Opcode::Cont => self.handle_data(
                frame,
                partial_msg,
                inflater,
                use_context,
            ),
            Opcode::Pong => self.handle_pong(frame, stats, now_ms),
            Opcode::Ping => self.handle_ping(frame),
            Opcode::Close => self.handle_close(frame, flags),
        }
    }
}

} // verus!
