//! A full-duplex WebSocket endpoint library: frame codec, message
//! reassembly, keepalive tracking and close-handshake logic, with the
//! masking asymmetry between the client and the server role selected by
//! policy types.

use vstd::prelude::*;

mod args;
mod bytebuf;
mod compress;
mod digest;
mod error;
mod frames;
mod handshake;
mod laws;
mod message;
mod protocol;
mod role;
mod rng;
mod structs;
mod text;
mod ws;

pub use args::{spec_dec_bytes, u16_dec_bytes, Args};
pub use compress::{new_deflater, new_inflater, Deflater, Inflater};
pub use digest::{base64_of, sha1_of};
pub use error::{CloseReason, UpgradeError};
pub use handshake::{build_client_request, build_server_response, bytes_eq, hash_key, header_get,
    next_token, parse_header_line, request_line_ok, spec_accept_key, status_is_switching,
    str_eq_ignore_case, trim_bytes, validate_header};
pub use frames::laws::{lemma_frame_round_trip, lemma_run_extend, lemma_run_frame_invariants};
pub use laws::{lemma_decode_stream_of_frames, lemma_message_round_trip, spec_assemble,
    spec_message_models, AssembleOutcome};
pub use frames::control::ControlFrame;
pub use frames::data::DataFrame;
pub use frames::decode::{is_valid_close_payload, DecodedFrame, FrameDecoder, FrameParseError,
    FrameState};
pub use frames::Opcode;
pub use message::{finish_message, Message, PartialMessage};
pub use protocol::mask::{lemma_mask_involutive, mask, mask_lin, mask_seq};
pub use protocol::ping::{PingStats, PongError};
pub use role::{Client, DecodePolicy, EncodePolicy, Server};
pub use structs::{spec_simple_frames, Frame, SendMessage};
pub use ws::event::{Event, Text};
pub use ws::flags::{lemma_closed_emitted_once, ConnFlags};
pub use ws::frame_handler::{FrameAction, HandleResult, Handler};
pub use ws::keepalive::{lemma_single_outstanding_ping, Keepalive, KeepaliveAction};

verus! {

/// Largest payload a single frame may declare; larger frames are refused
/// with a size error.
pub const MAX_FRAME_PAYLOAD: usize = 16 * 1024 * 1024;

/// Largest assembled message; fragments that would grow a message past
/// this bound are refused with a size error.
pub const MAX_MESSAGE_SIZE: usize = 16 * 1024 * 1024;

} // verus!
