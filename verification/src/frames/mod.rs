pub mod control;
pub mod laws;
pub mod data;
pub mod decode;
pub mod opcode;
pub mod wire;

pub use decode::{DecodedFrame, FrameDecoder, FrameParseError, FrameState};
pub use opcode::Opcode;
