//! Frame opcodes from RFC 6455 section 5.2.

use vstd::prelude::*;

verus! {

/// The opcode of a single frame.
#[derive(Debug, Copy, Clone, PartialEq, Eq, Structural)]
pub enum Opcode {
    Cont,
    Text,
    Bin,
    Close,
    Ping,
    Pong,
}

impl Opcode {
    /// The wire value of this opcode.
    pub open spec fn spec_code(self) -> u8 {
        match self {
            Opcode::Cont => 0x0,
            Opcode::Text => 0x1,
            Opcode::Bin => 0x2,
            Opcode::Close => 0x8,
            Opcode::Ping => 0x9,
            Opcode::Pong => 0xA,
        }
    }

    /// The opcode denoted by a wire value, if any.
    pub open spec fn spec_from_u8(value: u8) -> Option<Opcode> {
        match value {
            0x0 => Some(Opcode::Cont),
            0x1 => Some(Opcode::Text),
            0x2 => Some(Opcode::Bin),
            0x8 => Some(Opcode::Close),
            0x9 => Some(Opcode::Ping),
            0xA => Some(Opcode::Pong),
            _ => None,
        }
    }

    /// True of the control opcodes: Close, Ping and Pong.
    pub open spec fn spec_is_control(self) -> bool {
        match self {
            Opcode::Close | Opcode::Ping | Opcode::Pong => true,
            _ => false,
        }
    }

    /// The wire value of this opcode.
    pub fn code(self) -> (c: u8)
        ensures
            c == self.spec_code(),
    {
        match self {
            Opcode::Cont => 0x0,
            Opcode::Text => 0x1,
            Opcode::Bin => 0x2,
            Opcode::Close => 0x8,
            Opcode::Ping => 0x9,
            Opcode::Pong => 0xA,
        }
    }

    /// Whether this is a control frame opcode (Close, Ping, Pong).
    pub fn is_control(self) -> (r: bool)
        ensures
            r == self.spec_is_control(),
    {
        match self {
            Opcode::Close | Opcode::Ping | Opcode::Pong => true,
            _ => false,
        }
    }

    /// Whether this is a data frame opcode (Text, Bin, Cont).
    pub fn is_data(self) -> (r: bool)
        ensures
            r == !self.spec_is_control(),
    {
        match self {
            Opcode::Bin | Opcode::Text | Opcode::Cont => true,
            _ => false,
        }
    }

    /// Reads an opcode from its wire value; reserved values are refused.
    pub fn try_from(value: u8) -> (r: Result<Opcode, ()>)
        ensures
            match r {
                Ok(op) => Opcode::spec_from_u8(value) == Some(op),
                Err(()) => Opcode::spec_from_u8(value) is None,
            },
    {
        match value {
            0x0 => Ok(Opcode::Cont),
            0x1 => Ok(Opcode::Text),
            0x2 => Ok(Opcode::Bin),
            0x8 => Ok(Opcode::Close),
            0x9 => Ok(Opcode::Ping),
            0xA => Ok(Opcode::Pong),
            _ => Err(()),
        }
    }
}

} // verus!
