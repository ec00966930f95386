//! Close reason codes from RFC 6455 section 7.4 and handshake errors.

use vstd::prelude::*;

verus! {

/// Close reason codes as specified in RFC 6455 section 7.4.
#[derive(Debug, Copy, Clone, PartialEq, Eq, Structural)]
pub enum CloseReason {
    /// Normal close.
    Normal,
    /// Going away.
    GoingAway,
    /// WebSocket protocol violation.
    ProtoError,
    /// Unsupported data type.
    DataType,
    /// Reserved code, should never be seen.
    Rsv,
    /// No reason code provided.
    NoneGiven,
    /// Abnormal closure.
    Abnormal,
    /// Invalid UTF-8 in a Text message.
    DataError,
    /// Generic policy violation.
    Policy,
    /// Messages are too big.
    TooBig,
    /// Unsupported extensions.
    Extension,
    /// An unexpected condition prevented the request from being fulfilled.
    Unexpected,
    /// TLS error.
    Tls,
    /// Other valid codes with unknown meanings.
    Unknown,
}

impl CloseReason {
    /// The numeric wire code of this reason; `Unknown` stands for the
    /// application-defined range and is written as a private-use code.
    pub open spec fn spec_code(self) -> u16 {
        match self {
            CloseReason::Normal => 1000,
            CloseReason::GoingAway => 1001,
            CloseReason::ProtoError => 1002,
            CloseReason::DataType => 1003,
            CloseReason::Rsv => 1004,
            CloseReason::NoneGiven => 1005,
            CloseReason::Abnormal => 1006,
            CloseReason::DataError => 1007,
            CloseReason::Policy => 1008,
            CloseReason::TooBig => 1009,
            CloseReason::Extension => 1010,
            CloseReason::Unexpected => 1011,
            CloseReason::Tls => 1015,
            CloseReason::Unknown => 4000,
        }
    }

    /// The reason denoted by a numeric code; codes with no listed meaning
    /// map to `Unknown`.
    pub open spec fn spec_from_code(code: u16) -> CloseReason {
        match code {
            1000 => CloseReason::Normal,
            1001 => CloseReason::GoingAway,
            1002 => CloseReason::ProtoError,
            1003 => CloseReason::DataType,
            1004 => CloseReason::Rsv,
            1005 => CloseReason::NoneGiven,
            1006 => CloseReason::Abnormal,
            1007 => CloseReason::DataError,
            1008 => CloseReason::Policy,
            1009 => CloseReason::TooBig,
            1010 => CloseReason::Extension,
            1011 => CloseReason::Unexpected,
            1015 => CloseReason::Tls,
            _ => CloseReason::Unknown,
        }
    }

    /// True of the codes that must never appear on the wire.
    pub open spec fn spec_never_on_wire(self) -> bool {
        match self {
            CloseReason::Rsv | CloseReason::NoneGiven | CloseReason::Abnormal
                | CloseReason::Tls => true,
            _ => false,
        }
    }

    /// The numeric wire code of this reason.
    pub fn code(self) -> (c: u16)
        ensures
            c == self.spec_code(),
    {
        match self {
            CloseReason::Normal => 1000,
            CloseReason::GoingAway => 1001,
            CloseReason::ProtoError => 1002,
            CloseReason::DataType => 1003,
            CloseReason::Rsv => 1004,
            CloseReason::NoneGiven => 1005,
            CloseReason::Abnormal => 1006,
            CloseReason::DataError => 1007,
            CloseReason::Policy => 1008,
            CloseReason::TooBig => 1009,
            CloseReason::Extension => 1010,
            CloseReason::Unexpected => 1011,
            CloseReason::Tls => 1015,
            CloseReason::Unknown => 4000,
        }
    }

    /// Reads a reason from a numeric code.
    pub fn from_code(code: u16) -> (r: CloseReason)
        ensures
            r == CloseReason::spec_from_code(code),
    {
        match code {
            1000 => CloseReason::Normal,
            1001 => CloseReason::GoingAway,
            1002 => CloseReason::ProtoError,
            1003 => CloseReason::DataType,
            1004 => CloseReason::Rsv,
            1005 => CloseReason::NoneGiven,
            1006 => CloseReason::Abnormal,
            1007 => CloseReason::DataError,
            1008 => CloseReason::Policy,
            1009 => CloseReason::TooBig,
            1010 => CloseReason::Extension,
            1011 => CloseReason::Unexpected,
            1015 => CloseReason::Tls,
            _ => CloseReason::Unknown,
        }
    }

    /// The code as two big-endian bytes, as carried in a Close payload.
    pub fn to_be_bytes(self) -> (b: [u8; 2])
        ensures
            b@.len() == 2,
            b@[0] == (self.spec_code() >> 8) as u8,
            b@[1] == self.spec_code() as u8,
    {
        let c = self.code();
        let b: [u8; 2] = [(c >> 8) as u8, c as u8];
        b
    }

    /// Reads a reason from the two big-endian bytes of a Close payload.
    pub fn from_be_bytes(bytes: [u8; 2]) -> (r: CloseReason)
        ensures
            r == CloseReason::spec_from_code(
                ((bytes@[0] as u16) << 8 | bytes@[1] as u16) as u16,
            ),
    {
        let code: u16 = (bytes[0] as u16) << 8 | bytes[1] as u16;
        Self::from_code(code)
    }
}

/// Errors that can occur when upgrading a TCP stream to a WebSocket.
#[derive(Debug)]
pub enum UpgradeError {
    /// Tried to connect to an invalid url.
    InvalidUrl,
    /// Failed to bind the TCP listener.
    Bind,
    /// Failed to read from the TCP stream.
    Read,
    /// Failed to write to the TCP stream.
    Write,
    /// The peer returned an unexpected HTTP status line.
    StatusLine(String),
    /// A header was missing from the upgrade request.
    MissingHeader(&'static str),
    /// A handshake header did not match expectations.
    Header {
        /// The name of the header field.
        field: &'static str,
        /// The expected value.
        expected: String,
        /// The actual value.
        got: String,
    },
    /// Failed to obtain the socket's peer address.
    Addr,
    /// Failed to establish the TCP connection.
    Connect,
    /// The attempt to connect timed out.
    Timeout,
    /// Protocol mismatch.
    Protocol,
}

} // verus!
