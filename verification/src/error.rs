//! Error type of the protocol and the close codes carried by Close packets.

use vstd::prelude::*;

verus! {

/// `std::io::Error` is carried through `Error::Io` unread.
#[verifier::external_type_specification]
#[verifier::external_body]
pub struct ExIoError(std::io::Error);

/// Stream identifier (18 bits, 0 to 262143).
pub type StreamId = u32;

/// Errors of the Aether protocol.
#[derive(Debug)]
pub enum Error {
    /// Network or file I/O failed.
    Io(std::io::Error),
    /// The wire format was broken: a bad header or truncated data.
    ProtocolViolation(String),
    /// A cryptographic operation failed.
    Crypto(String),
    /// A flow-control limit was reached.
    FlowControl(String),
    /// A connection or an operation timed out.
    Timeout(String),
    /// The peer speaks no version we support.
    VersionNegotiation(String),
    /// The connection was closed.
    ConnectionClosed(CloseCode, String),
    /// The stream was closed or is unknown.
    StreamClosed(StreamId, String),
    /// The peer refused our identity.
    IdentityRejected(String),
    /// The operation is not possible in the current state.
    InvalidState(String),
    /// A packet exceeded the maximum size.
    PacketTooLarge { size: usize, max: usize },
    /// An internal error.
    Internal(String),
}

/// Close code of a Close packet.
#[derive(Debug, Clone, Copy, PartialEq, Eq, Structural)]
pub enum CloseCode {
    NoError,
    InternalError,
    ProtocolViolation,
    CryptoError,
    FlowControlError,
    Timeout,
    VersionNegotiation,
    Refused,
    IdentityRejected,
}

impl CloseCode {
    /// The code's byte on the wire.
    pub open spec fn spec_code(self) -> u8 {
        match self {
            CloseCode::NoError => 0x00,
            CloseCode::InternalError => 0x01,
            CloseCode::ProtocolViolation => 0x02,
            CloseCode::CryptoError => 0x03,
            CloseCode::FlowControlError => 0x04,
            CloseCode::Timeout => 0x05,
            CloseCode::VersionNegotiation => 0x06,
            CloseCode::Refused => 0x07,
            CloseCode::IdentityRejected => 0x08,
        }
    }

    /// The close code a byte stands for, if any.
    pub open spec fn spec_from_u8(code: u8) -> Option<CloseCode> {
        if code == 0x00 {
            Some(CloseCode::NoError)
        } else if code == 0x01 {
            Some(CloseCode::InternalError)
        } else if code == 0x02 {
            Some(CloseCode::ProtocolViolation)
        } else if code == 0x03 {
            Some(CloseCode::CryptoError)
        } else if code == 0x04 {
            Some(CloseCode::FlowControlError)
        } else if code == 0x05 {
            Some(CloseCode::Timeout)
        } else if code == 0x06 {
            Some(CloseCode::VersionNegotiation)
        } else if code == 0x07 {
            Some(CloseCode::Refused)
        } else if code == 0x08 {
            Some(CloseCode::IdentityRejected)
        } else {
            None
        }
    }

    /// Decode a close code: bytes 0x00 to 0x08 are codes, others are not.
    pub fn from_u8(code: u8) -> (res: Option<CloseCode>)
        ensures
            res == CloseCode::spec_from_u8(code),
            res is Some <==> code <= 0x08,
    {
        match code {
            0x00 => Some(CloseCode::NoError),
            0x01 => Some(CloseCode::InternalError),
            0x02 => Some(CloseCode::ProtocolViolation),
            0x03 => Some(CloseCode::CryptoError),
            0x04 => Some(CloseCode::FlowControlError),
            0x05 => Some(CloseCode::Timeout),
            0x06 => Some(CloseCode::VersionNegotiation),
            0x07 => Some(CloseCode::Refused),
            0x08 => Some(CloseCode::IdentityRejected),
            _ => None,
        }
    }

    /// The code's byte on the wire.
    pub fn to_u8(self) -> (res: u8)
        ensures
            res == self.spec_code(),
    {
        match self {
            CloseCode::NoError => 0x00,
            CloseCode::InternalError => 0x01,
            CloseCode::ProtocolViolation => 0x02,
            CloseCode::CryptoError => 0x03,
            CloseCode::FlowControlError => 0x04,
            CloseCode::Timeout => 0x05,
            CloseCode::VersionNegotiation => 0x06,
            CloseCode::Refused => 0x07,
            CloseCode::IdentityRejected => 0x08,
        }
    }

    /// The code's name, in upper snake case.
    pub fn name(&self) -> (res: &'static str)
        ensures
            res@ == self.spec_name(),
    {
        match self {
            CloseCode::NoError => "NO_ERROR",
            CloseCode::InternalError => "INTERNAL_ERROR",
            CloseCode::ProtocolViolation => "PROTOCOL_VIOLATION",
            CloseCode::CryptoError => "CRYPTO_ERROR",
            CloseCode::FlowControlError => "FLOW_CONTROL_ERROR",
            CloseCode::Timeout => "TIMEOUT",
            CloseCode::VersionNegotiation => "VERSION_NEGOTIATION",
            CloseCode::Refused => "REFUSED",
            CloseCode::IdentityRejected => "IDENTITY_REJECTED",
        }
    }

    /// The code's name, in upper snake case.
    pub open spec fn spec_name(self) -> Seq<char> {
        match self {
            CloseCode::NoError => "NO_ERROR"@,
            CloseCode::InternalError => "INTERNAL_ERROR"@,
            CloseCode::ProtocolViolation => "PROTOCOL_VIOLATION"@,
            CloseCode::CryptoError => "CRYPTO_ERROR"@,
            CloseCode::FlowControlError => "FLOW_CONTROL_ERROR"@,
            CloseCode::Timeout => "TIMEOUT"@,
            CloseCode::VersionNegotiation => "VERSION_NEGOTIATION"@,
            CloseCode::Refused => "REFUSED"@,
            CloseCode::IdentityRejected => "IDENTITY_REJECTED"@,
        }
    }
}

/// The wire byte of each close code, as the protocol numbers them: 0x00
/// to 0x08 in the order no error, internal error, protocol violation,
/// crypto error, flow-control error, timeout, version negotiation, refused,
/// identity rejected. Peers agree on a code only through this numbering.
pub proof fn lemma_close_code_bytes(c: CloseCode)
    ensures
        CloseCode::NoError.spec_code() == 0x00,
        CloseCode::InternalError.spec_code() == 0x01,
        CloseCode::ProtocolViolation.spec_code() == 0x02,
        CloseCode::CryptoError.spec_code() == 0x03,
        CloseCode::FlowControlError.spec_code() == 0x04,
        CloseCode::Timeout.spec_code() == 0x05,
        CloseCode::VersionNegotiation.spec_code() == 0x06,
        CloseCode::Refused.spec_code() == 0x07,
        CloseCode::IdentityRejected.spec_code() == 0x08,
        CloseCode::spec_from_u8(0x05) == Some(CloseCode::Timeout),
        CloseCode::spec_from_u8(0x07) == Some(CloseCode::Refused),
        c.spec_code() <= 0x08,
        (c.spec_name() == "TIMEOUT"@) == (c.spec_code() == 0x05),
        (c.spec_name() == "REFUSED"@) == (c.spec_code() == 0x07),
{
    reveal_strlit("TIMEOUT");
    reveal_strlit("REFUSED");
    reveal_strlit("NO_ERROR");
    reveal_strlit("INTERNAL_ERROR");
    reveal_strlit("PROTOCOL_VIOLATION");
    reveal_strlit("CRYPTO_ERROR");
    reveal_strlit("FLOW_CONTROL_ERROR");
    reveal_strlit("VERSION_NEGOTIATION");
    reveal_strlit("IDENTITY_REJECTED");
    match c {
        CloseCode::Timeout => {
            assert(c.spec_name()[0] != "REFUSED"@[0]);
        },
        CloseCode::Refused => {
            assert(c.spec_name()[0] != "TIMEOUT"@[0]);
        },
        _ => {
            assert(c.spec_name().len() != 7);
        },
    }
}

/// Every close code survives a round trip through its byte.
pub proof fn lemma_close_code_roundtrip(c: CloseCode)
    ensures
        CloseCode::spec_from_u8(c.spec_code()) == Some(c),
{
}

/// `Error::Io` wraps an I/O error.
impl From<std::io::Error> for Error {
    fn from(e: std::io::Error) -> (res: Self) {
        Error::Io(e)
    }
}

impl vstd::std_specs::convert::FromSpecImpl<std::io::Error> for Error {
    open spec fn obeys_from_spec() -> bool {
        true
    }

    open spec fn from_spec(e: std::io::Error) -> Self {
        Error::Io(e)
    }
}

/// Result of all Aether operations.
pub type Result<T> = std::result::Result<T, Error>;

} // verus!
