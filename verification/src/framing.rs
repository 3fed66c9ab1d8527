//! Wire format: the 16-byte short header, the 24-byte long header, the TLV
//! extension chain and whole packets.
//!
//! ```text
//!  0                   1                   2                   3
//!  0 1 2 3 4 5 6 7 8 9 0 1 2 3 4 5 6 7 8 9 0 1 2 3 4 5 6 7 8 9 0 1
//! +-+-+-+-+-+-+-+-+-+-+-+-+-+-+-+-+-+-+-+-+-+-+-+-+-+-+-+-+-+-+-+-+
//! | Ver |  Type   |H|E|R|         Stream ID                       |
//! +-+-+-+-+-+-+-+-+-+-+-+-+-+-+-+-+-+-+-+-+-+-+-+-+-+-+-+-+-+-+-+-+
//! |                           Offset (32 bits)                     |
//! |                           Length (32 bits)                     |
//! |                     Connection ID (32 bits)                    |
//! +-+-+-+-+-+-+-+-+-+-+-+-+-+-+-+-+-+-+-+-+-+-+-+-+-+-+-+-+-+-+-+-+
//! ```
//!
//! Byte 0 holds the version in its high nibble and the four high bits of the
//! 6-bit type; byte 1 holds the two low type bits, the H bit (0x20), the E
//! bit (0x10) and the two high bits of the stream id.

use vstd::prelude::*;

use crate::error::{CloseCode, Error, Result};
use crate::AETHER_VERSION;
use vstd::string::StringSliceAdditionalSpecFns;

verus! {

/// Largest packet on the wire.
pub const MAX_PACKET_SIZE: usize = 1400;

/// Size of the short header in bytes.
pub const SHORT_HEADER_SIZE: usize = 16;

/// Size of the long header in bytes.
pub const LONG_HEADER_SIZE: usize = 24;

/// Largest stream id (18 bits).
pub const MAX_STREAM_ID: u32 = 0x3FFFF;

/// Stream id of the control stream.
pub const CONTROL_STREAM_ID: u32 = 0;

// ─────────────────────────────────────────────────────────────────────
// Big-endian integers
// ─────────────────────────────────────────────────────────────────────

/// The two big-endian bytes of `x`.
pub open spec fn be16(x: u16) -> Seq<u8> {
    seq![(x >> 8u16) as u8, x as u8]
}

/// The four big-endian bytes of `x`.
pub open spec fn be32(x: u32) -> Seq<u8> {
    seq![(x >> 24u32) as u8, (x >> 16u32) as u8, (x >> 8u32) as u8, x as u8]
}

/// The eight big-endian bytes of `x`.
pub open spec fn be64(x: u64) -> Seq<u8> {
    seq![
        (x >> 56u64) as u8,
        (x >> 48u64) as u8,
        (x >> 40u64) as u8,
        (x >> 32u64) as u8,
        (x >> 24u64) as u8,
        (x >> 16u64) as u8,
        (x >> 8u64) as u8,
        x as u8,
    ]
}

/// The u16 held big-endian by two bytes.
pub open spec fn u16_of(b0: u8, b1: u8) -> u16 {
    ((b0 as u16) << 8u16) | (b1 as u16)
}

/// The u32 held big-endian by four bytes.
pub open spec fn u32_of(b0: u8, b1: u8, b2: u8, b3: u8) -> u32 {
    ((b0 as u32) << 24u32) | ((b1 as u32) << 16u32) | ((b2 as u32) << 8u32) | (b3 as u32)
}

/// The u64 held big-endian by eight bytes.
pub open spec fn u64_of(b: Seq<u8>, i: int) -> u64 {
    ((b[i] as u64) << 56u64) | ((b[i + 1] as u64) << 48u64) | ((b[i + 2] as u64) << 40u64) | ((
    b[i + 3] as u64) << 32u64) | ((b[i + 4] as u64) << 24u64) | ((b[i + 5] as u64) << 16u64) | ((
    b[i + 6] as u64) << 8u64) | (b[i + 7] as u64)
}

/// The u32 held big-endian by the four bytes of `b` from `i`.
pub open spec fn u32_at(b: Seq<u8>, i: int) -> u32 {
    u32_of(b[i], b[i + 1], b[i + 2], b[i + 3])
}

/// Reading back the four bytes of a u32 gives the u32.
pub proof fn lemma_u32_roundtrip(x: u32)
    ensures
        u32_of((x >> 24u32) as u8, (x >> 16u32) as u8, (x >> 8u32) as u8, x as u8) == x,
        u32_at(be32(x), 0) == x,
{
    assert((((((x >> 24u32) as u8) as u32) << 24u32) | ((((x >> 16u32) as u8) as u32) << 16u32)
        | ((((x >> 8u32) as u8) as u32) << 8u32) | ((x as u8) as u32)) == x) by (bit_vector);
}

/// Reading back the eight bytes of a u64 gives the u64.
pub proof fn lemma_u64_roundtrip(x: u64)
    ensures
        u64_of(be64(x), 0) == x,
{
    let b = be64(x);
    assert(u64_of(b, 0) == ((((x >> 56u64) as u8) as u64) << 56u64) | ((((x >> 48u64) as u8)
        as u64) << 48u64) | ((((x >> 40u64) as u8) as u64) << 40u64) | ((((x >> 32u64) as u8)
        as u64) << 32u64) | ((((x >> 24u64) as u8) as u64) << 24u64) | ((((x >> 16u64) as u8)
        as u64) << 16u64) | ((((x >> 8u64) as u8) as u64) << 8u64) | ((x as u8) as u64));
    assert(((((x >> 56u64) as u8) as u64) << 56u64) | ((((x >> 48u64) as u8) as u64) << 48u64)
        | ((((x >> 40u64) as u8) as u64) << 40u64) | ((((x >> 32u64) as u8) as u64) << 32u64)
        | ((((x >> 24u64) as u8) as u64) << 24u64) | ((((x >> 16u64) as u8) as u64) << 16u64)
        | ((((x >> 8u64) as u8) as u64) << 8u64) | ((x as u8) as u64) == x) by (bit_vector);
}

/// Append the two big-endian bytes of `value`.
pub(crate) fn push_u16_be(buf: &mut Vec<u8>, value: u16)
    ensures
        final(buf)@ == old(buf)@ + be16(value),
{
    buf.push((value >> 8u16) as u8);
    buf.push(value as u8);
}

/// Append the four big-endian bytes of `value`.
pub fn write_u32_be(buf: &mut Vec<u8>, value: u32)
    ensures
        final(buf)@ == old(buf)@ + be32(value),
{
    buf.push((value >> 24u32) as u8);
    buf.push((value >> 16u32) as u8);
    buf.push((value >> 8u32) as u8);
    buf.push(value as u8);
}

/// Append the eight big-endian bytes of `value`.
pub fn write_u64_be(buf: &mut Vec<u8>, value: u64)
    ensures
        final(buf)@ == old(buf)@ + be64(value),
{
    buf.push((value >> 56u64) as u8);
    buf.push((value >> 48u64) as u8);
    buf.push((value >> 40u64) as u8);
    buf.push((value >> 32u64) as u8);
    buf.push((value >> 24u64) as u8);
    buf.push((value >> 16u64) as u8);
    buf.push((value >> 8u64) as u8);
    buf.push(value as u8);
}

/// Read a big-endian u64 at `*offset` and advance the offset by 8; fails,
/// leaving the offset as it was, when fewer than 8 bytes remain.
pub fn read_u64_be(data: &[u8], offset: &mut usize) -> (res: Result<u64>)
    requires
        *old(offset) + 8 <= usize::MAX,
    ensures
        match res {
            Ok(v) => {
                &&& *old(offset) + 8 <= data@.len()
                &&& v == u64_of(data@, *old(offset) as int)
                &&& *final(offset) == *old(offset) + 8
            },
            Err(e) => {
                &&& data@.len() < *old(offset) + 8
                &&& e is ProtocolViolation
                &&& *final(offset) == *old(offset)
            },
        },
{
    if data.len() < *offset + 8 {
        return Err(Error::ProtocolViolation("Truncated u64".to_string()));
    }
    let o = *offset;
    let value = ((data[o] as u64) << 56u64) | ((data[o + 1] as u64) << 48u64) | ((data[o + 2]
        as u64) << 40u64) | ((data[o + 3] as u64) << 32u64) | ((data[o + 4] as u64) << 24u64) | ((
    data[o + 5] as u64) << 16u64) | ((data[o + 6] as u64) << 8u64) | (data[o + 7] as u64);
    *offset = o + 8;
    Ok(value)
}

/// Read a big-endian u32 at `*offset` and advance the offset by 4; fails,
/// leaving the offset as it was, when fewer than 4 bytes remain.
pub fn read_u32_be(data: &[u8], offset: &mut usize) -> (res: Result<u32>)
    requires
        *old(offset) + 4 <= usize::MAX,
    ensures
        match res {
            Ok(v) => {
                &&& *old(offset) + 4 <= data@.len()
                &&& v == u32_at(data@, *old(offset) as int)
                &&& *final(offset) == *old(offset) + 4
            },
            Err(e) => {
                &&& data@.len() < *old(offset) + 4
                &&& e is ProtocolViolation
                &&& *final(offset) == *old(offset)
            },
        },
{
    if data.len() < *offset + 4 {
        return Err(Error::ProtocolViolation("Truncated u32".to_string()));
    }
    let o = *offset;
    let value = ((data[o] as u32) << 24u32) | ((data[o + 1] as u32) << 16u32) | ((data[o + 2]
        as u32) << 8u32) | (data[o + 3] as u32);
    *offset = o + 4;
    Ok(value)
}

// ─────────────────────────────────────────────────────────────────────
// Frame types
// ─────────────────────────────────────────────────────────────────────

/// Packet type (6 bits).
#[derive(Debug, Clone, Copy, PartialEq, Eq, Structural)]
pub enum FrameType {
    /// First packet of a connection, carries the ClientHello (long header).
    Initial,
    /// Cryptographic handshake (long header).
    Handshake,
    /// Stream data.
    Data,
    /// Acknowledgement.
    Ack,
    /// Connection close.
    Close,
    /// Keep-alive.
    Ping,
    /// Validation of a new path.
    PathChallenge,
    /// Answer to a path validation.
    PathResponse,
    /// A stream is opened.
    StreamOpen,
    /// A stream is closed (FIN).
    StreamClose,
}

impl FrameType {
    /// The type's 6-bit code.
    pub open spec fn spec_code(self) -> u8 {
        match self {
            FrameType::Initial => 0x00,
            FrameType::Handshake => 0x01,
            FrameType::Data => 0x02,
            FrameType::Ack => 0x03,
            FrameType::Close => 0x04,
            FrameType::Ping => 0x05,
            FrameType::PathChallenge => 0x06,
            FrameType::PathResponse => 0x07,
            FrameType::StreamOpen => 0x08,
            FrameType::StreamClose => 0x09,
        }
    }

    /// The type a 6-bit code stands for, if any.
    pub open spec fn spec_from_code(code: u8) -> Option<FrameType> {
        if code == 0x00 {
            Some(FrameType::Initial)
        } else if code == 0x01 {
            Some(FrameType::Handshake)
        } else if code == 0x02 {
            Some(FrameType::Data)
        } else if code == 0x03 {
            Some(FrameType::Ack)
        } else if code == 0x04 {
            Some(FrameType::Close)
        } else if code == 0x05 {
            Some(FrameType::Ping)
        } else if code == 0x06 {
            Some(FrameType::PathChallenge)
        } else if code == 0x07 {
            Some(FrameType::PathResponse)
        } else if code == 0x08 {
            Some(FrameType::StreamOpen)
        } else if code == 0x09 {
            Some(FrameType::StreamClose)
        } else {
            None
        }
    }

    /// Decode the low six bits of `value`.
    pub fn from_u8(value: u8) -> (res: Option<FrameType>)
        ensures
            res == FrameType::spec_from_code(value & 0x3F),
    {
        match value & 0x3F {
            0x00 => Some(FrameType::Initial),
            0x01 => Some(FrameType::Handshake),
            0x02 => Some(FrameType::Data),
            0x03 => Some(FrameType::Ack),
            0x04 => Some(FrameType::Close),
            0x05 => Some(FrameType::Ping),
            0x06 => Some(FrameType::PathChallenge),
            0x07 => Some(FrameType::PathResponse),
            0x08 => Some(FrameType::StreamOpen),
            0x09 => Some(FrameType::StreamClose),
            _ => None,
        }
    }

    /// The type's 6-bit code.
    pub fn to_u8(self) -> (res: u8)
        ensures
            res == self.spec_code(),
    {
        match self {
            FrameType::Initial => 0x00,
            FrameType::Handshake => 0x01,
            FrameType::Data => 0x02,
            FrameType::Ack => 0x03,
            FrameType::Close => 0x04,
            FrameType::Ping => 0x05,
            FrameType::PathChallenge => 0x06,
            FrameType::PathResponse => 0x07,
            FrameType::StreamOpen => 0x08,
            FrameType::StreamClose => 0x09,
        }
    }

    /// Initial and Handshake packets carry the long header.
    pub open spec fn spec_requires_long_header(self) -> bool {
        self == FrameType::Initial || self == FrameType::Handshake
    }

    /// Does this type use the long header?
    pub fn requires_long_header(self) -> (res: bool)
        ensures
            res == self.spec_requires_long_header(),
    {
        match self {
            FrameType::Initial | FrameType::Handshake => true,
            _ => false,
        }
    }

    /// Is this a control packet, one that carries no stream data?
    pub fn is_control(self) -> (res: bool)
        ensures
            res == (self != FrameType::Data),
    {
        match self {
            FrameType::Data => false,
            _ => true,
        }
    }
}

/// Every frame type survives a round trip through its code.
pub proof fn lemma_frame_type_roundtrip(t: FrameType)
    ensures
        FrameType::spec_from_code(t.spec_code()) == Some(t),
        t.spec_code() < 64,
        t.spec_code() & 0x3F == t.spec_code(),
{
    let c = t.spec_code();
    assert(c < 64 ==> c & 0x3F == c) by (bit_vector);
}

// ─────────────────────────────────────────────────────────────────────
// Extensions (TLV)
// ─────────────────────────────────────────────────────────────────────

/// Extension type (8 bits).
#[derive(Debug, Clone, Copy, PartialEq, Eq, Structural)]
pub enum ExtType {
    /// Ends the extension chain.
    Terminator,
    /// Sender's timestamp (64-bit UNIX microseconds).
    Timestamp,
    /// Stream priority (0 bulk to 255 critical).
    Priority,
    /// Padding against traffic analysis.
    Padding,
    /// Path id for multi-path.
    PathId,
    /// Flow-control window update.
    FlowControl,
}

impl ExtType {
    /// The type's byte.
    pub open spec fn spec_code(self) -> u8 {
        match self {
            ExtType::Terminator => 0x00,
            ExtType::Timestamp => 0x01,
            ExtType::Priority => 0x02,
            ExtType::Padding => 0x03,
            ExtType::PathId => 0x04,
            ExtType::FlowControl => 0x05,
        }
    }

    /// The type a byte stands for, if any.
    pub open spec fn spec_from_code(value: u8) -> Option<ExtType> {
        if value == 0x00 {
            Some(ExtType::Terminator)
        } else if value == 0x01 {
            Some(ExtType::Timestamp)
        } else if value == 0x02 {
            Some(ExtType::Priority)
        } else if value == 0x03 {
            Some(ExtType::Padding)
        } else if value == 0x04 {
            Some(ExtType::PathId)
        } else if value == 0x05 {
            Some(ExtType::FlowControl)
        } else {
            None
        }
    }

    /// The type a received byte is read as: unknown types read as the
    /// terminator.
    pub open spec fn spec_read(value: u8) -> ExtType {
        match ExtType::spec_from_code(value) {
            Some(t) => t,
            None => ExtType::Terminator,
        }
    }

    /// Decode an extension type; bytes above 0x05 are unknown.
    pub fn from_u8(value: u8) -> (res: Option<ExtType>)
        ensures
            res == ExtType::spec_from_code(value),
    {
        match value {
            0x00 => Some(ExtType::Terminator),
            0x01 => Some(ExtType::Timestamp),
            0x02 => Some(ExtType::Priority),
            0x03 => Some(ExtType::Padding),
            0x04 => Some(ExtType::PathId),
            0x05 => Some(ExtType::FlowControl),
            _ => None,
        }
    }

    /// The type's byte.
    pub fn to_u8(self) -> (res: u8)
        ensures
            res == self.spec_code(),
    {
        match self {
            ExtType::Terminator => 0x00,
            ExtType::Timestamp => 0x01,
            ExtType::Priority => 0x02,
            ExtType::Padding => 0x03,
            ExtType::PathId => 0x04,
            ExtType::FlowControl => 0x05,
        }
    }
}

/// Every extension type survives a round trip through its byte.
pub proof fn lemma_ext_type_roundtrip(t: ExtType)
    ensures
        ExtType::spec_from_code(t.spec_code()) == Some(t),
        ExtType::spec_read(t.spec_code()) == t,
{
}

/// An extension in TLV form.
#[derive(Debug, Clone)]
pub struct Extension {
    pub ext_type: ExtType,
    pub value: Vec<u8>,
}

/// An extension as values: its type and its bytes.
pub type ExtView = (ExtType, Seq<u8>);

impl View for Extension {
    type V = ExtView;

    open spec fn view(&self) -> ExtView {
        (self.ext_type, self.value@)
    }
}

/// The three big-endian bytes of the low 24 bits of `len`.
pub open spec fn be24(len: u32) -> Seq<u8> {
    seq![(len >> 16u32) as u8, (len >> 8u32) as u8, len as u8]
}

/// The 24-bit integer held big-endian by three bytes.
pub open spec fn u24_of(b1: u8, b2: u8, b3: u8) -> u32 {
    u32_of(0, b1, b2, b3)
}

/// Wire bytes of one extension: type, 24-bit length, value.
pub open spec fn ext_bytes(e: ExtView) -> Seq<u8> {
    seq![e.0.spec_code()] + be24(e.1.len() as u32) + e.1
}

/// Wire bytes of a chain of extensions (without terminator).
pub open spec fn exts_bytes(exts: Seq<ExtView>) -> Seq<u8>
    decreases exts.len(),
{
    if exts.len() == 0 {
        Seq::empty()
    } else {
        ext_bytes(exts[0]) + exts_bytes(exts.drop_first())
    }
}

/// Wire bytes of the terminator extension.
pub open spec fn terminator_bytes() -> Seq<u8> {
    ext_bytes((ExtType::Terminator, Seq::empty()))
}

/// The extension that a byte string starts with, and how many bytes it
/// takes, if the string is long enough to hold it.
pub open spec fn spec_decode_ext(s: Seq<u8>) -> Option<(ExtView, int)> {
    if s.len() < 4 {
        None
    } else {
        let len = u24_of(s[1], s[2], s[3]) as int;
        if s.len() < 4 + len {
            None
        } else {
            Some(((ExtType::spec_read(s[0]), s.subrange(4, 4 + len)), 4 + len))
        }
    }
}

proof fn lemma_exts_bytes_push(exts: Seq<ExtView>, e: ExtView)
    ensures
        exts_bytes(exts.push(e)) == exts_bytes(exts) + ext_bytes(e),
    decreases exts.len(),
{
    if exts.len() == 0 {
        assert(exts.push(e).drop_first() =~= Seq::<ExtView>::empty());
        assert(exts_bytes(exts.push(e)) == ext_bytes(exts.push(e)[0]) + exts_bytes(
            exts.push(e).drop_first(),
        ));
        assert(exts_bytes(exts.push(e)) =~= ext_bytes(e));
    } else {
        assert(exts.push(e).drop_first() =~= exts.drop_first().push(e));
        lemma_exts_bytes_push(exts.drop_first(), e);
        assert(exts_bytes(exts.push(e)) =~= ext_bytes(exts[0]) + (exts_bytes(exts.drop_first())
            + ext_bytes(e)));
    }
}

proof fn lemma_u24_roundtrip(len: u32)
    requires
        len < 0x1000000,
    ensures
        u24_of((len >> 16u32) as u8, (len >> 8u32) as u8, len as u8) == len,
{
    assert(len < 0x1000000 ==> (((0u8 as u32) << 24u32) | ((((len >> 16u32) as u8) as u32)
        << 16u32) | ((((len >> 8u32) as u8) as u32) << 8u32) | ((len as u8) as u32)) == len)
        by (bit_vector);
}

/// Decoding an extension's wire bytes, followed by anything, gives the
/// extension back (its value being shorter than 2^24 bytes).
pub proof fn lemma_ext_decode_encode(e: ExtView, rest: Seq<u8>)
    requires
        e.1.len() < 0x1000000,
    ensures
        spec_decode_ext(ext_bytes(e) + rest) == Some(((e.0, e.1), 4 + e.1.len() as int)),
{
    let s = ext_bytes(e) + rest;
    let len = e.1.len() as u32;
    lemma_u24_roundtrip(len);
    lemma_ext_type_roundtrip(e.0);
    assert(s[0] == e.0.spec_code());
    assert(s[1] == (len >> 16u32) as u8);
    assert(s[2] == (len >> 8u32) as u8);
    assert(s[3] == len as u8);
    assert(s.subrange(4, 4 + e.1.len() as int) =~= e.1);
}

impl Extension {
    /// A new extension.
    pub fn new(ext_type: ExtType, value: Vec<u8>) -> (res: Self)
        ensures
            res.ext_type == ext_type,
            res.value == value,
    {
        Extension { ext_type, value }
    }

    /// Bytes on the wire: 1 type + 3 length + value.
    pub fn wire_size(&self) -> (res: usize)
        requires
            self.value@.len() + 4 <= usize::MAX,
        ensures
            res == self.value@.len() + 4,
            res == ext_bytes(self@).len(),
    {
        4 + self.value.len()
    }

    /// Append the extension's wire bytes; the length field holds the low 24
    /// bits of the value's length.
    pub fn encode(&self, buf: &mut Vec<u8>)
        ensures
            final(buf)@ == old(buf)@ + ext_bytes(self@),
    {
        buf.push(self.ext_type.to_u8());
        let len = self.value.len() as u32;
        buf.push((len >> 16u32) as u8);
        buf.push((len >> 8u32) as u8);
        buf.push(len as u8);
        buf.extend_from_slice(self.value.as_slice());
        assert(final(buf)@ =~= old(buf)@ + ext_bytes(self@));
    }

    /// Decode one extension from the start of `data`; returns it with the
    /// number of bytes it took. A type this version does not know reads as
    /// the terminator here; the frame decoder looks at the type byte itself
    /// and skips such extensions.
    pub fn decode(data: &[u8]) -> (res: Result<(Extension, usize)>)
        ensures
            match res {
                Ok((e, n)) => spec_decode_ext(data@) == Some((e@, n as int)),
                Err(e) => spec_decode_ext(data@) is None && e is ProtocolViolation,
            },
    {
        if data.len() < 4 {
            return Err(Error::ProtocolViolation("Extension too short".to_string()));
        }
        let ext_type = match ExtType::from_u8(data[0]) {
            Some(t) => t,
            None => ExtType::Terminator,
        };
        let len32 = ((data[1] as u32) << 16u32) | ((data[2] as u32) << 8u32) | (data[3] as u32);
        proof {
            let (b1, b2, b3) = (data@[1], data@[2], data@[3]);
            assert(((b1 as u32) << 16u32) | ((b2 as u32) << 8u32) | (b3 as u32) == (((0u8 as u32)
                << 24u32) | ((b1 as u32) << 16u32) | ((b2 as u32) << 8u32) | (b3 as u32))
                && (((b1 as u32) << 16u32) | ((b2 as u32) << 8u32) | (b3 as u32)) < 0x1000000)
                by (bit_vector);
        }
        let len = len32 as usize;
        if data.len() < 4 + len {
            return Err(Error::ProtocolViolation("Extension value truncated".to_string()));
        }
        let value = vstd::slice::slice_to_vec(&data[4..4 + len]);
        Ok((Extension { ext_type, value }, 4 + len))
    }
}

/// The terminator of an extension chain.
pub fn extension_terminator() -> (res: Extension)
    ensures
        res@ == (ExtType::Terminator, Seq::<u8>::empty()),
{
    Extension::new(ExtType::Terminator, Vec::new())
}

// ─────────────────────────────────────────────────────────────────────
// Short header (16 bytes)
// ─────────────────────────────────────────────────────────────────────

/// Short header: 16 bytes.
#[derive(Debug, Clone, Copy, PartialEq, Eq, Structural)]
pub struct ShortHeader {
    /// 4 bits.
    pub version: u8,
    /// 6 bits.
    pub frame_type: FrameType,
    /// The E bit.
    pub has_extensions: bool,
    /// 18 bits.
    pub stream_id: u32,
    /// Offset in the stream.
    pub offset: u32,
    /// Length of the payload.
    pub length: u32,
    /// Truncated connection id.
    pub connection_id: u32,
}

/// Byte 0: version nibble and the four high type bits.
pub open spec fn header_byte0(version: u8, ft: u8) -> u8 {
    (((version & 0x0F) << 4u8) | ((ft & 0x3F) >> 2u8)) as u8
}

/// The value of a flag bit: `v` when set, 0 otherwise.
pub open spec fn flag(set: bool, v: u8) -> u8 {
    if set {
        v
    } else {
        0
    }
}

/// Byte 1: the two low type bits, H, E and the two high stream-id bits.
pub open spec fn header_byte1(ft: u8, long: bool, ext: bool, stream_id: u32) -> u8 {
    byte1_of(ft, flag(long, 0x20), flag(ext, 0x10), stream_id)
}

/// Byte 1 from its parts.
pub open spec fn byte1_of(ft: u8, hb: u8, eb: u8, stream_id: u32) -> u8 {
    ((ft & 0x03) << 6u8) | hb | eb | (((stream_id >> 16u32) & 0x03) as u8)
}

/// Wire bytes of the 16 header bytes, with the H bit given by `long`.
pub open spec fn header_bytes(h: ShortHeader, long: bool) -> Seq<u8> {
    seq![
        header_byte0(h.version, h.frame_type.spec_code()),
        header_byte1(h.frame_type.spec_code(), long, h.has_extensions, h.stream_id),
    ] + be16(h.stream_id as u16) + be32(h.offset) + be32(h.length) + be32(h.connection_id)
}

/// The raw 6-bit type held by bytes 0 and 1.
pub open spec fn header_type_code(b0: u8, b1: u8) -> u8 {
    (((b0 & 0x0F) & 0x3F) << 2u8) | ((b1 >> 6u8) & 0x03)
}

/// The stream id held by bytes 1 to 3.
pub open spec fn header_stream_id(b1: u8, b2: u8, b3: u8) -> u32 {
    (((b1 & 0x03) as u32) << 16u32) | (u16_of(b2, b3) as u32)
}

/// The short header that the first 16 bytes of `s` hold, if `s` is long
/// enough and its type code is known. The H bit and the reserved bits are
/// not read.
pub open spec fn spec_decode_short(s: Seq<u8>) -> Option<ShortHeader> {
    if s.len() < 16 {
        None
    } else {
        match FrameType::spec_from_code(header_type_code(s[0], s[1])) {
            None => None,
            Some(ft) => Some(
                ShortHeader {
                    version: (s[0] >> 4u8) & 0x0F,
                    frame_type: ft,
                    has_extensions: (s[1] & 0x10) != 0,
                    stream_id: header_stream_id(s[1], s[2], s[3]),
                    offset: u32_of(s[4], s[5], s[6], s[7]),
                    length: u32_of(s[8], s[9], s[10], s[11]),
                    connection_id: u32_of(s[12], s[13], s[14], s[15]),
                },
            ),
        }
    }
}

/// A header is encodable without loss when its version fits 4 bits and its
/// stream id fits 18 bits.
pub open spec fn header_fits(h: ShortHeader) -> bool {
    h.version < 16 && h.stream_id <= MAX_STREAM_ID
}

/// The H bit of the header bytes.
pub open spec fn h_bit_of(s: Seq<u8>) -> bool {
    s.len() > 1 && (s[1] & 0x20) != 0
}

proof fn lemma_byte0(version: u8, ft: u8)
    requires
        version < 16,
    ensures
        (header_byte0(version, ft) >> 4u8) & 0x0F == version,
{
    assert(version < 16 ==> ((((version & 0x0F) << 4u8) | ((ft & 0x3F) >> 2u8)) >> 4u8) & 0x0F
        == version) by (bit_vector);
}

proof fn lemma_type_code(b0: u8, b1: u8, version: u8, ft: u8, hb: u8, eb: u8, sid: u32)
    requires
        ft < 64,
        b0 == ((version & 0x0F) << 4u8) | ((ft & 0x3F) >> 2u8),
        b1 == ((ft & 0x03) << 6u8) | hb | eb | (((sid >> 16u32) & 0x03) as u8),
        hb == 0 || hb == 0x20,
        eb == 0 || eb == 0x10,
    ensures
        header_type_code(b0, b1) == ft,
        ((b1 & 0x10) != 0) == (eb == 0x10),
        ((b1 & 0x20) != 0) == (hb == 0x20),
        b1 & 0x03 == ((sid >> 16u32) & 0x03) as u8,
{
    assert((((b0 & 0x0F) & 0x3F) << 2u8) | ((b1 >> 6u8) & 0x03) == ft) by (bit_vector)
        requires
            ft < 64,
            b0 == ((version & 0x0F) << 4u8) | ((ft & 0x3F) >> 2u8),
            b1 == ((ft & 0x03) << 6u8) | hb | eb | (((sid >> 16u32) & 0x03) as u8),
            hb == 0 || hb == 0x20,
            eb == 0 || eb == 0x10,
    ;
    assert(((b1 & 0x10) != 0) == (eb == 0x10) && ((b1 & 0x20) != 0) == (hb == 0x20) && b1 & 0x03
        == ((sid >> 16u32) & 0x03) as u8) by (bit_vector)
        requires
            b1 == ((ft & 0x03) << 6u8) | hb | eb | (((sid >> 16u32) & 0x03) as u8),
            hb == 0 || hb == 0x20,
            eb == 0 || eb == 0x10,
    ;
}

proof fn lemma_stream_id(b1: u8, sid: u32)
    requires
        sid < 0x40000,
        b1 & 0x03 == ((sid >> 16u32) & 0x03) as u8,
    ensures
        header_stream_id(b1, ((sid as u16) >> 8u16) as u8, (sid as u16) as u8) == sid,
{
    assert((((b1 & 0x03) as u32) << 16u32) | ((((((((sid as u16) >> 8u16) as u8) as u16)
        << 8u16) | ((((sid as u16) as u8) as u16)))) as u32) == sid) by (bit_vector)
        requires
            sid < 0x40000,
            b1 & 0x03 == ((sid >> 16u32) & 0x03) as u8,
    ;
}

proof fn lemma_header_bits(version: u8, ft: u8, long: bool, ext: bool, sid: u32)
    requires
        version < 16,
        ft < 64,
        sid < 0x40000,
    ensures
        (header_byte0(version, ft) >> 4u8) & 0x0F == version,
        header_type_code(header_byte0(version, ft), header_byte1(ft, long, ext, sid)) == ft,
        ((header_byte1(ft, long, ext, sid) & 0x10) != 0) == ext,
        ((header_byte1(ft, long, ext, sid) & 0x20) != 0) == long,
        header_stream_id(
            header_byte1(ft, long, ext, sid),
            ((sid as u16) >> 8u16) as u8,
            (sid as u16) as u8,
        ) == sid,
{
    let b0 = header_byte0(version, ft);
    let b1 = header_byte1(ft, long, ext, sid);
    lemma_byte0(version, ft);
    lemma_type_code(b0, b1, version, ft, flag(long, 0x20), flag(ext, 0x10), sid);
    lemma_stream_id(b1, sid);
}

/// Decoding the bytes of a header that fits gives the header back, whatever
/// follows it and whichever H bit was written.
pub proof fn lemma_short_header_roundtrip(h: ShortHeader, long: bool, rest: Seq<u8>)
    requires
        header_fits(h),
    ensures
        spec_decode_short(header_bytes(h, long) + rest) == Some(h),
        h_bit_of(header_bytes(h, long) + rest) == long,
        header_bytes(h, long).len() == 16,
{
    let s = header_bytes(h, long) + rest;
    let ft = h.frame_type.spec_code();
    lemma_frame_type_roundtrip(h.frame_type);
    lemma_header_bits(h.version, ft, long, h.has_extensions, h.stream_id);
    lemma_u32_roundtrip(h.offset);
    lemma_u32_roundtrip(h.length);
    lemma_u32_roundtrip(h.connection_id);
    assert(s[0] == header_byte0(h.version, ft));
    assert(s[1] == header_byte1(ft, long, h.has_extensions, h.stream_id));
    assert(s[2] == ((h.stream_id as u16) >> 8u16) as u8);
    assert(s[3] == (h.stream_id as u16) as u8);
    assert(s[4] == (h.offset >> 24u32) as u8);
    assert(s[8] == (h.length >> 24u32) as u8);
    assert(s[12] == (h.connection_id >> 24u32) as u8);
    assert(s[15] == h.connection_id as u8);
}

impl ShortHeader {
    /// Append the 16 header bytes with H = 0.
    pub fn encode(&self, buf: &mut Vec<u8>)
        ensures
            final(buf)@ == old(buf)@ + header_bytes(*self, false),
    {
        encode_header(self, false, buf);
    }

    /// Decode a short header from the first 16 bytes of `data`.
    pub fn decode(data: &[u8]) -> (res: Result<ShortHeader>)
        ensures
            match res {
                Ok(h) => spec_decode_short(data@) == Some(h),
                Err(e) => spec_decode_short(data@) is None && e is ProtocolViolation,
            },
    {
        if data.len() < SHORT_HEADER_SIZE {
            return Err(Error::ProtocolViolation("Short header too short".to_string()));
        }
        let byte0 = data[0];
        let byte1 = data[1];
        let version = (byte0 >> 4u8) & 0x0F;
        let has_extensions = (byte1 & 0x10) != 0;
        let stream_id_hi = (byte1 & 0x03) as u32;
        let type_hi = (byte0 & 0x0F) & 0x3F;
        let type_lo = (byte1 >> 6u8) & 0x03;
        let frame_type_raw = (type_hi << 2u8) | type_lo;
        proof {
            assert((((((byte0 & 0x0F) & 0x3F) << 2u8) | ((byte1 >> 6u8) & 0x03)) & 0x3F) == ((((
            byte0 & 0x0F) & 0x3F) << 2u8) | ((byte1 >> 6u8) & 0x03))) by (bit_vector);
        }
        let frame_type = match FrameType::from_u8(frame_type_raw) {
            Some(t) => t,
            None => {
                return Err(Error::ProtocolViolation("Unknown frame type".to_string()));
            },
        };
        let stream_id_lo = (((data[2] as u16) << 8u16) | (data[3] as u16)) as u32;
        let stream_id = (stream_id_hi << 16u32) | stream_id_lo;
        let offset = ((data[4] as u32) << 24u32) | ((data[5] as u32) << 16u32) | ((data[6] as u32)
            << 8u32) | (data[7] as u32);
        let length = ((data[8] as u32) << 24u32) | ((data[9] as u32) << 16u32) | ((data[10]
            as u32) << 8u32) | (data[11] as u32);
        let connection_id = ((data[12] as u32) << 24u32) | ((data[13] as u32) << 16u32) | ((
        data[14] as u32) << 8u32) | (data[15] as u32);
        Ok(ShortHeader {
            version,
            frame_type,
            has_extensions,
            stream_id,
            offset,
            length,
            connection_id,
        })
    }
}

/// Append the 16 header bytes of `h` with the given H bit.
fn encode_header(h: &ShortHeader, long: bool, buf: &mut Vec<u8>)
    ensures
        final(buf)@ == old(buf)@ + header_bytes(*h, long),
{
    let ft = h.frame_type.to_u8();
    let byte0: u8 = ((h.version & 0x0F) << 4u8) | ((ft & 0x3F) >> 2u8);
    buf.push(byte0);
    let h_bit: u8 = if long {
        0x20
    } else {
        0
    };
    let e_bit: u8 = if h.has_extensions {
        0x10
    } else {
        0
    };
    let stream_id_hi: u8 = ((h.stream_id >> 16u32) & 0x03) as u8;
    let type_lo: u8 = (ft & 0x03) << 6u8;
    let byte1: u8 = type_lo | h_bit | e_bit | stream_id_hi;
    buf.push(byte1);
    push_u16_be(buf, h.stream_id as u16);
    write_u32_be(buf, h.offset);
    write_u32_be(buf, h.length);
    write_u32_be(buf, h.connection_id);
    assert(final(buf)@ =~= old(buf)@ + header_bytes(*h, long));
}

// ─────────────────────────────────────────────────────────────────────
// Long header (24 bytes)
// ─────────────────────────────────────────────────────────────────────

/// Long header: the 16 short-header bytes with H = 1, then the 64-bit source
/// connection id.
#[derive(Debug, Clone, Copy, PartialEq, Eq, Structural)]
pub struct LongHeader {
    /// The first 16 bytes.
    pub short: ShortHeader,
    /// Source connection id.
    pub source_connection_id: u64,
}

/// Wire bytes of a long header.
pub open spec fn long_header_bytes(l: LongHeader) -> Seq<u8> {
    header_bytes(l.short, true) + be64(l.source_connection_id)
}

/// The long header that the first 24 bytes of `s` hold, if any.
pub open spec fn spec_decode_long(s: Seq<u8>) -> Option<LongHeader> {
    if s.len() < 24 {
        None
    } else {
        match spec_decode_short(s.subrange(0, 16)) {
            None => None,
            Some(h) => Some(LongHeader { short: h, source_connection_id: u64_of(s, 16) }),
        }
    }
}

/// Decoding the bytes of a long header that fits gives it back.
pub proof fn lemma_long_header_roundtrip(l: LongHeader, rest: Seq<u8>)
    requires
        header_fits(l.short),
    ensures
        spec_decode_long(long_header_bytes(l) + rest) == Some(l),
        h_bit_of(long_header_bytes(l) + rest),
        long_header_bytes(l).len() == 24,
{
    let s = long_header_bytes(l) + rest;
    lemma_short_header_roundtrip(l.short, true, Seq::empty());
    lemma_short_header_roundtrip(l.short, true, be64(l.source_connection_id) + rest);
    assert(s.subrange(0, 16) =~= header_bytes(l.short, true) + Seq::<u8>::empty());
    assert(s =~= header_bytes(l.short, true) + (be64(l.source_connection_id) + rest));
    lemma_u64_roundtrip(l.source_connection_id);
    assert(s.subrange(16, 24) =~= be64(l.source_connection_id));
    assert(u64_of(s, 16) == u64_of(be64(l.source_connection_id), 0));
}

impl LongHeader {
    /// A long header of the current version.
    pub fn new(
        frame_type: FrameType,
        stream_id: u32,
        dest_connection_id: u32,
        source_connection_id: u64,
        has_extensions: bool,
        offset: u32,
        length: u32,
    ) -> (res: Self)
        ensures
            res.short == (ShortHeader {
                version: AETHER_VERSION,
                frame_type,
                has_extensions,
                stream_id,
                offset,
                length,
                connection_id: dest_connection_id,
            }),
            res.source_connection_id == source_connection_id,
    {
        let short = ShortHeader {
            version: AETHER_VERSION,
            frame_type,
            has_extensions,
            stream_id,
            offset,
            length,
            connection_id: dest_connection_id,
        };
        LongHeader { short, source_connection_id }
    }

    /// Append the 24 long-header bytes (H = 1).
    pub fn encode(&self, buf: &mut Vec<u8>)
        ensures
            final(buf)@ == old(buf)@ + long_header_bytes(*self),
    {
        encode_header(&self.short, true, buf);
        write_u64_be(buf, self.source_connection_id);
        assert(final(buf)@ =~= old(buf)@ + long_header_bytes(*self));
    }

    /// Decode a long header from the first 24 bytes of `data`.
    pub fn decode(data: &[u8]) -> (res: Result<LongHeader>)
        ensures
            match res {
                Ok(l) => spec_decode_long(data@) == Some(l),
                Err(e) => spec_decode_long(data@) is None && e is ProtocolViolation,
            },
    {
        if data.len() < LONG_HEADER_SIZE {
            return Err(Error::ProtocolViolation("Long header too short".to_string()));
        }
        let short = ShortHeader::decode(&data[0..16])?;
        let mut offset: usize = 16;
        let source_connection_id = read_u64_be(data, &mut offset)?;
        Ok(LongHeader { short, source_connection_id })
    }
}

// ─────────────────────────────────────────────────────────────────────
// Frames (whole packets)
// ─────────────────────────────────────────────────────────────────────

/// A whole packet: header (long or short), extensions and payload.
#[derive(Debug, Clone)]
pub struct Frame {
    /// The long header of Initial and Handshake packets.
    pub long_header: Option<LongHeader>,
    /// The header (always present; the first 16 bytes of a long header).
    pub header: ShortHeader,
    /// The extension chain, sent when `header.has_extensions` is set.
    pub extensions: Vec<Extension>,
    /// The payload.
    pub payload: Vec<u8>,
}

/// A packet as values.
pub struct FrameView {
    pub long_header: Option<LongHeader>,
    pub header: ShortHeader,
    pub extensions: Seq<ExtView>,
    pub payload: Seq<u8>,
}

impl View for Frame {
    type V = FrameView;

    open spec fn view(&self) -> FrameView {
        FrameView {
            long_header: self.long_header,
            header: self.header,
            extensions: self.extensions@.map_values(|e: Extension| e@),
            payload: self.payload@,
        }
    }
}

/// Alias of `Frame`.
pub type Packet = Frame;

/// Wire bytes of a packet: header, then (when E is set) the extensions and
/// the terminator, then the payload.
pub open spec fn frame_bytes(f: FrameView) -> Seq<u8> {
    (match f.long_header {
        Some(l) => long_header_bytes(l),
        None => header_bytes(f.header, false),
    }) + (if f.header.has_extensions {
        exts_bytes(f.extensions) + terminator_bytes()
    } else {
        Seq::empty()
    }) + f.payload
}

/// Size of a packet on the wire.
pub open spec fn frame_wire_size(f: FrameView) -> int {
    (if f.long_header is Some {
        24int
    } else {
        16int
    }) + (if f.header.has_extensions {
        exts_bytes(f.extensions).len() as int + 4
    } else {
        0int
    }) + f.payload.len()
}

/// The extension chain that starts at `off` in `s`, up to and including the
/// first terminator, with the offset just after it. Extensions of a type
/// this version does not know are skipped over and left out.
pub open spec fn parse_ext_chain(s: Seq<u8>, off: int) -> Option<(Seq<ExtView>, int)>
    decreases s.len() - off,
{
    if off < 0 || off >= s.len() || s.len() - off < 4 {
        None
    } else {
        let len = u24_of(s[off + 1], s[off + 2], s[off + 3]) as int;
        if s.len() - off < 4 + len {
            None
        } else {
            let next = off + 4 + len;
            match ExtType::spec_from_code(s[off]) {
                Some(ExtType::Terminator) => Some((Seq::empty(), next)),
                None => parse_ext_chain(s, next),
                Some(t) => match parse_ext_chain(s, next) {
                    None => None,
                    Some((rest, end)) => Some((seq![(t, s.subrange(off + 4, next))] + rest, end)),
                },
            }
        }
    }
}

/// What follows a decoded header at `off`: the extension chain (when E is
/// set) and `h.length` bytes of payload.
pub open spec fn spec_decode_body(
    s: Seq<u8>,
    off: int,
    h: ShortHeader,
    long: Option<LongHeader>,
) -> Option<FrameView> {
    let chain = if h.has_extensions {
        parse_ext_chain(s, off)
    } else {
        Some((Seq::<ExtView>::empty(), off))
    };
    match chain {
        None => None,
        Some((exts, end)) => if end + h.length <= s.len() {
            Some(
                FrameView {
                    long_header: long,
                    header: h,
                    extensions: exts,
                    payload: s.subrange(end, end + h.length),
                },
            )
        } else {
            None
        },
    }
}

/// The packet that the bytes `s` start with, if they hold one: the H bit of
/// byte 1 selects the long header, which only Initial and Handshake packets
/// may use.
pub open spec fn spec_decode_frame(s: Seq<u8>) -> Option<FrameView> {
    if s.len() == 0 {
        None
    } else if h_bit_of(s) {
        match spec_decode_long(s) {
            None => None,
            Some(l) => if !l.short.frame_type.spec_requires_long_header() {
                None
            } else {
                spec_decode_body(s, 24, l.short, Some(l))
            },
        }
    } else {
        match spec_decode_short(s) {
            None => None,
            Some(h) => spec_decode_body(s, 16, h, None),
        }
    }
}

/// A packet that its wire bytes describe exactly: the header fits, the
/// long header (if any) holds the header and is of a long-header type, the
/// length field is the payload's length, the extensions are sent only with
/// E set, and none of them is a terminator or longer than 2^24 - 1 bytes.
pub open spec fn frame_well_formed(f: FrameView) -> bool {
    &&& header_fits(f.header)
    &&& match f.long_header {
        Some(l) => l.short == f.header && f.header.frame_type.spec_requires_long_header(),
        None => true,
    }
    &&& f.payload.len() == f.header.length
    &&& (!f.header.has_extensions ==> f.extensions.len() == 0)
    &&& forall|i: int|
        0 <= i < f.extensions.len() ==> #[trigger] f.extensions[i].0 != ExtType::Terminator
            && f.extensions[i].1.len() < 0x1000000
}

proof fn lemma_terminator_bytes()
    ensures
        terminator_bytes() == seq![0u8, 0u8, 0u8, 0u8],
{
    let z = 0u32;
    assert((z >> 16u32) as u8 == 0 && (z >> 8u32) as u8 == 0 && z as u8 == 0) by (bit_vector)
        requires
            z == 0,
    ;
    assert(terminator_bytes() =~= seq![0u8, 0u8, 0u8, 0u8]);
}

proof fn lemma_subrange_concat(s: Seq<u8>, off: int, a: Seq<u8>, b: Seq<u8>)
    requires
        0 <= off,
        off + a.len() + b.len() <= s.len(),
        s.subrange(off, off + a.len() + b.len()) == a + b,
    ensures
        s.subrange(off, off + a.len()) == a,
        s.subrange(off + a.len(), off + a.len() + b.len()) == b,
{
    let whole = s.subrange(off, off + a.len() + b.len());
    assert forall|k: int| 0 <= k < a.len() implies s.subrange(off, off + a.len())[k] == a[k] by {
        assert(whole[k] == (a + b)[k]);
    }
    assert forall|k: int| 0 <= k < b.len() implies s.subrange(
        off + a.len(),
        off + a.len() + b.len(),
    )[k] == b[k] by {
        assert(whole[a.len() + k] == (a + b)[a.len() + k]);
    }
    assert(s.subrange(off, off + a.len()) =~= a);
    assert(s.subrange(off + a.len(), off + a.len() + b.len()) =~= b);
}

proof fn lemma_chain_head(s: Seq<u8>, off: int, e: ExtView)
    requires
        0 <= off,
        e.1.len() < 0x1000000,
        off + 4 + e.1.len() <= s.len(),
        s.subrange(off, off + 4 + e.1.len()) == ext_bytes(e),
    ensures
        u24_of(s[off + 1], s[off + 2], s[off + 3]) as int == e.1.len(),
        ExtType::spec_read(s[off]) == e.0,
        ExtType::spec_from_code(s[off]) == Some(e.0),
        s.subrange(off + 4, off + 4 + e.1.len()) == e.1,
{
    let sub = s.subrange(off, off + 4 + e.1.len());
    lemma_ext_decode_encode(e, Seq::empty());
    assert(ext_bytes(e) + Seq::<u8>::empty() =~= sub);
    assert(sub[0] == s[off]);
    lemma_ext_type_roundtrip(e.0);
    assert(sub[1] == s[off + 1]);
    assert(sub[2] == s[off + 2]);
    assert(sub[3] == s[off + 3]);
    assert(sub.subrange(4, 4 + e.1.len() as int) =~= s.subrange(off + 4, off + 4 + e.1.len()));
}

/// Parsing the wire bytes of an extension chain and its terminator gives the
/// chain back, with the offset just past the terminator.
pub proof fn lemma_chain_roundtrip(s: Seq<u8>, off: int, exts: Seq<ExtView>)
    requires
        0 <= off,
        off + exts_bytes(exts).len() + 4 <= s.len(),
        s.subrange(off, off + exts_bytes(exts).len() + 4) == exts_bytes(exts)
            + terminator_bytes(),
        forall|i: int|
            0 <= i < exts.len() ==> #[trigger] exts[i].0 != ExtType::Terminator && exts[i].1.len()
                < 0x1000000,
    ensures
        parse_ext_chain(s, off) == Some((exts, off + exts_bytes(exts).len() + 4)),
    decreases exts.len(),
{
    let term: ExtView = (ExtType::Terminator, Seq::empty());
    if exts.len() == 0 {
        assert(exts_bytes(exts) =~= Seq::<u8>::empty());
        assert(exts_bytes(exts) + terminator_bytes() =~= ext_bytes(term));
        lemma_chain_head(s, off, term);
        assert(exts =~= Seq::<ExtView>::empty());
    } else {
        let e = exts[0];
        let tail = exts.drop_first();
        let a = ext_bytes(e);
        let b = exts_bytes(tail) + terminator_bytes();
        assert(exts_bytes(exts) == a + exts_bytes(tail));
        assert(exts_bytes(exts) + terminator_bytes() =~= a + b);
        lemma_subrange_concat(s, off, a, b);
        assert(e.0 != ExtType::Terminator && e.1.len() < 0x1000000);
        lemma_chain_head(s, off, e);
        assert forall|i: int|
            0 <= i < tail.len() implies #[trigger] tail[i].0 != ExtType::Terminator
            && tail[i].1.len() < 0x1000000 by {
            assert(tail[i] == exts[i + 1]);
        }
        lemma_chain_roundtrip(s, off + a.len(), tail);
        assert(seq![(e.0, e.1)] + tail =~= exts);
    }
}

/// Wire bytes of a packet after its header.
pub open spec fn frame_body_bytes(f: FrameView) -> Seq<u8> {
    (if f.header.has_extensions {
        exts_bytes(f.extensions) + terminator_bytes()
    } else {
        Seq::empty()
    }) + f.payload
}

proof fn lemma_concat_parts(a: Seq<u8>, b: Seq<u8>, c: Seq<u8>)
    ensures
        (a + (b + c)).subrange(a.len() as int, (a.len() + b.len()) as int) == b,
        (a + (b + c)).subrange((a.len() + b.len()) as int, (a.len() + b.len() + c.len()) as int)
            == c,
        (a + (b + c)).len() == a.len() + b.len() + c.len(),
{
    assert((a + (b + c)).subrange(a.len() as int, (a.len() + b.len()) as int) =~= b);
    assert((a + (b + c)).subrange((a.len() + b.len()) as int, (a.len() + b.len() + c.len()) as int)
        =~= c);
}

proof fn lemma_body_with_extensions(hdr: Seq<u8>, f: FrameView)
    requires
        frame_well_formed(f),
        f.header.has_extensions,
    ensures
        spec_decode_body(hdr + frame_body_bytes(f), hdr.len() as int, f.header, f.long_header)
            == Some(f),
{
    let ext_part = exts_bytes(f.extensions) + terminator_bytes();
    let s = hdr + (ext_part + f.payload);
    let off = hdr.len() as int;
    lemma_terminator_bytes();
    assert(frame_body_bytes(f) == ext_part + f.payload);
    lemma_concat_parts(hdr, ext_part, f.payload);
    lemma_chain_roundtrip(s, off, f.extensions);
    let end = off + ext_part.len();
    assert(parse_ext_chain(s, off) == Some((f.extensions, end)));
    assert(s.subrange(end, end + f.header.length) == f.payload);
}

proof fn lemma_body_without_extensions(hdr: Seq<u8>, f: FrameView)
    requires
        frame_well_formed(f),
        !f.header.has_extensions,
    ensures
        spec_decode_body(hdr + frame_body_bytes(f), hdr.len() as int, f.header, f.long_header)
            == Some(f),
{
    let s = hdr + frame_body_bytes(f);
    let off = hdr.len() as int;
    assert(frame_body_bytes(f) =~= f.payload);
    assert(f.extensions =~= Seq::<ExtView>::empty());
    assert(s.subrange(off, off + f.header.length) =~= f.payload);
}

proof fn lemma_body_roundtrip(hdr: Seq<u8>, f: FrameView)
    requires
        frame_well_formed(f),
    ensures
        spec_decode_body(hdr + frame_body_bytes(f), hdr.len() as int, f.header, f.long_header)
            == Some(f),
{
    if f.header.has_extensions {
        lemma_body_with_extensions(hdr, f);
    } else {
        lemma_body_without_extensions(hdr, f);
    }
}

/// Decoding the wire bytes of a well-formed packet gives the packet back.
pub proof fn lemma_frame_roundtrip(f: FrameView)
    requires
        frame_well_formed(f),
    ensures
        spec_decode_frame(frame_bytes(f)) == Some(f),
{
    let s = frame_bytes(f);
    let body = frame_body_bytes(f);
    match f.long_header {
        Some(l) => {
            let hdr = long_header_bytes(l);
            assert(s =~= hdr + body);
            lemma_long_header_roundtrip(l, body);
            lemma_body_roundtrip(hdr, f);
        },
        None => {
            let hdr = header_bytes(f.header, false);
            assert(s =~= hdr + body);
            lemma_short_header_roundtrip(f.header, false, body);
            lemma_body_roundtrip(hdr, f);
        },
    }
}

/// The size that `wire_size` reports is the length of the packet's bytes.
pub proof fn lemma_wire_size_is_encoded_length(f: FrameView)
    ensures
        frame_wire_size(f) == frame_bytes(f).len(),
{
    lemma_terminator_bytes();
}

/// Append the wire bytes of a chain of extensions.
fn encode_extensions(exts: &Vec<Extension>, buf: &mut Vec<u8>)
    ensures
        final(buf)@ == old(buf)@ + exts_bytes(exts@.map_values(|e: Extension| e@)),
{
    let ghost start = buf@;
    let ghost views = exts@.map_values(|e: Extension| e@);
    let mut i: usize = 0;
    assert(views.take(0) =~= Seq::<ExtView>::empty());
    while i < exts.len()
        invariant
            i <= exts.len(),
            views == exts@.map_values(|e: Extension| e@),
            buf@ == start + exts_bytes(views.take(i as int)),
        decreases exts.len() - i,
    {
        exts[i].encode(buf);
        proof {
            assert(views.take(i + 1) =~= views.take(i as int).push(views[i as int]));
            lemma_exts_bytes_push(views.take(i as int), views[i as int]);
        }
        i = i + 1;
    }
    assert(views.take(exts.len() as int) =~= views);
}

proof fn lemma_exts_bytes_len_push(exts: Seq<ExtView>, e: ExtView)
    ensures
        exts_bytes(exts.push(e)).len() == exts_bytes(exts).len() + 4 + e.1.len(),
{
    lemma_exts_bytes_push(exts, e);
}

impl Frame {
    /// A packet with a long header of the current version; the length field
    /// holds the payload's length (truncated to 32 bits).
    pub fn new_long(
        frame_type: FrameType,
        stream_id: u32,
        dest_connection_id: u32,
        source_connection_id: u64,
        payload: Vec<u8>,
    ) -> (res: Self)
        ensures
            res@.header == (ShortHeader {
                version: AETHER_VERSION,
                frame_type,
                has_extensions: false,
                stream_id,
                offset: 0,
                length: payload@.len() as u32,
                connection_id: dest_connection_id,
            }),
            res@.long_header == Some(
                LongHeader { short: res@.header, source_connection_id: source_connection_id },
            ),
            res@.extensions == Seq::<ExtView>::empty(),
            res@.payload == payload@,
            res@ == spec_long_frame(
                frame_type,
                stream_id,
                dest_connection_id,
                source_connection_id,
                payload@,
            ),
    {
        let len = payload.len() as u32;
        let long = LongHeader::new(
            frame_type,
            stream_id,
            dest_connection_id,
            source_connection_id,
            false,
            0,
            len,
        );
        let header = long.short;
        let res = Frame { long_header: Some(long), header, extensions: Vec::new(), payload };
        assert(res@.extensions =~= Seq::<ExtView>::empty());
        res
    }

    /// A packet with a short header of the current version; the length field
    /// holds the payload's length (truncated to 32 bits).
    pub fn new_short(
        frame_type: FrameType,
        stream_id: u32,
        connection_id: u32,
        offset: u32,
        payload: Vec<u8>,
    ) -> (res: Self)
        ensures
            res@.header == (ShortHeader {
                version: AETHER_VERSION,
                frame_type,
                has_extensions: false,
                stream_id,
                offset,
                length: payload@.len() as u32,
                connection_id,
            }),
            res@.long_header is None,
            res@.extensions == Seq::<ExtView>::empty(),
            res@.payload == payload@,
    {
        let header = ShortHeader {
            version: AETHER_VERSION,
            frame_type,
            has_extensions: false,
            stream_id,
            offset,
            length: payload.len() as u32,
            connection_id,
        };
        let res = Frame { long_header: None, header, extensions: Vec::new(), payload };
        assert(res@.extensions =~= Seq::<ExtView>::empty());
        res
    }

    /// Add an extension: sets the E bit (in the long header too, where there
    /// is one, so that the encoded header announces the chain) and appends
    /// the extension. The length field keeps counting the payload only.
    pub fn add_extension(&mut self, ext: Extension)
        ensures
            final(self)@.header == (ShortHeader { has_extensions: true, ..old(self)@.header }),
            final(self)@.long_header == match old(self)@.long_header {
                Some(l) => Some(
                    LongHeader { short: ShortHeader { has_extensions: true, ..l.short }, ..l },
                ),
                None => None,
            },
            final(self)@.extensions == old(self)@.extensions.push(ext@),
            final(self)@.payload == old(self)@.payload,
    {
        self.header.has_extensions = true;
        if let Some(l) = self.long_header {
            let mut l = l;
            l.short.has_extensions = true;
            self.long_header = Some(l);
        }
        self.extensions.push(ext);
        assert(self@.extensions =~= old(self)@.extensions.push(ext@));
    }

    /// The packet's wire bytes.
    pub fn encode(&self) -> (res: Vec<u8>)
        ensures
            res@ == frame_bytes(self@),
    {
        let mut buf: Vec<u8> = Vec::new();
        match &self.long_header {
            Some(long) => long.encode(&mut buf),
            None => self.header.encode(&mut buf),
        }
        let ghost hdr = buf@;
        if self.header.has_extensions {
            encode_extensions(&self.extensions, &mut buf);
            extension_terminator().encode(&mut buf);
        }
        let ghost mid = buf@;
        buf.extend_from_slice(self.payload.as_slice());
        assert(buf@ =~= frame_bytes(self@));
        buf
    }

    /// The packet's size on the wire: header, extensions with terminator (when
    /// E is set), payload.
    pub fn wire_size(&self) -> (res: usize)
        requires
            frame_wire_size(self@) <= usize::MAX,
        ensures
            res == frame_wire_size(self@),
            res == frame_bytes(self@).len(),
    {
        proof {
            lemma_wire_size_is_encoded_length(self@);
        }
        let header_size: usize = if self.long_header.is_some() {
            LONG_HEADER_SIZE
        } else {
            SHORT_HEADER_SIZE
        };
        let ghost views = self@.extensions;
        let ext_size: usize = if self.header.has_extensions {
            let mut total: usize = 0;
            let mut i: usize = 0;
            assert(views.take(0) =~= Seq::<ExtView>::empty());
            while i < self.extensions.len()
                invariant
                    i <= self.extensions.len(),
                    views == self@.extensions,
                    self.header.has_extensions,
                    frame_wire_size(self@) <= usize::MAX,
                    total == exts_bytes(views.take(i as int)).len(),
                decreases self.extensions.len() - i,
            {
                proof {
                    assert(views.take(i + 1) =~= views.take(i as int).push(views[i as int]));
                    lemma_exts_bytes_len_push(views.take(i as int), views[i as int]);
                    lemma_exts_prefix_len(views, i as int + 1);
                }
                total = total + self.extensions[i].wire_size();
                i = i + 1;
            }
            assert(views.take(self.extensions.len() as int) =~= views);
            total + 4
        } else {
            0
        };
        header_size + ext_size + self.payload.len()
    }

    /// Decode a packet. The H bit of byte 1 selects the 24-byte long
    /// header, which only Initial and Handshake packets may carry; with E set
    /// the extension chain is read up to the terminator, skipping extensions
    /// of unknown types; then `length` bytes of payload are taken.
    pub fn decode(data: &[u8]) -> (res: Result<Frame>)
        ensures
            match res {
                Ok(f) => spec_decode_frame(data@) == Some(f@),
                Err(e) => spec_decode_frame(data@) is None && e is ProtocolViolation,
            },
    {
        if data.len() == 0 {
            return Err(Error::ProtocolViolation("Empty frame".to_string()));
        }
        let byte1 = if data.len() > 1 {
            data[1]
        } else {
            0
        };
        let h_bit = (byte1 & 0x20) != 0;
        if h_bit {
            let long = LongHeader::decode(data)?;
            let header = long.short;
            if !header.frame_type.requires_long_header() {
                return Err(
                    Error::ProtocolViolation("Frame type should not use long header".to_string()),
                );
            }
            decode_body(data, LONG_HEADER_SIZE, header, Some(long))
        } else {
            let header = ShortHeader::decode(data)?;
            decode_body(data, SHORT_HEADER_SIZE, header, None)
        }
    }

    /// A Data packet.
    pub fn data(stream_id: u32, connection_id: u32, offset: u32, data: Vec<u8>) -> (res: Self)
        ensures
            res@ == spec_short_frame(FrameType::Data, stream_id, connection_id, offset, data@),
    {
        Self::new_short(FrameType::Data, stream_id, connection_id, offset, data)
    }

    /// An Ack packet: the payload is the acknowledged offset, big-endian.
    pub fn ack(stream_id: u32, connection_id: u32, acked_offset: u32) -> (res: Self)
        ensures
            res@ == spec_short_frame(FrameType::Ack, stream_id, connection_id, 0, be32(acked_offset)),
    {
        let mut payload: Vec<u8> = Vec::new();
        write_u32_be(&mut payload, acked_offset);
        assert(payload@ =~= be32(acked_offset));
        Self::new_short(FrameType::Ack, stream_id, connection_id, 0, payload)
    }

    /// A Ping packet on the control stream whose payload is a random 64-bit
    /// nonce, big-endian.
    pub fn ping(connection_id: u32) -> (res: Self)
        ensures
            exists|nonce: u64|
                res@ == spec_short_frame(
                    FrameType::Ping,
                    CONTROL_STREAM_ID,
                    connection_id,
                    0,
                    be64(nonce),
                ),
    {
        let nonce = random_u64();
        let mut payload: Vec<u8> = Vec::new();
        write_u64_be(&mut payload, nonce);
        assert(payload@ =~= be64(nonce));
        Self::new_short(FrameType::Ping, CONTROL_STREAM_ID, connection_id, 0, payload)
    }

    /// A Close packet on the control stream: the close code's byte, then the
    /// reason's UTF-8 bytes.
    pub fn close(connection_id: u32, code: CloseCode, reason: &str) -> (res: Self)
        ensures
            res@ == spec_short_frame(
                FrameType::Close,
                CONTROL_STREAM_ID,
                connection_id,
                0,
                seq![code.spec_code()] + reason.spec_bytes(),
            ),
    {
        let mut payload: Vec<u8> = Vec::new();
        payload.push(code.to_u8());
        payload.extend_from_slice(reason.as_bytes());
        assert(payload@ =~= seq![code.spec_code()] + reason.spec_bytes());
        Self::new_short(FrameType::Close, CONTROL_STREAM_ID, connection_id, 0, payload)
    }

    /// A PathChallenge on the control stream: the nonce big-endian as payload
    /// and a PathId extension holding the path id.
    pub fn path_challenge(connection_id: u32, path_id: u8, nonce: u64) -> (res: Self)
        ensures
            res@ == spec_path_frame(FrameType::PathChallenge, connection_id, path_id, nonce),
    {
        Self::path_frame(FrameType::PathChallenge, connection_id, path_id, nonce)
    }

    /// A PathResponse on the control stream: the nonce big-endian as payload
    /// and a PathId extension holding the path id.
    pub fn path_response(connection_id: u32, path_id: u8, nonce: u64) -> (res: Self)
        ensures
            res@ == spec_path_frame(FrameType::PathResponse, connection_id, path_id, nonce),
    {
        Self::path_frame(FrameType::PathResponse, connection_id, path_id, nonce)
    }

    fn path_frame(frame_type: FrameType, connection_id: u32, path_id: u8, nonce: u64) -> (res: Self)
        ensures
            res@ == spec_path_frame(frame_type, connection_id, path_id, nonce),
    {
        let mut payload: Vec<u8> = Vec::new();
        write_u64_be(&mut payload, nonce);
        assert(payload@ =~= be64(nonce));
        let mut frame = Self::new_short(frame_type, CONTROL_STREAM_ID, connection_id, 0, payload);
        let mut value: Vec<u8> = Vec::new();
        value.push(path_id);
        frame.add_extension(Extension::new(ExtType::PathId, value));
        assert(frame@.extensions =~= seq![(ExtType::PathId, seq![path_id])]);
        frame
    }

    /// A StreamOpen packet for `stream_id`, without payload.
    pub fn stream_open(connection_id: u32, stream_id: u32) -> (res: Self)
        ensures
            res@ == spec_short_frame(
                FrameType::StreamOpen,
                stream_id,
                connection_id,
                0,
                Seq::empty(),
            ),
    {
        Self::new_short(FrameType::StreamOpen, stream_id, connection_id, 0, Vec::new())
    }

    /// A StreamClose (FIN) packet for `stream_id`, without payload.
    pub fn stream_close(connection_id: u32, stream_id: u32) -> (res: Self)
        ensures
            res@ == spec_short_frame(
                FrameType::StreamClose,
                stream_id,
                connection_id,
                0,
                Seq::empty(),
            ),
    {
        Self::new_short(FrameType::StreamClose, stream_id, connection_id, 0, Vec::new())
    }
}

proof fn lemma_exts_prefix_len(views: Seq<ExtView>, k: int)
    requires
        0 <= k <= views.len(),
    ensures
        exts_bytes(views.take(k)).len() <= exts_bytes(views).len(),
    decreases views.len() - k,
{
    if k < views.len() {
        assert(views.take(k + 1) =~= views.take(k).push(views[k]));
        lemma_exts_bytes_len_push(views.take(k), views[k]);
        lemma_exts_prefix_len(views, k + 1);
    } else {
        assert(views.take(k) =~= views);
    }
}

/// A short-header packet of the current version without extensions.
pub open spec fn spec_short_frame(
    frame_type: FrameType,
    stream_id: u32,
    connection_id: u32,
    offset: u32,
    payload: Seq<u8>,
) -> FrameView {
    FrameView {
        long_header: None,
        header: ShortHeader {
            version: AETHER_VERSION,
            frame_type,
            has_extensions: false,
            stream_id,
            offset,
            length: payload.len() as u32,
            connection_id,
        },
        extensions: Seq::empty(),
        payload,
    }
}

/// A packet with a long header of the current version, no extensions and
/// the given payload.
pub open spec fn spec_long_frame(
    frame_type: FrameType,
    stream_id: u32,
    dest_connection_id: u32,
    source_connection_id: u64,
    payload: Seq<u8>,
) -> FrameView {
    let header = ShortHeader {
        version: AETHER_VERSION,
        frame_type,
        has_extensions: false,
        stream_id,
        offset: 0,
        length: payload.len() as u32,
        connection_id: dest_connection_id,
    };
    FrameView {
        long_header: Some(LongHeader { short: header, source_connection_id }),
        header,
        extensions: Seq::empty(),
        payload,
    }
}

/// A path-validation packet: the nonce as payload and one PathId extension.
pub open spec fn spec_path_frame(
    frame_type: FrameType,
    connection_id: u32,
    path_id: u8,
    nonce: u64,
) -> FrameView {
    FrameView {
        long_header: None,
        header: ShortHeader {
            version: AETHER_VERSION,
            frame_type,
            has_extensions: true,
            stream_id: CONTROL_STREAM_ID,
            offset: 0,
            length: 8,
            connection_id,
        },
        extensions: seq![(ExtType::PathId, seq![path_id])],
        payload: be64(nonce),
    }
}

/// Decode the extension chain (when E is set) and the payload after a header
/// that ends at `off`.
fn decode_body(data: &[u8], off: usize, header: ShortHeader, long: Option<LongHeader>) -> (res:
    Result<Frame>)
    requires
        off <= data@.len(),
    ensures
        match res {
            Ok(f) => spec_decode_body(data@, off as int, header, long) == Some(f@),
            Err(e) => spec_decode_body(data@, off as int, header, long) is None
                && e is ProtocolViolation,
        },
{
    let mut offset = off;
    let mut extensions: Vec<Extension> = Vec::new();
    if header.has_extensions {
        let ghost s = data@;
        loop
            invariant_except_break
                off <= offset <= data@.len(),
                s == data@,
                header.has_extensions,
                parse_ext_chain(s, off as int) == match parse_ext_chain(s, offset as int) {
                    None => None,
                    Some((rest, end)) => Some(
                        (extensions@.map_values(|e: Extension| e@) + rest, end),
                    ),
                },
            ensures
                off <= offset <= data@.len(),
                parse_ext_chain(s, off as int) == Some(
                    (extensions@.map_values(|e: Extension| e@), offset as int),
                ),
            decreases data@.len() - offset,
        {
            if offset >= data.len() {
                assert(parse_ext_chain(s, offset as int) is None);
                return Err(Error::ProtocolViolation("Truncated extension chain".to_string()));
            }
            let (ext, consumed) = match Extension::decode(&data[offset..data.len()]) {
                Ok(r) => r,
                Err(e) => {
                    proof {
                        let sub = s.subrange(offset as int, s.len() as int);
                        assert(sub.len() < 4 || sub.len() < 4 + u24_of(sub[1], sub[2], sub[3]));
                        if sub.len() >= 4 {
                            assert(sub[1] == s[offset + 1]);
                            assert(sub[2] == s[offset + 2]);
                            assert(sub[3] == s[offset + 3]);
                        }
                        assert(parse_ext_chain(s, offset as int) is None);
                    }
                    return Err(e);
                },
            };
            let known = ExtType::from_u8(data[offset]);
            let ghost prev = extensions@.map_values(|e: Extension| e@);
            let ghost sub = s.subrange(offset as int, s.len() as int);
            proof {
                assert(sub[0] == s[offset as int]);
                assert(sub[1] == s[offset + 1]);
                assert(sub[2] == s[offset + 2]);
                assert(sub[3] == s[offset + 3]);
                assert(sub.subrange(4, consumed as int) =~= s.subrange(
                    offset + 4,
                    offset + consumed,
                ));
            }
            offset = offset + consumed;
            if known.is_some() {
                if ext.ext_type == ExtType::Terminator {
                    assert(prev + Seq::<ExtView>::empty() =~= prev);
                    break ;
                }
                extensions.push(ext);
                proof {
                    let now = extensions@.map_values(|e: Extension| e@);
                    assert(now =~= prev.push(ext@));
                    match parse_ext_chain(s, offset as int) {
                        None => {},
                        Some((rest, end)) => {
                            assert(prev + (seq![ext@] + rest) =~= now + rest);
                        },
                    }
                }
            }
        }
    } else {
        assert(extensions@.map_values(|e: Extension| e@) =~= Seq::<ExtView>::empty());
    }
    let payload_len = header.length as usize;
    if payload_len <= data.len() - offset {
        let payload = vstd::slice::slice_to_vec(&data[offset..offset + payload_len]);
        Ok(Frame { long_header: long, header, extensions, payload })
    } else {
        Err(Error::ProtocolViolation("Payload truncated".to_string()))
    }
}

/// A random 64-bit value from the thread-local generator.
#[verifier::external_body]
fn random_u64() -> u64 {
    rand::random::<u64>()
}

} // verus!
