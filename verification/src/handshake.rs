//! The Aether handshake, in two phases:
//!
//! 1. Initial (ClientHello, then ServerHello): key exchange, identities and
//!    capabilities.
//! 2. Handshake (Finished, then Finished): each side proves it holds the
//!    session key.
//!
//! After the handshake the connection is sealed with AEAD.

use vstd::prelude::*;

use crate::crypto::{
    compute_finished, derive_session_key, hmac_sha256, spec_session_key, verify_finished,
    x25519_dh, x25519_generate_keypair, AeadAlgorithm,
};
use crate::error::{Error, Result};
use crate::framing::{
    be16, be32, be64, push_u16_be, spec_long_frame, u16_of, u32_at, u64_of, write_u32_be,
    write_u64_be, lemma_u32_roundtrip, lemma_u64_roundtrip, Frame, FrameType, FrameView,
    CONTROL_STREAM_ID,
};
use crate::identity::{ed25519_signature, Identity};
use crate::AETHER_VERSION;
use vstd::string::StringSliceAdditionalSpecFns;

verus! {

/// Largest handshake message in bytes.
pub const MAX_HANDSHAKE_SIZE: usize = 4096;

/// State of one side of the handshake.
#[derive(Debug, Clone, Copy, PartialEq, Eq, Structural)]
pub enum HandshakeState {
    /// Nothing sent or received yet.
    Initial,
    /// ClientHello sent, waiting for the ServerHello.
    HelloSent,
    /// ServerHello handled, session key derived.
    KeysDerived,
    /// Both Finished messages exchanged.
    Complete,
    /// The handshake failed.
    Failed,
}

// ─────────────────────────────────────────────────────────────────────
// Capabilities
// ─────────────────────────────────────────────────────────────────────

/// What a side announces it supports.
#[derive(Debug, Clone, Copy, PartialEq, Eq, Structural)]
pub struct Capabilities {
    /// Multi-path support.
    pub multipath: bool,
    /// Most concurrent streams.
    pub max_streams: u32,
    /// Most data per stream (the initial window).
    pub max_stream_data: u64,
    /// Acknowledge every N packets.
    pub ack_frequency: u8,
    /// Idle timeout in milliseconds.
    pub idle_timeout_ms: u64,
}

/// The default capabilities: multi-path, 65536 streams, 1 MiB per stream,
/// an Ack every 2 packets, 30 s idle timeout.
pub open spec fn default_capabilities() -> Capabilities {
    Capabilities {
        multipath: true,
        max_streams: 65536,
        max_stream_data: 1_048_576,
        ack_frequency: 2,
        idle_timeout_ms: 30_000,
    }
}

impl Default for Capabilities {
    fn default() -> (res: Self)
        ensures
            res == default_capabilities(),
    {
        Capabilities {
            multipath: true,
            max_streams: 65536,
            max_stream_data: 1_048_576,
            ack_frequency: 2,
            idle_timeout_ms: 30_000,
        }
    }
}

/// The capabilities the server settles on: multi-path only if both sides
/// support it, the smaller of each limit and timeout, and the client's Ack
/// frequency.
pub open spec fn negotiate(ours: Capabilities, theirs: Capabilities) -> Capabilities {
    Capabilities {
        multipath: ours.multipath && theirs.multipath,
        max_streams: if ours.max_streams <= theirs.max_streams {
            ours.max_streams
        } else {
            theirs.max_streams
        },
        max_stream_data: if ours.max_stream_data <= theirs.max_stream_data {
            ours.max_stream_data
        } else {
            theirs.max_stream_data
        },
        ack_frequency: theirs.ack_frequency,
        idle_timeout_ms: if ours.idle_timeout_ms <= theirs.idle_timeout_ms {
            ours.idle_timeout_ms
        } else {
            theirs.idle_timeout_ms
        },
    }
}

/// The negotiated capabilities grant no more than either side offered, and
/// meet each limit that one of the sides set: multi-path is on exactly when
/// both sides support it, each limit is the smaller of the two.
pub proof fn lemma_negotiation_within_both(ours: Capabilities, theirs: Capabilities)
    ensures
        ({
            let c = negotiate(ours, theirs);
            &&& c.multipath == (ours.multipath && theirs.multipath)
            &&& c.max_streams <= ours.max_streams && c.max_streams <= theirs.max_streams
            &&& (c.max_streams == ours.max_streams || c.max_streams == theirs.max_streams)
            &&& c.max_stream_data <= ours.max_stream_data && c.max_stream_data
                <= theirs.max_stream_data
            &&& (c.max_stream_data == ours.max_stream_data || c.max_stream_data
                == theirs.max_stream_data)
            &&& c.idle_timeout_ms <= ours.idle_timeout_ms && c.idle_timeout_ms
                <= theirs.idle_timeout_ms
            &&& (c.idle_timeout_ms == ours.idle_timeout_ms || c.idle_timeout_ms
                == theirs.idle_timeout_ms)
            &&& c.ack_frequency == theirs.ack_frequency
        }),
{
}

/// Two sides that offer the same capabilities keep them.
pub proof fn lemma_negotiation_idempotent(c: Capabilities)
    ensures
        negotiate(c, c) == c,
{
}

/// Wire bytes of capabilities: multipath flag, max streams (32 bits), max
/// stream data (64 bits), Ack frequency, idle timeout (64 bits).
pub open spec fn capabilities_bytes(c: Capabilities) -> Seq<u8> {
    seq![if c.multipath { 1u8 } else { 0u8 }] + be32(c.max_streams) + be64(c.max_stream_data)
        + seq![c.ack_frequency] + be64(c.idle_timeout_ms)
}

/// The capabilities held by the 22 bytes of `s` from `o`.
pub open spec fn spec_decode_capabilities(s: Seq<u8>, o: int) -> Capabilities {
    Capabilities {
        multipath: s[o] != 0,
        max_streams: u32_at(s, o + 1),
        max_stream_data: u64_of(s, o + 5),
        ack_frequency: s[o + 13],
        idle_timeout_ms: u64_of(s, o + 14),
    }
}

/// Append the wire bytes of capabilities.
fn encode_capabilities(c: &Capabilities, buf: &mut Vec<u8>)
    ensures
        final(buf)@ == old(buf)@ + capabilities_bytes(*c),
{
    buf.push(if c.multipath {
        1u8
    } else {
        0u8
    });
    write_u32_be(buf, c.max_streams);
    write_u64_be(buf, c.max_stream_data);
    buf.push(c.ack_frequency);
    write_u64_be(buf, c.idle_timeout_ms);
    assert(final(buf)@ =~= old(buf)@ + capabilities_bytes(*c));
}

// ─────────────────────────────────────────────────────────────────────
// Reading big-endian fields
// ─────────────────────────────────────────────────────────────────────

fn be_u64_at(data: &[u8], off: usize) -> (res: u64)
    requires
        off + 8 <= data@.len(),
    ensures
        res == u64_of(data@, off as int),
{
    ((data[off] as u64) << 56u64) | ((data[off + 1] as u64) << 48u64) | ((data[off + 2] as u64)
        << 40u64) | ((data[off + 3] as u64) << 32u64) | ((data[off + 4] as u64) << 24u64) | ((
    data[off + 5] as u64) << 16u64) | ((data[off + 6] as u64) << 8u64) | (data[off + 7] as u64)
}

fn be_u32_at(data: &[u8], off: usize) -> (res: u32)
    requires
        off + 4 <= data@.len(),
    ensures
        res == u32_at(data@, off as int),
{
    ((data[off] as u32) << 24u32) | ((data[off + 1] as u32) << 16u32) | ((data[off + 2] as u32)
        << 8u32) | (data[off + 3] as u32)
}

fn copy32(data: &[u8], off: usize) -> (res: [u8; 32])
    requires
        off + 32 <= data@.len(),
    ensures
        res@ == data@.subrange(off as int, off + 32),
{
    let mut out = [0u8; 32];
    let mut i: usize = 0;
    while i < 32
        invariant
            off + 32 <= data.len(),
            i <= 32,
            forall|k: int| 0 <= k < i ==> out@[k] == data@[off + k],
        decreases 32 - i,
    {
        out[i] = data[off + i];
        i = i + 1;
    }
    assert(out@ =~= data@.subrange(off as int, off + 32));
    out
}

fn decode_capabilities(data: &[u8], off: usize) -> (res: Capabilities)
    requires
        off + 22 <= data@.len(),
    ensures
        res == spec_decode_capabilities(data@, off as int),
{
    Capabilities {
        multipath: data[off] != 0,
        max_streams: be_u32_at(data, off + 1),
        max_stream_data: be_u64_at(data, off + 5),
        ack_frequency: data[off + 13],
        idle_timeout_ms: be_u64_at(data, off + 14),
    }
}

proof fn lemma_u64_at(s: Seq<u8>, i: int, x: u64)
    requires
        0 <= i,
        i + 8 <= s.len(),
        s.subrange(i, i + 8) == be64(x),
    ensures
        u64_of(s, i) == x,
{
    let b = be64(x);
    assert forall|k: int| 0 <= k < 8 implies s[i + k] == b[k] by {
        assert(s.subrange(i, i + 8)[k] == s[i + k]);
    }
    assert(s[i] == b[0] && s[i + 1] == b[1] && s[i + 2] == b[2] && s[i + 3] == b[3]);
    assert(s[i + 4] == b[4] && s[i + 5] == b[5] && s[i + 6] == b[6] && s[i + 7] == b[7]);
    lemma_u64_roundtrip(x);
}

proof fn lemma_u32_at(s: Seq<u8>, i: int, x: u32)
    requires
        0 <= i,
        i + 4 <= s.len(),
        s.subrange(i, i + 4) == be32(x),
    ensures
        u32_at(s, i) == x,
{
    let b = be32(x);
    assert(s[i] == s.subrange(i, i + 4)[0] && s[i + 1] == s.subrange(i, i + 4)[1]);
    assert(s[i + 2] == s.subrange(i, i + 4)[2] && s[i + 3] == s.subrange(i, i + 4)[3]);
    lemma_u32_roundtrip(x);
}

proof fn lemma_u16_at(s: Seq<u8>, i: int, x: u16)
    requires
        0 <= i,
        i + 2 <= s.len(),
        s.subrange(i, i + 2) == be16(x),
    ensures
        u16_of(s[i], s[i + 1]) == x,
{
    assert(s[i] == s.subrange(i, i + 2)[0] && s[i + 1] == s.subrange(i, i + 2)[1]);
    assert((((((x >> 8u16) as u8) as u16) << 8u16) | ((x as u8) as u16)) == x) by (bit_vector);
}

/// Decoding the wire bytes of capabilities gives them back.
proof fn lemma_capabilities_at(s: Seq<u8>, o: int, c: Capabilities)
    requires
        0 <= o,
        o + 22 <= s.len(),
        s.subrange(o, o + 22) == capabilities_bytes(c),
    ensures
        spec_decode_capabilities(s, o) == c,
{
    let b = capabilities_bytes(c);
    assert(s[o] == b[0]);
    assert(s[o + 13] == b[13]);
    assert(s.subrange(o + 1, o + 5) =~= be32(c.max_streams)) by {
        assert forall|k: int| 0 <= k < 4 implies s.subrange(o + 1, o + 5)[k] == be32(
            c.max_streams,
        )[k] by {
            assert(s.subrange(o, o + 22)[1 + k] == b[1 + k]);
        }
    }
    assert(s.subrange(o + 5, o + 13) =~= be64(c.max_stream_data)) by {
        assert forall|k: int| 0 <= k < 8 implies s.subrange(o + 5, o + 13)[k] == be64(
            c.max_stream_data,
        )[k] by {
            assert(s.subrange(o, o + 22)[5 + k] == b[5 + k]);
        }
    }
    assert(s.subrange(o + 14, o + 22) =~= be64(c.idle_timeout_ms)) by {
        assert forall|k: int| 0 <= k < 8 implies s.subrange(o + 14, o + 22)[k] == be64(
            c.idle_timeout_ms,
        )[k] by {
            assert(s.subrange(o, o + 22)[14 + k] == b[14 + k]);
        }
    }
    lemma_u32_at(s, o + 1, c.max_streams);
    lemma_u64_at(s, o + 5, c.max_stream_data);
    lemma_u64_at(s, o + 14, c.idle_timeout_ms);
}

// ─────────────────────────────────────────────────────────────────────
// ClientHello
// ─────────────────────────────────────────────────────────────────────

/// The byte that names an AEAD algorithm in a ClientHello.
pub open spec fn aead_code(a: AeadAlgorithm) -> u8 {
    match a {
        AeadAlgorithm::Aes256Gcm => 0x00,
        AeadAlgorithm::ChaCha20Poly1305 => 0x01,
    }
}

/// The AEAD algorithm a byte names, if any.
pub open spec fn aead_from_code(b: u8) -> Option<AeadAlgorithm> {
    if b == 0x00 {
        Some(AeadAlgorithm::Aes256Gcm)
    } else if b == 0x01 {
        Some(AeadAlgorithm::ChaCha20Poly1305)
    } else {
        None
    }
}

fn encode_aead(a: AeadAlgorithm) -> (res: u8)
    ensures
        res == aead_code(a),
{
    match a {
        AeadAlgorithm::Aes256Gcm => 0x00,
        AeadAlgorithm::ChaCha20Poly1305 => 0x01,
    }
}

/// ClientHello: the first packet of a connection.
#[derive(Debug, Clone)]
pub struct ClientHello {
    /// Protocol version.
    pub version: u8,
    /// The client's random 64-bit connection id.
    pub connection_id: u64,
    /// Versions the client supports.
    pub supported_versions: Vec<u8>,
    /// Chosen AEAD algorithm.
    pub aead: AeadAlgorithm,
    /// The client's ephemeral X25519 public key.
    pub x25519_public: [u8; 32],
    /// The client's identity hash.
    pub identity: [u8; 32],
    /// The client's Ed25519 public key.
    pub identity_public_key: [u8; 32],
    /// The client's capabilities.
    pub capabilities: Capabilities,
}

/// A ClientHello as values.
pub struct ClientHelloView {
    pub version: u8,
    pub connection_id: u64,
    pub supported_versions: Seq<u8>,
    pub aead: AeadAlgorithm,
    pub x25519_public: Seq<u8>,
    pub identity: Seq<u8>,
    pub identity_public_key: Seq<u8>,
    pub capabilities: Capabilities,
}

impl View for ClientHello {
    type V = ClientHelloView;

    open spec fn view(&self) -> ClientHelloView {
        ClientHelloView {
            version: self.version,
            connection_id: self.connection_id,
            supported_versions: self.supported_versions@,
            aead: self.aead,
            x25519_public: self.x25519_public@,
            identity: self.identity@,
            identity_public_key: self.identity_public_key@,
            capabilities: self.capabilities,
        }
    }
}

/// Wire bytes of a ClientHello: version, connection id (64 bits), the count
/// of supported versions (one byte) and the versions, the AEAD byte, the
/// X25519 key, the identity hash, the Ed25519 key, the capabilities.
pub open spec fn client_hello_bytes(h: ClientHelloView) -> Seq<u8> {
    seq![h.version] + be64(h.connection_id) + seq![h.supported_versions.len() as u8]
        + h.supported_versions + seq![aead_code(h.aead)] + h.x25519_public + h.identity
        + h.identity_public_key + capabilities_bytes(h.capabilities)
}

/// Inputs on which decoding reads past the end: at least 80 bytes, but too
/// few for the version list and the AEAD byte, or a known AEAD byte and too
/// few for the fields after it.
pub open spec fn client_hello_decode_overruns(s: Seq<u8>) -> bool {
    s.len() >= 80 && {
        let n = s[9] as int;
        s.len() <= 10 + n || (aead_from_code(s[10 + n]) is Some && s.len() < 129 + n)
    }
}

/// The ClientHello that `s` holds: `None` when it is shorter than 80 bytes
/// or names an unknown AEAD algorithm.
pub open spec fn spec_decode_client_hello(s: Seq<u8>) -> Option<ClientHelloView> {
    if s.len() < 80 {
        None
    } else {
        let n = s[9] as int;
        match aead_from_code(s[10 + n]) {
            None => None,
            Some(aead) => Some(
                ClientHelloView {
                    version: s[0],
                    connection_id: u64_of(s, 1),
                    supported_versions: s.subrange(10, 10 + n),
                    aead,
                    x25519_public: s.subrange(11 + n, 43 + n),
                    identity: s.subrange(43 + n, 75 + n),
                    identity_public_key: s.subrange(75 + n, 107 + n),
                    capabilities: spec_decode_capabilities(s, 107 + n),
                },
            ),
        }
    }
}

/// A ClientHello that its wire bytes describe exactly: at most 255
/// versions, and keys and hash of 32 bytes.
pub open spec fn client_hello_well_formed(h: ClientHelloView) -> bool {
    &&& h.supported_versions.len() <= 255
    &&& h.x25519_public.len() == 32
    &&& h.identity.len() == 32
    &&& h.identity_public_key.len() == 32
}

/// The ClientHello of the current version that an identity sends.
pub open spec fn spec_client_hello(
    connection_id: u64,
    x25519_public: Seq<u8>,
    identity: Identity,
    capabilities: Capabilities,
) -> ClientHelloView {
    ClientHelloView {
        version: AETHER_VERSION,
        connection_id,
        supported_versions: seq![AETHER_VERSION],
        aead: AeadAlgorithm::Aes256Gcm,
        x25519_public,
        identity: identity.spec_hash(),
        identity_public_key: identity.spec_public_key(),
        capabilities,
    }
}

impl ClientHello {
    /// A ClientHello of the current version, offering AES-256-GCM.
    pub fn new(
        connection_id: u64,
        x25519_public: [u8; 32],
        identity: &Identity,
        capabilities: Capabilities,
    ) -> (res: Self)
        ensures
            res@ == spec_client_hello(connection_id, x25519_public@, *identity, capabilities),
    {
        let mut supported_versions: Vec<u8> = Vec::new();
        supported_versions.push(AETHER_VERSION);
        let res = ClientHello {
            version: AETHER_VERSION,
            connection_id,
            supported_versions,
            aead: AeadAlgorithm::Aes256Gcm,
            x25519_public,
            identity: *identity.hash(),
            identity_public_key: identity.public_key_bytes(),
            capabilities,
        };
        assert(res@.supported_versions =~= seq![AETHER_VERSION]);
        res
    }

    /// The ClientHello's wire bytes. The count of versions is written in one
    /// byte (the count's low 8 bits).
    pub fn encode(&self) -> (res: Vec<u8>)
        ensures
            res@ == client_hello_bytes(self@),
    {
        let mut buf: Vec<u8> = Vec::new();
        buf.push(self.version);
        write_u64_be(&mut buf, self.connection_id);
        buf.push(self.supported_versions.len() as u8);
        buf.extend_from_slice(self.supported_versions.as_slice());
        buf.push(encode_aead(self.aead));
        buf.extend_from_slice(self.x25519_public.as_slice());
        buf.extend_from_slice(self.identity.as_slice());
        buf.extend_from_slice(self.identity_public_key.as_slice());
        encode_capabilities(&self.capabilities, &mut buf);
        assert(buf@ =~= client_hello_bytes(self@));
        buf
    }

    /// Decode a ClientHello. Fails on fewer than 80 bytes and on an unknown
    /// AEAD byte.
    pub fn decode(data: &[u8]) -> (res: Result<Self>)
        requires
            !client_hello_decode_overruns(data@),
        ensures
            match res {
                Ok(h) => spec_decode_client_hello(data@) == Some(h@),
                Err(e) => spec_decode_client_hello(data@) is None && e is ProtocolViolation,
            },
    {
        if data.len() < 80 {
            return Err(Error::ProtocolViolation("ClientHello too short".to_string()));
        }
        let version = data[0];
        let connection_id = be_u64_at(data, 1);
        let count = data[9] as usize;
        let mut supported_versions: Vec<u8> = Vec::new();
        let mut i: usize = 0;
        while i < count
            invariant
                count == data@[9] as int,
                10 + count < data@.len(),
                i <= count,
                supported_versions@ == data@.subrange(10, 10 + i as int),
            decreases count - i,
        {
            supported_versions.push(data[10 + i]);
            i = i + 1;
            assert(supported_versions@ =~= data@.subrange(10, 10 + i as int));
        }
        let aead = match data[10 + count] {
            0x00 => AeadAlgorithm::Aes256Gcm,
            0x01 => AeadAlgorithm::ChaCha20Poly1305,
            _ => {
                return Err(Error::ProtocolViolation("Unknown AEAD algorithm".to_string()));
            },
        };
        let x25519_public = copy32(data, 11 + count);
        let identity = copy32(data, 43 + count);
        let identity_public_key = copy32(data, 75 + count);
        let capabilities = decode_capabilities(data, 107 + count);
        Ok(ClientHello {
            version,
            connection_id,
            supported_versions,
            aead,
            x25519_public,
            identity,
            identity_public_key,
            capabilities,
        })
    }
}

/// Decoding the wire bytes of a well-formed ClientHello reads within them
/// and gives the ClientHello back.
pub proof fn lemma_client_hello_roundtrip(h: ClientHelloView)
    requires
        client_hello_well_formed(h),
    ensures
        !client_hello_decode_overruns(client_hello_bytes(h)),
        spec_decode_client_hello(client_hello_bytes(h)) == Some(h),
        client_hello_bytes(h).len() == 129 + h.supported_versions.len(),
{
    let s = client_hello_bytes(h);
    let n = h.supported_versions.len() as int;
    let a = seq![h.version] + be64(h.connection_id);
    let b = a + seq![h.supported_versions.len() as u8] + h.supported_versions;
    let c = b + seq![aead_code(h.aead)];
    let d = c + h.x25519_public;
    let e = d + h.identity;
    let f = e + h.identity_public_key;
    assert(s == f + capabilities_bytes(h.capabilities));
    assert(s.len() == 129 + n);
    assert((n as u8) as int == n);
    assert(s[9] == n as u8) by {
        assert(s[9] == f[9] && f[9] == e[9] && e[9] == d[9] && d[9] == c[9] && c[9] == b[9]);
    }
    assert(s[10 + n] == aead_code(h.aead)) by {
        assert(s[10 + n] == f[10 + n] && f[10 + n] == e[10 + n] && e[10 + n] == d[10 + n]);
        assert(d[10 + n] == c[10 + n]);
    }
    assert(s.subrange(1, 9) =~= be64(h.connection_id)) by {
        assert forall|k: int| 0 <= k < 8 implies s.subrange(1, 9)[k] == be64(h.connection_id)[k] by {
            assert(s[1 + k] == f[1 + k] && f[1 + k] == e[1 + k] && e[1 + k] == d[1 + k]);
            assert(d[1 + k] == c[1 + k] && c[1 + k] == b[1 + k] && b[1 + k] == a[1 + k]);
        }
    }
    lemma_u64_at(s, 1, h.connection_id);
    assert(s.subrange(10, 10 + n) =~= h.supported_versions) by {
        assert forall|k: int| 0 <= k < n implies s.subrange(10, 10 + n)[k]
            == h.supported_versions[k] by {
            assert(s[10 + k] == f[10 + k] && f[10 + k] == e[10 + k] && e[10 + k] == d[10 + k]);
            assert(d[10 + k] == c[10 + k] && c[10 + k] == b[10 + k]);
        }
    }
    assert(s.subrange(11 + n, 43 + n) =~= h.x25519_public) by {
        assert forall|k: int| 0 <= k < 32 implies s.subrange(11 + n, 43 + n)[k]
            == h.x25519_public[k] by {
            assert(s[11 + n + k] == f[11 + n + k] && f[11 + n + k] == e[11 + n + k]);
            assert(e[11 + n + k] == d[11 + n + k]);
        }
    }
    assert(s.subrange(43 + n, 75 + n) =~= h.identity) by {
        assert forall|k: int| 0 <= k < 32 implies s.subrange(43 + n, 75 + n)[k]
            == h.identity[k] by {
            assert(s[43 + n + k] == f[43 + n + k] && f[43 + n + k] == e[43 + n + k]);
        }
    }
    assert(s.subrange(75 + n, 107 + n) =~= h.identity_public_key) by {
        assert forall|k: int| 0 <= k < 32 implies s.subrange(75 + n, 107 + n)[k]
            == h.identity_public_key[k] by {
            assert(s[75 + n + k] == f[75 + n + k]);
        }
    }
    assert(s.subrange(107 + n, 129 + n) =~= capabilities_bytes(h.capabilities));
    lemma_capabilities_at(s, 107 + n, h.capabilities);
}

// ─────────────────────────────────────────────────────────────────────
// ServerHello
// ─────────────────────────────────────────────────────────────────────

/// ServerHello: the answer to a ClientHello.
#[derive(Debug, Clone)]
pub struct ServerHello {
    /// Protocol version.
    pub version: u8,
    /// The server's connection id.
    pub source_connection_id: u64,
    /// The client's connection id, echoed.
    pub dest_connection_id: u64,
    /// The server's ephemeral X25519 public key.
    pub x25519_public: [u8; 32],
    /// The server's identity hash.
    pub identity: [u8; 32],
    /// The server's Ed25519 public key.
    pub identity_public_key: [u8; 32],
    /// Signature of the transcript so far (proof of identity).
    pub identity_proof: Vec<u8>,
    /// The negotiated capabilities.
    pub capabilities: Capabilities,
}

/// A ServerHello as values.
pub struct ServerHelloView {
    pub version: u8,
    pub source_connection_id: u64,
    pub dest_connection_id: u64,
    pub x25519_public: Seq<u8>,
    pub identity: Seq<u8>,
    pub identity_public_key: Seq<u8>,
    pub identity_proof: Seq<u8>,
    pub capabilities: Capabilities,
}

impl View for ServerHello {
    type V = ServerHelloView;

    open spec fn view(&self) -> ServerHelloView {
        ServerHelloView {
            version: self.version,
            source_connection_id: self.source_connection_id,
            dest_connection_id: self.dest_connection_id,
            x25519_public: self.x25519_public@,
            identity: self.identity@,
            identity_public_key: self.identity_public_key@,
            identity_proof: self.identity_proof@,
            capabilities: self.capabilities,
        }
    }
}

/// Wire bytes of a ServerHello: version, both connection ids (64 bits
/// each), the X25519 key, the identity hash, the Ed25519 key, the proof's
/// length (16 bits) and the proof, the capabilities.
pub open spec fn server_hello_bytes(h: ServerHelloView) -> Seq<u8> {
    seq![h.version] + be64(h.source_connection_id) + be64(h.dest_connection_id)
        + h.x25519_public + h.identity + h.identity_public_key + be16(
        h.identity_proof.len() as u16,
    ) + h.identity_proof + capabilities_bytes(h.capabilities)
}

/// The length of the proof that `s` announces.
pub open spec fn server_hello_proof_len(s: Seq<u8>) -> int {
    u16_of(s[113], s[114]) as int
}

/// Whether decoding stays within `s`: it holds the fields up to the proof's
/// length, then the proof and the 22 bytes of capabilities.
pub open spec fn server_hello_decodable(s: Seq<u8>) -> bool {
    s.len() >= 115 && s.len() >= 137 + server_hello_proof_len(s)
}

/// The ServerHello that `s` holds.
pub open spec fn spec_decode_server_hello(s: Seq<u8>) -> ServerHelloView {
    let p = server_hello_proof_len(s);
    ServerHelloView {
        version: s[0],
        source_connection_id: u64_of(s, 1),
        dest_connection_id: u64_of(s, 9),
        x25519_public: s.subrange(17, 49),
        identity: s.subrange(49, 81),
        identity_public_key: s.subrange(81, 113),
        identity_proof: s.subrange(115, 115 + p),
        capabilities: spec_decode_capabilities(s, 115 + p),
    }
}

/// A ServerHello that its wire bytes describe exactly: keys and hash of 32
/// bytes, a proof shorter than 2^16 bytes.
pub open spec fn server_hello_well_formed(h: ServerHelloView) -> bool {
    &&& h.x25519_public.len() == 32
    &&& h.identity.len() == 32
    &&& h.identity_public_key.len() == 32
    &&& h.identity_proof.len() <= 0xFFFF
}

/// The ServerHello of the current version that an identity sends: its
/// proof is its signature of the transcript so far.
pub open spec fn spec_server_hello(
    source_connection_id: u64,
    dest_connection_id: u64,
    x25519_public: Seq<u8>,
    identity: Identity,
    transcript: Seq<u8>,
    capabilities: Capabilities,
) -> ServerHelloView {
    ServerHelloView {
        version: AETHER_VERSION,
        source_connection_id,
        dest_connection_id,
        x25519_public,
        identity: identity.spec_hash(),
        identity_public_key: identity.spec_public_key(),
        identity_proof: ed25519_signature(identity.spec_seed(), transcript),
        capabilities,
    }
}

impl ServerHello {
    /// A ServerHello of the current version whose proof signs `transcript`.
    pub fn new(
        source_connection_id: u64,
        dest_connection_id: u64,
        x25519_public: [u8; 32],
        identity: &Identity,
        transcript: &[u8],
        capabilities: Capabilities,
    ) -> (res: Self)
        ensures
            res@ == spec_server_hello(
                source_connection_id,
                dest_connection_id,
                x25519_public@,
                *identity,
                transcript@,
                capabilities,
            ),
            res@.identity_proof.len() == 64,
    {
        let signature = identity.sign(transcript);
        let mut identity_proof: Vec<u8> = Vec::new();
        identity_proof.extend_from_slice(signature.as_slice());
        assert(identity_proof@ =~= signature@);
        ServerHello {
            version: AETHER_VERSION,
            source_connection_id,
            dest_connection_id,
            x25519_public,
            identity: *identity.hash(),
            identity_public_key: identity.public_key_bytes(),
            identity_proof,
            capabilities,
        }
    }

    /// The ServerHello's wire bytes. The proof's length is written in 16
    /// bits (its low 16 bits).
    pub fn encode(&self) -> (res: Vec<u8>)
        ensures
            res@ == server_hello_bytes(self@),
    {
        let mut buf: Vec<u8> = Vec::new();
        buf.push(self.version);
        write_u64_be(&mut buf, self.source_connection_id);
        write_u64_be(&mut buf, self.dest_connection_id);
        buf.extend_from_slice(self.x25519_public.as_slice());
        buf.extend_from_slice(self.identity.as_slice());
        buf.extend_from_slice(self.identity_public_key.as_slice());
        push_u16_be(&mut buf, self.identity_proof.len() as u16);
        buf.extend_from_slice(self.identity_proof.as_slice());
        encode_capabilities(&self.capabilities, &mut buf);
        assert(buf@ =~= server_hello_bytes(self@));
        buf
    }

    /// Decode a ServerHello.
    pub fn decode(data: &[u8]) -> (res: Result<Self>)
        requires
            server_hello_decodable(data@),
        ensures
            res matches Ok(h) && h@ == spec_decode_server_hello(data@),
    {
        let version = data[0];
        let source_connection_id = be_u64_at(data, 1);
        let dest_connection_id = be_u64_at(data, 9);
        let x25519_public = copy32(data, 17);
        let identity = copy32(data, 49);
        let identity_public_key = copy32(data, 81);
        let proof_len = (((data[113] as u16) << 8u16) | (data[114] as u16)) as usize;
        let identity_proof = vstd::slice::slice_to_vec(
            vstd::slice::slice_subrange(data, 115, 115 + proof_len),
        );
        let capabilities = decode_capabilities(data, 115 + proof_len);
        Ok(ServerHello {
            version,
            source_connection_id,
            dest_connection_id,
            x25519_public,
            identity,
            identity_public_key,
            identity_proof,
            capabilities,
        })
    }
}

/// Decoding the wire bytes of a well-formed ServerHello reads within them
/// and gives the ServerHello back.
pub proof fn lemma_server_hello_roundtrip(h: ServerHelloView)
    requires
        server_hello_well_formed(h),
    ensures
        server_hello_decodable(server_hello_bytes(h)),
        spec_decode_server_hello(server_hello_bytes(h)) == h,
        server_hello_bytes(h).len() == 137 + h.identity_proof.len(),
{
    let s = server_hello_bytes(h);
    let p = h.identity_proof.len() as int;
    let a = seq![h.version] + be64(h.source_connection_id);
    let b = a + be64(h.dest_connection_id);
    let c = b + h.x25519_public;
    let d = c + h.identity;
    let e = d + h.identity_public_key;
    let f = e + be16(h.identity_proof.len() as u16);
    let g = f + h.identity_proof;
    assert(s == g + capabilities_bytes(h.capabilities));
    assert(s.len() == 137 + p);
    assert(s.subrange(1, 9) =~= be64(h.source_connection_id)) by {
        assert forall|k: int| 0 <= k < 8 implies s.subrange(1, 9)[k] == be64(
            h.source_connection_id,
        )[k] by {
            assert(s[1 + k] == g[1 + k] && g[1 + k] == f[1 + k] && f[1 + k] == e[1 + k]);
            assert(e[1 + k] == d[1 + k] && d[1 + k] == c[1 + k] && c[1 + k] == b[1 + k]);
            assert(b[1 + k] == a[1 + k]);
        }
    }
    lemma_u64_at(s, 1, h.source_connection_id);
    assert(s.subrange(9, 17) =~= be64(h.dest_connection_id)) by {
        assert forall|k: int| 0 <= k < 8 implies s.subrange(9, 17)[k] == be64(
            h.dest_connection_id,
        )[k] by {
            assert(s[9 + k] == g[9 + k] && g[9 + k] == f[9 + k] && f[9 + k] == e[9 + k]);
            assert(e[9 + k] == d[9 + k] && d[9 + k] == c[9 + k] && c[9 + k] == b[9 + k]);
        }
    }
    lemma_u64_at(s, 9, h.dest_connection_id);
    assert(s.subrange(17, 49) =~= h.x25519_public) by {
        assert forall|k: int| 0 <= k < 32 implies s.subrange(17, 49)[k] == h.x25519_public[k] by {
            assert(s[17 + k] == g[17 + k] && g[17 + k] == f[17 + k] && f[17 + k] == e[17 + k]);
            assert(e[17 + k] == d[17 + k] && d[17 + k] == c[17 + k]);
        }
    }
    assert(s.subrange(49, 81) =~= h.identity) by {
        assert forall|k: int| 0 <= k < 32 implies s.subrange(49, 81)[k] == h.identity[k] by {
            assert(s[49 + k] == g[49 + k] && g[49 + k] == f[49 + k] && f[49 + k] == e[49 + k]);
            assert(e[49 + k] == d[49 + k]);
        }
    }
    assert(s.subrange(81, 113) =~= h.identity_public_key) by {
        assert forall|k: int| 0 <= k < 32 implies s.subrange(81, 113)[k]
            == h.identity_public_key[k] by {
            assert(s[81 + k] == g[81 + k] && g[81 + k] == f[81 + k] && f[81 + k] == e[81 + k]);
        }
    }
    assert(s.subrange(113, 115) =~= be16(h.identity_proof.len() as u16)) by {
        assert(s[113] == g[113] && g[113] == f[113]);
        assert(s[114] == g[114] && g[114] == f[114]);
    }
    lemma_u16_at(s, 113, h.identity_proof.len() as u16);
    assert((h.identity_proof.len() as u16) as int == p);
    assert(server_hello_proof_len(s) == p);
    assert(s.subrange(115, 115 + p) =~= h.identity_proof) by {
        assert forall|k: int| 0 <= k < p implies s.subrange(115, 115 + p)[k]
            == h.identity_proof[k] by {
            assert(s[115 + k] == g[115 + k]);
        }
    }
    assert(s.subrange(115 + p, 137 + p) =~= capabilities_bytes(h.capabilities));
    lemma_capabilities_at(s, 115 + p, h.capabilities);
}

// ─────────────────────────────────────────────────────────────────────
// Handshake context
// ─────────────────────────────────────────────────────────────────────

/// Label before a ClientHello in the transcript.
pub open spec fn client_hello_label() -> Seq<u8> {
    "ClientHello:".spec_bytes()
}

/// Label before a ServerHello in the transcript.
pub open spec fn server_hello_label() -> Seq<u8> {
    "ServerHello:".spec_bytes()
}

/// A session key, present and derived from some 32-byte shared secret and
/// the given transcript.
pub open spec fn keyed_by_transcript(session_key: Option<[u8; 32]>, transcript: Seq<u8>) -> bool {
    session_key matches Some(k) && exists|shared: Seq<u8>|
        shared.len() == 32 && k@ == #[trigger] spec_session_key(shared, transcript)
}

/// The state of one side of the handshake.
pub struct HandshakeContext {
    /// Current state.
    pub state: HandshakeState,
    /// Our connection id (64 bits).
    pub our_connection_id: u64,
    /// The peer's connection id (64 bits).
    pub peer_connection_id: Option<u64>,
    /// Our ephemeral X25519 secret, until the session key is derived.
    pub x25519_secret: Option<x25519_dalek::EphemeralSecret>,
    /// The peer's X25519 public key.
    pub peer_x25519_public: Option<[u8; 32]>,
    /// The handshake transcript.
    pub transcript: Vec<u8>,
    /// The session key, once derived.
    pub session_key: Option<[u8; 32]>,
    /// The negotiated capabilities.
    pub capabilities: Option<Capabilities>,
    /// The peer's identity hash.
    pub peer_identity: Option<[u8; 32]>,
    /// Whether we are the client.
    pub is_client: bool,
}

/// The Finished MAC this side expects and sends: HMAC of the transcript
/// under the session key, once there is one.
pub open spec fn expected_finished(ctx: HandshakeContext) -> Option<Seq<u8>> {
    match ctx.session_key {
        Some(k) => Some(hmac_sha256(k@, ctx.transcript@)),
        None => None,
    }
}

/// Two sides that hold the same session key and the same transcript expect
/// the same Finished MAC: what one sends, the other accepts.
pub proof fn lemma_finished_agreement(a: HandshakeContext, b: HandshakeContext)
    requires
        a.session_key is Some,
        a.session_key == b.session_key,
        a.transcript@ == b.transcript@,
    ensures
        expected_finished(a) is Some,
        expected_finished(a) == expected_finished(b),
{
}

/// What the server's context holds after accepting the ClientHello `h`
/// (carried by `payload`) and answering with `f`, starting from a context
/// whose transcript was `old_transcript` and whose role was `old_is_client`.
pub open spec fn server_accepted(
    old_transcript: Seq<u8>,
    old_is_client: bool,
    ctx: HandshakeContext,
    h: ClientHelloView,
    payload: Seq<u8>,
    identity: Identity,
    ours: Capabilities,
    f: FrameView,
) -> bool {
    let t1 = old_transcript + client_hello_label() + payload;
    let negotiated = negotiate(ours, h.capabilities);
    &&& ctx.peer_connection_id == Some(h.connection_id)
    &&& ctx.peer_x25519_public matches Some(x) && x@ == h.x25519_public
    &&& ctx.peer_identity matches Some(i) && i@ == h.identity
    &&& exists|x: Seq<u8>|
        x.len() == 32 && f.payload == #[trigger] server_hello_bytes(
            spec_server_hello(ctx.our_connection_id, h.connection_id, x, identity, t1, negotiated),
        )
    &&& f == spec_long_frame(
        FrameType::Initial,
        CONTROL_STREAM_ID,
        (h.connection_id >> 32u64) as u32,
        ctx.our_connection_id,
        f.payload,
    )
    &&& ctx.transcript@ == t1 + server_hello_label() + f.payload
    &&& keyed_by_transcript(ctx.session_key, ctx.transcript@)
    &&& ctx.x25519_secret is None
    &&& ctx.capabilities == Some(negotiated)
    &&& ctx.state == HandshakeState::KeysDerived
    &&& ctx.is_client == old_is_client
}

/// Whether the ServerHello `sh` proves its identity: a 64-byte signature of
/// `transcript` under its public key.
pub open spec fn server_proof_valid(sh: ServerHelloView, transcript: Seq<u8>) -> bool {
    &&& sh.identity_proof.len() == 64
    &&& crate::identity::ed25519_key_valid(sh.identity_public_key)
    &&& crate::identity::ed25519_signature_valid(
        sh.identity_public_key,
        transcript,
        sh.identity_proof,
    )
}

fn contains_version(versions: &Vec<u8>, v: u8) -> (res: bool)
    ensures
        res == versions@.contains(v),
{
    let mut i: usize = 0;
    while i < versions.len()
        invariant
            i <= versions@.len(),
            forall|k: int| 0 <= k < i ==> versions@[k] != v,
        decreases versions@.len() - i,
    {
        if versions[i] == v {
            return true;
        }
        i = i + 1;
    }
    false
}

fn to_array64(v: &Vec<u8>) -> (res: [u8; 64])
    requires
        v@.len() == 64,
    ensures
        res@ == v@,
{
    let mut out = [0u8; 64];
    let mut i: usize = 0;
    while i < 64
        invariant
            v@.len() == 64,
            i <= 64,
            forall|k: int| 0 <= k < i ==> out@[k] == v@[k],
        decreases 64 - i,
    {
        out[i] = v[i];
        i = i + 1;
    }
    assert(out@ =~= v@);
    out
}

impl HandshakeContext {
    /// A client's context.
    pub fn new_client(our_connection_id: u64) -> (res: Self)
        ensures
            res.state == HandshakeState::Initial,
            res.our_connection_id == our_connection_id,
            res.peer_connection_id is None,
            res.x25519_secret is None,
            res.peer_x25519_public is None,
            res.transcript@ == Seq::<u8>::empty(),
            res.session_key is None,
            res.capabilities is None,
            res.peer_identity is None,
            res.is_client,
    {
        HandshakeContext {
            state: HandshakeState::Initial,
            our_connection_id,
            peer_connection_id: None,
            x25519_secret: None,
            peer_x25519_public: None,
            transcript: Vec::new(),
            session_key: None,
            capabilities: None,
            peer_identity: None,
            is_client: true,
        }
    }

    /// A server's context; its connection id is chosen with the ServerHello.
    pub fn new_server() -> (res: Self)
        ensures
            res.state == HandshakeState::Initial,
            res.our_connection_id == 0,
            res.peer_connection_id is None,
            res.x25519_secret is None,
            res.peer_x25519_public is None,
            res.transcript@ == Seq::<u8>::empty(),
            res.session_key is None,
            res.capabilities is None,
            res.peer_identity is None,
            !res.is_client,
    {
        HandshakeContext {
            state: HandshakeState::Initial,
            our_connection_id: 0,
            peer_connection_id: None,
            x25519_secret: None,
            peer_x25519_public: None,
            transcript: Vec::new(),
            session_key: None,
            capabilities: None,
            peer_identity: None,
            is_client: false,
        }
    }

    /// Client: a fresh X25519 key pair and the Initial packet that carries
    /// the ClientHello, which the transcript records.
    pub fn create_client_hello(&mut self, identity: &Identity, capabilities: &Capabilities) -> (res: Result<Frame>)
        ensures
            res matches Ok(f) && {
                &&& exists|x: Seq<u8>|
                    x.len() == 32 && f@.payload == #[trigger] client_hello_bytes(
                        spec_client_hello(old(self).our_connection_id, x, *identity, *capabilities),
                    )
                &&& f@ == spec_long_frame(
                    FrameType::Initial,
                    CONTROL_STREAM_ID,
                    (old(self).our_connection_id >> 32u64) as u32,
                    old(self).our_connection_id,
                    f@.payload,
                )
                &&& final(self).transcript@ == old(self).transcript@ + client_hello_label()
                    + f@.payload
            },
            final(self).state == HandshakeState::HelloSent,
            final(self).x25519_secret is Some,
            final(self).peer_x25519_public is None,
            final(self).our_connection_id == old(self).our_connection_id,
            final(self).peer_connection_id == old(self).peer_connection_id,
            final(self).session_key == old(self).session_key,
            final(self).capabilities == old(self).capabilities,
            final(self).peer_identity == old(self).peer_identity,
            final(self).is_client == old(self).is_client,
    {
        let (public, secret) = x25519_generate_keypair();
        self.x25519_secret = Some(secret);
        self.peer_x25519_public = None;
        let hello = ClientHello::new(self.our_connection_id, public, identity, *capabilities);
        let hello_data = hello.encode();
        self.transcript.extend_from_slice("ClientHello:".as_bytes());
        self.transcript.extend_from_slice(hello_data.as_slice());
        self.state = HandshakeState::HelloSent;
        let frame = Frame::new_long(
            FrameType::Initial,
            CONTROL_STREAM_ID,
            (self.our_connection_id >> 32u64) as u32,
            self.our_connection_id,
            hello_data,
        );
        assert(self.transcript@ =~= old(self).transcript@ + client_hello_label() + frame@.payload);
        Ok(frame)
    }

    /// Server: handle the ClientHello of an Initial packet and answer with
    /// the ServerHello. Fails on a ClientHello that does not decode and on
    /// one that does not list our version; the context is then unchanged.
    pub fn handle_client_hello(
        &mut self,
        frame: &Frame,
        identity: &Identity,
        capabilities: &Capabilities,
    ) -> (res: Result<Frame>)
        requires
            !client_hello_decode_overruns(frame@.payload),
        ensures
            match spec_decode_client_hello(frame@.payload) {
                None => res matches Err(e) && e is ProtocolViolation && *final(self) == *old(self),
                Some(h) => if !h.supported_versions.contains(AETHER_VERSION) {
                    res matches Err(e) && e is VersionNegotiation && *final(self) == *old(self)
                } else {
                    res matches Ok(f) && server_accepted(
                        old(self).transcript@,
                        old(self).is_client,
                        *final(self),
                        h,
                        frame@.payload,
                        *identity,
                        *capabilities,
                        f@,
                    )
                },
            },
    {
        let hello = match ClientHello::decode(frame.payload.as_slice()) {
            Ok(h) => h,
            Err(e) => {
                return Err(e);
            },
        };
        if !contains_version(&hello.supported_versions, AETHER_VERSION) {
            return Err(Error::VersionNegotiation("Unsupported version: peer does not support v0".to_string()));
        }
        self.peer_connection_id = Some(hello.connection_id);
        self.our_connection_id = crate::crypto::generate_connection_id();
        self.peer_x25519_public = Some(hello.x25519_public);
        self.peer_identity = Some(hello.identity);
        self.transcript.extend_from_slice("ClientHello:".as_bytes());
        self.transcript.extend_from_slice(frame.payload.as_slice());
        let ghost t1 = self.transcript@;
        assert(t1 =~= old(self).transcript@ + client_hello_label() + frame@.payload);
        let (public, secret) = x25519_generate_keypair();
        self.x25519_secret = Some(secret);
        let ours = *capabilities;
        let theirs = hello.capabilities;
        let negotiated = Capabilities {
            multipath: ours.multipath && theirs.multipath,
            max_streams: if ours.max_streams <= theirs.max_streams {
                ours.max_streams
            } else {
                theirs.max_streams
            },
            max_stream_data: if ours.max_stream_data <= theirs.max_stream_data {
                ours.max_stream_data
            } else {
                theirs.max_stream_data
            },
            ack_frequency: theirs.ack_frequency,
            idle_timeout_ms: if ours.idle_timeout_ms <= theirs.idle_timeout_ms {
                ours.idle_timeout_ms
            } else {
                theirs.idle_timeout_ms
            },
        };
        let server_hello = ServerHello::new(
            self.our_connection_id,
            hello.connection_id,
            public,
            identity,
            self.transcript.as_slice(),
            negotiated,
        );
        let hello_data = server_hello.encode();
        self.transcript.extend_from_slice("ServerHello:".as_bytes());
        self.transcript.extend_from_slice(hello_data.as_slice());
        assert(self.transcript@ =~= t1 + server_hello_label() + hello_data@);
        if let Err(e) = self.derive_keys() {
            return Err(e);
        }
        self.capabilities = Some(negotiated);
        self.state = HandshakeState::KeysDerived;
        let f = Frame::new_long(
            FrameType::Initial,
            CONTROL_STREAM_ID,
            (hello.connection_id >> 32u64) as u32,
            self.our_connection_id,
            hello_data,
        );
        assert(f@.payload == server_hello_bytes(
            spec_server_hello(self.our_connection_id, hello@.connection_id, public@, *identity, t1, negotiated),
        ));
        proof {
            let h = hello@;
            assert(spec_decode_client_hello(frame@.payload) == Some(h));
            assert(h.supported_versions.contains(AETHER_VERSION));
            assert(negotiated == negotiate(*capabilities, h.capabilities));
            assert(self.peer_connection_id == Some(h.connection_id));
            assert(self.peer_x25519_public matches Some(x) && x@ == h.x25519_public);
            assert(self.peer_identity matches Some(i) && i@ == h.identity);
            assert(f@ == spec_long_frame(
                FrameType::Initial,
                CONTROL_STREAM_ID,
                (h.connection_id >> 32u64) as u32,
                self.our_connection_id,
                f@.payload,
            ));
            assert(self.transcript@ == t1 + server_hello_label() + f@.payload);
            assert(keyed_by_transcript(self.session_key, self.transcript@));
            assert(self.x25519_secret is None);
            assert(self.capabilities == Some(negotiate(*capabilities, h.capabilities)));
            assert(self.state == HandshakeState::KeysDerived);
            assert(self.is_client == old(self).is_client);
        }
        Ok(f)
    }

    /// Client: handle the ServerHello. The peer's connection id, X25519 key
    /// and identity are recorded first; then the proof must be a 64-byte
    /// signature of the transcript so far under the server's key, and the
    /// ServerHello joins the transcript and the session key is derived.
    pub fn handle_server_hello(&mut self, frame: &Frame) -> (res: Result<()>)
        requires
            server_hello_decodable(frame@.payload),
        ensures
            ({
                let sh = spec_decode_server_hello(frame@.payload);
                let t1 = old(self).transcript@ + server_hello_label() + frame@.payload;
                &&& final(self).peer_connection_id == Some(sh.source_connection_id)
                &&& final(self).peer_x25519_public matches Some(x) && x@ == sh.x25519_public
                &&& final(self).peer_identity matches Some(i) && i@ == sh.identity
                &&& final(self).our_connection_id == old(self).our_connection_id
                &&& final(self).is_client == old(self).is_client
                &&& if !server_proof_valid(sh, old(self).transcript@) {
                    &&& res matches Err(e) && e is Crypto
                    &&& final(self).transcript == old(self).transcript
                    &&& final(self).x25519_secret == old(self).x25519_secret
                    &&& final(self).session_key == old(self).session_key
                    &&& final(self).capabilities == old(self).capabilities
                    &&& final(self).state == old(self).state
                } else if old(self).x25519_secret is None {
                    &&& res matches Err(e) && e is InvalidState
                    &&& final(self).transcript@ == t1
                    &&& final(self).x25519_secret is None
                    &&& final(self).session_key == old(self).session_key
                    &&& final(self).capabilities == old(self).capabilities
                    &&& final(self).state == old(self).state
                } else {
                    &&& res is Ok
                    &&& final(self).transcript@ == t1
                    &&& keyed_by_transcript(final(self).session_key, t1)
                    &&& final(self).x25519_secret is None
                    &&& final(self).capabilities == Some(sh.capabilities)
                    &&& final(self).state == HandshakeState::KeysDerived
                }
            }),
    {
        let server_hello = match ServerHello::decode(frame.payload.as_slice()) {
            Ok(h) => h,
            Err(e) => {
                return Err(e);
            },
        };
        self.peer_connection_id = Some(server_hello.source_connection_id);
        self.peer_x25519_public = Some(server_hello.x25519_public);
        self.peer_identity = Some(server_hello.identity);
        if server_hello.identity_proof.len() != 64 {
            return Err(Error::Crypto("Invalid signature length".to_string()));
        }
        let proof_bytes = to_array64(&server_hello.identity_proof);
        if let Err(e) = Identity::verify(
            &server_hello.identity_public_key,
            self.transcript.as_slice(),
            &proof_bytes,
        ) {
            return Err(e);
        }
        self.transcript.extend_from_slice("ServerHello:".as_bytes());
        self.transcript.extend_from_slice(frame.payload.as_slice());
        assert(self.transcript@ =~= old(self).transcript@ + server_hello_label() + frame@.payload);
        if let Err(e) = self.derive_keys() {
            return Err(e);
        }
        self.capabilities = Some(server_hello.capabilities);
        self.state = HandshakeState::KeysDerived;
        Ok(())
    }

    /// Server: the Handshake packet that carries our Finished MAC. Needs the
    /// session key and the peer's connection id.
    pub fn create_finished(&self) -> (res: Result<Frame>)
        ensures
            match (self.session_key, self.peer_connection_id) {
                (Some(k), Some(p)) => res matches Ok(f) && f@ == spec_long_frame(
                    FrameType::Handshake,
                    CONTROL_STREAM_ID,
                    (p >> 32u64) as u32,
                    self.our_connection_id,
                    hmac_sha256(k@, self.transcript@),
                ),
                _ => res matches Err(e) && e is InvalidState,
            },
    {
        let session_key = match self.session_key {
            Some(k) => k,
            None => {
                return Err(Error::InvalidState("Session key not derived".to_string()));
            },
        };
        let peer_cid = match self.peer_connection_id {
            Some(p) => p,
            None => {
                return Err(Error::InvalidState("Peer CID not known".to_string()));
            },
        };
        let finished = compute_finished(session_key.as_slice(), self.transcript.as_slice());
        Ok(
            Frame::new_long(
                FrameType::Handshake,
                CONTROL_STREAM_ID,
                (peer_cid >> 32u64) as u32,
                self.our_connection_id,
                finished,
            ),
        )
    }

    /// Client: check the server's Finished and answer with ours. The
    /// handshake is complete once the server's MAC checks.
    pub fn handle_finished_and_respond(&mut self, frame: &Frame) -> (res: Result<Frame>)
        ensures
            match old(self).session_key {
                None => res matches Err(e) && e is InvalidState && *final(self) == *old(self),
                Some(k) => if expected_finished(*old(self)) != Some(frame@.payload) {
                    res matches Err(e) && e is Crypto && *final(self) == *old(self)
                } else {
                    &&& *final(self) == (HandshakeContext {
                        state: HandshakeState::Complete,
                        ..*old(self)
                    })
                    &&& match old(self).peer_connection_id {
                        None => res matches Err(e) && e is InvalidState,
                        Some(p) => res matches Ok(f) && f@ == spec_long_frame(
                            FrameType::Handshake,
                            CONTROL_STREAM_ID,
                            (p >> 32u64) as u32,
                            old(self).our_connection_id,
                            hmac_sha256(k@, old(self).transcript@),
                        ),
                    }
                },
            },
    {
        let session_key = match self.session_key {
            Some(k) => k,
            None => {
                return Err(Error::InvalidState("Session key not derived".to_string()));
            },
        };
        if let Err(e) = verify_finished(
            session_key.as_slice(),
            self.transcript.as_slice(),
            frame.payload.as_slice(),
        ) {
            return Err(e);
        }
        let finished = compute_finished(session_key.as_slice(), self.transcript.as_slice());
        self.state = HandshakeState::Complete;
        let peer_cid = match self.peer_connection_id {
            Some(p) => p,
            None => {
                return Err(Error::InvalidState("Peer CID not known".to_string()));
            },
        };
        Ok(
            Frame::new_long(
                FrameType::Handshake,
                CONTROL_STREAM_ID,
                (peer_cid >> 32u64) as u32,
                self.our_connection_id,
                finished,
            ),
        )
    }

    /// Server: check the client's Finished; the handshake is then complete.
    pub fn verify_finished(&mut self, frame: &Frame) -> (res: Result<()>)
        ensures
            match old(self).session_key {
                None => res matches Err(e) && e is InvalidState && *final(self) == *old(self),
                Some(k) => if expected_finished(*old(self)) != Some(frame@.payload) {
                    res matches Err(e) && e is Crypto && *final(self) == *old(self)
                } else {
                    res is Ok && *final(self) == (HandshakeContext {
                        state: HandshakeState::Complete,
                        ..*old(self)
                    })
                },
            },
    {
        let session_key = match self.session_key {
            Some(k) => k,
            None => {
                return Err(Error::InvalidState("Session key not derived".to_string()));
            },
        };
        if let Err(e) = verify_finished(
            session_key.as_slice(),
            self.transcript.as_slice(),
            frame.payload.as_slice(),
        ) {
            return Err(e);
        }
        self.state = HandshakeState::Complete;
        Ok(())
    }

    /// The shared secret of our X25519 secret and the peer's key, and the
    /// session key of it and the transcript. The secret is consumed.
    fn derive_keys(&mut self) -> (res: Result<()>)
        ensures
            final(self).x25519_secret is None,
            final(self).state == old(self).state,
            final(self).our_connection_id == old(self).our_connection_id,
            final(self).peer_connection_id == old(self).peer_connection_id,
            final(self).peer_x25519_public == old(self).peer_x25519_public,
            final(self).transcript == old(self).transcript,
            final(self).capabilities == old(self).capabilities,
            final(self).peer_identity == old(self).peer_identity,
            final(self).is_client == old(self).is_client,
            match res {
                Ok(()) => old(self).x25519_secret is Some && old(self).peer_x25519_public is Some
                    && keyed_by_transcript(final(self).session_key, old(self).transcript@),
                Err(e) => (old(self).x25519_secret is None || old(self).peer_x25519_public is None)
                    && e is InvalidState && final(self).session_key == old(self).session_key,
            },
    {
        let our_secret = match self.x25519_secret.take() {
            Some(s) => s,
            None => {
                return Err(Error::InvalidState("Our X25519 secret not set".to_string()));
            },
        };
        let peer_public = match self.peer_x25519_public {
            Some(p) => p,
            None => {
                return Err(Error::InvalidState("Peer X25519 public not set".to_string()));
            },
        };
        let shared_secret = x25519_dh(our_secret, &peer_public);
        let session_key = match derive_session_key(shared_secret.as_slice(), self.transcript.as_slice()) {
            Ok(k) => k,
            Err(e) => {
                return Err(e);
            },
        };
        assert(session_key@ == spec_session_key(shared_secret@, self.transcript@));
        self.session_key = Some(session_key);
        Ok(())
    }
}

} // verus!
