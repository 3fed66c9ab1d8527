//! A connection's state and the decisions it takes: the client's and the
//! server's handshake steps, sealing outgoing packets and opening incoming
//! ones, cutting stream data into packets, and closing.
//!
//! The socket is not here: each step takes the datagram that was received
//! and gives the bytes to send, so that the caller performs the I/O between
//! steps.

use vstd::prelude::*;

use crate::crypto::{hmac_sha256, AeadAlgorithm, AeadSession, AEAD_MAX_INPUT};
use crate::error::{CloseCode, Error, Result};
use crate::framing::{
    be32, be64, frame_bytes, spec_decode_frame, spec_long_frame, spec_short_frame,
    CONTROL_STREAM_ID, write_u32_be, write_u64_be,
    Frame, FrameType, FrameView,
};
use crate::handshake::{
    client_hello_bytes, client_hello_decode_overruns, client_hello_label, expected_finished,
    keyed_by_transcript, server_accepted, server_hello_label, server_proof_valid,
    spec_client_hello, spec_decode_client_hello, spec_decode_server_hello,
    server_hello_decodable, Capabilities, HandshakeContext, HandshakeState,
};
use crate::identity::Identity;
use crate::stream::{StreamId, StreamManager};
use crate::{AETHER_DEFAULT_PORT, MAX_PAYLOAD_SIZE};
use vstd::string::StringSliceAdditionalSpecFns;

verus! {

/// Connection-level flow-control window: 16 MiB.
pub const CONNECTION_WINDOW: u64 = 16777216;

/// Connection configuration.
#[derive(Debug, Clone, Copy)]
pub struct Config {
    /// Our capabilities.
    pub capabilities: Capabilities,
    /// Default port.
    pub port: u16,
    /// Size of the receive buffer.
    pub recv_buffer_size: usize,
}

/// The default configuration: default capabilities, port 9000, a 64 KiB
/// receive buffer.
pub open spec fn default_config() -> Config {
    Config {
        capabilities: crate::handshake::default_capabilities(),
        port: AETHER_DEFAULT_PORT,
        recv_buffer_size: 65536,
    }
}

impl Default for Config {
    fn default() -> (res: Self)
        ensures
            res == default_config(),
    {
        Config {
            capabilities: Capabilities::default(),
            port: AETHER_DEFAULT_PORT,
            recv_buffer_size: 65536,
        }
    }
}

/// State of a connection.
#[derive(Debug, Clone, Copy, PartialEq, Eq, Structural)]
pub enum ConnectionState {
    /// Not started.
    Init,
    /// Handshake under way.
    Handshaking,
    /// Established: data may flow.
    Active,
    /// Closing.
    Closing,
    /// Closed.
    Closed,
}

/// Connection statistics.
#[derive(Debug, Clone, Copy, PartialEq, Eq, Structural)]
pub struct ConnectionStats {
    /// Packets sent.
    pub packets_sent: u64,
    /// Packets received.
    pub packets_received: u64,
    /// Bytes sent.
    pub bytes_sent: u64,
    /// Bytes received.
    pub bytes_received: u64,
    /// Packets lost (estimated from retransmissions).
    pub packets_lost: u64,
    /// Current RTT in microseconds.
    pub rtt_us: u64,
}

/// Statistics that count nothing yet.
pub open spec fn zero_stats() -> ConnectionStats {
    ConnectionStats {
        packets_sent: 0,
        packets_received: 0,
        bytes_sent: 0,
        bytes_received: 0,
        packets_lost: 0,
        rtt_us: 0,
    }
}

impl Default for ConnectionStats {
    fn default() -> (res: Self)
        ensures
            res == zero_stats(),
    {
        ConnectionStats {
            packets_sent: 0,
            packets_received: 0,
            bytes_sent: 0,
            bytes_received: 0,
            packets_lost: 0,
            rtt_us: 0,
        }
    }
}

/// Associated data of a packet: the sender's truncated connection id (32
/// bits) and the packet's number (64 bits), both big-endian.
pub open spec fn aad_bytes(sender_connection_id: u32, packet_number: u64) -> Seq<u8> {
    be32(sender_connection_id) + be64(packet_number)
}

/// One secured connection to a peer, multiplexing many streams.
pub struct Connection {
    /// Our connection id (the 64-bit id's high 32 bits).
    pub our_connection_id: u32,
    /// The peer's connection id (truncated likewise).
    pub peer_connection_id: Option<u32>,
    /// Connection state.
    pub state: ConnectionState,
    /// Handshake context.
    pub handshake: Option<HandshakeContext>,
    /// AEAD session, once the handshake is done.
    pub aead: Option<AeadSession>,
    /// The streams.
    pub streams: StreamManager,
    /// Our identity.
    pub identity: Option<Identity>,
    /// Configuration.
    pub config: Config,
    /// Statistics.
    pub stats: ConnectionStats,
    /// Whether we are the client.
    pub is_client: bool,
    /// Send packet counter.
    pub tx_packet_number: u64,
    /// Receive packet counter.
    pub rx_packet_number: u64,
    /// Frames received and not yet handed out.
    pub incoming_frames: Vec<Frame>,
    /// Idle timeout in milliseconds.
    pub idle_timeout_ms: u64,
}

/// The ServerHello packet `f` is the one a server's context `h` sent: it
/// closes the transcript and is addressed to the client.
pub open spec fn server_accepted_frame(h: HandshakeContext, f: FrameView) -> bool {
    &&& h.transcript@.len() >= f.payload.len()
    &&& h.transcript@.subrange(h.transcript@.len() - f.payload.len(), h.transcript@.len() as int)
        == f.payload
    &&& f == spec_long_frame(
        FrameType::Initial,
        CONTROL_STREAM_ID,
        (h.peer_connection_id->Some_0 >> 32u64) as u32,
        h.our_connection_id,
        f.payload,
    )
}

/// Whether a datagram holds an Initial packet whose ClientHello decodes and
/// lists our version.
pub open spec fn client_hello_acceptable(datagram: Seq<u8>) -> bool {
    match spec_decode_frame(datagram) {
        Some(f) => f.header.frame_type == FrameType::Initial && match spec_decode_client_hello(
            f.payload,
        ) {
            Some(ch) => ch.supported_versions.contains(crate::AETHER_VERSION),
            None => false,
        },
        None => false,
    }
}

/// Whether the bytes of a datagram, if they hold a packet, hold a ServerHello
/// that decodes within them.
pub open spec fn server_hello_datagram_ok(datagram: Seq<u8>) -> bool {
    spec_decode_frame(datagram) matches Some(f) ==> server_hello_decodable(f.payload)
}

/// Whether the bytes of a datagram, if they hold an Initial packet, hold a
/// ClientHello that decodes within them.
pub open spec fn client_hello_datagram_ok(datagram: Seq<u8>) -> bool {
    spec_decode_frame(datagram) matches Some(f) ==> (f.header.frame_type == FrameType::Initial
        ==> !client_hello_decode_overruns(f.payload))
}

/// The reason a Close packet carries is 17 ASCII bytes.
proof fn lemma_close_reason_len()
    ensures
        "Connection closed".spec_bytes().len() == 17,
{
    reveal_strlit("Connection closed");
    assert(vstd::string::is_ascii("Connection closed"));
    vstd::utf8::is_ascii_chars_encode_utf8("Connection closed"@);
}

impl Connection {
    /// The connection id our packets carry: the peer's once known, else ours.
    pub open spec fn spec_frame_connection_id(&self) -> u32 {
        match self.peer_connection_id {
            Some(p) => p,
            None => self.our_connection_id,
        }
    }

    /// The bytes sealing uses as associated data: our connection id and
    /// the send counter.
    pub open spec fn spec_aad(&self) -> Seq<u8> {
        aad_bytes(self.our_connection_id, self.tx_packet_number)
    }

    /// The bytes opening uses as associated data: the sender's connection
    /// id (the peer's, once known) and the receive counter, which match what
    /// the sender sealed with.
    pub open spec fn spec_rx_aad(&self) -> Seq<u8> {
        aad_bytes(self.spec_frame_connection_id(), self.rx_packet_number)
    }

    /// A client connection before its handshake: the 64-bit connection id's
    /// high half names it; streams start from the configured limits and a
    /// 16 MiB connection window.
    pub fn new_client(our_connection_id: u64, config: Config) -> (res: Self)
        ensures
            res.our_connection_id == (our_connection_id >> 32u64) as u32,
            res.peer_connection_id is None,
            res.state == ConnectionState::Init,
            res.handshake matches Some(h) && h.is_client && h.our_connection_id
                == our_connection_id && h.state == HandshakeState::Initial
                && h.transcript@.len() == 0 && h.x25519_secret is None
                && h.session_key is None && h.peer_connection_id is None,
            res.aead is None,
            res.streams.client(),
            res.streams.stream_map().len() == 0,
            res.streams.next_id() == 2,
            res.streams.stream_limit() == config.capabilities.max_streams,
            res.streams.stream_window() == config.capabilities.max_stream_data,
            res.streams.connection_window() == CONNECTION_WINDOW,
            res.identity is None,
            res.config == config,
            res.stats == zero_stats(),
            res.is_client,
            res.tx_packet_number == 0,
            res.rx_packet_number == 0,
            res.incoming_frames@.len() == 0,
            res.idle_timeout_ms == 30_000,
    {
        Connection {
            our_connection_id: (our_connection_id >> 32u64) as u32,
            peer_connection_id: None,
            state: ConnectionState::Init,
            handshake: Some(HandshakeContext::new_client(our_connection_id)),
            aead: None,
            streams: StreamManager::new(
                true,
                config.capabilities.max_streams,
                config.capabilities.max_stream_data,
                CONNECTION_WINDOW,
            ),
            identity: None,
            config,
            stats: ConnectionStats::default(),
            is_client: true,
            tx_packet_number: 0,
            rx_packet_number: 0,
            incoming_frames: Vec::new(),
            idle_timeout_ms: 30_000,
        }
    }

    /// Client, first step: a fresh identity for this connection and the
    /// wire bytes of the Initial packet with the ClientHello.
    pub fn client_hello(&mut self) -> (res: Result<Vec<u8>>)
        requires
            old(self).handshake is Some,
        ensures
            *final(self) == (Connection {
                handshake: final(self).handshake,
                identity: final(self).identity,
                ..*old(self)
            }),
            res is Ok,
            final(self).handshake is Some,
            ({
                let h0 = old(self).handshake->Some_0;
                let h = final(self).handshake->Some_0;
                let w = res->Ok_0;
                &&& h.state == HandshakeState::HelloSent
                &&& h.x25519_secret is Some
                &&& h.our_connection_id == h0.our_connection_id
                &&& h.is_client == h0.is_client
                &&& h.session_key == h0.session_key
                &&& h.peer_connection_id == h0.peer_connection_id
                &&& exists|x: Seq<u8>|
                    #![trigger spec_client_hello(h0.our_connection_id, x, final(self).identity->Some_0, old(self).config.capabilities)]
                    {
                        let p = client_hello_bytes(
                            spec_client_hello(
                                h0.our_connection_id,
                                x,
                                final(self).identity->Some_0,
                                old(self).config.capabilities,
                            ),
                        );
                        &&& x.len() == 32
                        &&& w@ == frame_bytes(
                            spec_long_frame(
                                FrameType::Initial,
                                CONTROL_STREAM_ID,
                                (h0.our_connection_id >> 32u64) as u32,
                                h0.our_connection_id,
                                p,
                            ),
                        )
                        &&& h.transcript@ == h0.transcript@ + client_hello_label() + p
                    }
            }),
            final(self).identity is Some,
            final(self).state == old(self).state,
            final(self).aead == old(self).aead,
            final(self).config == old(self).config,
    {
        let identity = Identity::generate();
        let mut hs = self.handshake.take().unwrap();
        let caps = self.config.capabilities;
        let ghost h0 = hs;
        let frame = match hs.create_client_hello(&identity, &caps) {
            Ok(f) => f,
            Err(e) => {
                self.handshake = Some(hs);
                return Err(e);
            },
        };
        let ghost id = identity;
        let ghost x = choose|x: Seq<u8>|
            x.len() == 32 && frame@.payload == #[trigger] client_hello_bytes(
                spec_client_hello(h0.our_connection_id, x, id, caps),
            );
        self.handshake = Some(hs);
        self.identity = Some(identity);
        let wire = frame.encode();
        assert(spec_client_hello(h0.our_connection_id, x, id, caps) == spec_client_hello(
            h0.our_connection_id,
            x,
            self.identity->Some_0,
            self.config.capabilities,
        ));
        Ok(wire)
    }

    /// Client, second step: the datagram that should hold the ServerHello.
    /// Fails when it holds no packet, or as `handle_server_hello` does.
    pub fn on_server_hello(&mut self, datagram: &[u8]) -> (res: Result<()>)
        requires
            old(self).handshake is Some,
            server_hello_datagram_ok(datagram@),
        ensures
            *final(self) == (Connection { handshake: final(self).handshake, ..*old(self) }),
            spec_decode_frame(datagram@) is None ==> (res matches Err(e) && e is ProtocolViolation),
            final(self).handshake is Some,
            final(self).state == old(self).state,
            final(self).aead == old(self).aead,
            final(self).identity == old(self).identity,
            final(self).config == old(self).config,
            res is Ok ==> (final(self).handshake matches Some(h) && h.state
                == HandshakeState::KeysDerived && h.session_key is Some),
            spec_decode_frame(datagram@) matches Some(f) ==> (res is Ok <==> (
            server_proof_valid(
                spec_decode_server_hello(f.payload),
                old(self).handshake->Some_0.transcript@,
            ) && old(self).handshake->Some_0.x25519_secret is Some)),
            res is Ok ==> (spec_decode_frame(datagram@) matches Some(f) && {
                let h0 = old(self).handshake->Some_0;
                let h = final(self).handshake->Some_0;
                let sh = spec_decode_server_hello(f.payload);
                &&& h.transcript@ == h0.transcript@ + server_hello_label() + f.payload
                &&& keyed_by_transcript(h.session_key, h.transcript@)
                &&& h.peer_connection_id == Some(sh.source_connection_id)
                &&& h.peer_x25519_public matches Some(x) && x@ == sh.x25519_public
                &&& h.peer_identity matches Some(i) && i@ == sh.identity
                &&& h.capabilities == Some(sh.capabilities)
                &&& h.our_connection_id == h0.our_connection_id
                &&& h.is_client == h0.is_client
                &&& h.x25519_secret is None
            }),
    {
        let frame = match Frame::decode(datagram) {
            Ok(f) => f,
            Err(e) => {
                return Err(e);
            },
        };
        let mut hs = self.handshake.take().unwrap();
        let r = hs.handle_server_hello(&frame);
        self.handshake = Some(hs);
        r
    }

    /// Client, last step: the datagram that should hold the server's
    /// Finished. When it checks, the answer's wire bytes (our Finished) are
    /// returned and the connection is set up: the AEAD session from the
    /// session key, the peer's truncated connection id, `Active`.
    pub fn on_server_finished(&mut self, datagram: &[u8]) -> (res: Result<Vec<u8>>)
        requires
            old(self).handshake is Some,
        ensures
            *final(self) == (Connection {
                handshake: final(self).handshake,
                aead: final(self).aead,
                peer_connection_id: final(self).peer_connection_id,
                state: final(self).state,
                ..*old(self)
            }),
            res is Err ==> final(self).peer_connection_id == old(self).peer_connection_id,
            spec_decode_frame(datagram@) is None ==> (res matches Err(e) && e is ProtocolViolation),
            res is Ok ==> {
                &&& final(self).state == ConnectionState::Active
                &&& final(self).handshake matches Some(h)
                &&& final(self).handshake->Some_0.state == HandshakeState::Complete
                &&& final(self).handshake->Some_0.session_key matches Some(k)
                &&& final(self).handshake->Some_0.peer_connection_id matches Some(p)
                &&& final(self).aead matches Some(s)
                &&& final(self).aead->Some_0.derived_from(
                    final(self).handshake->Some_0.session_key->Some_0@,
                )
                &&& final(self).aead->Some_0.algorithm == AeadAlgorithm::Aes256Gcm
                &&& final(self).peer_connection_id == Some(
                    (final(self).handshake->Some_0.peer_connection_id->Some_0 >> 32u64) as u32,
                )
                &&& res->Ok_0@ == frame_bytes(
                    spec_long_frame(
                        FrameType::Handshake,
                        CONTROL_STREAM_ID,
                        (final(self).handshake->Some_0.peer_connection_id->Some_0 >> 32u64) as u32,
                        final(self).handshake->Some_0.our_connection_id,
                        hmac_sha256(
                            final(self).handshake->Some_0.session_key->Some_0@,
                            final(self).handshake->Some_0.transcript@,
                        ),
                    ),
                )
            },
            res is Err ==> final(self).state == old(self).state && final(self).aead
                == old(self).aead,
            res is Ok <==> (spec_decode_frame(datagram@) matches Some(f) && old(
                self,
            ).handshake->Some_0.session_key is Some && expected_finished(
                old(self).handshake->Some_0,
            ) == Some(f.payload) && old(self).handshake->Some_0.peer_connection_id is Some),
            final(self).handshake is Some,
            final(self).identity == old(self).identity,
            final(self).config == old(self).config,
    {
        let frame = match Frame::decode(datagram) {
            Ok(f) => f,
            Err(e) => {
                return Err(e);
            },
        };
        let mut hs = self.handshake.take().unwrap();
        let cf_frame = match hs.handle_finished_and_respond(&frame) {
            Ok(f) => f,
            Err(e) => {
                self.handshake = Some(hs);
                return Err(e);
            },
        };
        let wire = cf_frame.encode();
        let session_key = hs.session_key.unwrap();
        let peer_cid = hs.peer_connection_id.unwrap();
        let aead = match AeadSession::new(session_key.as_slice(), AeadAlgorithm::Aes256Gcm) {
            Ok(s) => s,
            Err(e) => {
                self.handshake = Some(hs);
                return Err(e);
            },
        };
        self.handshake = Some(hs);
        self.aead = Some(aead);
        self.peer_connection_id = Some((peer_cid >> 32u64) as u32);
        self.state = ConnectionState::Active;
        Ok(wire)
    }

    /// Server, first step: the datagram that opened the connection. It must
    /// hold an Initial packet with an acceptable ClientHello; the answer is
    /// the handshake context and the wire bytes of the ServerHello and of
    /// our Finished, to be sent in that order.
    pub fn server_hello(datagram: &[u8], identity: &Identity, config: &Config) -> (res: Result<
        (HandshakeContext, Vec<u8>, Vec<u8>),
    >)
        requires
            client_hello_datagram_ok(datagram@),
        ensures
            match spec_decode_frame(datagram@) {
                None => res matches Err(e) && e is ProtocolViolation,
                Some(f) => f.header.frame_type != FrameType::Initial ==> (res matches Err(e) && e is ProtocolViolation),
            },
            res is Ok <==> client_hello_acceptable(datagram@),
            res matches Ok((h, sh, sf)) ==> {
                &&& spec_decode_frame(datagram@) matches Some(f)
                &&& spec_decode_client_hello(f.payload) matches Some(ch)
                &&& exists|shf: FrameView|
                    #![trigger server_accepted(Seq::empty(), false, h, ch, f.payload, *identity, config.capabilities, shf)]
                    server_accepted(
                        Seq::empty(),
                        false,
                        h,
                        ch,
                        f.payload,
                        *identity,
                        config.capabilities,
                        shf,
                    ) && sh@ == frame_bytes(shf)
                &&& !h.is_client
                &&& h.state == HandshakeState::KeysDerived
                &&& h.session_key is Some
                &&& h.peer_connection_id is Some
                &&& exists|f: FrameView|
                    #![trigger server_accepted_frame(h, f)]
                    server_accepted_frame(h, f) && sh@ == frame_bytes(f)
                &&& sf@ == frame_bytes(
                    spec_long_frame(
                        FrameType::Handshake,
                        CONTROL_STREAM_ID,
                        (h.peer_connection_id->Some_0 >> 32u64) as u32,
                        h.our_connection_id,
                        hmac_sha256(h.session_key->Some_0@, h.transcript@),
                    ),
                )
            },
    {
        let frame = match Frame::decode(datagram) {
            Ok(f) => f,
            Err(e) => {
                return Err(e);
            },
        };
        if !matches!(frame.header.frame_type, FrameType::Initial) {
            return Err(Error::ProtocolViolation("Expected Initial packet".to_string()));
        }
        let mut hs = HandshakeContext::new_server();
        let sh_frame = match hs.handle_client_hello(&frame, identity, &config.capabilities) {
            Ok(f) => f,
            Err(e) => {
                return Err(e);
            },
        };
        let sh_wire = sh_frame.encode();
        proof {
            let t = hs.transcript@;
            let p = sh_frame@.payload;
            assert(t.subrange(t.len() - p.len(), t.len() as int) =~= p);
            assert(server_accepted_frame(hs, sh_frame@));
            let ch = spec_decode_client_hello(frame@.payload)->Some_0;
            assert(server_accepted(
                Seq::empty(),
                false,
                hs,
                ch,
                frame@.payload,
                *identity,
                config.capabilities,
                sh_frame@,
            ));
        }
        let sf_frame = match hs.create_finished() {
            Ok(f) => f,
            Err(e) => {
                return Err(e);
            },
        };
        let sf_wire = sf_frame.encode();
        Ok((hs, sh_wire, sf_wire))
    }

    /// Server, last step: the datagram that should hold the client's
    /// Finished. When it checks, the connection is established: the AEAD
    /// session from the session key, both truncated connection ids,
    /// streams from our configured limits, the configured idle timeout.
    pub fn server_finished(
        handshake: HandshakeContext,
        datagram: &[u8],
        identity: &Identity,
        config: &Config,
    ) -> (res: Result<Connection>)
        requires
            handshake.session_key is Some,
            handshake.peer_connection_id is Some,
        ensures
            spec_decode_frame(datagram@) is None ==> (res matches Err(e) && e is ProtocolViolation),
            res is Ok <==> (spec_decode_frame(datagram@) matches Some(f) && expected_finished(
                handshake,
            ) == Some(f.payload)),
            res matches Ok(c) ==> {
                &&& c.state == ConnectionState::Active
                &&& !c.is_client
                &&& c.handshake matches Some(h) && h.state == HandshakeState::Complete
                    && h.session_key == handshake.session_key
                &&& handshake.session_key matches Some(k) && c.aead matches Some(s)
                    && s.derived_from(k@)
                &&& c.our_connection_id == (handshake.our_connection_id >> 32u64) as u32
                &&& handshake.peer_connection_id matches Some(p) && c.peer_connection_id == Some(
                    (p >> 32u64) as u32,
                )
                &&& c.streams.stream_map().len() == 0 && !c.streams.client()
                &&& c.streams.stream_limit() == config.capabilities.max_streams
                &&& c.streams.stream_window() == config.capabilities.max_stream_data
                &&& c.streams.connection_window() == CONNECTION_WINDOW
                &&& c.identity == Some(*identity)
                &&& c.config == *config
                &&& c.stats == zero_stats()
                &&& c.tx_packet_number == 0 && c.rx_packet_number == 0
                &&& c.incoming_frames@.len() == 0
                &&& c.idle_timeout_ms == config.capabilities.idle_timeout_ms
            },
    {
        let frame = match Frame::decode(datagram) {
            Ok(f) => f,
            Err(e) => {
                return Err(e);
            },
        };
        let mut hs = handshake;
        if let Err(e) = hs.verify_finished(&frame) {
            return Err(e);
        }
        let session_key = hs.session_key.unwrap();
        let aead = match AeadSession::new(session_key.as_slice(), AeadAlgorithm::Aes256Gcm) {
            Ok(s) => s,
            Err(e) => {
                return Err(e);
            },
        };
        let our_cid = (hs.our_connection_id >> 32u64) as u32;
        let peer_cid = (hs.peer_connection_id.unwrap() >> 32u64) as u32;
        Ok(Connection {
            our_connection_id: our_cid,
            peer_connection_id: Some(peer_cid),
            state: ConnectionState::Active,
            handshake: Some(hs),
            aead: Some(aead),
            streams: StreamManager::new(
                false,
                config.capabilities.max_streams,
                config.capabilities.max_stream_data,
                CONNECTION_WINDOW,
            ),
            identity: Some(identity.clone()),
            config: *config,
            stats: ConnectionStats::default(),
            is_client: false,
            tx_packet_number: 0,
            rx_packet_number: 0,
            incoming_frames: Vec::new(),
            idle_timeout_ms: config.capabilities.idle_timeout_ms,
        })
    }

    /// The connection id our packets carry.
    pub fn frame_connection_id(&self) -> (res: u32)
        ensures
            res == self.spec_frame_connection_id(),
    {
        match self.peer_connection_id {
            Some(p) => p,
            None => self.our_connection_id,
        }
    }

    /// The wire bytes of a packet to send: sealed under our send keys when
    /// there is a session. Only an active connection sends.
    pub fn seal_frame(&self, frame: &Frame) -> (res: Result<Vec<u8>>)
        ensures
            self.state != ConnectionState::Active ==> (res matches Err(e) && e is InvalidState),
            self.state == ConnectionState::Active ==> match self.aead {
                None => res matches Ok(w) && w@ == frame_bytes(frame@),
                Some(s) => {
                    &&& res is Ok <==> frame_bytes(frame@).len() <= AEAD_MAX_INPUT
                    &&& res matches Ok(w) ==> w@ == s.spec_tx_keys(self.is_client).spec_seal(
                        frame_bytes(frame@),
                        self.spec_aad(),
                    )
                    &&& res matches Err(e) ==> e is Crypto
                },
            },
    {
        if !matches!(self.state, ConnectionState::Active) {
            return Err(Error::InvalidState("Connection not active".to_string()));
        }
        let wire = frame.encode();
        match &self.aead {
            Some(aead) => {
                let tx_keys = aead.tx_keys(self.is_client);
                let aad = self.make_aad();
                tx_keys.encrypt(wire.as_slice(), aad.as_slice())
            },
            None => Ok(wire),
        }
    }

    /// A sealed packet of `len` bytes went out: it is counted, and its
    /// packet number is used up. Under a session the send counter and the
    /// send keys' counter advance together, so the next packet is sealed
    /// under the next nonce and the next associated data.
    pub fn record_sent(&mut self, len: usize)
        requires
            old(self).stats.packets_sent < u64::MAX,
            old(self).stats.bytes_sent + len <= u64::MAX,
            old(self).aead is Some ==> old(self).tx_packet_number < u64::MAX && old(
                self,
            ).aead->Some_0.spec_tx_keys(old(self).is_client).packet_number < u64::MAX,
        ensures
            *final(self) == (Connection {
                stats: ConnectionStats {
                    packets_sent: (old(self).stats.packets_sent + 1) as u64,
                    bytes_sent: (old(self).stats.bytes_sent + len) as u64,
                    ..old(self).stats
                },
                tx_packet_number: if old(self).aead is Some {
                    (old(self).tx_packet_number + 1) as u64
                } else {
                    old(self).tx_packet_number
                },
                aead: match old(self).aead {
                    Some(s) => Some(s.spec_after_tx(old(self).is_client)),
                    None => None,
                },
                ..*old(self)
            }),
    {
        self.stats.packets_sent = self.stats.packets_sent + 1;
        self.stats.bytes_sent = self.stats.bytes_sent + len as u64;
        let is_client = self.is_client;
        match self.aead.take() {
            Some(session) => {
                let mut session = session;
                session.increment_tx(is_client);
                self.aead = Some(session);
                self.tx_packet_number = self.tx_packet_number + 1;
            },
            None => {},
        }
    }

    /// The next queued incoming frame, if any, first in first out.
    pub fn take_queued_frame(&mut self) -> (res: Option<Frame>)
        ensures
            *final(self) == (Connection { incoming_frames: final(self).incoming_frames, ..*old(self) }),
            old(self).incoming_frames@.len() == 0 ==> res is None && final(self).incoming_frames
                == old(self).incoming_frames,
            old(self).incoming_frames@.len() > 0 ==> res == Some(old(self).incoming_frames@[0])
                && final(self).incoming_frames@ == old(self).incoming_frames@.drop_first(),
            final(self).stats == old(self).stats,
            final(self).state == old(self).state,
    {
        if self.incoming_frames.len() == 0 {
            return None;
        }
        let f = self.incoming_frames.remove(0);
        assert(self.incoming_frames@ =~= old(self).incoming_frames@.drop_first());
        Some(f)
    }

    /// The connection after a packet opened: under a session the receive
    /// counter and the receive keys' counter advance together.
    pub open spec fn spec_after_open(&self) -> Connection {
        match self.aead {
            Some(s) => Connection {
                aead: Some(s.spec_after_rx(self.is_client)),
                rx_packet_number: (self.rx_packet_number + 1) as u64,
                ..*self
            },
            None => *self,
        }
    }

    /// A received datagram: opened under our receive keys when there is a
    /// session (the nonce from the receive keys' counter, the associated
    /// data from the sender's connection id and our receive counter), then
    /// decoded. A packet that opens uses up its packet number; one that also
    /// decodes is counted with its bytes. One that does not open changes
    /// nothing.
    pub fn open_datagram(&mut self, datagram: &[u8]) -> (res: Result<Frame>)
        requires
            old(self).stats.packets_received < u64::MAX,
            old(self).stats.bytes_received + datagram@.len() <= u64::MAX,
            old(self).aead is Some ==> old(self).rx_packet_number < u64::MAX && old(
                self,
            ).aead->Some_0.spec_rx_keys(old(self).is_client).packet_number < u64::MAX,
        ensures
            ({
                let plain = match old(self).aead {
                    None => Some(datagram@),
                    Some(s) => s.spec_rx_keys(old(self).is_client).spec_open(
                        datagram@,
                        old(self).spec_rx_aad(),
                    ),
                };
                let opened = old(self).spec_after_open();
                match plain {
                    None => res matches Err(e) && e is Crypto && *final(self) == *old(self),
                    Some(p) => match spec_decode_frame(p) {
                        None => res matches Err(e) && e is ProtocolViolation && *final(self)
                            == opened,
                        Some(f) => res matches Ok(fr) && fr@ == f && *final(self) == (Connection {
                            stats: ConnectionStats {
                                packets_received: (old(self).stats.packets_received + 1) as u64,
                                bytes_received: (old(self).stats.bytes_received
                                    + datagram@.len()) as u64,
                                ..old(self).stats
                            },
                            ..opened
                        }),
                    },
                }
            }),
    {
        let is_client = self.is_client;
        let decrypted = match &self.aead {
            Some(aead) => {
                let rx_keys = aead.rx_keys(is_client);
                let aad = self.make_rx_aad();
                match rx_keys.decrypt(datagram, aad.as_slice()) {
                    Ok(p) => p,
                    Err(e) => {
                        return Err(e);
                    },
                }
            },
            None => vstd::slice::slice_to_vec(datagram),
        };
        match self.aead.take() {
            Some(session) => {
                let mut session = session;
                session.increment_rx(is_client);
                self.aead = Some(session);
                self.rx_packet_number = self.rx_packet_number + 1;
            },
            None => {},
        }
        let frame = match Frame::decode(decrypted.as_slice()) {
            Ok(f) => f,
            Err(e) => {
                return Err(e);
            },
        };
        self.stats.packets_received = self.stats.packets_received + 1;
        self.stats.bytes_received = self.stats.bytes_received + datagram.len() as u64;
        Ok(frame)
    }

    /// The Data packets that carry `data` on a stream: pieces of
    /// `MAX_PAYLOAD_SIZE` bytes (the last may be shorter) at offsets 0,
    /// `MAX_PAYLOAD_SIZE`, ..., each addressed to our frame connection id.
    pub fn stream_data_frames(&self, stream_id: StreamId, data: &[u8]) -> (res: Vec<Frame>)
        requires
            data@.len() <= u32::MAX,
        ensures
            res@.len() == chunk_count(data@.len() as int),
            forall|i: int|
                0 <= i < res@.len() ==> (#[trigger] res@[i])@ == spec_short_frame(
                    FrameType::Data,
                    stream_id,
                    self.spec_frame_connection_id(),
                    (i * MAX_PAYLOAD_SIZE) as u32,
                    chunk_of(data@, i),
                ),
    {
        let cid = self.frame_connection_id();
        let mut frames: Vec<Frame> = Vec::new();
        let len: u64 = data.len() as u64;
        let mut start: u64 = 0;
        let mut i: usize = 0;
        while start < len
            invariant
                len == data@.len(),
                len <= u32::MAX,
                start == i * MAX_PAYLOAD_SIZE,
                i == 0 || (i - 1) * MAX_PAYLOAD_SIZE < len,
                frames@.len() == i,
                cid == self.spec_frame_connection_id(),
                forall|k: int|
                    0 <= k < i ==> (#[trigger] frames@[k])@ == spec_short_frame(
                        FrameType::Data,
                        stream_id,
                        cid,
                        (k * MAX_PAYLOAD_SIZE) as u32,
                        chunk_of(data@, k),
                    ),
            decreases len + MAX_PAYLOAD_SIZE - start,
        {
            let end: u64 = if len - start > MAX_PAYLOAD_SIZE as u64 {
                start + MAX_PAYLOAD_SIZE as u64
            } else {
                len
            };
            let chunk = vstd::slice::slice_to_vec(
                vstd::slice::slice_subrange(data, start as usize, end as usize),
            );
            assert(chunk@ == chunk_of(data@, i as int));
            let f = Frame::data(stream_id, cid, start as u32, chunk);
            frames.push(f);
            start = start + MAX_PAYLOAD_SIZE as u64;
            i = i + 1;
        }
        proof {
            lemma_chunk_count_exact(len as int, i as int);
        }
        frames
    }

    /// Open a stream.
    pub fn open_stream(&mut self) -> (res: Result<StreamId>)
        requires
            old(self).streams.next_id() + 2 <= u32::MAX,
        ensures
            *final(self) == (Connection { streams: final(self).streams, ..*old(self) }),
            res is Err ==> final(self).streams.stream_map() == old(self).streams.stream_map(),
            res matches Ok(id) ==> final(self).streams.stream_map()[id].is_fresh(
                id,
                old(self).streams.client(),
                old(self).streams.stream_window(),
            ),
            res matches Ok(id) ==> forall|k: StreamId|
                k != id && #[trigger] old(self).streams.stream_map().contains_key(k)
                    ==> final(self).streams.stream_map()[k] == old(self).streams.stream_map()[k],
            final(self).state == old(self).state,
            old(self).streams.stream_map().len() < old(self).streams.stream_limit()
                && old(self).streams.next_id() <= crate::framing::MAX_STREAM_ID ==> res == Ok::<
                StreamId,
                Error,
            >(old(self).streams.next_id()),
            res is Err ==> res->Err_0 is FlowControl,
            res is Err <==> (old(self).streams.stream_map().len() >= old(self).streams.stream_limit()
                || old(self).streams.next_id() > crate::framing::MAX_STREAM_ID),
            res matches Ok(id) ==> final(self).streams.stream_map().dom() == old(
                self,
            ).streams.stream_map().dom().insert(id),
    {
        self.streams.open_stream()
    }

    /// One of the streams: fails when there is none.
    pub fn accept_stream(&self) -> (res: Result<StreamId>)
        ensures
            match res {
                Ok(id) => self.streams.stream_map().dom().contains(id),
                Err(e) => self.streams.stream_map().len() == 0 && e is InvalidState,
            },
    {
        let active = self.streams.active_streams();
        if active.len() == 0 {
            proof {
                assert(active@.to_set() =~= Set::<StreamId>::empty());
                assert(self.streams.stream_map().dom().len() == 0);
            }
            return Err(Error::InvalidState("No streams available".to_string()));
        }
        let id = active[0];
        assert(active@.to_set().contains(active@[0]));
        Ok(id)
    }

    /// The Close packet with `code` that this connection sends.
    pub open spec fn spec_close_frame(&self, code: CloseCode) -> FrameView {
        spec_short_frame(
            FrameType::Close,
            crate::framing::CONTROL_STREAM_ID,
            self.spec_frame_connection_id(),
            0,
            seq![code.spec_code()] + "Connection closed".spec_bytes(),
        )
    }

    /// The bytes sending `f` puts on the wire: sealed under our send keys
    /// when there is a session, in the clear otherwise.
    pub open spec fn spec_sealed(&self, f: FrameView) -> Seq<u8> {
        match self.aead {
            None => frame_bytes(f),
            Some(s) => s.spec_tx_keys(self.is_client).spec_seal(frame_bytes(f), self.spec_aad()),
        }
    }

    /// Start closing: the connection becomes `Closing`. An active connection
    /// seals the Close packet with `code` first and returns its wire bytes
    /// for sending; any other connection has nothing to send it on and
    /// fails with `InvalidState`.
    pub fn start_close(&mut self, code: CloseCode) -> (res: Result<Vec<u8>>)
        ensures
            *final(self) == (Connection { state: ConnectionState::Closing, ..*old(self) }),
            final(self).state == ConnectionState::Closing,
            old(self).state == ConnectionState::Active ==> (res matches Ok(w) && w@
                == old(self).spec_sealed(old(self).spec_close_frame(code))),
            old(self).state != ConnectionState::Active ==> (res matches Err(e) && e is InvalidState),
            final(self).stats == old(self).stats,
            final(self).aead == old(self).aead,
            final(self).is_client == old(self).is_client,
            final(self).our_connection_id == old(self).our_connection_id,
            final(self).peer_connection_id == old(self).peer_connection_id,
            final(self).tx_packet_number == old(self).tx_packet_number,
    {
        let frame = Frame::close(self.frame_connection_id(), code, "Connection closed");
        proof {
            lemma_close_reason_len();
            assert(frame_bytes(frame@).len() == 34);
        }
        let sealed = self.seal_frame(&frame);
        self.state = ConnectionState::Closing;
        sealed
    }

    /// The Close packet went out: the connection is closed.
    pub fn finish_close(&mut self)
        ensures
            *final(self) == (Connection { state: ConnectionState::Closed, ..*old(self) }),
            final(self).state == ConnectionState::Closed,
            final(self).stats == old(self).stats,
    {
        self.state = ConnectionState::Closed;
    }

    /// Associated data of the next packet we receive.
    fn make_rx_aad(&self) -> (res: Vec<u8>)
        ensures
            res@ == self.spec_rx_aad(),
    {
        let mut aad: Vec<u8> = Vec::new();
        write_u32_be(&mut aad, self.frame_connection_id());
        write_u64_be(&mut aad, self.rx_packet_number);
        aad
    }

    /// Associated data of the next packet we send.
    fn make_aad(&self) -> (res: Vec<u8>)
        ensures
            res@ == self.spec_aad(),
    {
        let mut aad: Vec<u8> = Vec::new();
        write_u32_be(&mut aad, self.our_connection_id);
        write_u64_be(&mut aad, self.tx_packet_number);
        aad
    }

    /// Whether the connection is established.
    pub fn is_active(&self) -> (res: bool)
        ensures
            res == (self.state == ConnectionState::Active),
    {
        matches!(self.state, ConnectionState::Active)
    }
}

/// Number of `MAX_PAYLOAD_SIZE` pieces that `len` bytes are cut into.
pub open spec fn chunk_count(len: int) -> int {
    (len + MAX_PAYLOAD_SIZE - 1) / (MAX_PAYLOAD_SIZE as int)
}

/// Piece `i` of `data`.
pub open spec fn chunk_of(data: Seq<u8>, i: int) -> Seq<u8> {
    let start = i * MAX_PAYLOAD_SIZE;
    let end = if data.len() - start > MAX_PAYLOAD_SIZE {
        start + MAX_PAYLOAD_SIZE
    } else {
        data.len() as int
    };
    data.subrange(start, end)
}

/// The first `n` pieces of `data`, joined.
pub open spec fn chunks_joined(data: Seq<u8>, n: int) -> Seq<u8>
    decreases n,
{
    if n <= 0 {
        Seq::empty()
    } else {
        chunks_joined(data, n - 1) + chunk_of(data, n - 1)
    }
}

proof fn lemma_chunks_prefix(data: Seq<u8>, k: int)
    requires
        0 <= k <= chunk_count(data.len() as int),
    ensures
        chunks_joined(data, k) == data.subrange(
            0,
            if k * 1376 < data.len() {
                k * 1376
            } else {
                data.len() as int
            },
        ),
    decreases k,
{
    let len = data.len() as int;
    if k == 0 {
        assert(data.subrange(0, 0) =~= Seq::<u8>::empty());
    } else {
        lemma_chunks_prefix(data, k - 1);
        assert((k - 1) * 1376 < len) by (nonlinear_arith)
            requires
                0 < k,
                k <= (len + 1375) / 1376,
        {
        }
        assert(k * 1376 == (k - 1) * 1376 + 1376) by (nonlinear_arith);
        let e = if k * 1376 < len {
            k * 1376
        } else {
            len
        };
        assert(chunk_of(data, k - 1) == data.subrange((k - 1) * 1376, e));
        assert(data.subrange(0, (k - 1) * 1376) + data.subrange((k - 1) * 1376, e) =~= data.subrange(
            0,
            e,
        ));
    }
}

/// The pieces that stream data is cut into join back to the data.
pub proof fn lemma_stream_chunks_reassemble(data: Seq<u8>)
    ensures
        chunks_joined(data, chunk_count(data.len() as int)) == data,
{
    let len = data.len() as int;
    let n = chunk_count(len);
    assert(n >= 0 && n * 1376 >= len) by (nonlinear_arith)
        requires
            n == (len + 1375) / 1376,
            len >= 0,
    {
    }
    lemma_chunks_prefix(data, n);
    assert(data.subrange(0, len) =~= data);
}

proof fn lemma_chunk_count_exact(len: int, i: int)
    requires
        0 <= i,
        0 <= len,
        i * 1376 >= len,
        i == 0 || (i - 1) * 1376 < len,
    ensures
        i == chunk_count(len),
{
    assert(i == (len + 1375) / 1376) by (nonlinear_arith)
        requires
            0 <= i,
            0 <= len,
            i * 1376 >= len,
            i == 0 || (i - 1) * 1376 < len,
    {
    }
}

} // verus!
