//! Aether: an L4 transport protocol with multiplexed streams, mandatory
//! encryption, multi-path connections and self-sovereign identity.
//!
//! This crate holds the protocol's logic: the wire format, the handshake
//! messages and state machine, stream and flow-control bookkeeping, the key
//! schedule and the identity scheme, connection and path management, peer
//! discovery, the congestion controller's integer decisions and the
//! enterprise layer's configuration, each with its contract. Sockets,
//! timers and clocks stay with the caller: the connection and the path
//! manager take what was received and the time, and give what to send.

use vstd::prelude::*;

pub mod congestion;
pub mod connection;
pub mod crypto;
pub mod discovery;
pub mod error;
pub mod framing;
pub mod handshake;
pub mod identity;
pub mod multipath;
pub mod sdk;
pub mod stream;

pub use connection::{Config, Connection};
pub use error::{CloseCode, Error, Result};
pub use framing::{
    ExtType, Extension, Frame, FrameType, LongHeader, Packet, ShortHeader, MAX_PACKET_SIZE,
};
pub use identity::Identity;
pub use stream::{Stream, StreamId, StreamState};

verus! {

/// Protocol version carried in every header.
pub const AETHER_VERSION: u8 = 0;

/// Default UDP port.
pub const AETHER_DEFAULT_PORT: u16 = 9000;

/// Largest payload of one packet: the packet size less the long header.
pub const MAX_PAYLOAD_SIZE: usize = 1376;

/// Initial congestion window: ten packets of `MAX_PACKET_SIZE` bytes.
pub const INITIAL_CWND: u64 = 14000;

/// Default idle timeout of a connection, in milliseconds.
pub const IDLE_TIMEOUT_MS: u64 = 30_000;

/// Base probe timeout, in milliseconds.
pub const PTO_BASE_MS: u64 = 100;

} // verus!
