//! Peer discovery: the framing of discovery datagrams, what to do with each
//! kind, and the Kademlia DHT's keys and distances.
//!
//! On a LAN, nodes announce themselves to a UDP multicast group every 30
//! seconds; announcements live 5 minutes in each peer's cache. Across the
//! WAN, a Kademlia DHT maps SHA-256 of an identity to the node's addresses.
//!
//! A discovery datagram is the magic `AED$`, the message type, the protocol
//! version and the JSON-encoded peer information; the JSON itself is the
//! caller's business.

use vstd::prelude::*;

use crate::crypto::{sha256, sha256_digest};
use crate::error::{Error, Result};
use crate::framing::u32_of;
use crate::AETHER_VERSION;
use vstd::string::StringSliceAdditionalSpecFns;

verus! {

/// Magic bytes of a discovery datagram: `AED$`.
pub open spec fn discovery_magic() -> Seq<u8> {
    seq![0x41u8, 0x45u8, 0x44u8, 0x24u8]
}

/// Kind of a discovery message.
#[derive(Debug, Clone, Copy, PartialEq, Eq, Structural)]
pub enum DiscoveryMessageType {
    /// "I am here, these are my details."
    Announce,
    /// "Who is here?"
    Query,
    /// Answer to a query.
    Response,
    /// "I am leaving" (graceful shutdown).
    Goodbye,
}

impl DiscoveryMessageType {
    /// The type's byte.
    pub open spec fn spec_code(self) -> u8 {
        match self {
            DiscoveryMessageType::Announce => 0x01,
            DiscoveryMessageType::Query => 0x02,
            DiscoveryMessageType::Response => 0x03,
            DiscoveryMessageType::Goodbye => 0x04,
        }
    }

    /// The type a byte stands for, if any.
    pub open spec fn spec_from_code(b: u8) -> Option<DiscoveryMessageType> {
        if b == 0x01 {
            Some(DiscoveryMessageType::Announce)
        } else if b == 0x02 {
            Some(DiscoveryMessageType::Query)
        } else if b == 0x03 {
            Some(DiscoveryMessageType::Response)
        } else if b == 0x04 {
            Some(DiscoveryMessageType::Goodbye)
        } else {
            None
        }
    }

    /// The type's byte.
    pub fn to_u8(self) -> (res: u8)
        ensures
            res == self.spec_code(),
    {
        match self {
            DiscoveryMessageType::Announce => 0x01,
            DiscoveryMessageType::Query => 0x02,
            DiscoveryMessageType::Response => 0x03,
            DiscoveryMessageType::Goodbye => 0x04,
        }
    }

    /// Decode a type byte; bytes other than 0x01 to 0x04 are unknown.
    pub fn from_u8(b: u8) -> (res: Option<DiscoveryMessageType>)
        ensures
            res == DiscoveryMessageType::spec_from_code(b),
    {
        match b {
            0x01 => Some(DiscoveryMessageType::Announce),
            0x02 => Some(DiscoveryMessageType::Query),
            0x03 => Some(DiscoveryMessageType::Response),
            0x04 => Some(DiscoveryMessageType::Goodbye),
            _ => None,
        }
    }
}

/// A discovery datagram: the magic, the message type, the protocol version
/// and the encoded peer information.
#[derive(Debug, Clone)]
pub struct DiscoveryPacket {
    /// Magic bytes (`AED$`).
    pub magic: [u8; 4],
    /// Message type.
    pub msg_type: DiscoveryMessageType,
    /// Protocol version.
    pub version: u8,
    /// The peer information, JSON-encoded.
    pub peer_info: Vec<u8>,
}

/// Wire bytes of a discovery datagram.
pub open spec fn discovery_bytes(
    magic: Seq<u8>,
    msg_type: DiscoveryMessageType,
    version: u8,
    peer_info: Seq<u8>,
) -> Seq<u8> {
    magic + seq![msg_type.spec_code(), version] + peer_info
}

/// Why a datagram is not a discovery message, if it is not: shorter than 6
/// bytes, wrong magic, or an unknown type.
pub open spec fn discovery_datagram_valid(s: Seq<u8>) -> bool {
    &&& s.len() >= 6
    &&& s.subrange(0, 4) == discovery_magic()
    &&& DiscoveryMessageType::spec_from_code(s[4]) is Some
}

impl DiscoveryPacket {
    /// A message of the current version.
    pub fn new(msg_type: DiscoveryMessageType, peer_info: Vec<u8>) -> (res: Self)
        ensures
            res.magic@ == discovery_magic(),
            res.msg_type == msg_type,
            res.version == AETHER_VERSION,
            res.peer_info@ == peer_info@,
    {
        let res = DiscoveryPacket {
            magic: [0x41u8, 0x45u8, 0x44u8, 0x24u8],
            msg_type,
            version: AETHER_VERSION,
            peer_info,
        };
        assert(res.magic@ =~= discovery_magic());
        res
    }

    /// The datagram's bytes.
    pub fn encode(&self) -> (res: Vec<u8>)
        ensures
            res@ == discovery_bytes(self.magic@, self.msg_type, self.version, self.peer_info@),
    {
        let mut buf: Vec<u8> = Vec::new();
        buf.extend_from_slice(self.magic.as_slice());
        buf.push(self.msg_type.to_u8());
        buf.push(self.version);
        buf.extend_from_slice(self.peer_info.as_slice());
        assert(buf@ =~= discovery_bytes(self.magic@, self.msg_type, self.version, self.peer_info@));
        buf
    }

    /// Decode a datagram. Fails on fewer than 6 bytes, on other magic and
    /// on an unknown message type; the peer information is the rest.
    pub fn decode(data: &[u8]) -> (res: Result<Self>)
        ensures
            match res {
                Ok(p) => {
                    &&& discovery_datagram_valid(data@)
                    &&& p.magic@ == discovery_magic()
                    &&& Some(p.msg_type) == DiscoveryMessageType::spec_from_code(data@[4])
                    &&& p.version == data@[5]
                    &&& p.peer_info@ == data@.subrange(6, data@.len() as int)
                },
                Err(e) => !discovery_datagram_valid(data@) && e is ProtocolViolation,
            },
    {
        if data.len() < 6 {
            return Err(Error::ProtocolViolation("Discovery message too short".to_string()));
        }
        let magic = [data[0], data[1], data[2], data[3]];
        if !(magic[0] == 0x41u8 && magic[1] == 0x45u8 && magic[2] == 0x44u8 && magic[3] == 0x24u8) {
            proof {
                assert(data@.subrange(0, 4)[0] == data@[0]);
                assert(data@.subrange(0, 4)[1] == data@[1]);
                assert(data@.subrange(0, 4)[2] == data@[2]);
                assert(data@.subrange(0, 4)[3] == data@[3]);
            }
            return Err(Error::ProtocolViolation("Invalid discovery magic bytes".to_string()));
        }
        assert(magic@ =~= discovery_magic());
        assert(data@.subrange(0, 4) =~= discovery_magic());
        let msg_type = match DiscoveryMessageType::from_u8(data[4]) {
            Some(t) => t,
            None => {
                return Err(Error::ProtocolViolation("Unknown discovery message type".to_string()));
            },
        };
        let version = data[5];
        let peer_info = vstd::slice::slice_to_vec(vstd::slice::slice_subrange(data, 6, data.len()));
        Ok(DiscoveryPacket { magic, msg_type, version, peer_info })
    }
}

/// Decoding the bytes of a discovery message gives it back.
pub proof fn lemma_discovery_roundtrip(msg_type: DiscoveryMessageType, version: u8, peer_info: Seq<u8>)
    ensures
        ({
            let s = discovery_bytes(discovery_magic(), msg_type, version, peer_info);
            &&& discovery_datagram_valid(s)
            &&& DiscoveryMessageType::spec_from_code(s[4]) == Some(msg_type)
            &&& s[5] == version
            &&& s.subrange(6, s.len() as int) == peer_info
        }),
{
    let s = discovery_bytes(discovery_magic(), msg_type, version, peer_info);
    assert(s.subrange(0, 4) =~= discovery_magic());
    assert(s.subrange(6, s.len() as int) =~= peer_info);
}

/// What a node does with a discovery message.
#[derive(Debug, Clone, Copy, PartialEq, Eq, Structural)]
pub enum DiscoveryAction {
    /// Nothing (our own announcement).
    Ignore,
    /// Put the peer in the cache.
    Cache,
    /// Answer with our announcement.
    Reply,
    /// Drop the peer from the cache.
    Remove,
}

/// The action for a message: announcements and responses are cached unless
/// they are our own, a query gets our announcement, a goodbye removes the
/// peer.
pub open spec fn spec_discovery_action(msg_type: DiscoveryMessageType, from_self: bool) -> DiscoveryAction {
    match msg_type {
        DiscoveryMessageType::Announce | DiscoveryMessageType::Response => if from_self {
            DiscoveryAction::Ignore
        } else {
            DiscoveryAction::Cache
        },
        DiscoveryMessageType::Query => DiscoveryAction::Reply,
        DiscoveryMessageType::Goodbye => DiscoveryAction::Remove,
    }
}

/// What to do with a message of `msg_type` from the identity `sender`,
/// ours being `ours`.
pub fn discovery_action(msg_type: DiscoveryMessageType, sender: &str, ours: &str) -> (res: DiscoveryAction)
    ensures
        res == spec_discovery_action(msg_type, sender@ == ours@),
{
    let from_self = crate::crypto::str_eq(sender, ours);
    match msg_type {
        DiscoveryMessageType::Announce | DiscoveryMessageType::Response => if from_self {
            DiscoveryAction::Ignore
        } else {
            DiscoveryAction::Cache
        },
        DiscoveryMessageType::Query => DiscoveryAction::Reply,
        DiscoveryMessageType::Goodbye => DiscoveryAction::Remove,
    }
}

/// A node never caches itself.
pub proof fn lemma_never_cache_self(msg_type: DiscoveryMessageType)
    ensures
        spec_discovery_action(msg_type, true) != DiscoveryAction::Cache,
{
}

/// What each message is for, whoever sent it: every query is answered with
/// our announcement and every goodbye removes the peer, from another node
/// as from ourselves; an announcement or a response from another node is
/// cached, and one of our own is ignored. Only caching depends on the
/// sender.
pub proof fn lemma_discovery_message_roles(from_self: bool)
    ensures
        spec_discovery_action(DiscoveryMessageType::Query, from_self) == DiscoveryAction::Reply,
        spec_discovery_action(DiscoveryMessageType::Goodbye, from_self) == DiscoveryAction::Remove,
        spec_discovery_action(DiscoveryMessageType::Announce, from_self) == if from_self {
            DiscoveryAction::Ignore
        } else {
            DiscoveryAction::Cache
        },
        spec_discovery_action(DiscoveryMessageType::Response, from_self) == if from_self {
            DiscoveryAction::Ignore
        } else {
            DiscoveryAction::Cache
        },
        spec_discovery_action(DiscoveryMessageType::Query, true) == spec_discovery_action(
            DiscoveryMessageType::Query,
            false,
        ),
        spec_discovery_action(DiscoveryMessageType::Goodbye, true) == spec_discovery_action(
            DiscoveryMessageType::Goodbye,
            false,
        ),
{
}

// ─────────────────────────────────────────────────────────────────────
// DHT
// ─────────────────────────────────────────────────────────────────────

/// The DHT key of an identity: SHA-256("aether-dht:" || identity hash).
pub open spec fn spec_dht_key(identity_hash: Seq<u8>) -> Seq<u8> {
    sha256("aether-dht:".spec_bytes() + identity_hash)
}

/// The DHT key of an identity (given as its hex string).
pub fn dht_key(identity_hash: &str) -> (res: [u8; 32])
    ensures
        res@ == spec_dht_key(identity_hash.spec_bytes()),
{
    let mut input: Vec<u8> = Vec::new();
    input.extend_from_slice("aether-dht:".as_bytes());
    input.extend_from_slice(identity_hash.as_bytes());
    assert(input@ =~= "aether-dht:".spec_bytes() + identity_hash.spec_bytes());
    sha256_digest(input.as_slice())
}

/// Whether a DHT record created at `created` (UNIX seconds) with `ttl`
/// seconds has expired at `now`.
pub fn dht_record_expired(created: u64, ttl: u64, now: u64) -> (res: bool)
    requires
        created + ttl <= u64::MAX,
    ensures
        res == (now >= created + ttl),
{
    now >= created + ttl
}

/// The Kademlia distance of two keys: their bytewise XOR.
pub open spec fn spec_xor_distance(a: Seq<u8>, b: Seq<u8>) -> Seq<u8> {
    Seq::new(32, |i: int| a[i] ^ b[i])
}

/// Kademlia's XOR metric between two keys.
pub fn xor_distance(a: &[u8; 32], b: &[u8; 32]) -> (res: [u8; 32])
    ensures
        res@ == spec_xor_distance(a@, b@),
{
    let mut result = [0u8; 32];
    let mut i: usize = 0;
    while i < 32
        invariant
            i <= 32,
            forall|k: int| 0 <= k < i ==> result@[k] == a@[k] ^ b@[k],
        decreases 32 - i,
    {
        result[i] = a[i] ^ b[i];
        i = i + 1;
    }
    assert(result@ =~= spec_xor_distance(a@, b@));
    result
}

/// The XOR metric is a metric: a key is at distance zero from itself only,
/// and distance is symmetric.
pub proof fn lemma_xor_distance_metric(a: Seq<u8>, b: Seq<u8>)
    requires
        a.len() == 32,
        b.len() == 32,
    ensures
        spec_xor_distance(a, b) == spec_xor_distance(b, a),
        spec_xor_distance(a, a) == Seq::new(32, |i: int| 0u8),
        spec_xor_distance(a, b) == Seq::new(32, |i: int| 0u8) ==> a == b,
{
    assert forall|i: int| 0 <= i < 32 implies (a[i] ^ b[i]) == (b[i] ^ a[i]) && (a[i] ^ a[i])
        == 0u8 by {
        let x = a[i];
        let y = b[i];
        assert((x ^ y) == (y ^ x) && (x ^ x) == 0u8) by (bit_vector);
    }
    assert(spec_xor_distance(a, b) =~= spec_xor_distance(b, a));
    assert(spec_xor_distance(a, a) =~= Seq::new(32, |i: int| 0u8));
    if spec_xor_distance(a, b) == Seq::new(32, |i: int| 0u8) {
        assert forall|i: int| 0 <= i < 32 implies a[i] == b[i] by {
            let x = a[i];
            let y = b[i];
            assert(spec_xor_distance(a, b)[i] == 0u8);
            assert((x ^ y) == 0u8 ==> x == y) by (bit_vector);
        }
        assert(a =~= b);
    }
}

/// The sort key of a distance: its four high bytes, big-endian.
pub fn distance_order(distance: &[u8; 32]) -> (res: u32)
    ensures
        res == u32_of(distance@[0], distance@[1], distance@[2], distance@[3]),
{
    ((distance[0] as u32) << 24u32) | ((distance[1] as u32) << 16u32) | ((distance[2] as u32)
        << 8u32) | (distance[3] as u32)
}

} // verus!
