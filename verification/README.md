# Aether protocol, verified

Aether is an L4 transport protocol: multiplexed streams, mandatory AEAD
encryption, multi-path connections and Ed25519 self-sovereign identity.

`src/` is the protocol's logic, written in Verus with a contract on every
function:

| module        | what it holds |
|---------------|---------------|
| `framing`     | the 16/24-byte headers, the TLV extension chain, packets; decoding the bytes of a packet gives it back |
| `stream`      | stream states, stream- and connection-level flow control, the stream manager |
| `crypto`      | AES-256-GCM sealing under per-packet nonces, the HKDF key schedule, Finished MACs |
| `identity`    | identities as Ed25519 seeds, signatures, identity hashes |
| `handshake`   | ClientHello / ServerHello wire formats, capability negotiation, the handshake state machine |
| `connection`  | a connection's state and each step of the client's and the server's handshake, sealing and opening packets |
| `multipath`   | path validation (PathChallenge / PathResponse) and path bookkeeping |
| `discovery`   | discovery datagrams, what to do with each, DHT keys and XOR distances |
| `congestion`  | the integer decisions of the congestion controller |
| `sdk`         | vault selection, seeds from hex, rotation policy, SLA results |

Cryptographic primitives (RustCrypto, dalek), randomness and hex come from
their crates through small trusted wrappers whose contracts name what they
compute.

`app/` is the rest: UDP sockets and the async connection API, the discovery
service, the floating-point parts of congestion control and path selection,
metrics, SLA policy parsing, the echo demo and the TCP gateway.

`tests/` exercises the library on concrete values.
