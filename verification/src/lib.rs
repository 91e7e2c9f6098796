//! The core of an edge-deployed tunneling proxy: a byte-stream adapter
//! over a message-framed inbound transport, an incremental parser and
//! validator for the compact binary handshake, the outbound dispatch
//! policy (TCP dial with ordered fallback; UDP emulated as DNS over
//! HTTP), and the framing both paths speak — each stated in a contract
//! and proved. The host glue that performs the actual I/O drives these
//! decisions from outside.
use vstd::prelude::*;

pub mod addr;
pub mod config;
pub mod dial;
pub mod dns;
pub mod handshake;
pub mod stream;
pub mod tunnel;

verus! {

/// The single protocol version this tunnel accepts.
pub const PROTOCOL_VERSION: u8 = 0;

/// Two-byte acknowledgment written to the client before any payload.
pub const RESPONSE_HEADER: [u8; 2] = [0u8, 0u8];

/// Network-type byte for a TCP destination.
pub const NETWORK_TYPE_TCP: u8 = 1;
/// Network-type byte for a UDP destination.
pub const NETWORK_TYPE_UDP: u8 = 2;

/// Address-type byte for a 4-byte IPv4 address.
pub const ADDRESS_TYPE_IPV4: u8 = 1;
/// Address-type byte for a length-prefixed domain name.
pub const ADDRESS_TYPE_DOMAIN: u8 = 2;
/// Address-type byte for a 16-byte IPv6 address.
pub const ADDRESS_TYPE_IPV6: u8 = 3;

/// The only UDP destination port the tunnel supports: DNS.
pub const DNS_PORT: u16 = 53;

/// The number of bytes in a credential.
pub const CREDENTIAL_LEN: usize = 16;

} // verus!
