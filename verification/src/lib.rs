//! Wire-level packet codec and reliability footer for a BigWorld-family
//! network stack.
//!
//! A datagram is a 4-byte opaque prefix, a 16-bit flag word, a body, and a
//! tightly packed trailer whose fields are selected by the flag word.
//! [`RawPacket`] is the fixed-capacity byte buffer, [`Packet`] layers the
//! body/trailer discipline over it, and [`PacketConfig`] is the in-memory
//! form of the trailer. `Packet::sync_data` encodes the trailer from a
//! config; `Packet::sync_state` decodes it back, peeling fields off the
//! datagram tail in reverse order.

use vstd::prelude::*;

pub mod checksum;
pub mod codec;
pub mod config;
pub mod flags;
pub mod laws;
pub mod packet;
pub mod raw;
pub mod reply;

verus! {

/// Maximum size of a datagram: an MTU of 1500 minus 28 bytes of IPv4 + UDP
/// headers. This includes the 4-byte prefix.
pub const PACKET_MAX_LEN: usize = 1472;

/// Length of the opaque prefix that starts every datagram.
pub const PACKET_PREFIX_LEN: usize = 4;

/// Length of the 16-bit flag word that follows the prefix.
pub const PACKET_FLAGS_LEN: usize = 2;

/// Minimum length of a raw packet: prefix plus flags.
pub const PACKET_MIN_LEN: usize = PACKET_PREFIX_LEN + PACKET_FLAGS_LEN;

/// Maximum size the trailer can take.
pub const PACKET_MAX_FOOTER_LEN: usize = 33;

} // verus!
