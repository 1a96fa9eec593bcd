//! The packet flag word and its known bits.
//!
//! The flag word sits at bytes `[4, 6)` of every datagram and selects which
//! trailer fields follow the body. Only the bits in [`KNOWN_FLAGS`] are
//! understood by this codec; a received flag word with any other bit set is
//! rejected during decode.

use vstd::prelude::*;

verus! {

/// The body holds at least one request element; the trailer carries the
/// offset of the first one.
pub const HAS_REQUESTS: u16 = 0x0001;

/// Reserved: piggybacked packets. Never encoded, rejected on decode.
pub const HAS_PIGGYBACKS: u16 = 0x0002;

/// The trailer carries single acknowledgements.
pub const HAS_ACKS: u16 = 0x0004;

/// The packet travels on a channel.
pub const ON_CHANNEL: u16 = 0x0008;

/// The sender requires an acknowledgement for this packet.
pub const IS_RELIABLE: u16 = 0x0010;

/// The packet is one fragment of a chain; the trailer carries the chain's
/// sequence number range.
pub const IS_FRAGMENT: u16 = 0x0020;

/// The trailer carries the packet's sequence number.
pub const HAS_SEQUENCE_NUMBER: u16 = 0x0040;

/// Reserved: indexed channels. Never encoded, rejected on decode.
pub const INDEXED_CHANNEL: u16 = 0x0080;

/// The trailer ends with a checksum over the body region.
pub const HAS_CHECKSUM: u16 = 0x0100;

/// Reserved: channel creation. Never encoded, rejected on decode.
pub const CREATE_CHANNEL: u16 = 0x0200;

/// The trailer carries a cumulative acknowledgement.
pub const HAS_CUMULATIVE_ACK: u16 = 0x0400;

/// Every flag bit this codec understands, on both the encode and the decode
/// side.
pub const KNOWN_FLAGS: u16 = HAS_REQUESTS | HAS_ACKS | ON_CHANNEL | IS_RELIABLE | IS_FRAGMENT
    | HAS_SEQUENCE_NUMBER | HAS_CHECKSUM | HAS_CUMULATIVE_ACK;

/// True when the flag bit `flag` is set in the word `word`.
pub open spec fn flag_set(word: u16, flag: u16) -> bool {
    word & flag != 0
}

/// Packet's flags, as a thin wrapper over the 16-bit word.
#[derive(Copy, Clone, Eq, PartialEq, Structural)]
pub struct PacketFlags(pub u16);

impl PacketFlags {
    /// Set every bit of `flag` in the word.
    #[inline]
    pub fn enable(&mut self, flag: u16)
        ensures
            final(self).0 == old(self).0 | flag,
    {
        self.0 = self.0 | flag;
    }

    /// Clear every bit of `flag` in the word.
    #[inline]
    pub fn disable(&mut self, flag: u16)
        ensures
            final(self).0 == old(self).0 & !flag,
    {
        self.0 = self.0 & !flag;
    }

    /// True when any bit of `flag` is set in the word.
    #[inline]
    pub fn has(self, flag: u16) -> (r: bool)
        ensures
            r == flag_set(self.0, flag),
    {
        (self.0 & flag) != 0
    }

    /// True when the word marks the body as holding request elements.
    #[inline]
    pub fn has_requests(self) -> (r: bool)
        ensures
            r == flag_set(self.0, HAS_REQUESTS),
    {
        (self.0 & HAS_REQUESTS) != 0
    }

    /// True when the word carries the reserved piggybacks bit.
    #[inline]
    pub fn has_piggybacks(self) -> (r: bool)
        ensures
            r == flag_set(self.0, HAS_PIGGYBACKS),
    {
        (self.0 & HAS_PIGGYBACKS) != 0
    }

    /// True when the word marks the trailer as ending with a checksum.
    #[inline]
    pub fn has_checksum(self) -> (r: bool)
        ensures
            r == flag_set(self.0, HAS_CHECKSUM),
    {
        (self.0 & HAS_CHECKSUM) != 0
    }
}

} // verus!
