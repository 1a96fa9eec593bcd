//! In-memory representation of a packet trailer.
//!
//! A [`PacketConfig`] holds the sequence number, fragment range,
//! reliability and channel bits, checksum switch, cumulative
//! acknowledgement, and the FIFO queue of single acknowledgements. It is
//! pure data: `Packet::sync_data` encodes it into a trailer and
//! `Packet::sync_state` decodes a trailer back into it.

use vstd::prelude::*;

verus! {

/// Mathematical model of a packet configuration.
pub struct PacketConfigView {
    /// The sequence number; meaningful when the packet is reliable or a
    /// fragment.
    pub sequence_num: u32,
    /// First sequence number of the fragment chain. The packet is a
    /// fragment exactly when this is below `sequence_last_num`.
    pub sequence_first_num: u32,
    /// Last sequence number of the fragment chain, inclusive.
    pub sequence_last_num: u32,
    /// Whether the sender requires an acknowledgement for this packet.
    pub reliable: bool,
    /// The cumulative acknowledgement; zero means absent.
    pub cumulative_ack: u32,
    /// The single acknowledgements still to send, oldest first.
    pub single_acks: Seq<u32>,
    /// Whether the packet travels on a channel.
    pub on_channel: bool,
    /// Whether the trailer ends with a checksum.
    pub has_checksum: bool,
}

impl PacketConfigView {
    /// The packet is a fragment of a chain exactly when the range bounds
    /// are ordered strictly.
    pub open spec fn fragment_present(self) -> bool {
        self.sequence_first_num < self.sequence_last_num
    }

    /// A sequence number is written exactly when the packet is reliable or
    /// a fragment.
    pub open spec fn sequence_present(self) -> bool {
        self.reliable || self.fragment_present()
    }

    /// A cumulative acknowledgement is written exactly when it is not the
    /// zero sentinel.
    pub open spec fn cumulative_present(self) -> bool {
        self.cumulative_ack != 0
    }

    /// Single acknowledgements are written exactly when the queue is not
    /// empty.
    pub open spec fn acks_present(self) -> bool {
        self.single_acks.len() > 0
    }
}

/// A packet configuration, used when synchronizing the data or the state of
/// a packet.
#[derive(Debug, Clone)]
pub struct PacketConfig {
    /// The sequence number of this packet; used when the packet is reliable
    /// and/or a fragment of a chain.
    sequence_num: u32,
    /// If this packet is a fragment, the sequence number of the first
    /// packet of the chain. The packet counts as a fragment only when this
    /// is strictly below `sequence_last_num`.
    sequence_first_num: u32,
    /// If this packet is a fragment, the sequence number of the last packet
    /// of the chain, inclusive.
    sequence_last_num: u32,
    /// True when the sender requires an acknowledgement from the receiver
    /// upon successful receipt of this packet.
    reliable: bool,
    /// The cumulative acknowledgement: every sequence number strictly below
    /// it has been received. Because the bound is exclusive, zero is the
    /// absent sentinel.
    cumulative_ack: u32,
    /// Individual acknowledgements to send, oldest first.
    single_acks: Vec<u32>,
    /// True when this packet is being transferred on a channel.
    on_channel: bool,
    /// Enable or disable the checksum.
    has_checksum: bool,
}

impl View for PacketConfig {
    type V = PacketConfigView;

    closed spec fn view(&self) -> PacketConfigView {
        PacketConfigView {
            sequence_num: self.sequence_num,
            sequence_first_num: self.sequence_first_num,
            sequence_last_num: self.sequence_last_num,
            reliable: self.reliable,
            cumulative_ack: self.cumulative_ack,
            single_acks: self.single_acks@,
            on_channel: self.on_channel,
            has_checksum: self.has_checksum,
        }
    }
}

impl PacketConfig {
    /// A new packet configuration with default values: no sequence number,
    /// no fragment range, unreliable, no acknowledgements, off channel, no
    /// checksum.
    pub fn new() -> (r: Self)
        ensures
            r@ == (PacketConfigView {
                sequence_num: 0,
                sequence_first_num: 0,
                sequence_last_num: 0,
                reliable: false,
                cumulative_ack: 0,
                single_acks: Seq::<u32>::empty(),
                on_channel: false,
                has_checksum: false,
            }),
    {
        PacketConfig {
            sequence_num: 0,
            sequence_first_num: 0,
            sequence_last_num: 0,
            reliable: false,
            cumulative_ack: 0,
            single_acks: Vec::new(),
            on_channel: false,
            has_checksum: false,
        }
    }

    /// The sequence number of this packet. It matters only when the packet
    /// is reliable and/or a fragment. Zero by default.
    #[inline]
    pub fn sequence_num(&self) -> (r: u32)
        ensures
            r == self@.sequence_num,
    {
        self.sequence_num
    }

    /// Set the sequence number of this packet.
    #[inline]
    pub fn set_sequence_num(&mut self, num: u32)
        ensures
            final(self)@ == (PacketConfigView { sequence_num: num, ..old(self)@ }),
    {
        self.sequence_num = num;
    }

    /// The range of sequence numbers of the fragment chain, when this
    /// packet is a fragment. Both bounds are inclusive.
    #[inline]
    pub fn sequence_range(&self) -> (r: Option<(u32, u32)>)
        ensures
            r == if self@.fragment_present() {
                Some((self@.sequence_first_num, self@.sequence_last_num))
            } else {
                None::<(u32, u32)>
            },
    {
        if self.sequence_first_num < self.sequence_last_num {
            Some((self.sequence_first_num, self.sequence_last_num))
        } else {
            None
        }
    }

    /// Set the range of sequence numbers of the fragment chain. Both bounds
    /// are inclusive and `first` must be strictly below `last`.
    #[inline]
    pub fn set_sequence_range(&mut self, first: u32, last: u32)
        requires
            first < last,
        ensures
            final(self)@ == (PacketConfigView {
                sequence_first_num: first,
                sequence_last_num: last,
                ..old(self)@
            }),
    {
        self.sequence_first_num = first;
        self.sequence_last_num = last;
    }

    /// Clear the range of sequence numbers: the packet is no longer a
    /// fragment of a chain.
    #[inline]
    pub fn clear_sequence_range(&mut self)
        ensures
            final(self)@ == (PacketConfigView {
                sequence_first_num: 0,
                sequence_last_num: 0,
                ..old(self)@
            }),
            !final(self)@.fragment_present(),
    {
        self.sequence_first_num = 0;
        self.sequence_last_num = 0;
    }

    /// True when the sender of this packet requires an acknowledgement from
    /// the receiver upon successful receipt.
    #[inline]
    pub fn reliable(&self) -> (r: bool)
        ensures
            r == self@.reliable,
    {
        self.reliable
    }

    /// Mark the packet as reliable or not.
    #[inline]
    pub fn set_reliable(&mut self, reliable: bool)
        ensures
            final(self)@ == (PacketConfigView { reliable, ..old(self)@ }),
    {
        self.reliable = reliable
    }

    /// The cumulative acknowledgement: all sequence numbers up to, but
    /// excluding, this one have been received. `None` when unset.
    #[inline]
    pub fn cumulative_ack(&self) -> (r: Option<u32>)
        ensures
            r == if self@.cumulative_present() {
                Some(self@.cumulative_ack)
            } else {
                None::<u32>
            },
    {
        if self.cumulative_ack != 0 {
            Some(self.cumulative_ack)
        } else {
            None
        }
    }

    /// The queue of single acknowledgements, oldest first.
    #[inline]
    pub fn single_acks(&self) -> (r: &Vec<u32>)
        ensures
            r@ == self@.single_acks,
    {
        &self.single_acks
    }

    /// Mutable access to the queue of single acknowledgements, so the
    /// encoder can pop from the front and the decoder can push to the back.
    #[inline]
    pub fn single_acks_mut(&mut self) -> (r: &mut Vec<u32>)
        ensures
            r@ == old(self)@.single_acks,
            final(self)@ == (PacketConfigView {
                single_acks: final(r)@,
                ..old(self)@
            }),
    {
        &mut self.single_acks
    }

    /// Set the cumulative acknowledgement. Because the value is an excluded
    /// bound, it must not be zero; `clear_cumulative_ack` resets it.
    #[inline]
    pub fn set_cumulative_ack(&mut self, num: u32)
        requires
            num != 0,
        ensures
            final(self)@ == (PacketConfigView { cumulative_ack: num, ..old(self)@ }),
    {
        self.cumulative_ack = num;
    }

    /// Clear the cumulative acknowledgement.
    #[inline]
    pub fn clear_cumulative_ack(&mut self)
        ensures
            final(self)@ == (PacketConfigView { cumulative_ack: 0, ..old(self)@ }),
    {
        self.cumulative_ack = 0;
    }

    /// True when this packet is being transferred on a channel.
    #[inline]
    pub fn on_channel(&self) -> (r: bool)
        ensures
            r == self@.on_channel,
    {
        self.on_channel
    }

    /// Mark the packet as on or off channel.
    #[inline]
    pub fn set_on_channel(&mut self, on_channel: bool)
        ensures
            final(self)@ == (PacketConfigView { on_channel, ..old(self)@ }),
    {
        self.on_channel = on_channel;
    }

    /// True when the trailer will end with a checksum.
    #[inline]
    pub fn has_checksum(&self) -> (r: bool)
        ensures
            r == self@.has_checksum,
    {
        self.has_checksum
    }

    /// Enable or disable the checksum.
    #[inline]
    pub fn set_checksum(&mut self, enabled: bool)
        ensures
            final(self)@ == (PacketConfigView { has_checksum: enabled, ..old(self)@ }),
    {
        self.has_checksum = enabled;
    }
}

} // verus!
