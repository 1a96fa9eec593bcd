//! Mathematical model of the trailer wire format.
//!
//! The encode side is a function from a prefix, a body, a configuration and
//! a first-request offset to the exact datagram bytes; the decode side is a
//! function from datagram bytes to the decoded trailer fields or to the
//! error that rejects them. `Packet::sync_data` and `Packet::sync_state`
//! promise, in their contracts, to agree with these functions.

use vstd::prelude::*;
use vstd::bytes::{lemma_auto_spec_u16_to_from_le_bytes, lemma_auto_spec_u32_to_from_le_bytes,
    spec_u16_from_le_bytes, spec_u16_to_le_bytes, spec_u32_from_le_bytes, spec_u32_to_le_bytes};

use crate::checksum::checksum;
use crate::config::PacketConfigView;
use crate::flags::{flag_set, HAS_ACKS, HAS_CHECKSUM, HAS_CUMULATIVE_ACK, HAS_REQUESTS,
    HAS_SEQUENCE_NUMBER, IS_FRAGMENT, IS_RELIABLE, KNOWN_FLAGS, ON_CHANNEL};
use crate::{PACKET_FLAGS_LEN, PACKET_MAX_FOOTER_LEN, PACKET_MIN_LEN, PACKET_PREFIX_LEN};

verus! {

/// Packet synchronization error: why `Packet::sync_state` rejected a
/// datagram.
#[derive(Debug, Clone, Copy, PartialEq, Eq, Structural)]
pub enum PacketSyncError {
    /// Unknown flag bits are set. The packet cannot be decoded, because
    /// unknown flags usually change the length of the trailer. Carries the
    /// offending bits.
    UnknownFlags(u16),
    /// The packet is corrupted: the trailer is too short or too long, or a
    /// field holds an invalid bit pattern.
    Corrupted,
    /// The packet's checksum and the recomputed checksum differ.
    InvalidChecksum,
}

/// The little-endian u32 at offset `at` of `d`.
pub open spec fn le32_at(d: Seq<u8>, at: int) -> u32 {
    spec_u32_from_le_bytes(d.subrange(at, at + 4))
}

/// The little-endian u16 at offset `at` of `d`.
pub open spec fn le16_at(d: Seq<u8>, at: int) -> u16 {
    spec_u16_from_le_bytes(d.subrange(at, at + 2))
}

/// A first-request offset is present exactly when it is no sentinel: `0`
/// and `1` point inside the flag word and mean absent.
pub open spec fn req_present(fro: int) -> bool {
    fro >= PACKET_FLAGS_LEN
}

/// The flag word that encoding writes for configuration `c` and
/// first-request offset `fro`.
pub open spec fn flags_word(c: PacketConfigView, fro: int) -> u16 {
    (if c.reliable { IS_RELIABLE } else { 0 })
    | (if c.on_channel { ON_CHANNEL } else { 0 })
    | (if c.fragment_present() { IS_FRAGMENT } else { 0 })
    | (if req_present(fro) { HAS_REQUESTS } else { 0 })
    | (if c.sequence_present() { HAS_SEQUENCE_NUMBER } else { 0 })
    | (if c.acks_present() { HAS_ACKS } else { 0 })
    | (if c.cumulative_present() { HAS_CUMULATIVE_ACK } else { 0 })
    | (if c.has_checksum { HAS_CHECKSUM } else { 0 })
}

/// Length of the trailer fields written before the single acks: fragment
/// range, first-request offset, sequence number.
pub open spec fn pre_acks_len(c: PacketConfigView, fro: int) -> int {
    (if c.fragment_present() { 8int } else { 0int })
    + (if req_present(fro) { 2int } else { 0int })
    + (if c.sequence_present() { 4int } else { 0int })
}

/// Room, in bytes, that the trailer leaves for single acks: the maximum
/// trailer length minus the fields before the acks, the count byte, and the
/// cumulative ack and checksum still to come.
pub open spec fn ack_budget(c: PacketConfigView, fro: int) -> int {
    PACKET_MAX_FOOTER_LEN - pre_acks_len(c, fro)
    - (if c.cumulative_present() { 4int } else { 0int })
    - (if c.has_checksum { 4int } else { 0int })
    - 1
}

/// How many single acks encoding writes: every queued ack, as far as the
/// budget allows. The rest stay queued for a later packet.
pub open spec fn acks_sent(c: PacketConfigView, fro: int) -> int {
    if !c.acks_present() {
        0
    } else if c.single_acks.len() <= ack_budget(c, fro) / 4 {
        c.single_acks.len() as int
    } else {
        ack_budget(c, fro) / 4
    }
}

/// The bytes of a run of single acks, each a little-endian u32, in queue
/// order.
pub open spec fn acks_bytes(acks: Seq<u32>) -> Seq<u8>
    decreases acks.len(),
{
    if acks.len() == 0 {
        Seq::<u8>::empty()
    } else {
        spec_u32_to_le_bytes(acks[0]) + acks_bytes(acks.skip(1))
    }
}

/// A run of acks encodes to four bytes per ack.
pub proof fn lemma_acks_bytes_len(acks: Seq<u32>)
    ensures
        acks_bytes(acks).len() == 4 * acks.len(),
    decreases acks.len(),
{
    lemma_auto_spec_u32_to_from_le_bytes();
    if acks.len() > 0 {
        lemma_acks_bytes_len(acks.skip(1));
    }
}

/// Extending an encoded run of acks by one appends its four bytes.
pub proof fn lemma_acks_bytes_snoc(acks: Seq<u32>, k: int)
    requires
        0 <= k < acks.len(),
    ensures
        acks_bytes(acks.take(k + 1)) == acks_bytes(acks.take(k)) + spec_u32_to_le_bytes(
            acks[k],
        ),
    decreases k,
{
    if k == 0 {
        assert(acks.take(1)[0] == acks[0]);
        assert(acks.take(1).skip(1) =~= Seq::<u32>::empty());
        assert(acks.take(0) =~= Seq::<u32>::empty());
        assert(acks_bytes(acks.take(1)) =~= acks_bytes(acks.take(0)) + spec_u32_to_le_bytes(
            acks[0],
        ));
    } else {
        let rest = acks.skip(1);
        lemma_acks_bytes_snoc(rest, k - 1);
        assert(acks.take(k + 1).skip(1) =~= rest.take(k));
        assert(acks.take(k).skip(1) =~= rest.take(k - 1));
        assert(acks.take(k + 1)[0] == acks[0]);
        assert(acks.take(k)[0] == acks[0]);
        assert(rest[k - 1] == acks[k]);
        assert(acks_bytes(acks.take(k + 1)) == spec_u32_to_le_bytes(acks[0]) + acks_bytes(
            rest.take(k),
        ));
        assert(acks_bytes(acks.take(k)) == spec_u32_to_le_bytes(acks[0]) + acks_bytes(
            rest.take(k - 1),
        ));
        assert(spec_u32_to_le_bytes(acks[0]) + (acks_bytes(rest.take(k - 1))
            + spec_u32_to_le_bytes(acks[k])) =~= (spec_u32_to_le_bytes(acks[0]) + acks_bytes(
            rest.take(k - 1),
        )) + spec_u32_to_le_bytes(acks[k]));
    }
}

/// The trailer bytes before the checksum field, in encode order: fragment
/// range, first-request offset, sequence number, acks and their count byte,
/// cumulative ack.
pub open spec fn trailer_pre_checksum(c: PacketConfigView, fro: int) -> Seq<u8> {
    (if c.fragment_present() {
        spec_u32_to_le_bytes(c.sequence_first_num) + spec_u32_to_le_bytes(c.sequence_last_num)
    } else {
        Seq::<u8>::empty()
    })
    + (if req_present(fro) {
        spec_u16_to_le_bytes(fro as u16)
    } else {
        Seq::<u8>::empty()
    })
    + (if c.sequence_present() {
        spec_u32_to_le_bytes(c.sequence_num)
    } else {
        Seq::<u8>::empty()
    })
    + (if c.acks_present() {
        acks_bytes(c.single_acks.take(acks_sent(c, fro))) + seq![acks_sent(c, fro) as u8]
    } else {
        Seq::<u8>::empty()
    })
    + (if c.cumulative_present() {
        spec_u32_to_le_bytes(c.cumulative_ack)
    } else {
        Seq::<u8>::empty()
    })
}

/// Each ack of an encoded run sits at its own four-byte group.
pub proof fn lemma_acks_bytes_index(acks: Seq<u32>, i: int)
    requires
        0 <= i < acks.len(),
    ensures
        acks_bytes(acks).subrange(4 * i, 4 * i + 4) == spec_u32_to_le_bytes(acks[i]),
    decreases i,
{
    lemma_auto_spec_u32_to_from_le_bytes();
    lemma_acks_bytes_len(acks);
    lemma_acks_bytes_len(acks.skip(1));
    if i == 0 {
        assert(acks_bytes(acks).subrange(0, 4) =~= spec_u32_to_le_bytes(acks[0]));
    } else {
        lemma_acks_bytes_index(acks.skip(1), i - 1);
        assert(acks.skip(1)[i - 1] == acks[i]);
        assert(acks_bytes(acks).subrange(4 * i, 4 * i + 4) =~= acks_bytes(
            acks.skip(1),
        ).subrange(4 * (i - 1), 4 * (i - 1) + 4));
    }
}

/// How long the trailer is, and that it never exceeds the bound: the acks
/// run is cut to the budget, and the budget is what the other fields leave
/// of the maximum trailer length.
pub proof fn lemma_trailer_len(c: PacketConfigView, fro: int)
    ensures
        0 <= acks_sent(c, fro) <= c.single_acks.len(),
        c.acks_present() ==> 1 <= acks_sent(c, fro) <= 8,
        c.acks_present() ==> 4 * acks_sent(c, fro) <= ack_budget(c, fro),
        trailer_pre_checksum(c, fro).len() == pre_acks_len(c, fro) + (if c.acks_present() {
            4 * acks_sent(c, fro) + 1
        } else {
            0int
        }) + (if c.cumulative_present() {
            4int
        } else {
            0int
        }),
        trailer_pre_checksum(c, fro).len() + (if c.has_checksum {
            4int
        } else {
            0int
        }) <= PACKET_MAX_FOOTER_LEN as int,
{
    let k = acks_sent(c, fro);
    let b = ack_budget(c, fro);
    assert(10 <= b <= 32);
    assert(2 <= b / 4 <= 8 && 4 * (b / 4) <= b);
    lemma_auto_spec_u32_to_from_le_bytes();
    lemma_auto_spec_u16_to_from_le_bytes();
    lemma_acks_bytes_len(c.single_acks.take(k));
    assert(c.single_acks.take(k).len() == k);
}

/// The whole encoded datagram: prefix, flag word, body, trailer, and, when
/// the configuration asks for it, the checksum of everything past the
/// prefix.
pub open spec fn encode_bytes(
    prefix: Seq<u8>,
    body: Seq<u8>,
    c: PacketConfigView,
    fro: int,
) -> Seq<u8> {
    let head = prefix + spec_u16_to_le_bytes(flags_word(c, fro)) + body
        + trailer_pre_checksum(c, fro);
    if c.has_checksum {
        head + spec_u32_to_le_bytes(checksum(head.skip(PACKET_PREFIX_LEN as int)))
    } else {
        head
    }
}

/// Everything a decoded trailer carries. A field that the flag word marks
/// absent is `None` (or empty): decoding leaves the corresponding
/// configuration field as it was.
pub struct DecodedTrailer {
    /// First byte past the body: where the trailer started.
    pub body_end: int,
    /// The sequence number, when `HAS_SEQUENCE_NUMBER` is set.
    pub sequence_num: Option<u32>,
    /// The fragment range, when `IS_FRAGMENT` is set.
    pub sequence_range: Option<(u32, u32)>,
    /// The single acks, in the order they were written.
    pub acks: Seq<u32>,
    /// The cumulative ack, when `HAS_CUMULATIVE_ACK` is set.
    pub cumulative_ack: Option<u32>,
    /// The first-request offset, when `HAS_REQUESTS` is set.
    pub first_request_offset: Option<u16>,
    /// The `IS_RELIABLE` bit.
    pub reliable: bool,
    /// The `ON_CHANNEL` bit.
    pub on_channel: bool,
}

/// The acks read forward from offset `at`: on the wire they sit in write
/// order, oldest first.
pub open spec fn read_acks(d: Seq<u8>, at: int, n: int) -> Seq<u32> {
    Seq::new(n as nat, |i: int| le32_at(d, at + 4 * i))
}

/// Peel the checksum, the outermost trailer field, and verify it over
/// everything between the prefix and the checksum itself. Returns the new
/// cursor.
pub open spec fn peel_checksum(d: Seq<u8>, e: int, flags: u16) -> Result<int, PacketSyncError> {
    if flag_set(flags, HAS_CHECKSUM) {
        if e - 4 < PACKET_MIN_LEN as int {
            Err(PacketSyncError::Corrupted)
        } else if le32_at(d, e - 4) != checksum(d.subrange(PACKET_PREFIX_LEN as int, e - 4)) {
            Err(PacketSyncError::InvalidChecksum)
        } else {
            Ok(e - 4)
        }
    } else {
        Ok(e)
    }
}

/// Peel the cumulative ack. Returns the new cursor and the value, when one
/// is announced.
pub open spec fn peel_cumulative(d: Seq<u8>, e: int, flags: u16) -> Result<
    (int, Option<u32>),
    PacketSyncError,
> {
    if flag_set(flags, HAS_CUMULATIVE_ACK) {
        if e - 4 < PACKET_MIN_LEN as int {
            Err(PacketSyncError::Corrupted)
        } else if le32_at(d, e - 4) == 0 {
            Err(PacketSyncError::Corrupted)
        } else {
            Ok((e - 4, Some(le32_at(d, e - 4))))
        }
    } else {
        Ok((e, None))
    }
}

/// Peel the single acks and their count byte. Returns the new cursor and
/// the acks in the order they were written.
pub open spec fn peel_acks(d: Seq<u8>, e: int, flags: u16) -> Result<
    (int, Seq<u32>),
    PacketSyncError,
> {
    if flag_set(flags, HAS_ACKS) {
        if e - 1 < PACKET_MIN_LEN as int {
            Err(PacketSyncError::Corrupted)
        } else if d[e - 1] == 0 {
            Err(PacketSyncError::Corrupted)
        } else if e - 1 - 4 * (d[e - 1] as int) < PACKET_MIN_LEN as int {
            Err(PacketSyncError::Corrupted)
        } else {
            Ok((e - 1 - 4 * (d[e - 1] as int), read_acks(d, e - 1 - 4 * (d[e - 1] as int), d[e - 1] as int)))
        }
    } else {
        Ok((e, Seq::<u32>::empty()))
    }
}

/// Peel the sequence number. Returns the new cursor and the value, when one
/// is announced.
pub open spec fn peel_sequence(d: Seq<u8>, e: int, flags: u16) -> Result<
    (int, Option<u32>),
    PacketSyncError,
> {
    if flag_set(flags, HAS_SEQUENCE_NUMBER) {
        if e - 4 < PACKET_MIN_LEN as int {
            Err(PacketSyncError::Corrupted)
        } else {
            Ok((e - 4, Some(le32_at(d, e - 4))))
        }
    } else {
        Ok((e, None))
    }
}

/// Peel the first-request offset. Returns the new cursor and the offset,
/// when one is announced.
pub open spec fn peel_requests(d: Seq<u8>, e: int, flags: u16) -> Result<
    (int, Option<u16>),
    PacketSyncError,
> {
    if flag_set(flags, HAS_REQUESTS) {
        if e - 2 < PACKET_MIN_LEN as int {
            Err(PacketSyncError::Corrupted)
        } else if (le16_at(d, e - 2) as int) < PACKET_FLAGS_LEN as int {
            Err(PacketSyncError::Corrupted)
        } else {
            Ok((e - 2, Some(le16_at(d, e - 2))))
        }
    } else {
        Ok((e, None))
    }
}

/// Peel the fragment range, the innermost trailer field. Returns the new
/// cursor and the range, when one is announced.
pub open spec fn peel_fragment(d: Seq<u8>, e: int, flags: u16) -> Result<
    (int, Option<(u32, u32)>),
    PacketSyncError,
> {
    if flag_set(flags, IS_FRAGMENT) {
        if e - 8 < PACKET_MIN_LEN as int {
            Err(PacketSyncError::Corrupted)
        } else if le32_at(d, e - 8) >= le32_at(d, e - 4) {
            Err(PacketSyncError::Corrupted)
        } else {
            Ok((e - 8, Some((le32_at(d, e - 8), le32_at(d, e - 4)))))
        }
    } else {
        Ok((e, None))
    }
}

/// The configuration after a decoded trailer is applied to `c`: present
/// fields are overwritten, the reliability and channel bits always come
/// from the flag word, decoded acks are appended to the queue, and absent
/// fields keep their old value. The checksum switch is never touched by
/// decoding.
pub open spec fn apply_decoded(c: PacketConfigView, t: DecodedTrailer) -> PacketConfigView {
    PacketConfigView {
        sequence_num: match t.sequence_num {
            Some(v) => v,
            None => c.sequence_num,
        },
        sequence_first_num: match t.sequence_range {
            Some(r) => r.0,
            None => c.sequence_first_num,
        },
        sequence_last_num: match t.sequence_range {
            Some(r) => r.1,
            None => c.sequence_last_num,
        },
        reliable: t.reliable,
        cumulative_ack: match t.cumulative_ack {
            Some(v) => v,
            None => c.cumulative_ack,
        },
        single_acks: c.single_acks + t.acks,
        on_channel: t.on_channel,
        has_checksum: c.has_checksum,
    }
}

/// Decode the trailer of the datagram whose bytes are the first `len` of
/// `d`: check the flag word against the known set, peel the trailer fields
/// from the tail in reverse encode order, and reject a trailer longer than
/// [`PACKET_MAX_FOOTER_LEN`].
pub open spec fn decode_trailer(d: Seq<u8>, len: int) -> Result<
    DecodedTrailer,
    PacketSyncError,
> {
    let flags = le16_at(d, PACKET_PREFIX_LEN as int);
    if flags & !KNOWN_FLAGS != 0 {
        Err(PacketSyncError::UnknownFlags(flags & !KNOWN_FLAGS))
    } else {
        match peel_checksum(d, len, flags) {
            Err(err) => Err(err),
            Ok(e1) => match peel_cumulative(d, e1, flags) {
                Err(err) => Err(err),
                Ok((e2, cum)) => match peel_acks(d, e2, flags) {
                    Err(err) => Err(err),
                    Ok((e3, acks)) => match peel_sequence(d, e3, flags) {
                        Err(err) => Err(err),
                        Ok((e4, seq_num)) => match peel_requests(d, e4, flags) {
                            Err(err) => Err(err),
                            Ok((e5, fro)) => match peel_fragment(d, e5, flags) {
                                Err(err) => Err(err),
                                Ok((e6, range)) => if len - e6
                                    <= PACKET_MAX_FOOTER_LEN as int {
                                    Ok(DecodedTrailer {
                                        body_end: e6,
                                        sequence_num: seq_num,
                                        sequence_range: range,
                                        acks: acks,
                                        cumulative_ack: cum,
                                        first_request_offset: fro,
                                        reliable: flag_set(flags, IS_RELIABLE),
                                        on_channel: flag_set(flags, ON_CHANNEL),
                                    })
                                } else {
                                    Err(PacketSyncError::Corrupted)
                                },
                            },
                        },
                    },
                },
            },
        }
    }
}

} // verus!
