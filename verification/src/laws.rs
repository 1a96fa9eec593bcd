//! The laws of the codec: what holds of every encode and decode.
//!
//! Each law is stated over the spec functions that the contracts of
//! `Packet::sync_data` and `Packet::sync_state` use, so it transfers to the
//! executable functions through those contracts.

use vstd::prelude::*;
use vstd::bytes::{lemma_auto_spec_u16_to_from_le_bytes, lemma_auto_spec_u32_to_from_le_bytes,
    spec_u16_to_le_bytes, spec_u32_to_le_bytes};

use crate::checksum::checksum;
use crate::codec::{ack_budget, acks_bytes, acks_sent, decode_trailer, encode_bytes, flags_word,
    le16_at, le32_at, lemma_acks_bytes_len, lemma_trailer_len, read_acks, req_present,
    trailer_pre_checksum, DecodedTrailer, PacketSyncError};
use crate::config::PacketConfigView;
use crate::flags::{flag_set, HAS_ACKS, HAS_CHECKSUM, HAS_CUMULATIVE_ACK, HAS_REQUESTS,
    HAS_SEQUENCE_NUMBER, IS_FRAGMENT, IS_RELIABLE, KNOWN_FLAGS, ON_CHANNEL};
use crate::packet::{reset_packet, PacketView, PACKET_MAX_BODY_LEN};
use crate::raw::{reset_raw, splice};
use crate::{PACKET_MAX_FOOTER_LEN, PACKET_MAX_LEN, PACKET_MIN_LEN, PACKET_PREFIX_LEN};

verus! {

/// An OR of a subset of the known flag bits has no unknown bit, and each
/// bit of the word tells exactly whether its summand was included.
proof fn lemma_flag_bits(x1: u16, x2: u16, x3: u16, x4: u16, x5: u16, x6: u16, x7: u16, x8: u16)
    by (bit_vector)
    requires
        x1 == 0 || x1 == 0x0010,
        x2 == 0 || x2 == 0x0008,
        x3 == 0 || x3 == 0x0020,
        x4 == 0 || x4 == 0x0001,
        x5 == 0 || x5 == 0x0040,
        x6 == 0 || x6 == 0x0004,
        x7 == 0 || x7 == 0x0400,
        x8 == 0 || x8 == 0x0100,
    ensures
        (x1 | x2 | x3 | x4 | x5 | x6 | x7 | x8) & !0x057Du16 == 0,
        ((x1 | x2 | x3 | x4 | x5 | x6 | x7 | x8) & 0x0010u16 != 0) == (x1 == 0x0010),
        ((x1 | x2 | x3 | x4 | x5 | x6 | x7 | x8) & 0x0008u16 != 0) == (x2 == 0x0008),
        ((x1 | x2 | x3 | x4 | x5 | x6 | x7 | x8) & 0x0020u16 != 0) == (x3 == 0x0020),
        ((x1 | x2 | x3 | x4 | x5 | x6 | x7 | x8) & 0x0001u16 != 0) == (x4 == 0x0001),
        ((x1 | x2 | x3 | x4 | x5 | x6 | x7 | x8) & 0x0040u16 != 0) == (x5 == 0x0040),
        ((x1 | x2 | x3 | x4 | x5 | x6 | x7 | x8) & 0x0004u16 != 0) == (x6 == 0x0004),
        ((x1 | x2 | x3 | x4 | x5 | x6 | x7 | x8) & 0x0400u16 != 0) == (x7 == 0x0400),
        ((x1 | x2 | x3 | x4 | x5 | x6 | x7 | x8) & 0x0100u16 != 0) == (x8 == 0x0100),
{
}

/// The flag word an encode writes carries no unknown bit, and each of its
/// bits says exactly whether the matching trailer field is present.
pub proof fn lemma_flags_word(c: PacketConfigView, fro: int)
    ensures
        flags_word(c, fro) & !KNOWN_FLAGS == 0,
        flag_set(flags_word(c, fro), IS_RELIABLE) == c.reliable,
        flag_set(flags_word(c, fro), ON_CHANNEL) == c.on_channel,
        flag_set(flags_word(c, fro), IS_FRAGMENT) == c.fragment_present(),
        flag_set(flags_word(c, fro), HAS_REQUESTS) == req_present(fro),
        flag_set(flags_word(c, fro), HAS_SEQUENCE_NUMBER) == c.sequence_present(),
        flag_set(flags_word(c, fro), HAS_ACKS) == c.acks_present(),
        flag_set(flags_word(c, fro), HAS_CUMULATIVE_ACK) == c.cumulative_present(),
        flag_set(flags_word(c, fro), HAS_CHECKSUM) == c.has_checksum,
{
    assert(KNOWN_FLAGS == 0x057Du16) by (bit_vector);
    lemma_flag_bits(
        if c.reliable { IS_RELIABLE } else { 0 },
        if c.on_channel { ON_CHANNEL } else { 0 },
        if c.fragment_present() { IS_FRAGMENT } else { 0 },
        if req_present(fro) { HAS_REQUESTS } else { 0 },
        if c.sequence_present() { HAS_SEQUENCE_NUMBER } else { 0 },
        if c.acks_present() { HAS_ACKS } else { 0 },
        if c.cumulative_present() { HAS_CUMULATIVE_ACK } else { 0 },
        if c.has_checksum { HAS_CHECKSUM } else { 0 },
    );
}

/// Trailer bound: every successful encode leaves a trailer of at most
/// [`PACKET_MAX_FOOTER_LEN`] bytes past the body.
pub proof fn lemma_trailer_bound(prefix: Seq<u8>, body: Seq<u8>, c: PacketConfigView, fro: int)
    requires
        prefix.len() == PACKET_PREFIX_LEN,
    ensures
        encode_bytes(prefix, body, c, fro).len() - (PACKET_MIN_LEN + body.len())
            <= PACKET_MAX_FOOTER_LEN,
        encode_bytes(prefix, body, c, fro).len() >= PACKET_MIN_LEN + body.len(),
{
    lemma_trailer_len(c, fro);
    lemma_auto_spec_u16_to_from_le_bytes();
    lemma_auto_spec_u32_to_from_le_bytes();
}

/// Deterministic encode: the bytes an encode produces depend on nothing
/// but the prefix, the body, the configuration and the first-request
/// offset. Two packets that agree on those encode to the same bytes, even
/// if their buffers differ elsewhere.
pub proof fn lemma_encode_deterministic(
    v1: PacketView,
    c1: PacketConfigView,
    v2: PacketView,
    c2: PacketConfigView,
)
    requires
        v1.raw.data.subrange(0, PACKET_PREFIX_LEN as int) == v2.raw.data.subrange(
            0,
            PACKET_PREFIX_LEN as int,
        ),
        v1.raw.data.subrange(PACKET_MIN_LEN as int, v1.footer_offset) == v2.raw.data.subrange(
            PACKET_MIN_LEN as int,
            v2.footer_offset,
        ),
        v1.first_request_offset == v2.first_request_offset,
        c1 == c2,
    ensures
        crate::packet::encoded_datagram(v1, c1) == crate::packet::encoded_datagram(v2, c2),
{
}

/// Reset idempotence: resetting twice yields the same state as resetting
/// once. `RawPacket::reset` and `Packet::reset` promise in their contracts
/// to leave exactly [`reset_raw`] and [`reset_packet`] of the old state.
pub proof fn lemma_reset_idempotent(v: PacketView)
    requires
        v.raw.data.len() >= PACKET_MIN_LEN,
    ensures
        reset_packet(reset_packet(v)) == reset_packet(v),
        reset_raw(reset_raw(v.raw)) == reset_raw(v.raw),
{
    assert(reset_raw(reset_raw(v.raw)).data =~= reset_raw(v.raw).data);
}

/// The body of the peels: the cursor positions inside an encoded datagram,
/// outermost field first. Each is the previous one less the width of the
/// field peeled there.
pub open spec fn peel_cursor(body: Seq<u8>, c: PacketConfigView, fro: int, step: int) -> int {
    PACKET_MIN_LEN + body.len() + (if c.fragment_present() && step <= 5 { 8int } else { 0int })
        + (if req_present(fro) && step <= 4 { 2int } else { 0int })
        + (if c.sequence_present() && step <= 3 { 4int } else { 0int })
        + (if c.acks_present() && step <= 2 { 4 * acks_sent(c, fro) + 1 } else { 0int })
        + (if c.cumulative_present() && step <= 1 { 4int } else { 0int })
        + (if c.has_checksum && step <= 0 { 4int } else { 0int })
}

/// The checksum and cumulative-ack peels of an encoded datagram succeed
/// and recover what the encode wrote.
#[verifier::rlimit(100)]
#[verifier::spinoff_prover]
proof fn lemma_rt_outer(prefix: Seq<u8>, body: Seq<u8>, c: PacketConfigView, fro: int, pad: Seq<u8>)
    requires
        prefix.len() == PACKET_PREFIX_LEN,
    ensures
        ({
            let d = encode_bytes(prefix, body, c, fro) + pad;
            let fw = flags_word(c, fro);
            &&& le16_at(d, PACKET_PREFIX_LEN as int) == fw
            &&& crate::codec::peel_checksum(d, peel_cursor(body, c, fro, 0), fw)
                == Ok::<int, PacketSyncError>(peel_cursor(body, c, fro, 1))
            &&& crate::codec::peel_cumulative(d, peel_cursor(body, c, fro, 1), fw)
                == Ok::<(int, Option<u32>), PacketSyncError>((
                peel_cursor(body, c, fro, 2),
                if c.cumulative_present() { Some(c.cumulative_ack) } else { None },
            ))
        }),
{
    lemma_trailer_len(c, fro);
    lemma_flags_word(c, fro);
    lemma_auto_spec_u16_to_from_le_bytes();
    lemma_auto_spec_u32_to_from_le_bytes();
    lemma_acks_bytes_len(c.single_acks.take(acks_sent(c, fro)));

    let w = encode_bytes(prefix, body, c, fro);
    let d = w + pad;
    let trpre = trailer_pre_checksum(c, fro);
    let fw = flags_word(c, fro);
    let fb = spec_u16_to_le_bytes(fw);
    let head = prefix + fb + body + trpre;
    let len = peel_cursor(body, c, fro, 0);
    let e1 = peel_cursor(body, c, fro, 1);
    let e2 = peel_cursor(body, c, fro, 2);
    assert(head.len() == e1);
    assert(w.len() == len);

    assert(d.subrange(PACKET_PREFIX_LEN as int, PACKET_PREFIX_LEN + 2) =~= fb);

    if c.has_checksum {
        assert(d.subrange(e1, len) =~= spec_u32_to_le_bytes(
            checksum(head.skip(PACKET_PREFIX_LEN as int)),
        ));
        assert(d.subrange(PACKET_PREFIX_LEN as int, e1) =~= head.skip(
            PACKET_PREFIX_LEN as int,
        ));
    }

    if c.cumulative_present() {
        assert(d.subrange(e2, e1) =~= spec_u32_to_le_bytes(c.cumulative_ack));
    }
}

/// The acks peel of an encoded datagram succeeds and recovers, in write
/// order, exactly the acks the encode sent.
#[verifier::rlimit(100)]
#[verifier::spinoff_prover]
proof fn lemma_rt_acks(prefix: Seq<u8>, body: Seq<u8>, c: PacketConfigView, fro: int, pad: Seq<u8>)
    requires
        prefix.len() == PACKET_PREFIX_LEN,
    ensures
        crate::codec::peel_acks(
            encode_bytes(prefix, body, c, fro) + pad,
            peel_cursor(body, c, fro, 2),
            flags_word(c, fro),
        ) == Ok::<(int, Seq<u32>), PacketSyncError>((
            peel_cursor(body, c, fro, 3),
            c.single_acks.take(acks_sent(c, fro)),
        )),
{
    lemma_trailer_len(c, fro);
    lemma_flags_word(c, fro);
    lemma_auto_spec_u16_to_from_le_bytes();
    lemma_auto_spec_u32_to_from_le_bytes();
    let k = acks_sent(c, fro);
    lemma_acks_bytes_len(c.single_acks.take(k));

    let w = encode_bytes(prefix, body, c, fro);
    let d = w + pad;
    let fw = flags_word(c, fro);
    let e2 = peel_cursor(body, c, fro, 2);
    let e3 = peel_cursor(body, c, fro, 3);

    if c.acks_present() {
        let ab = acks_bytes(c.single_acks.take(k));
        assert(e2 - 1 - 4 * k == e3);
        assert(d[e2 - 1] == (k as u8));
        assert(d[e2 - 1] as int == k);
        assert forall|i: int| 0 <= i < k implies read_acks(d, e3, k)[i] == c.single_acks.take(
            k,
        )[i] by {
            crate::codec::lemma_acks_bytes_index(c.single_acks.take(k), i);
            assert(d.subrange(e3 + 4 * i, e3 + 4 * i + 4) =~= ab.subrange(4 * i, 4 * i + 4));
            assert(le32_at(d, e3 + 4 * i) == c.single_acks.take(k)[i]);
        }
        assert(read_acks(d, e3, k) =~= c.single_acks.take(k));
    } else {
        assert(c.single_acks.take(0) =~= Seq::<u32>::empty());
    }
}

/// The sequence-number, first-request and fragment peels of an encoded
/// datagram succeed and recover what the encode wrote.
#[verifier::rlimit(100)]
#[verifier::spinoff_prover]
proof fn lemma_rt_inner(prefix: Seq<u8>, body: Seq<u8>, c: PacketConfigView, fro: int, pad: Seq<u8>)
    requires
        prefix.len() == PACKET_PREFIX_LEN,
        0 <= fro <= u16::MAX,
    ensures
        ({
            let d = encode_bytes(prefix, body, c, fro) + pad;
            let fw = flags_word(c, fro);
            &&& crate::codec::peel_sequence(d, peel_cursor(body, c, fro, 3), fw)
                == Ok::<(int, Option<u32>), PacketSyncError>((
                peel_cursor(body, c, fro, 4),
                if c.sequence_present() { Some(c.sequence_num) } else { None },
            ))
            &&& crate::codec::peel_requests(d, peel_cursor(body, c, fro, 4), fw)
                == Ok::<(int, Option<u16>), PacketSyncError>((
                peel_cursor(body, c, fro, 5),
                if req_present(fro) { Some(fro as u16) } else { None },
            ))
            &&& crate::codec::peel_fragment(d, peel_cursor(body, c, fro, 5), fw)
                == Ok::<(int, Option<(u32, u32)>), PacketSyncError>((
                PACKET_MIN_LEN + body.len() as int,
                if c.fragment_present() {
                    Some((c.sequence_first_num, c.sequence_last_num))
                } else {
                    None
                },
            ))
        }),
{
    lemma_trailer_len(c, fro);
    lemma_flags_word(c, fro);
    lemma_auto_spec_u16_to_from_le_bytes();
    lemma_auto_spec_u32_to_from_le_bytes();
    lemma_acks_bytes_len(c.single_acks.take(acks_sent(c, fro)));

    let w = encode_bytes(prefix, body, c, fro);
    let d = w + pad;
    let e3 = peel_cursor(body, c, fro, 3);
    let e4 = peel_cursor(body, c, fro, 4);
    let e5 = peel_cursor(body, c, fro, 5);
    let e6 = PACKET_MIN_LEN + body.len() as int;

    if c.sequence_present() {
        assert(d.subrange(e4, e3) =~= spec_u32_to_le_bytes(c.sequence_num));
    }
    if req_present(fro) {
        assert(d.subrange(e5, e4) =~= spec_u16_to_le_bytes(fro as u16));
        assert(le16_at(d, e5) == fro as u16);
        assert((fro as u16) as int == fro);
    }
    if c.fragment_present() {
        assert(d.subrange(e6, e6 + 4) =~= spec_u32_to_le_bytes(c.sequence_first_num));
        assert(d.subrange(e6 + 4, e5) =~= spec_u32_to_le_bytes(c.sequence_last_num));
        assert(le32_at(d, e6) == c.sequence_first_num);
        assert(le32_at(d, e6 + 4) == c.sequence_last_num);
    }
}

/// Round trip: decoding an encoded datagram succeeds and recovers the body
/// boundary and every configuration field; the acks recovered are exactly
/// the prefix of the queue that the trailer budget let the encode send.
/// Bytes past the datagram's length (`pad`) do not matter. A first-request
/// offset above `u16::MAX` would be truncated on the wire, so the law asks
/// for one that fits.
#[verifier::rlimit(100)]
#[verifier::spinoff_prover]
pub proof fn lemma_round_trip(
    prefix: Seq<u8>,
    body: Seq<u8>,
    c: PacketConfigView,
    fro: int,
    pad: Seq<u8>,
)
    requires
        prefix.len() == PACKET_PREFIX_LEN,
        0 <= fro <= u16::MAX,
    ensures
        decode_trailer(
            encode_bytes(prefix, body, c, fro) + pad,
            encode_bytes(prefix, body, c, fro).len() as int,
        ) == Ok::<DecodedTrailer, PacketSyncError>(DecodedTrailer {
            body_end: PACKET_MIN_LEN + body.len(),
            sequence_num: if c.sequence_present() {
                Some(c.sequence_num)
            } else {
                None
            },
            sequence_range: if c.fragment_present() {
                Some((c.sequence_first_num, c.sequence_last_num))
            } else {
                None
            },
            acks: c.single_acks.take(acks_sent(c, fro)),
            cumulative_ack: if c.cumulative_present() {
                Some(c.cumulative_ack)
            } else {
                None
            },
            first_request_offset: if req_present(fro) {
                Some(fro as u16)
            } else {
                None
            },
            reliable: c.reliable,
            on_channel: c.on_channel,
        }),
{
    lemma_trailer_len(c, fro);
    lemma_flags_word(c, fro);
    lemma_auto_spec_u16_to_from_le_bytes();
    lemma_auto_spec_u32_to_from_le_bytes();
    lemma_acks_bytes_len(c.single_acks.take(acks_sent(c, fro)));
    lemma_rt_outer(prefix, body, c, fro, pad);
    lemma_rt_acks(prefix, body, c, fro, pad);
    lemma_rt_inner(prefix, body, c, fro, pad);

    let w = encode_bytes(prefix, body, c, fro);
    assert(w.len() == peel_cursor(body, c, fro, 0));
    assert(w.len() - (PACKET_MIN_LEN + body.len()) <= PACKET_MAX_FOOTER_LEN as int);
}

/// Round trip at the packet level: the buffer `sync_data` promises to
/// leave, decoded at the length it promises, yields the packet's own body
/// boundary and the configuration that was encoded. This instantiates
/// [`lemma_round_trip`] with the exact buffer shape of `sync_data`'s
/// contract, so it composes directly with `sync_state`'s.
pub proof fn lemma_packet_round_trip(v: PacketView, c: PacketConfigView)
    requires
        v.raw.data.len() == PACKET_MAX_LEN,
        PACKET_MIN_LEN <= v.footer_offset,
        v.footer_offset - PACKET_MIN_LEN <= PACKET_MAX_BODY_LEN,
        0 <= v.first_request_offset <= u16::MAX,
    ensures
        decode_trailer(
            splice(v.raw.data, 0, crate::packet::encoded_datagram(v, c)),
            crate::packet::encoded_datagram(v, c).len() as int,
        ) == Ok::<DecodedTrailer, PacketSyncError>(DecodedTrailer {
            body_end: v.footer_offset,
            sequence_num: if c.sequence_present() {
                Some(c.sequence_num)
            } else {
                None
            },
            sequence_range: if c.fragment_present() {
                Some((c.sequence_first_num, c.sequence_last_num))
            } else {
                None
            },
            acks: c.single_acks.take(acks_sent(c, v.first_request_offset)),
            cumulative_ack: if c.cumulative_present() {
                Some(c.cumulative_ack)
            } else {
                None
            },
            first_request_offset: if req_present(v.first_request_offset) {
                Some(v.first_request_offset as u16)
            } else {
                None
            },
            reliable: c.reliable,
            on_channel: c.on_channel,
        }),
{
    let fro = v.first_request_offset;
    let prefix = v.raw.data.subrange(0, PACKET_PREFIX_LEN as int);
    let body = v.raw.data.subrange(PACKET_MIN_LEN as int, v.footer_offset);
    let w = encode_bytes(prefix, body, c, fro);
    lemma_trailer_bound(prefix, body, c, fro);
    lemma_round_trip(prefix, body, c, fro, v.raw.data.skip(w.len() as int));
    assert(splice(v.raw.data, 0, w) =~= w + v.raw.data.skip(w.len() as int));
}

/// Ack FIFO: when the whole queue fits the trailer budget, decoding the
/// encoded datagram yields the acks in exactly the order they were queued.
pub proof fn lemma_ack_fifo(
    prefix: Seq<u8>,
    body: Seq<u8>,
    c: PacketConfigView,
    fro: int,
    pad: Seq<u8>,
)
    requires
        prefix.len() == PACKET_PREFIX_LEN,
        0 <= fro <= u16::MAX,
        4 * c.single_acks.len() <= ack_budget(c, fro),
    ensures
        decode_trailer(
            encode_bytes(prefix, body, c, fro) + pad,
            encode_bytes(prefix, body, c, fro).len() as int,
        ) is Ok,
        decode_trailer(
            encode_bytes(prefix, body, c, fro) + pad,
            encode_bytes(prefix, body, c, fro).len() as int,
        )->Ok_0.acks == c.single_acks,
{
    lemma_round_trip(prefix, body, c, fro, pad);
    let b = ack_budget(c, fro);
    assert(c.single_acks.len() <= b / 4);
    assert(acks_sent(c, fro) == c.single_acks.len());
    assert(c.single_acks.take(c.single_acks.len() as int) =~= c.single_acks);
}

/// Checksum soundness: changing any body byte that a checksum word covers
/// makes the decode of a checksummed datagram fail with `InvalidChecksum`.
/// A body byte in an unaligned tail of the checksummed region is ignored by
/// the XOR-of-words checksum, so the law asks for a covered byte.
#[verifier::rlimit(100)]
#[verifier::spinoff_prover]
pub proof fn lemma_checksum_soundness(
    prefix: Seq<u8>,
    body: Seq<u8>,
    c: PacketConfigView,
    fro: int,
    pad: Seq<u8>,
    i: int,
    v: u8,
)
    requires
        prefix.len() == PACKET_PREFIX_LEN,
        c.has_checksum,
        PACKET_MIN_LEN <= i < PACKET_MIN_LEN + body.len(),
        v != body[i - PACKET_MIN_LEN],
        ((i - PACKET_PREFIX_LEN) / 4) * 4 + 4 <= encode_bytes(prefix, body, c, fro).len() - 2
            * PACKET_PREFIX_LEN,
    ensures
        decode_trailer(
            encode_bytes(prefix, body, c, fro).update(i, v) + pad,
            encode_bytes(prefix, body, c, fro).len() as int,
        ) == Err::<DecodedTrailer, PacketSyncError>(PacketSyncError::InvalidChecksum),
{
    lemma_trailer_len(c, fro);
    lemma_flags_word(c, fro);
    lemma_auto_spec_u16_to_from_le_bytes();
    lemma_auto_spec_u32_to_from_le_bytes();
    lemma_acks_bytes_len(c.single_acks.take(acks_sent(c, fro)));

    let w = encode_bytes(prefix, body, c, fro);
    let trpre = trailer_pre_checksum(c, fro);
    let fw = flags_word(c, fro);
    let fb = spec_u16_to_le_bytes(fw);
    let head = prefix + fb + body + trpre;
    let len = w.len() as int;
    let d = w.update(i, v) + pad;

    // The flipped byte sits in the body, so the flag word and the appended
    // checksum are untouched.
    assert(d.subrange(PACKET_PREFIX_LEN as int, PACKET_PREFIX_LEN + 2) =~= fb);
    assert(le16_at(d, PACKET_PREFIX_LEN as int) == fw);
    assert(head.len() == len - 4);
    assert(w[i] == body[i - PACKET_MIN_LEN]);
    assert(d.subrange(len - 4, len) =~= spec_u32_to_le_bytes(
        checksum(head.skip(PACKET_PREFIX_LEN as int)),
    ));

    // The recomputed checksum covers the flipped byte, which lies inside a
    // complete word of the region, so it must differ.
    let region = head.skip(PACKET_PREFIX_LEN as int);
    assert(d.subrange(PACKET_PREFIX_LEN as int, len - 4) =~= region.update(
        i - PACKET_PREFIX_LEN,
        v,
    ));
    assert(region[i - PACKET_PREFIX_LEN] == body[i - PACKET_MIN_LEN]);
    assert(crate::checksum::in_complete_word(region, i - PACKET_PREFIX_LEN));
    crate::checksum::lemma_checksum_byte_flip(region, i - PACKET_PREFIX_LEN, v);
    assert(crate::codec::peel_checksum(d, len, fw) == Err::<int, PacketSyncError>(
        PacketSyncError::InvalidChecksum,
    ));
}

/// Flag closure: whenever a decode succeeds, every set bit of the received
/// flag word lies in the known set.
pub proof fn lemma_decode_flag_closure(d: Seq<u8>, len: int)
    requires
        decode_trailer(d, len) is Ok,
    ensures
        le16_at(d, PACKET_PREFIX_LEN as int) & !KNOWN_FLAGS == 0,
{
}

} // verus!
