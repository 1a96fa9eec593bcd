//! A packet: a raw buffer plus the body/trailer discipline.
//!
//! A [`Packet`] tracks, over a [`RawPacket`], where the body ends and the
//! trailer starts (`footer_offset`), and the offset of the first request
//! element in the body. `sync_data` materializes a [`PacketConfig`] as the
//! trailer; `sync_state` decodes a received datagram's trailer back into a
//! config, peeling fields from the tail in reverse encode order.

use vstd::prelude::*;
use vstd::bytes::{u16_to_le_bytes, u32_to_le_bytes};
use vstd::slice::slice_subrange;

use crate::checksum::calc_checksum;
use crate::codec::{ack_budget, acks_bytes, acks_sent, apply_decoded, decode_trailer,
    encode_bytes, flags_word, le16_at, lemma_acks_bytes_len, lemma_acks_bytes_snoc,
    lemma_trailer_len, peel_acks, peel_checksum, peel_cumulative, peel_fragment, peel_requests,
    peel_sequence, pre_acks_len, read_acks, req_present, trailer_pre_checksum, DecodedTrailer,
    PacketSyncError};
use crate::config::{PacketConfig, PacketConfigView};
use crate::flags::{HAS_ACKS, HAS_CHECKSUM, HAS_CUMULATIVE_ACK, HAS_REQUESTS,
    HAS_SEQUENCE_NUMBER, IS_FRAGMENT, IS_RELIABLE, KNOWN_FLAGS, ON_CHANNEL};
use crate::raw::{lemma_splice_append, reset_raw, splice, RawPacket, RawPacketView};
use crate::{PACKET_FLAGS_LEN, PACKET_MAX_FOOTER_LEN, PACKET_MAX_LEN, PACKET_MIN_LEN,
    PACKET_PREFIX_LEN};

verus! {

/// Largest body a producer may grow: the capacity minus prefix, flags, and
/// the room a full trailer may need.
pub const PACKET_MAX_BODY_LEN: usize = PACKET_MAX_LEN - PACKET_MIN_LEN - PACKET_MAX_FOOTER_LEN;

/// Mathematical model of a packet: the raw buffer model plus the two
/// offsets.
pub struct PacketView {
    /// Model of the backing raw packet.
    pub raw: RawPacketView,
    /// First byte past the body.
    pub footer_offset: int,
    /// Offset, from the start of the flag word, of the first request
    /// element in the body; below `PACKET_FLAGS_LEN` means none.
    pub first_request_offset: int,
}

/// A raw packet with the state that gives it structure: the footer offset,
/// set when the packet is finalized or loaded, and the offset of the first
/// request element. Provides the two synchronization functions between the
/// bytes and a [`PacketConfig`].
#[derive(Clone, Debug)]
pub struct Packet {
    /// The internal raw packet used for data manipulation.
    raw: RawPacket,
    /// Offset of the footer when the packet is finalized or loaded. The
    /// footer size is the difference between the raw packet's length and
    /// this offset.
    footer_offset: usize,
    /// The offset of the first element that is also a request in the
    /// packet. Further requests are chained through offsets written inside
    /// the elements themselves.
    first_request_offset: usize,
}

impl View for Packet {
    type V = PacketView;

    closed spec fn view(&self) -> PacketView {
        PacketView {
            raw: self.raw@,
            footer_offset: self.footer_offset as int,
            first_request_offset: self.first_request_offset as int,
        }
    }
}

impl Packet {
    /// The structural invariant: a well-formed raw packet and a footer
    /// offset inside the buffer.
    pub open spec fn wf(&self) -> bool {
        &&& self@.raw.data.len() == PACKET_MAX_LEN
        &&& PACKET_MIN_LEN <= self@.raw.len <= PACKET_MAX_LEN
        &&& PACKET_MIN_LEN <= self@.footer_offset <= PACKET_MAX_LEN
    }

    /// The footer offset delimits the data: nothing past the cursor belongs
    /// to the packet. This holds after construction and after each
    /// successful synchronization, and `sync_data` expects it.
    pub open spec fn synced(&self) -> bool {
        self@.footer_offset <= self@.raw.len
    }

    /// Create a new, empty packet: no body, no trailer, no requests.
    pub fn new() -> (r: Self)
        ensures
            r.wf(),
            r.synced(),
            r@.footer_offset == PACKET_MIN_LEN,
            r@.first_request_offset == 0,
            r@.raw.len == PACKET_MIN_LEN,
            r@.raw.data == Seq::new(PACKET_MAX_LEN as nat, |i: int| 0u8),
    {
        Packet {
            raw: RawPacket::new(),
            footer_offset: PACKET_MIN_LEN,
            first_request_offset: 0,
        }
    }

    /// Create a new packet on the heap and return the box containing it.
    pub fn new_boxed() -> (r: Box<Self>)
        ensures
            r.wf(),
            r.synced(),
            r@.footer_offset == PACKET_MIN_LEN,
            r@.first_request_offset == 0,
            r@.raw.len == PACKET_MIN_LEN,
            r@.raw.data == Seq::new(PACKET_MAX_LEN as nat, |i: int| 0u8),
    {
        Box::new(Self::new())
    }

    /// Shared reference to the internal raw packet.
    #[inline]
    pub fn raw(&self) -> (r: &RawPacket)
        ensures
            r@ == self@.raw,
    {
        &self.raw
    }

    /// Mutable reference to the internal raw packet. Manipulating the raw
    /// data directly can break the body/trailer discipline; the offsets of
    /// this packet are untouched by whatever is done through the reference.
    #[inline]
    pub fn raw_mut(&mut self) -> (r: &mut RawPacket)
        ensures
            r@ == old(self)@.raw,
            final(self)@.raw == final(r)@,
            final(self)@.footer_offset == old(self)@.footer_offset,
            final(self)@.first_request_offset == old(self)@.first_request_offset,
    {
        &mut self.raw
    }

    /// Maximum length of the body content.
    #[inline]
    pub fn max_len(&self) -> (r: usize)
        requires
            self.wf(),
        ensures
            r == PACKET_MAX_BODY_LEN,
    {
        self.raw.max_len() - PACKET_MIN_LEN - PACKET_MAX_FOOTER_LEN
    }

    /// Length of the body content.
    #[inline]
    pub fn len(&self) -> (r: usize)
        requires
            self.wf(),
        ensures
            r == self@.footer_offset - PACKET_MIN_LEN,
    {
        self.footer_offset - PACKET_MIN_LEN
    }

    /// Body length still available for writing elements. The rest of the
    /// buffer is reserved for the trailer.
    #[inline]
    pub fn available_len(&self) -> (r: usize)
        requires
            self.wf(),
            self@.footer_offset - PACKET_MIN_LEN <= PACKET_MAX_BODY_LEN,
        ensures
            r == PACKET_MAX_BODY_LEN - (self@.footer_offset - PACKET_MIN_LEN),
    {
        self.max_len() - self.len()
    }

    /// Slice of the body content: from past the flags to the footer offset.
    #[inline]
    pub fn data(&self) -> (r: &[u8])
        requires
            self.wf(),
        ensures
            r@ == self@.raw.data.subrange(PACKET_MIN_LEN as int, self@.footer_offset),
    {
        slice_subrange(self.raw.raw_data(), PACKET_MIN_LEN, self.footer_offset)
    }

    /// Grow the body by `len` bytes. The bytes the cursor moves over keep
    /// whatever value they had; `grow_write` appends fresh bytes instead.
    /// Any trailer a previous `sync_data` left is discarded.
    #[inline]
    pub fn grow(&mut self, len: usize)
        requires
            old(self).wf(),
            old(self)@.footer_offset - PACKET_MIN_LEN + len <= PACKET_MAX_BODY_LEN,
        ensures
            final(self).wf(),
            final(self).synced(),
            final(self)@.raw.data == old(self)@.raw.data,
            final(self)@.footer_offset == old(self)@.footer_offset + len,
            final(self)@.raw.len == final(self)@.footer_offset,
            final(self)@.first_request_offset == old(self)@.first_request_offset,
    {
        self.footer_offset = self.footer_offset + len;
        // Reset the raw length to the footer offset: a trailer from an
        // earlier synchronization would be overwritten anyway.
        self.raw.set_len(self.footer_offset);
    }

    /// Append the bytes of `src` to the body. Any trailer a previous
    /// `sync_data` left is discarded.
    pub fn grow_write(&mut self, src: &[u8])
        requires
            old(self).wf(),
            old(self)@.footer_offset - PACKET_MIN_LEN + src@.len() <= PACKET_MAX_BODY_LEN,
        ensures
            final(self).wf(),
            final(self).synced(),
            final(self)@.raw.data == splice(
                old(self)@.raw.data,
                old(self)@.footer_offset,
                src@,
            ),
            final(self)@.footer_offset == old(self)@.footer_offset + src@.len(),
            final(self)@.raw.len == final(self)@.footer_offset,
            final(self)@.first_request_offset == old(self)@.first_request_offset,
    {
        self.raw.set_len(self.footer_offset);
        self.raw.grow_write(src);
        self.footer_offset = self.footer_offset + src.len();
    }

    /// Length of the footer; at most `PACKET_MAX_FOOTER_LEN` after a
    /// successful synchronization.
    #[inline]
    pub fn footer_len(&self) -> (r: usize)
        requires
            self.wf(),
            self.synced(),
        ensures
            r == self@.raw.len - self@.footer_offset,
    {
        self.raw.len() - self.footer_offset
    }

    /// Room still available in the footer.
    #[inline]
    pub fn footer_available_len(&self) -> (r: usize)
        requires
            self.wf(),
            self.synced(),
            self@.raw.len - self@.footer_offset <= PACKET_MAX_FOOTER_LEN,
        ensures
            r == PACKET_MAX_FOOTER_LEN - (self@.raw.len - self@.footer_offset),
    {
        PACKET_MAX_FOOTER_LEN - self.footer_len()
    }

    /// The offset of the first request element in this packet. Offsets `0`
    /// and `1` would point inside the flag word, so they are sentinels for
    /// which this returns `None`.
    #[inline]
    pub fn first_request_offset(&self) -> (r: Option<usize>)
        ensures
            r == if self@.first_request_offset >= PACKET_FLAGS_LEN {
                Some(self@.first_request_offset as usize)
            } else {
                None::<usize>
            },
    {
        if self.first_request_offset >= PACKET_FLAGS_LEN {
            Some(self.first_request_offset)
        } else {
            None
        }
    }

    /// Set the offset of the first request element. The offset must be at
    /// least `PACKET_FLAGS_LEN`; see `first_request_offset`.
    #[inline]
    pub fn set_first_request_offset(&mut self, offset: usize)
        requires
            offset >= PACKET_FLAGS_LEN,
        ensures
            final(self)@.raw == old(self)@.raw,
            final(self)@.footer_offset == old(self)@.footer_offset,
            final(self)@.first_request_offset == offset,
    {
        self.first_request_offset = offset;
    }

    /// Clear the first request offset: the packet carries no request.
    #[inline]
    pub fn clear_first_request_offset(&mut self)
        ensures
            final(self)@.raw == old(self)@.raw,
            final(self)@.footer_offset == old(self)@.footer_offset,
            final(self)@.first_request_offset == 0,
    {
        self.first_request_offset = 0;
    }

    /// Synchronize this packet's data from its state: truncate any stale
    /// trailer, rebuild the trailer from `config` in the fixed encode
    /// order, write the flag word, and append the checksum over the body
    /// region when the config asks for one. The bytes produced are exactly
    /// [`encoded_datagram`] of the packet's body and the config. As many
    /// queued acks as the trailer budget allows are written, oldest first;
    /// the rest are left in the config for a later packet.
    #[verifier::rlimit(100)]
    #[verifier::spinoff_prover]
    pub fn sync_data(&mut self, config: &mut PacketConfig)
        requires
            old(self).wf(),
            old(self).synced(),
            old(self)@.footer_offset - PACKET_MIN_LEN <= PACKET_MAX_BODY_LEN,
            old(self)@.first_request_offset <= u16::MAX,
        ensures
            final(self).wf(),
            final(self).synced(),
            final(self)@.footer_offset == old(self)@.footer_offset,
            final(self)@.first_request_offset == old(self)@.first_request_offset,
            final(self)@.raw.data == splice(
                old(self)@.raw.data,
                0,
                encoded_datagram(old(self)@, old(config)@),
            ),
            final(self)@.raw.len == encoded_datagram(old(self)@, old(config)@).len(),
            final(self)@.raw.len - final(self)@.footer_offset <= PACKET_MAX_FOOTER_LEN,
            final(config)@ == (PacketConfigView {
                single_acks: old(config)@.single_acks.skip(
                    acks_sent(old(config)@, old(self)@.first_request_offset),
                ),
                ..old(config)@
            }),
    {
        let ghost c = old(config)@;
        let ghost fro = old(self)@.first_request_offset;
        let ghost d0 = old(self)@.raw.data;
        let ghost fo_g = old(self)@.footer_offset;
        let ghost prefix = d0.subrange(0, PACKET_PREFIX_LEN as int);
        let ghost body = d0.subrange(PACKET_MIN_LEN as int, fo_g);
        let ghost trpre = trailer_pre_checksum(c, fro);
        let ghost fb = vstd::bytes::spec_u16_to_le_bytes(flags_word(c, fro));
        let ghost head = prefix + fb + body + trpre;

        proof {
            lemma_trailer_len(c, fro);
            vstd::bytes::lemma_auto_spec_u32_to_from_le_bytes();
            vstd::bytes::lemma_auto_spec_u16_to_from_le_bytes();
        }

        // Drop any stale trailer left by an earlier synchronization.
        if self.footer_offset < self.raw.len() {
            self.raw.set_len(self.footer_offset);
        }

        let req_off: Option<u16> = match self.first_request_offset() {
            Some(off) => Some(off as u16),
            None => None,
        };
        let flags = write_trailer_fields(&mut self.raw, config, req_off, Ghost(fro));

        // The trailer fields are in place; write the flag word just before
        // the checksum, which covers it, is computed.
        self.raw.write_flags(flags);

        let ghost data2 = splice(splice(d0, fo_g, trpre), PACKET_PREFIX_LEN as int, fb);
        proof {
            assert(self@.raw.data == data2);
            assert(head.len() == fo_g + trpre.len());
            assert(data2.subrange(0, fo_g + trpre.len()) =~= head);
        }

        if config.has_checksum() {
            // The checksum covers everything between the prefix and itself:
            // flag word, body and the trailer written so far.
            let ck = calc_checksum(self.raw.body_data());
            proof {
                assert(self@.raw.data.subrange(PACKET_PREFIX_LEN as int, self@.raw.len)
                    =~= head.skip(PACKET_PREFIX_LEN as int));
            }
            let b = u32_to_le_bytes(ck);
            self.raw.grow_write(b.as_slice());
            proof {
                let w = encoded_datagram(old(self)@, c);
                assert(w == head + vstd::bytes::spec_u32_to_le_bytes(
                    crate::checksum::checksum(head.skip(PACKET_PREFIX_LEN as int)),
                ));
                assert(self@.raw.data =~= splice(d0, 0, w));
            }
        } else {
            proof {
                let w = encoded_datagram(old(self)@, c);
                assert(w == head);
                assert(self@.raw.data =~= splice(d0, 0, w));
            }
        }
    }

    /// Synchronize this packet's state from its raw data: read the flag
    /// word of the received datagram of length `len` (prefix included) and
    /// peel the trailer fields it announces from the tail, in reverse
    /// encode order, into `config` and into this packet's offsets. The
    /// result and every decoded field agree with [`decode_trailer`] on the
    /// raw bytes; on an error, the packet's offsets and the config are left
    /// as they were.
    #[verifier::rlimit(60)]
    #[verifier::spinoff_prover]
    pub fn sync_state(&mut self, len: usize, config: &mut PacketConfig) -> (r: Result<
        (),
        PacketSyncError,
    >)
        requires
            old(self).wf(),
            PACKET_MIN_LEN <= len <= PACKET_MAX_LEN,
        ensures
            final(self).wf(),
            final(self)@.raw.data == old(self)@.raw.data,
            final(self)@.raw.len == len,
            match decode_trailer(old(self)@.raw.data, len as int) {
                Ok(t) => {
                    &&& r == Ok::<(), PacketSyncError>(())
                    &&& final(self).synced()
                    &&& final(self)@.footer_offset == t.body_end
                    &&& len - t.body_end <= PACKET_MAX_FOOTER_LEN
                    &&& final(self)@.first_request_offset == (match t.first_request_offset {
                        Some(off) => off as int,
                        None => old(self)@.first_request_offset,
                    })
                    &&& final(config)@ == apply_decoded(old(config)@, t)
                },
                Err(e) => {
                    &&& r == Err::<(), PacketSyncError>(e)
                    &&& final(self)@.footer_offset == old(self)@.footer_offset
                    &&& final(self)@.first_request_offset == old(self)@.first_request_offset
                    &&& final(config)@ == old(config)@
                },
            },
    {
        // Fix the raw length so every trailer offset is measured from the
        // datagram's true tail.
        self.raw.set_len(len);

        let fields = match read_trailer(&self.raw, len) {
            Ok(fields) => fields,
            Err(e) => {
                return Err(e);
            },
        };

        // Commit the decoded fields.
        self.footer_offset = fields.body_end;
        if let Some(off) = fields.first_request_offset {
            self.first_request_offset = off as usize;
        }
        config.set_reliable(fields.reliable);
        config.set_on_channel(fields.on_channel);
        if let Some(v) = fields.cumulative_ack {
            config.set_cumulative_ack(v);
        }
        if let Some(v) = fields.sequence_num {
            config.set_sequence_num(v);
        }
        if let Some((first_num, last_num)) = fields.sequence_range {
            config.set_sequence_range(first_num, last_num);
        }
        let ghost cfg_mid = config@;
        let n = fields.acks.len();
        let mut i: usize = 0;
        while i < n
            invariant
                i <= n,
                n == fields.acks@.len(),
                config@ == (PacketConfigView {
                    single_acks: cfg_mid.single_acks + fields.acks@.take(i as int),
                    ..cfg_mid
                }),
            decreases n - i,
        {
            let v = fields.acks[i];
            config.single_acks_mut().push(v);
            proof {
                assert(config@.single_acks =~= cfg_mid.single_acks + fields.acks@.take(i + 1));
            }
            i = i + 1;
        }
        proof {
            assert(fields.acks@.take(n as int) =~= fields.acks@);
        }

        Ok(())
    }

    /// Reset this packet for reuse: minimum length, prefix and flags
    /// zeroed, no body, no trailer, no requests.
    pub fn reset(&mut self)
        requires
            old(self).wf(),
        ensures
            final(self).wf(),
            final(self).synced(),
            final(self)@ == reset_packet(old(self)@),
    {
        self.raw.reset();
        self.footer_offset = PACKET_MIN_LEN;
        self.first_request_offset = 0;
    }
}

/// What one reset leaves of a packet: the raw buffer reset, the footer
/// offset back at the minimum length, and no request.
pub open spec fn reset_packet(v: PacketView) -> PacketView {
    PacketView {
        raw: reset_raw(v.raw),
        footer_offset: PACKET_MIN_LEN as int,
        first_request_offset: 0,
    }
}

/// The exact datagram bytes that `sync_data` produces from a packet state
/// `v` and a configuration `c`: the packet's prefix and body with the flag
/// word and trailer that `c` calls for.
pub open spec fn encoded_datagram(v: PacketView, c: PacketConfigView) -> Seq<u8> {
    encode_bytes(
        v.raw.data.subrange(0, PACKET_PREFIX_LEN as int),
        v.raw.data.subrange(PACKET_MIN_LEN as int, v.footer_offset),
        c,
        v.first_request_offset,
    )
}

/// The exec-side first-request offset agrees with the packet's: present
/// offsets match, and an absent one stands for a sentinel below
/// `PACKET_FLAGS_LEN`.
pub open spec fn req_off_matches(req_off: Option<u16>, fro: int) -> bool {
    match req_off {
        Some(o) => fro == o as int && fro >= PACKET_FLAGS_LEN as int,
        None => 0 <= fro < PACKET_FLAGS_LEN as int,
    }
}

/// Write the trailer fields of `config` at the tail of `raw`, in encode
/// order, and return the flag word they call for. The bytes appended are
/// exactly [`trailer_pre_checksum`]; the acks that fit the budget leave the
/// config's queue. The flag word is returned, not yet written, and the
/// checksum, which covers the flag word too, is not yet appended.
#[verifier::rlimit(100)]
#[verifier::spinoff_prover]
fn write_trailer_fields(
    raw: &mut RawPacket,
    config: &mut PacketConfig,
    req_off: Option<u16>,
    fro: Ghost<int>,
) -> (flags: u16)
    requires
        old(raw).wf(),
        old(raw)@.len <= PACKET_MIN_LEN + PACKET_MAX_BODY_LEN,
        req_off_matches(req_off, fro@),
    ensures
        final(raw).wf(),
        flags == flags_word(old(config)@, fro@),
        final(raw)@.data == splice(
            old(raw)@.data,
            old(raw)@.len,
            trailer_pre_checksum(old(config)@, fro@),
        ),
        final(raw)@.len == old(raw)@.len + trailer_pre_checksum(old(config)@, fro@).len(),
        final(config)@ == (PacketConfigView {
            single_acks: old(config)@.single_acks.skip(acks_sent(old(config)@, fro@)),
            ..old(config)@
        }),
{
    let ghost c = old(config)@;
    let ghost d0 = old(raw)@.data;
    let fo = raw.len();

    proof {
        lemma_trailer_len(c, fro@);
        vstd::bytes::lemma_auto_spec_u32_to_from_le_bytes();
        vstd::bytes::lemma_auto_spec_u16_to_from_le_bytes();
    }

    let range = config.sequence_range();
    let has_frag = range.is_some();
    let reliable = config.reliable();
    let has_seq = reliable || has_frag;
    let has_acks = !config.single_acks().is_empty();
    let cum = config.cumulative_ack();
    let has_cum = cum.is_some();
    let has_cksum = config.has_checksum();

    let flags: u16 = (if reliable { IS_RELIABLE } else { 0 })
        | (if config.on_channel() { ON_CHANNEL } else { 0 })
        | (if has_frag { IS_FRAGMENT } else { 0 })
        | (if req_off.is_some() { HAS_REQUESTS } else { 0 })
        | (if has_seq { HAS_SEQUENCE_NUMBER } else { 0 })
        | (if has_acks { HAS_ACKS } else { 0 })
        | (if has_cum { HAS_CUMULATIVE_ACK } else { 0 })
        | (if has_cksum { HAS_CHECKSUM } else { 0 });
    proof {
        assert(flags == flags_word(c, fro@));
    }

    // The trailer bytes appended so far.
    let ghost mut tr: Seq<u8> = Seq::<u8>::empty();
    proof {
        assert(splice(d0, fo as int, tr) =~= d0);
    }

    // The five segments of the trailer, in encode order.
    let ghost seg_frag = if c.fragment_present() {
        vstd::bytes::spec_u32_to_le_bytes(c.sequence_first_num) + vstd::bytes::spec_u32_to_le_bytes(
            c.sequence_last_num,
        )
    } else {
        Seq::<u8>::empty()
    };
    let ghost seg_req = if req_present(fro@) {
        vstd::bytes::spec_u16_to_le_bytes(fro@ as u16)
    } else {
        Seq::<u8>::empty()
    };
    let ghost seg_seq = if c.sequence_present() {
        vstd::bytes::spec_u32_to_le_bytes(c.sequence_num)
    } else {
        Seq::<u8>::empty()
    };

    if let Some((first_num, last_num)) = range {
        let b = u32_to_le_bytes(first_num);
        raw.grow_write(b.as_slice());
        let b2 = u32_to_le_bytes(last_num);
        raw.grow_write(b2.as_slice());
        proof {
            lemma_splice_append(
                d0,
                fo as int,
                vstd::bytes::spec_u32_to_le_bytes(first_num),
                vstd::bytes::spec_u32_to_le_bytes(last_num),
            );
            tr = seg_frag;
        }
    }
    proof {
        assert(tr == seg_frag);
        assert(raw@.data == splice(d0, fo as int, tr));
        assert(raw@.len == fo + tr.len());
    }

    if let Some(o) = req_off {
        let b = u16_to_le_bytes(o);
        raw.grow_write(b.as_slice());
        proof {
            lemma_splice_append(d0, fo as int, tr, vstd::bytes::spec_u16_to_le_bytes(o));
            tr = tr + seg_req;
        }
    }
    proof {
        assert(tr == seg_frag + seg_req) by {
            if req_off is None {
                assert(seg_frag + Seq::<u8>::empty() =~= seg_frag);
            }
        }
        assert(raw@.data == splice(d0, fo as int, tr));
        assert(raw@.len == fo + tr.len());
    }

    if has_seq {
        let b = u32_to_le_bytes(config.sequence_num());
        raw.grow_write(b.as_slice());
        proof {
            lemma_splice_append(
                d0,
                fo as int,
                tr,
                vstd::bytes::spec_u32_to_le_bytes(c.sequence_num),
            );
            tr = tr + seg_seq;
        }
    }
    proof {
        assert(tr == (seg_frag + seg_req) + seg_seq) by {
            if !has_seq {
                assert((seg_frag + seg_req) + Seq::<u8>::empty() =~= seg_frag + seg_req);
            }
        }
        assert(raw@.data == splice(d0, fo as int, tr));
        assert(raw@.len == fo + tr.len());
        assert(tr.len() == pre_acks_len(c, fro@));
    }

    let ghost k = acks_sent(c, fro@);
    let ghost pre_tr = tr;
    if has_acks {
        // Room left for acks once the count byte and the fields still to
        // come are accounted for.
        let mut avail: usize = PACKET_MAX_FOOTER_LEN - (raw.len() - fo) - (if has_cum {
            4
        } else {
            0
        }) - (if has_cksum {
            4
        } else {
            0
        }) - 1;
        proof {
            assert(avail == ack_budget(c, fro@));
            assert(c.single_acks.skip(0) =~= c.single_acks);
            assert(c.single_acks.take(0) =~= Seq::<u32>::empty());
            assert(pre_tr + acks_bytes(c.single_acks.take(0)) =~= pre_tr);
        }
        let mut count: usize = 0;
        while avail >= 4 && !config.single_acks().is_empty()
            invariant
                raw.wf(),
                d0.len() == PACKET_MAX_LEN,
                fo <= PACKET_MIN_LEN + PACKET_MAX_BODY_LEN,
                count <= c.single_acks.len(),
                avail == ack_budget(c, fro@) - 4 * count,
                4 * count <= ack_budget(c, fro@),
                config@ == (PacketConfigView {
                    single_acks: c.single_acks.skip(count as int),
                    ..c
                }),
                tr == pre_tr + acks_bytes(c.single_acks.take(count as int)),
                tr.len() == pre_acks_len(c, fro@) + 4 * count,
                raw@.data == splice(d0, fo as int, tr),
                raw@.len == fo + tr.len(),
            decreases c.single_acks.len() - count,
        {
            proof {
                assert(pre_acks_len(c, fro@) + 4 * (count + 1) + 1 + (if c.cumulative_present() {
                    4int
                } else {
                    0int
                }) + (if c.has_checksum {
                    4int
                } else {
                    0int
                }) <= PACKET_MAX_FOOTER_LEN as int);
            }
            let ack = config.single_acks_mut().remove(0);
            proof {
                assert(c.single_acks.skip(count as int)[0] == c.single_acks[count as int]);
                assert(c.single_acks.skip(count as int).remove(0) =~= c.single_acks.skip(
                    count + 1,
                ));
            }
            let b = u32_to_le_bytes(ack);
            raw.grow_write(b.as_slice());
            proof {
                lemma_splice_append(
                    d0,
                    fo as int,
                    tr,
                    vstd::bytes::spec_u32_to_le_bytes(ack),
                );
                lemma_acks_bytes_snoc(c.single_acks, count as int);
                lemma_acks_bytes_len(c.single_acks.take(count as int));
                tr = tr + vstd::bytes::spec_u32_to_le_bytes(ack);
                assert((pre_tr + acks_bytes(c.single_acks.take(count as int)))
                    + vstd::bytes::spec_u32_to_le_bytes(ack) =~= pre_tr + (acks_bytes(
                    c.single_acks.take(count as int),
                ) + vstd::bytes::spec_u32_to_le_bytes(ack)));
            }
            avail = avail - 4;
            count = count + 1;
        }
        proof {
            let b = ack_budget(c, fro@);
            if count < c.single_acks.len() {
                assert(b - 4 * count < 4);
                assert(count as int == b / 4);
            }
            assert(count as int == k);
        }
        // The count byte closes the run of acks.
        let at = raw.len();
        raw.write_u8_at(at, count as u8);
        raw.grow(1);
        proof {
            assert(splice(d0, fo as int, tr).update(fo + tr.len(), k as u8) =~= splice(
                d0,
                fo as int,
                tr + seq![k as u8],
            ));
            tr = tr + seq![k as u8];
            assert((pre_tr + acks_bytes(c.single_acks.take(k))) + seq![k as u8] =~= pre_tr + (
            acks_bytes(c.single_acks.take(k)) + seq![k as u8]));
        }
    }
    proof {
        let seg_acks = if c.acks_present() {
            acks_bytes(c.single_acks.take(k)) + seq![k as u8]
        } else {
            Seq::<u8>::empty()
        };
        assert(tr == ((seg_frag + seg_req) + seg_seq) + seg_acks) by {
            if !has_acks {
                assert(pre_tr + Seq::<u8>::empty() =~= pre_tr);
                assert(c.single_acks.skip(0) =~= c.single_acks);
            }
        }
        assert(config@ == (PacketConfigView { single_acks: c.single_acks.skip(k), ..c })) by {
            if !has_acks {
                assert(c.single_acks.skip(0) =~= c.single_acks);
            }
        }
        assert(raw@.data == splice(d0, fo as int, tr));
        assert(raw@.len == fo + tr.len());
    }

    if let Some(num) = cum {
        let b = u32_to_le_bytes(num);
        raw.grow_write(b.as_slice());
        proof {
            lemma_splice_append(
                d0,
                fo as int,
                tr,
                vstd::bytes::spec_u32_to_le_bytes(c.cumulative_ack),
            );
            tr = tr + vstd::bytes::spec_u32_to_le_bytes(c.cumulative_ack);
        }
    }
    proof {
        assert(tr =~= trailer_pre_checksum(c, fro@));
        assert(raw@.data == splice(d0, fo as int, tr));
        assert(raw@.len == fo + tr.len());
    }

    flags
}

/// The trailer fields read off a datagram, before they are committed to a
/// packet and a config.
struct DecodedFields {
    /// First byte past the body.
    body_end: usize,
    /// The sequence number, when announced.
    sequence_num: Option<u32>,
    /// The fragment range, when announced.
    sequence_range: Option<(u32, u32)>,
    /// The single acks, in the order they were written.
    acks: Vec<u32>,
    /// The cumulative ack, when announced.
    cumulative_ack: Option<u32>,
    /// The first-request offset, when announced.
    first_request_offset: Option<u16>,
    /// The reliability bit.
    reliable: bool,
    /// The channel bit.
    on_channel: bool,
}

impl View for DecodedFields {
    type V = DecodedTrailer;

    closed spec fn view(&self) -> DecodedTrailer {
        DecodedTrailer {
            body_end: self.body_end as int,
            sequence_num: self.sequence_num,
            sequence_range: self.sequence_range,
            acks: self.acks@,
            cumulative_ack: self.cumulative_ack,
            first_request_offset: self.first_request_offset,
            reliable: self.reliable,
            on_channel: self.on_channel,
        }
    }
}

/// Read the trailer fields that the flag word of the datagram `raw[..len]`
/// announces, without committing anything. The result agrees exactly with
/// [`decode_trailer`] on the raw bytes.
#[verifier::rlimit(100)]
#[verifier::spinoff_prover]
fn read_trailer(raw: &RawPacket, len: usize) -> (r: Result<DecodedFields, PacketSyncError>)
    requires
        raw.wf(),
        PACKET_MIN_LEN <= len <= PACKET_MAX_LEN,
    ensures
        match r {
            Ok(fields) => {
                &&& decode_trailer(raw@.data, len as int) == Ok::<DecodedTrailer,
                    PacketSyncError,
                >(fields@)
                &&& PACKET_MIN_LEN <= fields.body_end <= len
                &&& len - fields.body_end <= PACKET_MAX_FOOTER_LEN
            },
            Err(e) => decode_trailer(raw@.data, len as int) == Err::<DecodedTrailer,
                PacketSyncError,
            >(e),
        },
{
    let ghost d = raw@.data;

    let flags = raw.read_flags();
    proof {
        assert(d.subrange(PACKET_PREFIX_LEN as int, PACKET_MIN_LEN as int) =~= d.subrange(
            PACKET_PREFIX_LEN as int,
            PACKET_PREFIX_LEN + 2,
        ));
        assert(flags == le16_at(d, PACKET_PREFIX_LEN as int));
    }

    let unknown = flags & !KNOWN_FLAGS;
    if unknown != 0 {
        return Err(PacketSyncError::UnknownFlags(unknown));
    }

    // The cursor: everything of the datagram past it is already peeled.
    let mut e: usize = len;

    if flags & HAS_CHECKSUM != 0 {
        if e < PACKET_MIN_LEN + 4 {
            proof {
                assert(peel_checksum(d, len as int, flags) == Err::<int, PacketSyncError>(
                    PacketSyncError::Corrupted,
                ));
            }
            return Err(PacketSyncError::Corrupted);
        }
        // The expected checksum sits last; the recomputed one covers
        // everything between the prefix and it.
        let expected = raw.read_u32_at(e - 4);
        let computed = calc_checksum(slice_subrange(raw.raw_data(), PACKET_PREFIX_LEN, e - 4));
        if expected != computed {
            proof {
                assert(peel_checksum(d, len as int, flags) == Err::<int, PacketSyncError>(
                    PacketSyncError::InvalidChecksum,
                ));
            }
            return Err(PacketSyncError::InvalidChecksum);
        }
        e = e - 4;
    }
    let ghost e1 = e as int;
    proof {
        assert(peel_checksum(d, len as int, flags) == Ok::<int, PacketSyncError>(e1));
    }

    let mut cum_opt: Option<u32> = None;
    if flags & HAS_CUMULATIVE_ACK != 0 {
        if e < PACKET_MIN_LEN + 4 {
            return Err(PacketSyncError::Corrupted);
        }
        let v = raw.read_u32_at(e - 4);
        if v == 0 {
            // Zero is the absent sentinel and never encoded.
            return Err(PacketSyncError::Corrupted);
        }
        cum_opt = Some(v);
        e = e - 4;
    }
    let ghost e2 = e as int;
    proof {
        assert(peel_cumulative(d, e1, flags) == Ok::<(int, Option<u32>), PacketSyncError>(
            (e2, cum_opt),
        ));
    }

    let mut acks_read: Vec<u32> = Vec::new();
    if flags & HAS_ACKS != 0 {
        if e < PACKET_MIN_LEN + 1 {
            return Err(PacketSyncError::Corrupted);
        }
        let count = raw.read_u8_at(e - 1);
        if count == 0 {
            return Err(PacketSyncError::Corrupted);
        }
        let needed = 4 * (count as usize);
        if e - 1 - PACKET_MIN_LEN < needed {
            return Err(PacketSyncError::Corrupted);
        }
        // On the wire the acks sit in write order, oldest first: read them
        // forward so the queue surfaces them in that order.
        let start = e - 1 - needed;
        let mut i: usize = 0;
        while i < count as usize
            invariant
                raw.wf(),
                raw@.data == d,
                i <= count as usize,
                start + 4 * (count as usize) + 1 == e <= PACKET_MAX_LEN,
                acks_read@ == read_acks(d, start as int, i as int),
            decreases count as usize - i,
        {
            let v = raw.read_u32_at(start + 4 * i);
            acks_read.push(v);
            proof {
                assert(acks_read@ =~= read_acks(d, start as int, i + 1));
            }
            i = i + 1;
        }
        e = start;
    }
    let ghost e3 = e as int;
    proof {
        assert(peel_acks(d, e2, flags) == Ok::<(int, Seq<u32>), PacketSyncError>(
            (e3, acks_read@),
        ));
    }

    let mut seq_num_opt: Option<u32> = None;
    if flags & HAS_SEQUENCE_NUMBER != 0 {
        if e < PACKET_MIN_LEN + 4 {
            return Err(PacketSyncError::Corrupted);
        }
        seq_num_opt = Some(raw.read_u32_at(e - 4));
        e = e - 4;
    }
    let ghost e4 = e as int;
    proof {
        assert(peel_sequence(d, e3, flags) == Ok::<(int, Option<u32>), PacketSyncError>(
            (e4, seq_num_opt),
        ));
    }

    let mut fro_opt: Option<u16> = None;
    if flags & HAS_REQUESTS != 0 {
        if e < PACKET_MIN_LEN + 2 {
            return Err(PacketSyncError::Corrupted);
        }
        let off = raw.read_u16_at(e - 2);
        if off < PACKET_FLAGS_LEN as u16 {
            // The offset would point inside the flag word.
            return Err(PacketSyncError::Corrupted);
        }
        fro_opt = Some(off);
        e = e - 2;
    }
    let ghost e5 = e as int;
    proof {
        assert(peel_requests(d, e4, flags) == Ok::<(int, Option<u16>), PacketSyncError>(
            (e5, fro_opt),
        ));
    }

    let mut range_opt: Option<(u32, u32)> = None;
    if flags & IS_FRAGMENT != 0 {
        if e < PACKET_MIN_LEN + 8 {
            return Err(PacketSyncError::Corrupted);
        }
        let first_num = raw.read_u32_at(e - 8);
        let last_num = raw.read_u32_at(e - 4);
        if first_num >= last_num {
            return Err(PacketSyncError::Corrupted);
        }
        range_opt = Some((first_num, last_num));
        e = e - 8;
    }
    let ghost e6 = e as int;
    proof {
        assert(peel_fragment(d, e5, flags) == Ok::<(int, Option<(u32, u32)>), PacketSyncError>(
            (e6, range_opt),
        ));
    }

    // All announced fields peeled: the cursor now sits at the body's end.
    // A trailer longer than the bound can never have been encoded.
    if len - e > PACKET_MAX_FOOTER_LEN {
        return Err(PacketSyncError::Corrupted);
    }

    let fields = DecodedFields {
        body_end: e,
        sequence_num: seq_num_opt,
        sequence_range: range_opt,
        acks: acks_read,
        cumulative_ack: cum_opt,
        first_request_offset: fro_opt,
        reliable: flags & IS_RELIABLE != 0,
        on_channel: flags & ON_CHANNEL != 0,
    };
    proof {
        assert(decode_trailer(d, len as int) == Ok::<DecodedTrailer, PacketSyncError>(fields@));
    }
    Ok(fields)
}

} // verus!