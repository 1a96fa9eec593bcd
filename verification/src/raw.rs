//! Fixed-capacity raw packet buffer.
//!
//! A [`RawPacket`] is a byte buffer of capacity [`PACKET_MAX_LEN`] with a
//! length cursor. The first four bytes are an opaque prefix, the next two
//! the flag word; everything further is body followed, optionally, by a
//! trailer. The buffer grows and shrinks only at the tail, and shrinking
//! leaves the freed bytes untouched so they can still be read back.

use vstd::prelude::*;
use vstd::bytes::{spec_u16_from_le_bytes, spec_u16_to_le_bytes, spec_u32_from_le_bytes,
    spec_u32_to_le_bytes, u16_from_le_bytes, u16_to_le_bytes, u32_from_le_bytes, u32_to_le_bytes};
use vstd::slice::slice_subrange;

use crate::{PACKET_MAX_LEN, PACKET_MIN_LEN, PACKET_PREFIX_LEN};

verus! {

/// `s` with the bytes of `sub` written over positions `at .. at + sub.len()`.
pub open spec fn splice(s: Seq<u8>, at: int, sub: Seq<u8>) -> Seq<u8> {
    s.take(at) + sub + s.skip(at + sub.len())
}

/// What one reset leaves of a raw packet: minimum length, prefix and flags
/// zeroed, everything else untouched.
pub open spec fn reset_raw(v: RawPacketView) -> RawPacketView {
    RawPacketView {
        data: splice(v.data, 0, Seq::new(PACKET_MIN_LEN as nat, |i: int| 0u8)),
        len: PACKET_MIN_LEN as int,
    }
}

/// Two splices that write back to back are one splice of the concatenation.
pub proof fn lemma_splice_append(s: Seq<u8>, at: int, a: Seq<u8>, b: Seq<u8>)
    requires
        0 <= at,
        at + a.len() + b.len() <= s.len(),
    ensures
        splice(splice(s, at, a), at + a.len(), b) == splice(s, at, a + b),
{
    assert(splice(splice(s, at, a), at + a.len(), b) =~= splice(s, at, a + b));
}

/// Mathematical model of a raw packet: the full backing bytes and the length
/// cursor.
pub struct RawPacketView {
    /// All `PACKET_MAX_LEN` bytes of the buffer, the part past `len`
    /// included.
    pub data: Seq<u8>,
    /// The length cursor.
    pub len: int,
}

/// Raw packet layout with only data and length. This structure provides
/// functions for growing and shrinking data, retrieving and modifying its
/// length, and reading and writing little-endian integers at fixed offsets.
/// Other state, such as the footer offset, lives in `Packet`, which uses
/// this structure as its backend.
#[derive(Clone, Debug)]
pub struct RawPacket {
    /// Full raw data of the packet; always `PACKET_MAX_LEN` bytes long.
    data: Vec<u8>,
    /// Length of the packet; never lower than the minimum length, which
    /// covers the prefix and the flags.
    len: usize,
}

impl View for RawPacket {
    type V = RawPacketView;

    closed spec fn view(&self) -> RawPacketView {
        RawPacketView { data: self.data@, len: self.len as int }
    }
}

impl RawPacket {
    /// The structural invariant: full backing storage, and a cursor between
    /// the minimum and the maximum length.
    pub open spec fn wf(&self) -> bool {
        &&& self@.data.len() == PACKET_MAX_LEN
        &&& PACKET_MIN_LEN <= self@.len <= PACKET_MAX_LEN
    }

    /// A new, empty packet: minimum length, all bytes zero.
    pub fn new() -> (r: Self)
        ensures
            r.wf(),
            r@.len == PACKET_MIN_LEN,
            r@.data == Seq::new(PACKET_MAX_LEN as nat, |i: int| 0u8),
    {
        let mut data: Vec<u8> = Vec::new();
        let mut i: usize = 0;
        while i < PACKET_MAX_LEN
            invariant
                i <= PACKET_MAX_LEN,
                data@.len() == i,
                data@ == Seq::new(i as nat, |j: int| 0u8),
            decreases PACKET_MAX_LEN - i,
        {
            data.push(0);
            i = i + 1;
            proof {
                assert(data@ =~= Seq::new(i as nat, |j: int| 0u8));
            }
        }
        RawPacket { data, len: PACKET_MIN_LEN }
    }

    /// Slice of the full raw data, not constrained by the packet's length.
    #[inline]
    pub fn raw_data(&self) -> (r: &[u8])
        ensures
            r@ == self@.data,
    {
        self.data.as_slice()
    }

    /// Mutable slice of the full raw data, not constrained by the packet's
    /// length. Receiving a datagram writes through this slice; the length
    /// cursor is untouched by whatever is done through it.
    #[inline]
    pub fn raw_data_mut(&mut self) -> (r: &mut [u8])
        ensures
            r@ == old(self)@.data,
            final(self)@.data == final(r)@,
            final(self)@.len == old(self)@.len,
    {
        self.data.as_mut_slice()
    }

    /// Maximum size of a packet.
    #[inline]
    pub fn max_len(&self) -> (r: usize)
        requires
            self.wf(),
        ensures
            r == PACKET_MAX_LEN,
    {
        self.data.len()
    }

    /// Current length of this packet.
    #[inline]
    pub fn len(&self) -> (r: usize)
        ensures
            r == self@.len,
    {
        self.len
    }

    /// Set the length of this packet. The length must stay between
    /// `PACKET_MIN_LEN` and `PACKET_MAX_LEN`.
    #[inline]
    pub fn set_len(&mut self, len: usize)
        requires
            PACKET_MIN_LEN <= len <= PACKET_MAX_LEN,
        ensures
            final(self)@.data == old(self)@.data,
            final(self)@.len == len,
    {
        self.len = len;
    }

    /// Length still available past the cursor.
    #[inline]
    pub fn available_len(&self) -> (r: usize)
        requires
            self.wf(),
        ensures
            r == PACKET_MAX_LEN - self@.len,
    {
        self.max_len() - self.len()
    }

    /// Slice of the data up to the packet's length.
    #[inline]
    pub fn data(&self) -> (r: &[u8])
        requires
            self.wf(),
        ensures
            r@ == self@.data.subrange(0, self@.len),
    {
        slice_subrange(self.data.as_slice(), 0, self.len)
    }

    /// Maximum size of the body of a packet: everything past the prefix.
    #[inline]
    pub fn max_body_len(&self) -> (r: usize)
        requires
            self.wf(),
        ensures
            r == PACKET_MAX_LEN - PACKET_PREFIX_LEN,
    {
        self.max_len() - PACKET_PREFIX_LEN
    }

    /// Length of the body of this packet: from past the prefix to the
    /// cursor.
    #[inline]
    pub fn body_len(&self) -> (r: usize)
        requires
            self.wf(),
        ensures
            r == self@.len - PACKET_PREFIX_LEN,
    {
        self.len() - PACKET_PREFIX_LEN
    }

    /// Slice of the data from past the prefix to the cursor. The checksum is
    /// computed over this region.
    #[inline]
    pub fn body_data(&self) -> (r: &[u8])
        requires
            self.wf(),
        ensures
            r@ == self@.data.subrange(PACKET_PREFIX_LEN as int, self@.len),
    {
        slice_subrange(self.data.as_slice(), PACKET_PREFIX_LEN, self.len)
    }

    /// Reset this packet: minimum length, prefix and flags zeroed. The bytes
    /// past the minimum length are left as they are.
    pub fn reset(&mut self)
        requires
            old(self).wf(),
        ensures
            final(self).wf(),
            final(self)@ == reset_raw(old(self)@),
    {
        self.len = PACKET_MIN_LEN;
        let mut i: usize = 0;
        while i < PACKET_MIN_LEN
            invariant
                i <= PACKET_MIN_LEN,
                self.data@.len() == PACKET_MAX_LEN,
                self.len == PACKET_MIN_LEN,
                forall|j: int| 0 <= j < i ==> self.data@[j] == 0u8,
                forall|j: int| i <= j < PACKET_MAX_LEN ==> self.data@[j] == old(self)@.data[j],
            decreases PACKET_MIN_LEN - i,
        {
            self.data[i] = 0;
            i = i + 1;
        }
        proof {
            assert(self@.data =~= splice(
                old(self)@.data,
                0,
                Seq::new(PACKET_MIN_LEN as nat, |i: int| 0u8),
            ));
        }
    }

    /// Grow the packet's data by `len` bytes. The bytes the cursor moves
    /// over keep whatever value they had; `grow_write` appends fresh bytes
    /// instead.
    #[inline]
    pub fn grow(&mut self, len: usize)
        requires
            old(self).wf(),
            len <= PACKET_MAX_LEN - old(self)@.len,
        ensures
            final(self).wf(),
            final(self)@.data == old(self)@.data,
            final(self)@.len == old(self)@.len + len,
    {
        self.len = self.len + len;
    }

    /// Append the bytes of `src` at the tail, growing the packet by
    /// `src.len()` bytes.
    pub fn grow_write(&mut self, src: &[u8])
        requires
            old(self).wf(),
            src@.len() <= PACKET_MAX_LEN - old(self)@.len,
        ensures
            final(self).wf(),
            final(self)@.len == old(self)@.len + src@.len(),
            final(self)@.data == splice(old(self)@.data, old(self)@.len, src@),
    {
        let mut i: usize = 0;
        let n = src.len();
        while i < n
            invariant
                i <= n,
                n == src@.len(),
                self.len == old(self)@.len,
                PACKET_MIN_LEN <= self.len,
                self.len + n <= PACKET_MAX_LEN,
                self.data@.len() == PACKET_MAX_LEN,
                forall|j: int| 0 <= j < i ==> self.data@[self.len + j] == src@[j],
                forall|j: int|
                    0 <= j < PACKET_MAX_LEN && !(self.len <= j < self.len + i)
                        ==> self.data@[j] == old(self)@.data[j],
            decreases n - i,
        {
            self.data[self.len + i] = src[i];
            i = i + 1;
        }
        self.len = self.len + n;
        proof {
            assert(self@.data =~= splice(old(self)@.data, old(self)@.len, src@));
        }
    }

    /// Shrink the packet's data by `len` bytes. The discarded bytes are left
    /// untouched, so rolling the cursor forward again recovers them;
    /// `shrink_read` returns a copy of them.
    #[inline]
    pub fn shrink(&mut self, len: usize)
        requires
            old(self).wf(),
            old(self)@.len - len >= PACKET_MIN_LEN,
        ensures
            final(self).wf(),
            final(self)@.data == old(self)@.data,
            final(self)@.len == old(self)@.len - len,
    {
        self.len = self.len - len;
    }

    /// Shrink the packet's data by `len` bytes and return a copy of the
    /// freed bytes.
    pub fn shrink_read(&mut self, len: usize) -> (r: Vec<u8>)
        requires
            old(self).wf(),
            old(self)@.len - len >= PACKET_MIN_LEN,
        ensures
            final(self).wf(),
            final(self)@.data == old(self)@.data,
            final(self)@.len == old(self)@.len - len,
            r@ == old(self)@.data.subrange(old(self)@.len - len, old(self)@.len),
    {
        self.len = self.len - len;
        let freed = slice_subrange(self.data.as_slice(), self.len, self.len + len);
        slice_to_vec_copy(freed)
    }

    /// Read the little-endian u32 at byte offset `at`.
    #[inline]
    pub fn read_u32_at(&self, at: usize) -> (r: u32)
        requires
            self.wf(),
            at + 4 <= PACKET_MAX_LEN,
        ensures
            r == spec_u32_from_le_bytes(self@.data.subrange(at as int, at + 4)),
    {
        u32_from_le_bytes(slice_subrange(self.data.as_slice(), at, at + 4))
    }

    /// Write `v` as a little-endian u32 at byte offset `at`.
    pub fn write_u32_at(&mut self, at: usize, v: u32)
        requires
            old(self).wf(),
            at + 4 <= PACKET_MAX_LEN,
        ensures
            final(self).wf(),
            final(self)@.len == old(self)@.len,
            final(self)@.data == splice(old(self)@.data, at as int, spec_u32_to_le_bytes(v)),
    {
        let bytes = u32_to_le_bytes(v);
        self.data[at] = bytes[0];
        self.data[at + 1] = bytes[1];
        self.data[at + 2] = bytes[2];
        self.data[at + 3] = bytes[3];
        proof {
            assert(self@.data =~= splice(old(self)@.data, at as int, spec_u32_to_le_bytes(v)));
        }
    }

    /// Read the little-endian u16 at byte offset `at`.
    #[inline]
    pub fn read_u16_at(&self, at: usize) -> (r: u16)
        requires
            self.wf(),
            at + 2 <= PACKET_MAX_LEN,
        ensures
            r == spec_u16_from_le_bytes(self@.data.subrange(at as int, at + 2)),
    {
        u16_from_le_bytes(slice_subrange(self.data.as_slice(), at, at + 2))
    }

    /// Write `v` as a little-endian u16 at byte offset `at`.
    pub fn write_u16_at(&mut self, at: usize, v: u16)
        requires
            old(self).wf(),
            at + 2 <= PACKET_MAX_LEN,
        ensures
            final(self).wf(),
            final(self)@.len == old(self)@.len,
            final(self)@.data == splice(old(self)@.data, at as int, spec_u16_to_le_bytes(v)),
    {
        let bytes = u16_to_le_bytes(v);
        self.data[at] = bytes[0];
        self.data[at + 1] = bytes[1];
        proof {
            assert(self@.data =~= splice(old(self)@.data, at as int, spec_u16_to_le_bytes(v)));
        }
    }

    /// Read the byte at offset `at`.
    #[inline]
    pub fn read_u8_at(&self, at: usize) -> (r: u8)
        requires
            self.wf(),
            at < PACKET_MAX_LEN,
        ensures
            r == self@.data[at as int],
    {
        self.data[at]
    }

    /// Write the byte at offset `at`.
    pub fn write_u8_at(&mut self, at: usize, v: u8)
        requires
            old(self).wf(),
            at < PACKET_MAX_LEN,
        ensures
            final(self).wf(),
            final(self)@.len == old(self)@.len,
            final(self)@.data == old(self)@.data.update(at as int, v),
    {
        self.data[at] = v;
    }

    /// Read the prefix of this packet: the little-endian u32 at bytes
    /// `[0, 4)`.
    #[inline]
    pub fn read_prefix(&self) -> (r: u32)
        requires
            self.wf(),
        ensures
            r == spec_u32_from_le_bytes(self@.data.subrange(0, PACKET_PREFIX_LEN as int)),
    {
        self.read_u32_at(0)
    }

    /// Write the prefix of this packet.
    #[inline]
    pub fn write_prefix(&mut self, prefix: u32)
        requires
            old(self).wf(),
        ensures
            final(self).wf(),
            final(self)@.len == old(self)@.len,
            final(self)@.data == splice(old(self)@.data, 0, spec_u32_to_le_bytes(prefix)),
    {
        self.write_u32_at(0, prefix)
    }

    /// Read the flags of this packet: the little-endian u16 at bytes
    /// `[4, 6)`.
    #[inline]
    pub fn read_flags(&self) -> (r: u16)
        requires
            self.wf(),
        ensures
            r == spec_u16_from_le_bytes(
                self@.data.subrange(PACKET_PREFIX_LEN as int, PACKET_MIN_LEN as int),
            ),
    {
        self.read_u16_at(PACKET_PREFIX_LEN)
    }

    /// Write the flags of this packet.
    #[inline]
    pub fn write_flags(&mut self, flags: u16)
        requires
            old(self).wf(),
        ensures
            final(self).wf(),
            final(self)@.len == old(self)@.len,
            final(self)@.data == splice(
                old(self)@.data,
                PACKET_PREFIX_LEN as int,
                spec_u16_to_le_bytes(flags),
            ),
    {
        self.write_u16_at(PACKET_PREFIX_LEN, flags)
    }
}

/// Copy a byte slice into a fresh vector.
fn slice_to_vec_copy(s: &[u8]) -> (r: Vec<u8>)
    ensures
        r@ == s@,
{
    let mut r: Vec<u8> = Vec::new();
    let mut i: usize = 0;
    let n = s.len();
    while i < n
        invariant
            i <= n,
            n == s@.len(),
            r@ == s@.take(i as int),
        decreases n - i,
    {
        r.push(s[i]);
        proof {
            assert(r@ =~= s@.take(i + 1));
        }
        i = i + 1;
    }
    proof {
        assert(s@.take(n as int) =~= s@);
    }
    r
}

} // verus!
