//! XOR-of-words checksum over the body region of a packet.
//!
//! The checksum reads successive little-endian u32 words from the region
//! and XORs them into an accumulator that starts at zero. Trailing bytes
//! shorter than a full word are silently ignored; the reference peer
//! behaves the same way, so this quirk is kept for compatibility.

use vstd::prelude::*;
use vstd::bytes::{spec_u32_from_le_bytes, spec_u32_to_le_bytes, u32_from_le_bytes,
    lemma_auto_spec_u32_to_from_le_bytes};
use vstd::slice::slice_subrange;

verus! {

/// The checksum of `bytes`: the XOR of all complete little-endian u32
/// words, read from the front. Bytes past the last complete word do not
/// count.
pub open spec fn checksum(bytes: Seq<u8>) -> u32
    decreases bytes.len(),
{
    if bytes.len() < 4 {
        0u32
    } else {
        spec_u32_from_le_bytes(bytes.take(4)) ^ checksum(bytes.skip(4))
    }
}

/// Compute the checksum of `data`.
pub fn calc_checksum(data: &[u8]) -> (r: u32)
    ensures
        r == checksum(data@),
{
    let mut acc: u32 = 0;
    let mut i: usize = 0;
    let n = data.len();
    proof {
        assert(data@.skip(0) =~= data@);
        let c = checksum(data@);
        assert(0u32 ^ c == c) by (bit_vector);
    }
    while i < n && n - i >= 4
        invariant
            i <= n,
            n == data@.len(),
            checksum(data@) == acc ^ checksum(data@.skip(i as int)),
        decreases n - i,
    {
        let word = u32_from_le_bytes(slice_subrange(data, i, i + 4));
        proof {
            let tail = data@.skip(i as int);
            assert(data@.subrange(i as int, i + 4) =~= tail.take(4));
            assert(tail.skip(4) =~= data@.skip(i + 4));
            assert(checksum(tail) == word ^ checksum(data@.skip(i + 4)));
            let rest = checksum(data@.skip(i + 4));
            assert(acc ^ (word ^ rest) == (acc ^ word) ^ rest) by (bit_vector);
        }
        acc = acc ^ word;
        i = i + 4;
    }
    proof {
        assert(checksum(data@.skip(i as int)) == 0);
        assert(acc ^ 0u32 == acc) by (bit_vector);
    }
    acc
}

/// The byte at index `i` lies inside a complete word of `bytes`: some full
/// four-byte group, entirely within the sequence, covers it.
pub open spec fn in_complete_word(bytes: Seq<u8>, i: int) -> bool {
    0 <= i && i / 4 * 4 + 4 <= bytes.len()
}

/// Changing one byte that lies inside a complete word changes the checksum.
/// Bytes of an unaligned tail are ignored by the checksum, so the claim is
/// restricted to bytes that a word covers.
pub proof fn lemma_checksum_byte_flip(bytes: Seq<u8>, i: int, v: u8)
    requires
        in_complete_word(bytes, i),
        v != bytes[i],
    ensures
        checksum(bytes.update(i, v)) != checksum(bytes),
    decreases bytes.len(),
{
    lemma_auto_spec_u32_to_from_le_bytes();
    let flipped = bytes.update(i, v);
    if i < 4 {
        assert(i / 4 == 0);
        assert(bytes.len() >= 4);
        let w0 = spec_u32_from_le_bytes(bytes.take(4));
        let w1 = spec_u32_from_le_bytes(flipped.take(4));
        assert(flipped.take(4)[i] == v);
        assert(flipped.take(4) != bytes.take(4));
        // Little-endian decoding of four bytes is injective: equal words
        // would re-encode to equal byte groups.
        assert(bytes.take(4).len() == 4);
        assert(flipped.take(4).len() == 4);
        assert(spec_u32_to_le_bytes(w0) == bytes.take(4));
        assert(spec_u32_to_le_bytes(w1) == flipped.take(4));
        assert(w0 != w1);
        assert(flipped.skip(4) =~= bytes.skip(4));
        let rest = checksum(bytes.skip(4));
        assert(w0 != w1 ==> w0 ^ rest != w1 ^ rest) by (bit_vector);
    } else {
        assert((i - 4) / 4 == i / 4 - 1);
        assert(in_complete_word(bytes.skip(4), i - 4));
        assert(bytes.skip(4)[i - 4] == bytes[i]);
        lemma_checksum_byte_flip(bytes.skip(4), i - 4, v);
        assert(flipped.skip(4) =~= bytes.skip(4).update(i - 4, v));
        assert(flipped.take(4) =~= bytes.take(4));
        let w = spec_u32_from_le_bytes(bytes.take(4));
        let r0 = checksum(bytes.skip(4));
        let r1 = checksum(flipped.skip(4));
        assert(r0 != r1 ==> w ^ r0 != w ^ r1) by (bit_vector);
    }
}

} // verus!
