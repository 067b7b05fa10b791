//! Packing of bytes into 32-bit words.

use vstd::prelude::*;

verus! {

/// The word whose four bytes, from the least significant one up, are `b0` to `b3`.
pub open spec fn word_of_bytes(b0: u8, b1: u8, b2: u8, b3: u8) -> u32 {
    (b0 as u32) | ((b1 as u32) << 8) | ((b2 as u32) << 16) | ((b3 as u32) << 24)
}

/// The byte at index `i`, or zero where `bytes` has no such index.
pub open spec fn byte_or_zero(bytes: Seq<u8>, i: int) -> u8 {
    if 0 <= i < bytes.len() {
        bytes[i]
    } else {
        0
    }
}

/// The little-endian word made of the four bytes that start at `start`,
/// with zeros standing in for bytes past the end.
pub open spec fn word_at(bytes: Seq<u8>, start: int) -> u32 {
    word_of_bytes(
        byte_or_zero(bytes, start),
        byte_or_zero(bytes, start + 1),
        byte_or_zero(bytes, start + 2),
        byte_or_zero(bytes, start + 3),
    )
}

/// Byte number `k` (0 to 3, least significant first) of `word`.
pub open spec fn byte_of_word(word: u32, k: int) -> u8 {
    ((word >> ((8 * k) as u32)) & 0xff) as u8
}

/// Each byte that went into a word comes out of it again.
pub proof fn lemma_bytes_of_word(b0: u8, b1: u8, b2: u8, b3: u8)
    ensures
        byte_of_word(word_of_bytes(b0, b1, b2, b3), 0) == b0,
        byte_of_word(word_of_bytes(b0, b1, b2, b3), 1) == b1,
        byte_of_word(word_of_bytes(b0, b1, b2, b3), 2) == b2,
        byte_of_word(word_of_bytes(b0, b1, b2, b3), 3) == b3,
{
    assert((((b0 as u32) | ((b1 as u32) << 8) | ((b2 as u32) << 16) | ((b3 as u32) << 24)) >> 0u32)
        & 0xff == b0 as u32) by (bit_vector);
    assert((((b0 as u32) | ((b1 as u32) << 8) | ((b2 as u32) << 16) | ((b3 as u32) << 24)) >> 8u32)
        & 0xff == b1 as u32) by (bit_vector);
    assert((((b0 as u32) | ((b1 as u32) << 8) | ((b2 as u32) << 16) | ((b3 as u32) << 24)) >> 16u32)
        & 0xff == b2 as u32) by (bit_vector);
    assert((((b0 as u32) | ((b1 as u32) << 8) | ((b2 as u32) << 16) | ((b3 as u32) << 24)) >> 24u32)
        & 0xff == b3 as u32) by (bit_vector);
}

/// Reads up to four bytes as a little-endian word; missing bytes count as zero
/// and bytes after the fourth are ignored.
pub fn bytes_to_u32_le(bytes: &[u8]) -> (word: u32)
    ensures
        word == word_at(bytes@, 0),
{
    let b0: u8 = if bytes.len() > 0 { bytes[0] } else { 0 };
    let b1: u8 = if bytes.len() > 1 { bytes[1] } else { 0 };
    let b2: u8 = if bytes.len() > 2 { bytes[2] } else { 0 };
    let b3: u8 = if bytes.len() > 3 { bytes[3] } else { 0 };
    (b0 as u32) | ((b1 as u32) << 8) | ((b2 as u32) << 16) | ((b3 as u32) << 24)
}

} // verus!
