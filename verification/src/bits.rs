//! Bit-packed glyph data: one bit per pixel, most significant bit first.

use vstd::arithmetic::power2::{lemma2_to64, pow2};
use vstd::prelude::*;

verus! {

/// Whether bit `k` of `byte` is set, counting from the most significant bit
/// (`k == 0`) down to the least significant one (`k == 7`).
pub open spec fn bit_msb(byte: u8, k: int) -> bool {
    (byte as int / pow2((7 - k) as nat) as int) % 2 == 1
}

/// Bit `i` of the stream that the bytes of `pixels` form when each byte gives
/// its eight bits most significant first and the bytes follow one another.
pub open spec fn glyph_bit(pixels: Seq<u8>, i: int) -> bool {
    bit_msb(pixels[i / 8], i % 8)
}

/// The number of bits that `pixels` holds.
pub open spec fn bit_len(pixels: Seq<u8>) -> nat {
    8 * pixels.len()
}

/// Reads bit `k` of `byte`, most significant bit first.
pub fn bit_at(byte: u8, k: usize) -> (set: bool)
    requires
        k < 8,
    ensures
        set == bit_msb(byte, k as int),
{
    let shift: u8 = k as u8;
    let mask: u8 = 128u8 >> shift;
    proof {
        lemma2_to64();
        assert(mask == pow2((7 - k) as nat)) by {
            assert(128u8 >> 0u8 == 128u8) by (bit_vector);
            assert(128u8 >> 1u8 == 64u8) by (bit_vector);
            assert(128u8 >> 2u8 == 32u8) by (bit_vector);
            assert(128u8 >> 3u8 == 16u8) by (bit_vector);
            assert(128u8 >> 4u8 == 8u8) by (bit_vector);
            assert(128u8 >> 5u8 == 4u8) by (bit_vector);
            assert(128u8 >> 6u8 == 2u8) by (bit_vector);
            assert(128u8 >> 7u8 == 1u8) by (bit_vector);
        }
        assert((byte & mask != 0) == ((byte / mask) % 2 == 1)) by (bit_vector)
            requires
                mask == 128u8 >> shift,
                shift < 8,
        ;
    }
    byte & mask != 0
}

/// Reads bit `i` of the stream that `pixels` holds.
pub fn glyph_bit_at(pixels: &[u8], i: usize) -> (set: bool)
    requires
        i < bit_len(pixels@),
    ensures
        set == glyph_bit(pixels@, i as int),
{
    bit_at(pixels[i / 8], i % 8)
}

} // verus!
