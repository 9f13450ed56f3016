//! A bitmap with one bit per glyph, the most significant bit of each byte first.
use vstd::prelude::*;

use super::bit_is_set;

verus! {

#[derive(Clone, Copy)]
pub(crate) struct Bitmap<'a> {
    bytes: &'a [u8],
}

impl<'a> View for Bitmap<'a> {
    type V = Seq<u8>;

    closed spec fn view(&self) -> Seq<u8> {
        self.bytes@
    }
}

impl<'a> Bitmap<'a> {
    pub(crate) fn new(bytes: &'a [u8]) -> (r: Self)
        ensures
            r@ == bytes@,
    {
        Self { bytes }
    }

    /// Bit `index` of the bitmap.
    pub(crate) fn is_set(self, index: u16) -> (r: bool)
        requires
            (index as int) < self@.len() * 8,
        ensures
            r == bit_is_set(self@, index as int),
    {
        let index = index as usize;
        let byte = self.bytes[index / 8];
        let bit: u8 = 0x80 >> (index % 8);
        byte & bit != 0
    }
}

/// Bit `index` of a bitmap is the bit of weight `2^(7 - index % 8)` of byte
/// `index / 8`: the eight glyphs of a byte take its bits from the most
/// significant down, and two glyphs never share a bit.
pub proof fn law_bitmap_bit_order(bytes: Seq<u8>, index: int)
    requires
        0 <= index < bytes.len() * 8,
    ensures
        bit_is_set(bytes, index) == ((bytes[index / 8] as int / vstd::arithmetic::power2::pow2(
            (7 - index % 8) as nat,
        ) as int) % 2 == 1),
{
    let b = bytes[index / 8];
    vstd::arithmetic::power2::lemma2_to64();
    assert({
        &&& (b & (0x80u8 >> 0u8) != 0) == ((b / 128) % 2 == 1)
        &&& (b & (0x80u8 >> 1u8) != 0) == ((b / 64) % 2 == 1)
        &&& (b & (0x80u8 >> 2u8) != 0) == ((b / 32) % 2 == 1)
        &&& (b & (0x80u8 >> 3u8) != 0) == ((b / 16) % 2 == 1)
        &&& (b & (0x80u8 >> 4u8) != 0) == ((b / 8) % 2 == 1)
        &&& (b & (0x80u8 >> 5u8) != 0) == ((b / 4) % 2 == 1)
        &&& (b & (0x80u8 >> 6u8) != 0) == ((b / 2) % 2 == 1)
        &&& (b & (0x80u8 >> 7u8) != 0) == (b % 2 == 1)
    }) by (bit_vector);
    let r = index % 8;
    if r == 0 {
        assert(bit_is_set(bytes, index) == (b & (0x80u8 >> 0u8) != 0));
        assert(vstd::arithmetic::power2::pow2((7 - index % 8) as nat) == 128);
    } else if r == 1 {
        assert(bit_is_set(bytes, index) == (b & (0x80u8 >> 1u8) != 0));
        assert(vstd::arithmetic::power2::pow2((7 - index % 8) as nat) == 64);
    } else if r == 2 {
        assert(bit_is_set(bytes, index) == (b & (0x80u8 >> 2u8) != 0));
        assert(vstd::arithmetic::power2::pow2((7 - index % 8) as nat) == 32);
    } else if r == 3 {
        assert(bit_is_set(bytes, index) == (b & (0x80u8 >> 3u8) != 0));
        assert(vstd::arithmetic::power2::pow2((7 - index % 8) as nat) == 16);
    } else if r == 4 {
        assert(bit_is_set(bytes, index) == (b & (0x80u8 >> 4u8) != 0));
        assert(vstd::arithmetic::power2::pow2((7 - index % 8) as nat) == 8);
    } else if r == 5 {
        assert(bit_is_set(bytes, index) == (b & (0x80u8 >> 5u8) != 0));
        assert(vstd::arithmetic::power2::pow2((7 - index % 8) as nat) == 4);
    } else if r == 6 {
        assert(bit_is_set(bytes, index) == (b & (0x80u8 >> 6u8) != 0));
        assert(vstd::arithmetic::power2::pow2((7 - index % 8) as nat) == 2);
    } else {
        assert(bit_is_set(bytes, index) == (b & (0x80u8 >> 7u8) != 0));
        assert(vstd::arithmetic::power2::pow2((7 - index % 8) as nat) == 1);
    }
}

} // verus!
