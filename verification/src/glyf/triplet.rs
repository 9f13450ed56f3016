//! The lookup table of the WOFF2 `glyf` transform that says how a point's
//! flag byte and the bytes after it give the point's coordinate deltas
//! (<https://www.w3.org/TR/WOFF2/#triplet_decoding>).
use vstd::prelude::*;

verus! {

/// How one entry of the table turns the bytes of a point into its deltas:
/// `byte_count` bytes hold, from the most significant end, `x_bits` bits of
/// the x delta and then `y_bits` bits of the y delta; `delta_x` and `delta_y`
/// are added, and the sign flags negate.
#[derive(Clone, Copy, Debug, PartialEq, Eq, Structural)]
pub struct XYTriplet {
    pub x_is_negative: bool,
    pub y_is_negative: bool,
    pub byte_count: u8,
    pub x_bits: u8,
    pub y_bits: u8,
    pub delta_x: u16,
    pub delta_y: u16,
}

/// `v` negated as `i16` arithmetic does it with wrap-around (the negation of
/// `i16::MIN` is itself), or `v` itself.
pub open spec fn with_sign(v: i16, negative: bool) -> i16 {
    if !negative {
        v
    } else if v == i16::MIN {
        v
    } else {
        (-v) as i16
    }
}

/// The `bits` low bits of a 32-bit word set.
pub open spec fn low_mask(bits: u8) -> u32 {
    ((1u32 << bits) - 1) as u32
}

impl XYTriplet {
    /// The entry's fields are such that `dx` is defined on every word.
    pub open spec fn dx_defined(&self) -> bool {
        &&& self.byte_count * 8 <= u8::MAX
        &&& self.x_bits <= self.byte_count * 8
        &&& self.x_bits < 32
        &&& self.byte_count * 8 - self.x_bits < 32
    }

    /// The entry's fields are such that `dy` is defined on every word.
    pub open spec fn dy_defined(&self) -> bool {
        &&& self.byte_count * 8 <= u8::MAX
        &&& self.x_bits + self.y_bits <= self.byte_count * 8
        &&& self.y_bits < 32
        &&& self.byte_count * 8 - self.x_bits - self.y_bits < 32
    }

    /// The x delta that the entry gives for the word `data`, whose low
    /// `8 * byte_count` bits are the point's bytes: the `x_bits` bits at the
    /// most significant end of those, plus `delta_x`, taken as `i16`, and
    /// negated where `x_is_negative`.
    pub open spec fn dx_of(&self, data: u32) -> i16 {
        let shift = (self.byte_count * 8 - self.x_bits) as u8;
        let magnitude = (((data >> shift) & low_mask(self.x_bits)) + self.delta_x) as u32;
        with_sign(magnitude as i16, self.x_is_negative)
    }

    /// The y delta that the entry gives for the word `data`: the `y_bits`
    /// bits after the x field, plus `delta_y`, taken as `i16`, and negated
    /// where `y_is_negative`.
    pub open spec fn dy_of(&self, data: u32) -> i16 {
        let shift = (self.byte_count * 8 - self.x_bits - self.y_bits) as u8;
        let magnitude = (((data >> shift) & low_mask(self.y_bits)) + self.delta_y) as u32;
        with_sign(magnitude as i16, self.y_is_negative)
    }

    fn new(
        byte_count: u8,
        x_bits: u8,
        y_bits: u8,
        delta_x: u16,
        delta_y: u16,
        x_is_negative: bool,
        y_is_negative: bool,
    ) -> (r: Self)
        ensures
            r == (XYTriplet {
                x_is_negative,
                y_is_negative,
                byte_count,
                x_bits,
                y_bits,
                delta_x,
                delta_y,
            }),
    {
        Self { x_is_negative, y_is_negative, byte_count, x_bits, y_bits, delta_x, delta_y }
    }

    /// The x delta of a point whose bytes make up `data`.
    pub fn dx(&self, data: u32) -> (r: i16)
        requires
            self.dx_defined(),
        ensures
            r == self.dx_of(data),
    {
        let x_bits = self.x_bits;
        assert((1u32 << x_bits) >= 1 && (1u32 << x_bits) - 1 <= 0x7fff_ffff) by (bit_vector)
            requires
                x_bits < 32,
        ;
        let mask = (1u32 << self.x_bits) - 1;
        let shift = (self.byte_count * 8) - self.x_bits;
        let field = (data >> shift) & mask;
        assert(((data >> shift) & mask) <= mask) by (bit_vector);
        let dx = field + u32::from(self.delta_x);
        if self.x_is_negative {
            0i16.wrapping_sub(dx as i16)
        } else {
            dx as i16
        }
    }

    /// The y delta of a point whose bytes make up `data`.
    pub fn dy(&self, data: u32) -> (r: i16)
        requires
            self.dy_defined(),
        ensures
            r == self.dy_of(data),
    {
        let y_bits = self.y_bits;
        assert((1u32 << y_bits) >= 1 && (1u32 << y_bits) - 1 <= 0x7fff_ffff) by (bit_vector)
            requires
                y_bits < 32,
        ;
        let mask = (1u32 << self.y_bits) - 1;
        let shift = (self.byte_count * 8) - self.x_bits - self.y_bits;
        let field = (data >> shift) & mask;
        assert(((data >> shift) & mask) <= mask) by (bit_vector);
        let dy = field + u32::from(self.delta_y);
        if self.y_is_negative {
            0i16.wrapping_sub(dy as i16)
        } else {
            dy as i16
        }
    }
}

// ---------------------------------------------------------------------------
// The table
// ---------------------------------------------------------------------------

const DELTA_4BIT: [u16; 4] = [1, 17, 33, 49];

const DELTA_8BIT: [u16; 3] = [1, 257, 513];

/// The deltas of the entries with 4-bit fields: 1, 17, 33, 49.
pub open spec fn delta_4bit(group: int) -> u16 {
    (1 + 16 * group) as u16
}

/// The deltas of the entries with 8-bit fields: 1, 257, 513.
pub open spec fn delta_8bit(group: int) -> u16 {
    (1 + 256 * group) as u16
}

/// An entry with both fields, in sign group `sign_group`: the x delta is
/// negative where bit 0 of the group is clear, the y delta where bit 1 is.
pub open spec fn signed_triplet(
    count: u8,
    x_bits: u8,
    y_bits: u8,
    delta_x: u16,
    delta_y: u16,
    sign_group: int,
) -> XYTriplet {
    XYTriplet {
        x_is_negative: sign_group % 2 == 0,
        y_is_negative: (sign_group / 2) % 2 == 0,
        byte_count: count,
        x_bits,
        y_bits,
        delta_x,
        delta_y,
    }
}

/// Entries 0 to 9: one byte of y only, with delta 256 times half the index,
/// negative at even indices.
pub open spec fn y_only_triplet(index: int) -> XYTriplet {
    XYTriplet {
        x_is_negative: false,
        y_is_negative: index % 2 == 0,
        byte_count: 1,
        x_bits: 0,
        y_bits: 8,
        delta_x: 0,
        delta_y: ((index / 2) * 256) as u16,
    }
}

/// Entries 10 to 19: one byte of x only, with delta 256 times half the
/// index (counted from 10), negative at even indices.
pub open spec fn x_only_triplet(index: int) -> XYTriplet {
    XYTriplet {
        x_is_negative: index % 2 == 0,
        y_is_negative: false,
        byte_count: 1,
        x_bits: 8,
        y_bits: 0,
        delta_x: ((index / 2) * 256) as u16,
        delta_y: 0,
    }
}

/// Entries 20 to 83: one byte with two 4-bit fields.
pub open spec fn packed_4bit_triplet(index: int) -> XYTriplet {
    signed_triplet(1, 4, 4, delta_4bit(index / 16), delta_4bit((index / 4) % 4), index % 4)
}

/// Entries 84 to 119: two bytes with two 8-bit fields.
pub open spec fn packed_8bit_triplet(index: int) -> XYTriplet {
    signed_triplet(2, 8, 8, delta_8bit(index / 12), delta_8bit((index / 4) % 3), index % 4)
}

/// Entry `index` of the table, for `index` below 128.
pub open spec fn coord_triplet(index: int) -> XYTriplet {
    if index < 10 {
        y_only_triplet(index)
    } else if index < 20 {
        x_only_triplet(index - 10)
    } else if index < 84 {
        packed_4bit_triplet(index - 20)
    } else if index < 120 {
        packed_8bit_triplet(index - 84)
    } else if index < 124 {
        signed_triplet(3, 12, 12, 0, 0, index - 120)
    } else {
        signed_triplet(4, 16, 16, 0, 0, index - 124)
    }
}

/// Every entry of the table reads between one and four bytes, and its
/// fields lie within them, so that `dx` and `dy` are defined on it.
pub proof fn lemma_coord_triplet_well_formed(index: int)
    requires
        0 <= index < 128,
    ensures
        1 <= coord_triplet(index).byte_count <= 4,
        coord_triplet(index).x_bits + coord_triplet(index).y_bits == coord_triplet(
            index,
        ).byte_count * 8,
        coord_triplet(index).dx_defined(),
        coord_triplet(index).dy_defined(),
{
}

fn signed_entry(
    count: u8,
    x_bits: u8,
    y_bits: u8,
    delta_x: u16,
    delta_y: u16,
    sign_group: usize,
) -> (r: XYTriplet)
    ensures
        r == signed_triplet(count, x_bits, y_bits, delta_x, delta_y, sign_group as int),
{
    assert((sign_group & 1usize == 0) == (sign_group % 2 == 0)) by (bit_vector);
    assert((sign_group & 2usize == 0) == ((sign_group / 2) % 2 == 0)) by (bit_vector);
    let x_neg = sign_group & 0b01 == 0;
    let y_neg = sign_group & 0b10 == 0;
    XYTriplet::new(count, x_bits, y_bits, delta_x, delta_y, x_neg, y_neg)
}

fn y_only_entry(index: usize) -> (r: XYTriplet)
    requires
        index < 10,
    ensures
        r == y_only_triplet(index as int),
{
    let delta_y = ((index / 2) as u16) * 256;
    let y_is_negative = index % 2 == 0;
    XYTriplet::new(1, 0, 8, 0, delta_y, false, y_is_negative)
}

fn x_only_entry(index: usize) -> (r: XYTriplet)
    requires
        index < 10,
    ensures
        r == x_only_triplet(index as int),
{
    let delta_x = ((index / 2) as u16) * 256;
    let x_is_negative = index % 2 == 0;
    XYTriplet::new(1, 8, 0, delta_x, 0, x_is_negative, false)
}

fn packed_4bit_entry(index: usize) -> (r: XYTriplet)
    requires
        index < 64,
    ensures
        r == packed_4bit_triplet(index as int),
{
    let x_group = index / 16;
    let y_group = (index / 4) % 4;
    let delta_x = DELTA_4BIT[x_group];
    let delta_y = DELTA_4BIT[y_group];
    assert(delta_x == delta_4bit(x_group as int));
    assert(delta_y == delta_4bit(y_group as int));
    let sign_group = index % 4;
    signed_entry(1, 4, 4, delta_x, delta_y, sign_group)
}

fn packed_8bit_entry(index: usize) -> (r: XYTriplet)
    requires
        index < 36,
    ensures
        r == packed_8bit_triplet(index as int),
{
    let x_group = index / 12;
    let y_group = (index / 4) % 3;
    let delta_x = DELTA_8BIT[x_group];
    let delta_y = DELTA_8BIT[y_group];
    assert(delta_x == delta_8bit(x_group as int));
    assert(delta_y == delta_8bit(y_group as int));
    let sign_group = index % 4;
    signed_entry(2, 8, 8, delta_x, delta_y, sign_group)
}

/// Entry `index` of the table.
pub(crate) fn coord_lut_entry(index: usize) -> (r: XYTriplet)
    requires
        index < 128,
    ensures
        r == coord_triplet(index as int),
{
    if index <= 9 {
        y_only_entry(index)
    } else if index <= 19 {
        x_only_entry(index - 10)
    } else if index <= 83 {
        packed_4bit_entry(index - 20)
    } else if index <= 119 {
        packed_8bit_entry(index - 84)
    } else if index <= 123 {
        signed_entry(3, 12, 12, 0, 0, index - 120)
    } else {
        signed_entry(4, 16, 16, 0, 0, index - 124)
    }
}

// ---------------------------------------------------------------------------
// The table as the format gives it
// ---------------------------------------------------------------------------

/// `m`, negated where `negative`.
pub open spec fn signed_if(negative: bool, m: int) -> int {
    if negative {
        -m
    } else {
        m
    }
}

proof fn lemma_masks()
    ensures
        low_mask(0) == 0,
        low_mask(4) == 15,
        low_mask(8) == 255,
        low_mask(12) == 4095,
        low_mask(16) == 65535,
{
    assert(((1u32 << 0u8) - 1) as u32 == 0u32 && ((1u32 << 4u8) - 1) as u32 == 15u32 && ((1u32
        << 8u8) - 1) as u32 == 255u32 && ((1u32 << 12u8) - 1) as u32 == 4095u32 && ((1u32 << 16u8)
        - 1) as u32 == 65535u32) by (bit_vector);
}

/// The fields of a word of one byte.
proof fn lemma_fields_one_byte(data: u32)
    requires
        data < 0x100,
    ensures
        (data >> 8u8) & 0u32 == 0,
        (data >> 0u8) & 0u32 == 0,
        (data >> 0u8) & 255u32 == data,
        (data >> 4u8) & 15u32 == data / 16,
        (data >> 0u8) & 15u32 == data % 16,
{
    assert((data >> 8u8) & 0u32 == 0 && (data >> 0u8) & 0u32 == 0) by (bit_vector);
    assert((data >> 0u8) & 255u32 == data) by (bit_vector)
        requires
            data < 0x100,
    ;
    assert((data >> 4u8) & 15u32 == data / 16 && (data >> 0u8) & 15u32 == data % 16)
        by (bit_vector)
        requires
            data < 0x100,
    ;
}

/// The fields of a word of two, three and four bytes.
proof fn lemma_fields_wide(data: u32)
    ensures
        data < 0x1_0000 ==> (data >> 8u8) & 255u32 == data / 256,
        (data >> 0u8) & 255u32 == data % 256,
        data < 0x100_0000 ==> (data >> 12u8) & 4095u32 == data / 4096,
        (data >> 0u8) & 4095u32 == data % 4096,
        (data >> 16u8) & 65535u32 == data / 65536,
        (data >> 0u8) & 65535u32 == data % 65536,
{
    assert(data < 0x1_0000 ==> (data >> 8u8) & 255u32 == data / 256) by (bit_vector);
    assert((data >> 0u8) & 255u32 == data % 256) by (bit_vector);
    assert(data < 0x100_0000 ==> (data >> 12u8) & 4095u32 == data / 4096) by (bit_vector);
    assert((data >> 0u8) & 4095u32 == data % 4096) by (bit_vector);
    assert((data >> 16u8) & 65535u32 == data / 65536) by (bit_vector);
    assert((data >> 0u8) & 65535u32 == data % 65536) by (bit_vector);
}

/// The triplet table of WOFF2 (its section "Triplet encoding"): the flag
/// index of a point says how many bytes hold its deltas and how they are
/// read. With `data` the point's bytes as one big-endian word:
/// - 0 to 9: one byte, x delta 0, y delta the byte plus 256 times half the
///   index, negative at even indices;
/// - 10 to 19: the same with x and y exchanged, counted from 10;
/// - 20 to 83, counted from 20 as `j`: one byte, the high four bits plus
///   1, 17, 33 or 49 (by `j / 16`) for x, the low four bits plus 1, 17, 33
///   or 49 (by `(j / 4) % 4`) for y;
/// - 84 to 119, counted from 84 as `j`: two bytes, the first plus 1, 257
///   or 513 (by `j / 12`) for x, the second plus 1, 257 or 513 (by
///   `(j / 4) % 3`) for y;
/// - 120 to 123: three bytes, twelve bits each for x and y;
/// - 124 to 127: four bytes, sixteen bits each;
/// where in the last four groups x is negative at even `j` and y where
/// `j % 4` is 0 or 1. (For the last group the law is stated where each
/// field is below 0x8000, so that its value is an `i16`.)
pub proof fn law_triplet_table(index: int, data: u32)
    requires
        0 <= index < 128,
        index < 84 ==> data < 0x100,
        84 <= index < 120 ==> data < 0x1_0000,
        120 <= index < 124 ==> data < 0x100_0000,
        124 <= index ==> data / 0x1_0000 < 0x8000 && data % 0x1_0000 < 0x8000,
    ensures
        ({
            let t = coord_triplet(index);
            let dx = t.dx_of(data) as int;
            let dy = t.dy_of(data) as int;
            let d = data as int;
            &&& index < 10 ==> {
                &&& t.byte_count == 1
                &&& dx == 0
                &&& dy == signed_if(index % 2 == 0, d + 256 * (index / 2))
            }
            &&& 10 <= index < 20 ==> {
                &&& t.byte_count == 1
                &&& dx == signed_if((index - 10) % 2 == 0, d + 256 * ((index - 10) / 2))
                &&& dy == 0
            }
            &&& 20 <= index < 84 ==> {
                &&& t.byte_count == 1
                &&& dx == signed_if((index - 20) % 2 == 0, d / 16 + 1 + 16 * ((index - 20) / 16))
                &&& dy == signed_if(
                    (index - 20) % 4 < 2,
                    d % 16 + 1 + 16 * (((index - 20) / 4) % 4),
                )
            }
            &&& 84 <= index < 120 ==> {
                &&& t.byte_count == 2
                &&& dx == signed_if(
                    (index - 84) % 2 == 0,
                    d / 256 + 1 + 256 * ((index - 84) / 12),
                )
                &&& dy == signed_if(
                    (index - 84) % 4 < 2,
                    d % 256 + 1 + 256 * (((index - 84) / 4) % 3),
                )
            }
            &&& 120 <= index < 124 ==> {
                &&& t.byte_count == 3
                &&& dx == signed_if((index - 120) % 2 == 0, d / 4096)
                &&& dy == signed_if((index - 120) % 4 < 2, d % 4096)
            }
            &&& 124 <= index ==> {
                &&& t.byte_count == 4
                &&& dx == signed_if((index - 124) % 2 == 0, d / 65536)
                &&& dy == signed_if((index - 124) % 4 < 2, d % 65536)
            }
        }),
{
    lemma_masks();
    if index < 84 {
        lemma_fields_one_byte(data);
    } else {
        lemma_fields_wide(data);
    }
    if 20 <= index < 84 {
        let j = index - 20;
        assert((j % 4) % 2 == j % 2);
        assert(((j % 4) / 2) % 2 == 0 <==> j % 4 < 2);
    } else if 84 <= index < 120 {
        let j = index - 84;
        assert((j % 4) % 2 == j % 2);
        assert(((j % 4) / 2) % 2 == 0 <==> j % 4 < 2);
    } else if 120 <= index {
        let j = if index < 124 {
            index - 120
        } else {
            index - 124
        };
        assert((j % 4) % 2 == j % 2);
        assert(((j % 4) / 2) % 2 == 0 <==> j % 4 < 2);
    }
}

} // verus!
