//! Simple glyphs: the contour ends from the point counts, the points from
//! the flag and glyph streams through the triplet table, re-encoded in the
//! flags and coordinate arrays of `glyf`.
use vstd::prelude::*;

use crate::buffer::{
    be_i16, be_u16, be_u32, i16_be_bytes, lemma_i16_be_roundtrip, lemma_u16_be_roundtrip, put_i16,
    put_u16, put_u8, u16_be_bytes, u255_u16_decode,
    BufExt, SafeBuf,
};

use super::composite::lemma_four_i16_rewritten;
use super::triplet::{coord_lut_entry, coord_triplet, lemma_coord_triplet_well_formed};
use super::{
    bit_is_set, overlap_simple_bit, GlyfBitmaps, GlyfDecoderError, GlyfStreams, Woff2GlyfDecoder,
};

verus! {

// ---------------------------------------------------------------------------
// Point counts and contour ends
// ---------------------------------------------------------------------------

/// The first `count` point counts of the n-points stream, each a
/// `255UInt16`: the counts and how many bytes they take.
pub open spec fn read_point_counts(s: Seq<u8>, count: nat) -> Option<(Seq<u16>, nat)>
    decreases count,
{
    if count == 0 {
        Some((Seq::empty(), 0))
    } else {
        match read_point_counts(s, (count - 1) as nat) {
            None => None,
            Some((counts, used)) => match u255_u16_decode(s.skip(used as int)) {
                (Ok(v), n) => Some((counts.push(v), used + n)),
                (Err(_), _) => None,
            },
        }
    }
}

/// The number of points of all the contours.
pub open spec fn point_total(counts: Seq<u16>) -> nat
    decreases counts.len(),
{
    if counts.len() == 0 {
        0
    } else {
        (point_total(counts.drop_last()) + counts.last()) as nat
    }
}

/// The sum of the point counts as 16-bit arithmetic computes it.
pub open spec fn running_total(counts: Seq<u16>) -> u16
    decreases counts.len(),
{
    if counts.len() == 0 {
        0
    } else {
        vstd::wrapping::u16_specs::wrapping_add(running_total(counts.drop_last()), counts.last())
    }
}

/// The `endPtsOfContours` array: for each contour, the index of its last
/// point (the running total less one, in 16-bit arithmetic).
pub open spec fn end_points_bytes(counts: Seq<u16>) -> Seq<u8>
    decreases counts.len(),
{
    if counts.len() == 0 {
        Seq::empty()
    } else {
        end_points_bytes(counts.drop_last()) + u16_be_bytes(
            vstd::wrapping::u16_specs::wrapping_sub(running_total(counts), 1),
        )
    }
}

// ---------------------------------------------------------------------------
// Points
// ---------------------------------------------------------------------------

/// A point as the transform stores it: its flag byte, and its deltas from
/// the point before it.
pub struct TransformedPoint {
    pub flag: u8,
    pub dx: i16,
    pub dy: i16,
}

/// The word that `byte_count` bytes at the start of `s` make, most
/// significant first.
pub open spec fn point_word(s: Seq<u8>, byte_count: u8) -> u32 {
    if byte_count == 1 {
        s[0] as u32
    } else if byte_count == 2 {
        be_u16(s) as u32
    } else if byte_count == 3 {
        (s[0] as int * 0x1_0000 + be_u16(s.skip(1)) as int) as u32
    } else {
        be_u32(s)
    }
}

/// The next point: a flag byte from the flag stream, whose low seven bits
/// choose an entry of the triplet table, and that entry's bytes from the
/// glyph stream. The point, and how many bytes of the glyph stream it takes.
pub open spec fn read_point(flags: Seq<u8>, glyph: Seq<u8>) -> Option<(TransformedPoint, nat)> {
    if flags.len() < 1 {
        None
    } else {
        let flag = flags[0];
        let triplet = coord_triplet((flag % 128) as int);
        if glyph.len() < triplet.byte_count {
            None
        } else {
            let data = point_word(glyph, triplet.byte_count);
            Some(
                (
                    TransformedPoint { flag, dx: triplet.dx_of(data), dy: triplet.dy_of(data) },
                    triplet.byte_count as nat,
                ),
            )
        }
    }
}

/// The first `count` points: the points and how many bytes of the glyph
/// stream they take (they take `count` flag bytes).
pub open spec fn read_points(flags: Seq<u8>, glyph: Seq<u8>, count: nat) -> Option<
    (Seq<TransformedPoint>, nat),
>
    decreases count,
{
    if count == 0 {
        Some((Seq::empty(), 0))
    } else {
        match read_points(flags, glyph, (count - 1) as nat) {
            None => None,
            Some((points, used)) => match read_point(
                flags.skip(count - 1),
                glyph.skip(used as int),
            ) {
                None => None,
                Some((p, n)) => Some((points.push(p), used + n)),
            },
        }
    }
}

/// What reading a point that fails takes of the flag and glyph streams:
/// its flag byte where there is one, and the first byte of a three-byte
/// entry where only it, or it and one more, are there.
pub open spec fn read_point_progress(flags: Seq<u8>, glyph: Seq<u8>) -> (nat, nat) {
    if flags.len() < 1 {
        (0, 0)
    } else if coord_triplet((flags[0] % 128) as int).byte_count == 3 && glyph.len() >= 1 {
        (1, 1)
    } else {
        (1, 0)
    }
}

/// What reading `count` points takes of the flag and glyph streams where
/// one of them fails: the points before it, and what the failing read took.
pub open spec fn points_progress(flags: Seq<u8>, glyph: Seq<u8>, count: nat) -> (nat, nat)
    decreases count,
{
    if count == 0 {
        (0, 0)
    } else {
        match read_points(flags, glyph, (count - 1) as nat) {
            None => points_progress(flags, glyph, (count - 1) as nat),
            Some((_, used)) => {
                let p = read_point_progress(flags.skip(count - 1), glyph.skip(used as int));
                ((count - 1 + p.0) as nat, used + p.1)
            },
        }
    }
}

/// What reading the bounding box takes of the bbox stream: its four words,
/// or as many whole words as are there.
pub open spec fn bbox_taken(bbox: Seq<u8>) -> int {
    if bbox.len() >= 8 {
        8
    } else {
        (bbox.len() / 2 * 2) as int
    }
}

/// The x coordinate after the points, in 16-bit arithmetic from 0.
pub open spec fn end_x(points: Seq<TransformedPoint>) -> i16
    decreases points.len(),
{
    if points.len() == 0 {
        0
    } else {
        vstd::wrapping::i16_specs::wrapping_add(end_x(points.drop_last()), points.last().dx)
    }
}

/// The y coordinate after the points, in 16-bit arithmetic from 0.
pub open spec fn end_y(points: Seq<TransformedPoint>) -> i16
    decreases points.len(),
{
    if points.len() == 0 {
        0
    } else {
        vstd::wrapping::i16_specs::wrapping_add(end_y(points.drop_last()), points.last().dy)
    }
}

pub open spec fn min_i16(a: i16, b: i16) -> i16 {
    if b < a {
        b
    } else {
        a
    }
}

pub open spec fn max_i16(a: i16, b: i16) -> i16 {
    if b > a {
        b
    } else {
        a
    }
}

/// `(x_min, y_min, x_max, y_max)` over the coordinates of the points, all
/// zero where there are none.
pub open spec fn bounds(points: Seq<TransformedPoint>) -> (i16, i16, i16, i16)
    decreases points.len(),
{
    if points.len() == 0 {
        (0, 0, 0, 0)
    } else {
        let x = end_x(points);
        let y = end_y(points);
        if points.len() == 1 {
            (x, y, x, y)
        } else {
            let b = bounds(points.drop_last());
            (min_i16(b.0, x), min_i16(b.1, y), max_i16(b.2, x), max_i16(b.3, y))
        }
    }
}

/// The bytes of a bounding box, in the order of the glyph header.
pub open spec fn bounds_bytes(b: (i16, i16, i16, i16)) -> Seq<u8> {
    i16_be_bytes(b.0) + i16_be_bytes(b.1) + i16_be_bytes(b.2) + i16_be_bytes(b.3)
}

/// The short-vector and same-or-positive bits of a point's flags for an x
/// delta: no bytes for 0, one byte for a magnitude up to 255 (with the
/// second bit set for a positive delta), two bytes otherwise.
pub open spec fn x_delta_flags(d: i16) -> (u8, u8) {
    if d == 0 {
        (0x00, 0x10)
    } else if 1 <= d <= 255 {
        (0x02, 0x10)
    } else if -255 <= d <= -1 {
        (0x02, 0x00)
    } else {
        (0x00, 0x00)
    }
}

/// The same bits for a y delta.
pub open spec fn y_delta_flags(d: i16) -> (u8, u8) {
    if d == 0 {
        (0x00, 0x20)
    } else if 1 <= d <= 255 {
        (0x04, 0x20)
    } else if -255 <= d <= -1 {
        (0x04, 0x00)
    } else {
        (0x00, 0x00)
    }
}

/// The bytes that a delta takes in a coordinate array: none for 0, its
/// magnitude as one byte up to 255, two big-endian bytes otherwise.
pub open spec fn delta_bytes(d: i16) -> Seq<u8> {
    if d == 0 {
        Seq::empty()
    } else if 1 <= d <= 255 {
        seq![d as u8]
    } else if -255 <= d <= -1 {
        seq![(-d) as u8]
    } else {
        i16_be_bytes(d)
    }
}

/// The on-curve bit: set where the high bit of the transformed flag is clear.
pub open spec fn on_curve_bit(flag: u8) -> u8 {
    if flag & 0x80 == 0 {
        0x01
    } else {
        0x00
    }
}

/// A point's flags byte in `glyf`.
pub open spec fn point_flags(p: TransformedPoint, overlap: u8) -> u8 {
    on_curve_bit(p.flag) | x_delta_flags(p.dx).0 | y_delta_flags(p.dy).0 | x_delta_flags(p.dx).1
        | y_delta_flags(p.dy).1 | overlap
}

/// The flags array of the points.
pub open spec fn flags_bytes(points: Seq<TransformedPoint>, overlap: u8) -> Seq<u8>
    decreases points.len(),
{
    if points.len() == 0 {
        Seq::empty()
    } else {
        flags_bytes(points.drop_last(), overlap).push(point_flags(points.last(), overlap))
    }
}

/// The x coordinates array of the points.
pub open spec fn x_bytes(points: Seq<TransformedPoint>) -> Seq<u8>
    decreases points.len(),
{
    if points.len() == 0 {
        Seq::empty()
    } else {
        x_bytes(points.drop_last()) + delta_bytes(points.last().dx)
    }
}

/// The y coordinates array of the points.
pub open spec fn y_bytes(points: Seq<TransformedPoint>) -> Seq<u8>
    decreases points.len(),
{
    if points.len() == 0 {
        Seq::empty()
    } else {
        y_bytes(points.drop_last()) + delta_bytes(points.last().dy)
    }
}

/// A simple glyph with `number_of_contours` contours: the point counts from
/// the n-points stream, the points, the instruction length (a `255UInt16`
/// of the glyph stream) and the instructions, and the bounding box, from
/// the bbox stream where the bbox bitmap has a bit for the glyph and of the
/// points otherwise. Its bytes in `glyf` are the contour count, the box,
/// the contour ends, the instruction length, the instructions, the flags
/// and the two coordinate arrays; the streams after it go with them.
pub open spec fn simple_glyph(
    st: GlyfStreams,
    bitmaps: GlyfBitmaps,
    number_of_contours: i16,
    glyph_index: int,
) -> Result<(GlyfStreams, Seq<u8>), GlyfDecoderError> {
    match read_point_counts(st.n_points, number_of_contours as nat) {
        None => Err(GlyfDecoderError::Truncated),
        Some((counts, counts_len)) => match read_points(st.flag, st.glyph, point_total(counts)) {
            None => Err(GlyfDecoderError::Truncated),
            Some((points, points_len)) => {
                let glyph = st.glyph.skip(points_len as int);
                match u255_u16_decode(glyph) {
                    (Err(_), _) => Err(GlyfDecoderError::Truncated),
                    (Ok(instruction_length), length_len) => {
                        let explicit_bbox = bit_is_set(bitmaps.bbox, glyph_index);
                        if st.instruction.len() < instruction_length {
                            Err(GlyfDecoderError::Truncated)
                        } else if explicit_bbox && st.bbox.len() < 8 {
                            Err(GlyfDecoderError::Truncated)
                        } else {
                            let overlap = overlap_simple_bit(bitmaps, glyph_index);
                            let bbox = if explicit_bbox {
                                st.bbox.take(8)
                            } else {
                                bounds_bytes(bounds(points))
                            };
                            let bytes = i16_be_bytes(number_of_contours) + bbox + end_points_bytes(
                                counts,
                            ) + u16_be_bytes(instruction_length) + st.instruction.take(
                                instruction_length as int,
                            ) + flags_bytes(points, overlap) + x_bytes(points) + y_bytes(points);
                            let rest = GlyfStreams {
                                n_points: st.n_points.skip(counts_len as int),
                                flag: st.flag.skip(point_total(counts) as int),
                                glyph: glyph.skip(length_len as int),
                                bbox: if explicit_bbox {
                                    st.bbox.skip(8)
                                } else {
                                    st.bbox
                                },
                                instruction: st.instruction.skip(instruction_length as int),
                                ..st
                            };
                            Ok((rest, bytes))
                        }
                    },
                }
            },
        },
    }
}

/// What reading a simple glyph leaves of the streams, on success and on
/// failure alike: each read that succeeds takes its bytes, and a read that
/// fails takes what it got to (a point's flag byte, the start of a
/// `255UInt16` or of a point's bytes, the whole words of a bounding box).
pub open spec fn simple_glyph_progress(
    st: GlyfStreams,
    bitmaps: GlyfBitmaps,
    number_of_contours: i16,
    glyph_index: int,
) -> GlyfStreams {
    match read_point_counts(st.n_points, number_of_contours as nat) {
        None => st,
        Some((counts, counts_len)) => {
            let st1 = GlyfStreams { n_points: st.n_points.skip(counts_len as int), ..st };
            match read_points(st.flag, st.glyph, point_total(counts)) {
                None => {
                    let p = points_progress(st.flag, st.glyph, point_total(counts));
                    GlyfStreams {
                        flag: st.flag.skip(p.0 as int),
                        glyph: st.glyph.skip(p.1 as int),
                        ..st1
                    }
                },
                Some((_, points_len)) => {
                    let glyph = st.glyph.skip(points_len as int);
                    let length = u255_u16_decode(glyph);
                    let st2 = GlyfStreams {
                        flag: st.flag.skip(point_total(counts) as int),
                        glyph: glyph.skip(length.1 as int),
                        ..st1
                    };
                    match length.0 {
                        Err(_) => st2,
                        Ok(n) => if st.instruction.len() < n {
                            st2
                        } else {
                            let st3 = GlyfStreams {
                                instruction: st.instruction.skip(n as int),
                                ..st2
                            };
                            if bit_is_set(bitmaps.bbox, glyph_index) {
                                GlyfStreams { bbox: st.bbox.skip(bbox_taken(st.bbox)), ..st3 }
                            } else {
                                st3
                            }
                        },
                    }
                },
            }
        },
    }
}

/// How a TrueType reader takes one coordinate delta of a point, from the
/// short-vector bit and the same-or-positive bit of the point's flags and
/// the coordinate array: one byte, positive where the second bit is set;
/// without the first bit, 0 where the second is set and two bytes otherwise.
pub open spec fn truetype_delta(short_vector: bool, same_or_positive: bool, bytes: Seq<u8>) -> i16 {
    if short_vector {
        if same_or_positive {
            bytes[0] as i16
        } else {
            (-(bytes[0] as int)) as i16
        }
    } else if same_or_positive {
        0
    } else {
        be_i16(bytes)
    }
}

/// How many bytes of the coordinate array a TrueType reader takes for a delta.
pub open spec fn truetype_delta_len(short_vector: bool, same_or_positive: bool) -> nat {
    if short_vector {
        1
    } else if same_or_positive {
        0
    } else {
        2
    }
}

/// A TrueType reader gets back what the transform stored: from the flags
/// byte and the coordinate bytes written for a point, the on-curve bit, the
/// x and y deltas (taking exactly the bytes written), and the overlap bit;
/// the repeat bit and the reserved bit stay clear.
pub proof fn law_point_encoding_roundtrip(p: TransformedPoint, overlap: u8)
    requires
        overlap == 0x00 || overlap == 0x40,
    ensures
        (point_flags(p, overlap) & 0x01 != 0) == (p.flag & 0x80 == 0),
        truetype_delta(
            point_flags(p, overlap) & 0x02 != 0,
            point_flags(p, overlap) & 0x10 != 0,
            delta_bytes(p.dx),
        ) == p.dx,
        delta_bytes(p.dx).len() == truetype_delta_len(
            point_flags(p, overlap) & 0x02 != 0,
            point_flags(p, overlap) & 0x10 != 0,
        ),
        truetype_delta(
            point_flags(p, overlap) & 0x04 != 0,
            point_flags(p, overlap) & 0x20 != 0,
            delta_bytes(p.dy),
        ) == p.dy,
        delta_bytes(p.dy).len() == truetype_delta_len(
            point_flags(p, overlap) & 0x04 != 0,
            point_flags(p, overlap) & 0x20 != 0,
        ),
        point_flags(p, overlap) & 0x40 == overlap,
        point_flags(p, overlap) & 0x88 == 0,
{
    let on = on_curve_bit(p.flag);
    let xs = x_delta_flags(p.dx).0;
    let ys = y_delta_flags(p.dy).0;
    let xp = x_delta_flags(p.dx).1;
    let yp = y_delta_flags(p.dy).1;
    let f = point_flags(p, overlap);
    assert(f == on | xs | ys | xp | yp | overlap);
    assert({
        &&& (f & 0x01 != 0) == (on == 1)
        &&& (f & 0x02 != 0) == (xs == 2)
        &&& (f & 0x04 != 0) == (ys == 4)
        &&& (f & 0x10 != 0) == (xp == 0x10)
        &&& (f & 0x20 != 0) == (yp == 0x20)
        &&& f & 0x40 == overlap
        &&& f & 0x88 == 0
    }) by (bit_vector)
        requires
            f == on | xs | ys | xp | yp | overlap,
            on == 0 || on == 1,
            xs == 0 || xs == 2,
            ys == 0 || ys == 4,
            xp == 0 || xp == 0x10,
            yp == 0 || yp == 0x20,
            overlap == 0 || overlap == 0x40,
    ;
    assert((p.flag & 0x80 == 0) == (on == 1));
    let d = p.dx;
    if !(-255 <= d <= 255) {
        crate::buffer::lemma_i16_be_roundtrip(d);
    }
    let d = p.dy;
    if !(-255 <= d <= 255) {
        crate::buffer::lemma_i16_be_roundtrip(d);
    }
}

// ---------------------------------------------------------------------------
// Lemmas
// ---------------------------------------------------------------------------

/// Point counts that decode take no more bytes than there are.
proof fn lemma_read_point_counts_len(s: Seq<u8>, count: nat)
    requires
        read_point_counts(s, count) is Some,
    ensures
        read_point_counts(s, count)->Some_0.0.len() == count,
        read_point_counts(s, count)->Some_0.1 <= s.len(),
    decreases count,
{
    if count > 0 {
        lemma_read_point_counts_len(s, (count - 1) as nat);
    }
}

/// Points that decode take no more bytes than there are.
proof fn lemma_read_points_len(flags: Seq<u8>, glyph: Seq<u8>, count: nat)
    requires
        read_points(flags, glyph, count) is Some,
    ensures
        read_points(flags, glyph, count)->Some_0.0.len() == count,
        count <= flags.len(),
        read_points(flags, glyph, count)->Some_0.1 <= glyph.len(),
    decreases count,
{
    if count > 0 {
        lemma_read_points_len(flags, glyph, (count - 1) as nat);
    }
}

/// Where the point after the first `m` is the first that fails, reading
/// more points takes what reading that one took.
proof fn lemma_points_progress_stable(flags: Seq<u8>, glyph: Seq<u8>, m: nat, k: nat)
    requires
        m < k,
        read_points(flags, glyph, m) is Some,
        read_points(flags, glyph, m + 1) is None,
    ensures
        points_progress(flags, glyph, k) == points_progress(flags, glyph, m + 1),
        points_progress(flags, glyph, m + 1) == ({
            let used = read_points(flags, glyph, m)->Some_0.1;
            let p = read_point_progress(flags.skip(m as int), glyph.skip(used as int));
            ((m + p.0) as nat, used + p.1)
        }),
    decreases k - m,
{
    if k > m + 1 {
        lemma_read_points_none(flags, glyph, m + 1, (k - 1) as nat);
        lemma_points_progress_stable(flags, glyph, m, (k - 1) as nat);
    }
}

/// Once the first points fail to decode, more of them fail too.
proof fn lemma_read_points_none(flags: Seq<u8>, glyph: Seq<u8>, j: nat, k: nat)
    requires
        j <= k,
        read_points(flags, glyph, j) is None,
    ensures
        read_points(flags, glyph, k) is None,
    decreases k - j,
{
    if j < k {
        lemma_read_points_none(flags, glyph, j, (k - 1) as nat);
    }
}

/// The point totals of the contours before and through contour `c`.
proof fn lemma_total_points_take(counts: Seq<u16>, c: int)
    requires
        0 <= c < counts.len(),
    ensures
        point_total(counts.take(c + 1)) == point_total(counts.take(c)) + counts[c],
        running_total(counts.take(c + 1)) == vstd::wrapping::u16_specs::wrapping_add(
            running_total(counts.take(c)),
            counts[c],
        ),
        end_points_bytes(counts.take(c + 1)) == end_points_bytes(counts.take(c)) + u16_be_bytes(
            vstd::wrapping::u16_specs::wrapping_sub(running_total(counts.take(c + 1)), 1),
        ),
{
    assert(counts.take(c + 1).drop_last() =~= counts.take(c));
}

// ---------------------------------------------------------------------------
// Decoding
// ---------------------------------------------------------------------------

/// Appends the flags byte and the coordinate bytes of one point.
fn put_point(
    flag: u8,
    dx: i16,
    dy: i16,
    overlap_simple_flag: u8,
    flags_stream: &mut Vec<u8>,
    x_coordinates_stream: &mut Vec<u8>,
    y_coordinates_stream: &mut Vec<u8>,
)
    ensures
        final(flags_stream)@ == old(flags_stream)@.push(
            point_flags(TransformedPoint { flag, dx, dy }, overlap_simple_flag),
        ),
        final(x_coordinates_stream)@ == old(x_coordinates_stream)@ + delta_bytes(dx),
        final(y_coordinates_stream)@ == old(y_coordinates_stream)@ + delta_bytes(dy),
{
    let point_is_on_curve = (flag & 0x80) == 0x00;
    let on_curve_flag: u8 = if point_is_on_curve {
        0x01
    } else {
        0x00
    };
    let (x_short_vector_flag, x_is_same_flag): (u8, u8) = if dx == 0 {
        (0x00, 0x10)
    } else if 1 <= dx && dx <= 255 {
        put_u8(x_coordinates_stream, dx as u8);
        (0x02, 0x10)
    } else if -255 <= dx && dx <= -1 {
        put_u8(x_coordinates_stream, (-dx) as u8);
        (0x02, 0x00)
    } else {
        put_i16(x_coordinates_stream, dx);
        (0x00, 0x00)
    };
    let (y_short_vector_flag, y_is_same_flag): (u8, u8) = if dy == 0 {
        (0x00, 0x20)
    } else if 1 <= dy && dy <= 255 {
        put_u8(y_coordinates_stream, dy as u8);
        (0x04, 0x20)
    } else if -255 <= dy && dy <= -1 {
        put_u8(y_coordinates_stream, (-dy) as u8);
        (0x04, 0x00)
    } else {
        put_i16(y_coordinates_stream, dy);
        (0x00, 0x00)
    };
    assert(x_coordinates_stream@ =~= old(x_coordinates_stream)@ + delta_bytes(dx));
    assert(y_coordinates_stream@ =~= old(y_coordinates_stream)@ + delta_bytes(dy));
    put_u8(
        flags_stream,
        on_curve_flag | x_short_vector_flag | y_short_vector_flag | x_is_same_flag | y_is_same_flag
            | overlap_simple_flag,
    );
}

impl Woff2GlyfDecoder<'_> {
    /// Reads the point counts of `number_of_contours` contours: the counts
    /// and their sum in 16-bit arithmetic. On an error nothing is taken.
    fn take_point_counts(&mut self, number_of_contours: i16) -> (r: Result<
        (Vec<u16>, u16),
        GlyfDecoderError,
    >)
        requires
            number_of_contours > 0,
        ensures
            final(self).same_layout(*old(self)),
            match read_point_counts(old(self).n_points_stream@, number_of_contours as nat) {
                Some((counts, used)) => {
                    &&& r is Ok
                    &&& r->Ok_0.0@ == counts
                    &&& r->Ok_0.1 == running_total(counts)
                    &&& final(self).streams() == GlyfStreams {
                        n_points: old(self).n_points_stream@.skip(used as int),
                        ..old(self).streams()
                    }
                },
                None => {
                    &&& r == Err::<(Vec<u16>, u16), GlyfDecoderError>(GlyfDecoderError::Truncated)
                    &&& final(self).streams() == old(self).streams()
                },
            },
    {
        let mut n_points_stream = self.n_points_stream;
        let ghost s = n_points_stream@;
        let mut point_counts: Vec<u16> = Vec::with_capacity(number_of_contours as usize);
        let mut total_points: u16 = 0;
        let mut i: i16 = 0;
        assert(s.skip(0) =~= s);
        while i < number_of_contours
            invariant
                0 <= i <= number_of_contours,
                s == old(self).n_points_stream@,
                *self == *old(self),
                read_point_counts(s, i as nat) is Some,
                read_point_counts(s, i as nat)->Some_0.0 == point_counts@,
                n_points_stream@ == s.skip(read_point_counts(s, i as nat)->Some_0.1 as int),
                total_points == running_total(point_counts@),
            decreases number_of_contours - i,
        {
            let ghost before = n_points_stream@;
            let ghost used = read_point_counts(s, i as nat)->Some_0.1;
            proof {
                lemma_read_point_counts_len(s, i as nat);
            }
            let number_of_points = match n_points_stream.try_get_255_u16() {
                Ok(v) => v,
                Err(e) => {
                    assert(read_point_counts(s, (i + 1) as nat) is None);
                    proof {
                        lemma_read_point_counts_none(s, (i + 1) as nat, number_of_contours as nat);
                    }
                    return Err(GlyfDecoderError::from(e));
                },
            };
            let ghost n = u255_u16_decode(before).1;
            proof {
                assert(s.skip(used as int).skip(n as int) =~= s.skip((used + n) as int));
                assert(point_counts@.push(number_of_points).drop_last() =~= point_counts@);
            }
            total_points = total_points.wrapping_add(number_of_points);
            point_counts.push(number_of_points);
            i = i + 1;
        }
        self.n_points_stream = n_points_stream;
        Ok((point_counts, total_points))
    }

    /// Reads the flag byte and the coordinate bytes of the next point: the
    /// flag and the point's deltas.
    fn read_transformed_point(&mut self) -> (r: Result<(u8, i16, i16), GlyfDecoderError>)
        ensures
            final(self).same_layout(*old(self)),
            match read_point(old(self).flag_stream@, old(self).glyph_stream@) {
                Some((p, n)) => {
                    &&& r == Ok::<(u8, i16, i16), GlyfDecoderError>((p.flag, p.dx, p.dy))
                    &&& final(self).streams() == GlyfStreams {
                        flag: old(self).flag_stream@.skip(1),
                        glyph: old(self).glyph_stream@.skip(n as int),
                        ..old(self).streams()
                    }
                },
                None => {
                    let p = read_point_progress(old(self).flag_stream@, old(self).glyph_stream@);
                    &&& r == Err::<(u8, i16, i16), GlyfDecoderError>(GlyfDecoderError::Truncated)
                    &&& final(self).streams() == GlyfStreams {
                        flag: old(self).flag_stream@.skip(p.0 as int),
                        glyph: old(self).glyph_stream@.skip(p.1 as int),
                        ..old(self).streams()
                    }
                },
            },
    {
        let ghost g = self.glyph_stream@;
        let ghost f = self.flag_stream@;
        assert(f.skip(0) =~= f);
        assert(g.skip(0) =~= g);
        let flags = match SafeBuf::try_get_u8(&mut self.flag_stream) {
            Ok(v) => v,
            Err(e) => {
                return Err(GlyfDecoderError::from(e));
            },
        };
        assert((flags & 0x7f) == flags % 128) by (bit_vector);
        let triplet = coord_lut_entry((flags & 0x7f) as usize);
        proof {
            lemma_coord_triplet_well_formed((flags % 128) as int);
        }
        let data: u32 = if triplet.byte_count == 1 {
            match SafeBuf::try_get_u8(&mut self.glyph_stream) {
                Ok(v) => v as u32,
                Err(e) => {
                    return Err(GlyfDecoderError::from(e));
                },
            }
        } else if triplet.byte_count == 2 {
            match SafeBuf::try_get_u16(&mut self.glyph_stream) {
                Ok(v) => v as u32,
                Err(e) => {
                    return Err(GlyfDecoderError::from(e));
                },
            }
        } else if triplet.byte_count == 3 {
            let high = match SafeBuf::try_get_u8(&mut self.glyph_stream) {
                Ok(v) => v,
                Err(e) => {
                    return Err(GlyfDecoderError::from(e));
                },
            };
            let low = match SafeBuf::try_get_u16(&mut self.glyph_stream) {
                Ok(v) => v,
                Err(e) => {
                    return Err(GlyfDecoderError::from(e));
                },
            };
            assert(((high as u32) << 16u32) | (low as u32) == high as int * 0x1_0000 + low as int)
                by (bit_vector);
            assert(g.skip(1).skip(2) =~= g.skip(3));
            ((high as u32) << 16) | (low as u32)
        } else {
            // The table has no entry of more than four bytes.
            match SafeBuf::try_get_u32(&mut self.glyph_stream) {
                Ok(v) => v,
                Err(e) => {
                    return Err(GlyfDecoderError::from(e));
                },
            }
        };
        let dx = triplet.dx(data);
        let dy = triplet.dy(data);
        Ok((flags, dx, dy))
    }

    /// Decodes the points of the contours whose point counts are
    /// `point_counts`: the contour ends, the flags and coordinate arrays of
    /// `glyf`, and the bounds of the points.
    #[verifier::rlimit(40)]
    fn decode_contours(
        &mut self,
        point_counts: &Vec<u16>,
        total_points: u16,
        overlap_simple_flag: u8,
    ) -> (r: Result<
        DecodedContours,
        GlyfDecoderError,
    >)
        requires
            point_counts@.len() <= 0x7fff,
        ensures
            final(self).same_layout(*old(self)),
            match read_points(
                old(self).flag_stream@,
                old(self).glyph_stream@,
                point_total(point_counts@),
            ) {
                Some((points, used)) => {
                    &&& r is Ok
                    &&& r->Ok_0.end_points@ == end_points_bytes(point_counts@)
                    &&& r->Ok_0.flags@ == flags_bytes(points, overlap_simple_flag)
                    &&& r->Ok_0.x_coordinates@ == x_bytes(points)
                    &&& r->Ok_0.y_coordinates@ == y_bytes(points)
                    &&& (r->Ok_0.x_min, r->Ok_0.y_min, r->Ok_0.x_max, r->Ok_0.y_max) == bounds(
                        points,
                    )
                    &&& final(self).streams() == GlyfStreams {
                        flag: old(self).flag_stream@.skip(point_total(point_counts@) as int),
                        glyph: old(self).glyph_stream@.skip(used as int),
                        ..old(self).streams()
                    }
                },
                None => {
                    let p = points_progress(
                        old(self).flag_stream@,
                        old(self).glyph_stream@,
                        point_total(point_counts@),
                    );
                    &&& r is Err
                    &&& r->Err_0 == GlyfDecoderError::Truncated
                    &&& final(self).streams() == GlyfStreams {
                        flag: old(self).flag_stream@.skip(p.0 as int),
                        glyph: old(self).glyph_stream@.skip(p.1 as int),
                        ..old(self).streams()
                    }
                },
            },
    {
        let ghost st = self.streams();
        let ghost counts = point_counts@;
        let mut end_points_of_contours_stream: Vec<u8> = Vec::with_capacity(
            point_counts.len() * 2,
        );
        let mut flags_stream: Vec<u8> = Vec::with_capacity(total_points as usize);
        let mut x_coordinates_stream: Vec<u8> = Vec::with_capacity(total_points as usize * 2);
        let mut y_coordinates_stream: Vec<u8> = Vec::with_capacity(total_points as usize * 2);
        let mut running_total_points: u16 = 0;
        let mut x_min: i16 = 0;
        let mut y_min: i16 = 0;
        let mut x_max: i16 = 0;
        let mut y_max: i16 = 0;
        let mut extents_set = false;
        let mut x: i16 = 0;
        let mut y: i16 = 0;

        let ghost mut points: Seq<TransformedPoint> = Seq::empty();
        let ghost mut points_len: nat = 0;
        let num_contours = point_counts.len();
        let mut c: usize = 0;
        assert(counts.take(0) =~= Seq::<u16>::empty());
        assert(st.flag.skip(0) =~= st.flag);
        assert(st.glyph.skip(0) =~= st.glyph);
        while c < num_contours
            invariant
                c <= num_contours,
                num_contours == counts.len(),
                point_counts@ == counts,
                self.same_layout(*old(self)),
                st == old(self).streams(),
                self.streams() == (GlyfStreams {
                    flag: st.flag.skip(points.len() as int),
                    glyph: st.glyph.skip(points_len as int),
                    ..st
                }),
                read_points(st.flag, st.glyph, points.len()) == Some((points, points_len)),
                points.len() == point_total(counts.take(c as int)),
                running_total_points == running_total(counts.take(c as int)),
                end_points_of_contours_stream@ == end_points_bytes(counts.take(c as int)),
                x == end_x(points),
                y == end_y(points),
                extents_set == (points.len() > 0),
                (x_min, y_min, x_max, y_max) == bounds(points),
                flags_stream@ == flags_bytes(points, overlap_simple_flag),
                x_coordinates_stream@ == x_bytes(points),
                y_coordinates_stream@ == y_bytes(points),
            decreases num_contours - c,
        {
            let number_of_points = point_counts[c];
            proof {
                lemma_total_points_take(counts, c as int);
                lemma_point_total_prefix(counts, c + 1);
            }
            running_total_points = running_total_points.wrapping_add(number_of_points);
            put_u16(&mut end_points_of_contours_stream, running_total_points.wrapping_sub(1));
            let ghost points_before = points.len();
            let mut p: u16 = 0;
            while p < number_of_points
                invariant
                    p <= number_of_points,
                    points.len() == points_before + p,
                    points_before + number_of_points <= point_total(counts),
                    point_counts@ == counts,
                    self.same_layout(*old(self)),
                    st == old(self).streams(),
                    self.streams() == (GlyfStreams {
                        flag: st.flag.skip(points.len() as int),
                        glyph: st.glyph.skip(points_len as int),
                        ..st
                    }),
                    read_points(st.flag, st.glyph, points.len()) == Some((points, points_len)),
                    x == end_x(points),
                    y == end_y(points),
                    extents_set == (points.len() > 0),
                    (x_min, y_min, x_max, y_max) == bounds(points),
                    flags_stream@ == flags_bytes(points, overlap_simple_flag),
                    x_coordinates_stream@ == x_bytes(points),
                    y_coordinates_stream@ == y_bytes(points),
                decreases number_of_points - p,
            {
                proof {
                    lemma_read_points_len(st.flag, st.glyph, points.len());
                }
                let (flags, dx, dy) = match self.read_transformed_point() {
                    Ok(v) => v,
                    Err(e) => {
                        assert(read_points(st.flag, st.glyph, points.len() + 1) is None);
                        proof {
                            lemma_read_points_none(
                                st.flag,
                                st.glyph,
                                points.len() + 1,
                                point_total(counts),
                            );
                            lemma_points_progress_stable(
                                st.flag,
                                st.glyph,
                                points.len(),
                                point_total(counts),
                            );
                            let pp = read_point_progress(
                                st.flag.skip(points.len() as int),
                                st.glyph.skip(points_len as int),
                            );
                            assert(st.flag.skip(points.len() as int).skip(pp.0 as int)
                                =~= st.flag.skip((points.len() + pp.0) as int));
                            assert(st.glyph.skip(points_len as int).skip(pp.1 as int)
                                =~= st.glyph.skip((points_len + pp.1) as int));
                        }
                        return Err(e);
                    },
                };
                let ghost step = read_point(
                    st.flag.skip(points.len() as int),
                    st.glyph.skip(points_len as int),
                )->Some_0;
                let ghost points_prev = points;
                proof {
                    assert(st.flag.skip(points.len() as int).skip(1) =~= st.flag.skip(
                        points.len() + 1 as int,
                    ));
                    assert(st.glyph.skip(points_len as int).skip(step.1 as int) =~= st.glyph.skip(
                        (points_len + step.1) as int,
                    ));
                    points = points.push(step.0);
                    points_len = (points_len + step.1) as nat;
                    assert(points.drop_last() =~= points_prev);
                }
                x = x.wrapping_add(dx);
                y = y.wrapping_add(dy);
                if extents_set {
                    if x < x_min {
                        x_min = x;
                    }
                    if y < y_min {
                        y_min = y;
                    }
                    if x > x_max {
                        x_max = x;
                    }
                    if y > y_max {
                        y_max = y;
                    }
                } else {
                    x_min = x;
                    x_max = x;
                    y_min = y;
                    y_max = y;
                    extents_set = true;
                }
                put_point(
                    flags,
                    dx,
                    dy,
                    overlap_simple_flag,
                    &mut flags_stream,
                    &mut x_coordinates_stream,
                    &mut y_coordinates_stream,
                );
                p = p + 1;
            }
            c = c + 1;
        }
        assert(counts.take(num_contours as int) =~= counts);
        Ok(
            DecodedContours {
                end_points: end_points_of_contours_stream,
                flags: flags_stream,
                x_coordinates: x_coordinates_stream,
                y_coordinates: y_coordinates_stream,
                x_min,
                y_min,
                x_max,
                y_max,
            },
        )
    }

    /// Reads the four words of an explicit bounding box from the bbox
    /// stream. Where fewer are there it fails, taking the whole words.
    fn read_glyph_bbox(&mut self) -> (r: Result<(i16, i16, i16, i16), GlyfDecoderError>)
        ensures
            final(self).same_layout(*old(self)),
            final(self).streams() == (GlyfStreams {
                bbox: old(self).bbox_stream@.skip(bbox_taken(old(self).bbox_stream@)),
                ..old(self).streams()
            }),
            r is Ok <==> old(self).bbox_stream@.len() >= 8,
            r is Ok ==> bounds_bytes(r->Ok_0) == old(self).bbox_stream@.take(8),
            r is Err ==> r->Err_0 == GlyfDecoderError::Truncated,
    {
        let ghost b = self.bbox_stream@;
        proof {
            if b.len() >= 4 {
                assert(b.skip(2).skip(2) =~= b.skip(4));
            }
            if b.len() >= 6 {
                assert(b.skip(4).skip(2) =~= b.skip(6));
            }
            if b.len() >= 8 {
                assert(b.skip(6).skip(2) =~= b.skip(8));
            }
            assert(b.skip(0) =~= b);
        }
        let x_min = match SafeBuf::try_get_i16(&mut self.bbox_stream) {
            Ok(v) => v,
            Err(e) => {
                return Err(GlyfDecoderError::from(e));
            },
        };
        let y_min = match SafeBuf::try_get_i16(&mut self.bbox_stream) {
            Ok(v) => v,
            Err(e) => {
                return Err(GlyfDecoderError::from(e));
            },
        };
        let x_max = match SafeBuf::try_get_i16(&mut self.bbox_stream) {
            Ok(v) => v,
            Err(e) => {
                return Err(GlyfDecoderError::from(e));
            },
        };
        let y_max = match SafeBuf::try_get_i16(&mut self.bbox_stream) {
            Ok(v) => v,
            Err(e) => {
                return Err(GlyfDecoderError::from(e));
            },
        };
        proof {
            lemma_four_i16_rewritten(b);
        }
        Ok((x_min, y_min, x_max, y_max))
    }

    /// Appends a simple glyph with `number_of_contours` contours to
    /// `output_buffer`.
    #[verifier::rlimit(60)]
    pub(crate) fn parse_simple_glyph(
        &mut self,
        number_of_contours: i16,
        glyph_index: u16,
        output_buffer: &mut Vec<u8>,
    ) -> (r: Result<(), GlyfDecoderError>)
        requires
            old(self).has_bits_for(glyph_index as int),
            number_of_contours > 0,
        ensures
            final(self).same_layout(*old(self)),
            match simple_glyph(
                old(self).streams(),
                old(self).bitmaps(),
                number_of_contours,
                glyph_index as int,
            ) {
                Ok((after, bytes)) => {
                    &&& r is Ok
                    &&& final(self).streams() == after
                    &&& final(output_buffer)@ == old(output_buffer)@ + bytes
                },
                Err(e) => r == Err::<(), GlyfDecoderError>(e),
            },
            r is Err ==> final(output_buffer)@ == old(output_buffer)@,
            final(self).streams() == simple_glyph_progress(
                old(self).streams(),
                old(self).bitmaps(),
                number_of_contours,
                glyph_index as int,
            ),
    {
        let ghost st = self.streams();
        let ghost bitmaps = self.bitmaps();
        let (point_counts, total_points) = match self.take_point_counts(number_of_contours) {
            Ok(v) => v,
            Err(e) => {
                return Err(e);
            },
        };
        let ghost counts = point_counts@;
        let ghost counts_len = read_point_counts(st.n_points, number_of_contours as nat)->Some_0.1;
        proof {
            lemma_read_point_counts_len(st.n_points, number_of_contours as nat);
        }
        let overlap_simple_flag: u8 = match self.overlap_bitmap {
            Some(ob) => if ob.is_set(glyph_index) {
                0x40
            } else {
                0x00
            },
            None => 0x00,
        };
        assert(overlap_simple_flag == overlap_simple_bit(bitmaps, glyph_index as int));
        let contours = match self.decode_contours(&point_counts, total_points, overlap_simple_flag) {
            Ok(v) => v,
            Err(e) => {
                return Err(e);
            },
        };
        let ghost points = read_points(st.flag, st.glyph, point_total(counts))->Some_0.0;
        let mut x_min = contours.x_min;
        let mut y_min = contours.y_min;
        let mut x_max = contours.x_max;
        let mut y_max = contours.y_max;

        let mut instructions_stream: Vec<u8> = Vec::new();
        let instruction_length = match self.glyph_stream.try_get_255_u16() {
            Ok(v) => v,
            Err(e) => {
                return Err(GlyfDecoderError::from(e));
            },
        };
        match self.instruction_stream.try_copy_to_buf(
            &mut instructions_stream,
            instruction_length as usize,
        ) {
            Ok(()) => {},
            Err(e) => {
                return Err(GlyfDecoderError::from(e));
            },
        }
        assert(instructions_stream@ =~= st.instruction.take(instruction_length as int));

        if self.bbox_bitmap.is_set(glyph_index) {
            let bbox = match self.read_glyph_bbox() {
                Ok(v) => v,
                Err(e) => {
                    return Err(e);
                },
            };
            x_min = bbox.0;
            y_min = bbox.1;
            x_max = bbox.2;
            y_max = bbox.3;
        }
        write_simple_glyph(
            output_buffer,
            number_of_contours,
            (x_min, y_min, x_max, y_max),
            &contours,
            instruction_length,
            &instructions_stream,
        );
        Ok(())
    }
}

/// Appends the parts of a simple glyph in the order of `glyf`: contour
/// count, bounding box, contour ends, instruction length, instructions,
/// flags and the two coordinate arrays.
fn write_simple_glyph(
    output_buffer: &mut Vec<u8>,
    number_of_contours: i16,
    bbox: (i16, i16, i16, i16),
    contours: &DecodedContours,
    instruction_length: u16,
    instructions: &Vec<u8>,
)
    ensures
        final(output_buffer)@ == old(output_buffer)@ + i16_be_bytes(number_of_contours)
            + bounds_bytes(bbox) + contours.end_points@ + u16_be_bytes(instruction_length)
            + instructions@ + contours.flags@ + contours.x_coordinates@
            + contours.y_coordinates@,
{
    let ghost out0 = output_buffer@;
    put_i16(output_buffer, number_of_contours);
    put_i16(output_buffer, bbox.0);
    put_i16(output_buffer, bbox.1);
    put_i16(output_buffer, bbox.2);
    put_i16(output_buffer, bbox.3);
    assert(output_buffer@ =~= out0 + i16_be_bytes(number_of_contours) + bounds_bytes(bbox));
    output_buffer.extend_from_slice(contours.end_points.as_slice());
    put_u16(output_buffer, instruction_length);
    output_buffer.extend_from_slice(instructions.as_slice());
    output_buffer.extend_from_slice(contours.flags.as_slice());
    output_buffer.extend_from_slice(contours.x_coordinates.as_slice());
    output_buffer.extend_from_slice(contours.y_coordinates.as_slice());
    assert(output_buffer@ =~= out0 + i16_be_bytes(number_of_contours) + bounds_bytes(bbox)
        + contours.end_points@ + u16_be_bytes(instruction_length) + instructions@
        + contours.flags@ + contours.x_coordinates@ + contours.y_coordinates@);
}

/// What decoding the points of a simple glyph's contours gives.
struct DecodedContours {
    end_points: Vec<u8>,
    flags: Vec<u8>,
    x_coordinates: Vec<u8>,
    y_coordinates: Vec<u8>,
    x_min: i16,
    y_min: i16,
    x_max: i16,
    y_max: i16,
}

/// The contours before `k` have no more points than all of them.
proof fn lemma_point_total_prefix(counts: Seq<u16>, k: int)
    requires
        0 <= k <= counts.len(),
    ensures
        point_total(counts.take(k)) <= point_total(counts),
    decreases counts.len() - k,
{
    if k < counts.len() {
        lemma_total_points_take(counts, k);
        lemma_point_total_prefix(counts, k + 1);
    } else {
        assert(counts.take(k) =~= counts);
    }
}

/// Once the first point counts fail to decode, more of them fail too.
proof fn lemma_read_point_counts_none(s: Seq<u8>, j: nat, k: nat)
    requires
        j <= k,
        read_point_counts(s, j) is None,
    ensures
        read_point_counts(s, k) is None,
    decreases k - j,
{
    if j < k {
        lemma_read_point_counts_none(s, j, (k - 1) as nat);
    }
}

// ---------------------------------------------------------------------------
// Reading a simple glyph back
// ---------------------------------------------------------------------------

/// How a TrueType reader takes the deltas of one coordinate from a flags
/// array with no repeated flags: for each flags byte in turn, one delta read
/// from `bytes` after those before it, by the bits `short_bit` and
/// `same_bit` of that byte. The deltas, and how many bytes they take.
pub open spec fn read_deltas(flags: Seq<u8>, bytes: Seq<u8>, short_bit: u8, same_bit: u8) -> (
    Seq<i16>,
    nat,
)
    decreases flags.len(),
{
    if flags.len() == 0 {
        (Seq::empty(), 0)
    } else {
        let before = read_deltas(flags.drop_last(), bytes, short_bit, same_bit);
        let short_vector = flags.last() & short_bit != 0;
        let same_or_positive = flags.last() & same_bit != 0;
        (
            before.0.push(truetype_delta(short_vector, same_or_positive, bytes.skip(before.1 as int))),
            before.1 + truetype_delta_len(short_vector, same_or_positive),
        )
    }
}

/// The x deltas of the points.
pub open spec fn x_deltas(points: Seq<TransformedPoint>) -> Seq<i16> {
    points.map_values(|p: TransformedPoint| p.dx)
}

/// The y deltas of the points.
pub open spec fn y_deltas(points: Seq<TransformedPoint>) -> Seq<i16> {
    points.map_values(|p: TransformedPoint| p.dy)
}

/// A delta reads the same from bytes that go on past it.
proof fn lemma_truetype_delta_prefix(
    short_vector: bool,
    same_or_positive: bool,
    b: Seq<u8>,
    extra: Seq<u8>,
)
    requires
        b.len() == truetype_delta_len(short_vector, same_or_positive),
    ensures
        truetype_delta(short_vector, same_or_positive, b + extra) == truetype_delta(
            short_vector,
            same_or_positive,
            b,
        ),
{
    if b.len() > 0 {
        assert((b + extra)[0] == b[0]);
    }
    if b.len() > 1 {
        assert((b + extra)[1] == b[1]);
    }
}

/// The flags array has one byte per point, that point's flags.
proof fn lemma_flags_bytes(points: Seq<TransformedPoint>, overlap: u8)
    ensures
        flags_bytes(points, overlap).len() == points.len(),
        forall|k: int|
            0 <= k < points.len() ==> flags_bytes(points, overlap)[k] == point_flags(
                points[k],
                overlap,
            ),
    decreases points.len(),
{
    if points.len() > 0 {
        lemma_flags_bytes(points.drop_last(), overlap);
    }
}

/// A TrueType reader takes back the x deltas of the points from their
/// flags and x coordinates array, and exactly the bytes of that array.
proof fn lemma_read_x_deltas(points: Seq<TransformedPoint>, overlap: u8, extra: Seq<u8>)
    requires
        overlap == 0x00 || overlap == 0x40,
    ensures
        read_deltas(flags_bytes(points, overlap), x_bytes(points) + extra, 0x02, 0x10) == (
            x_deltas(points),
            x_bytes(points).len(),
        ),
    decreases points.len(),
{
    if points.len() > 0 {
        let prev = points.drop_last();
        let p = points.last();
        let d = delta_bytes(p.dx);
        assert(x_bytes(points) + extra =~= x_bytes(prev) + (d + extra));
        lemma_read_x_deltas(prev, overlap, d + extra);
        assert(flags_bytes(points, overlap).drop_last() =~= flags_bytes(prev, overlap));
        assert((x_bytes(prev) + (d + extra)).skip(x_bytes(prev).len() as int) =~= d + extra);
        law_point_encoding_roundtrip(p, overlap);
        let f = point_flags(p, overlap);
        lemma_truetype_delta_prefix(f & 0x02 != 0, f & 0x10 != 0, d, extra);
        assert(x_deltas(points) =~= x_deltas(prev).push(p.dx));
    } else {
        assert(x_deltas(points) =~= Seq::<i16>::empty());
    }
}

/// A TrueType reader takes back the y deltas of the points from their
/// flags and y coordinates array, and exactly the bytes of that array.
proof fn lemma_read_y_deltas(points: Seq<TransformedPoint>, overlap: u8, extra: Seq<u8>)
    requires
        overlap == 0x00 || overlap == 0x40,
    ensures
        read_deltas(flags_bytes(points, overlap), y_bytes(points) + extra, 0x04, 0x20) == (
            y_deltas(points),
            y_bytes(points).len(),
        ),
    decreases points.len(),
{
    if points.len() > 0 {
        let prev = points.drop_last();
        let p = points.last();
        let d = delta_bytes(p.dy);
        assert(y_bytes(points) + extra =~= y_bytes(prev) + (d + extra));
        lemma_read_y_deltas(prev, overlap, d + extra);
        assert(flags_bytes(points, overlap).drop_last() =~= flags_bytes(prev, overlap));
        assert((y_bytes(prev) + (d + extra)).skip(y_bytes(prev).len() as int) =~= d + extra);
        law_point_encoding_roundtrip(p, overlap);
        let f = point_flags(p, overlap);
        lemma_truetype_delta_prefix(f & 0x04 != 0, f & 0x20 != 0, d, extra);
        assert(y_deltas(points) =~= y_deltas(prev).push(p.dy));
    } else {
        assert(y_deltas(points) =~= Seq::<i16>::empty());
    }
}

/// The contour ends take two bytes per contour: the end of contour `i` is
/// the running total through it less one.
proof fn lemma_end_points_bytes(counts: Seq<u16>)
    ensures
        end_points_bytes(counts).len() == 2 * counts.len(),
        forall|i: int|
            0 <= i < counts.len() ==> end_points_bytes(counts).subrange(2 * i, 2 * i + 2)
                == u16_be_bytes(
                vstd::wrapping::u16_specs::wrapping_sub(running_total(#[trigger] counts.take(i + 1)), 1),
            ),
    decreases counts.len(),
{
    if counts.len() > 0 {
        let prev = counts.drop_last();
        lemma_end_points_bytes(prev);
        let e = end_points_bytes(counts);
        assert forall|i: int| 0 <= i < counts.len() implies e.subrange(2 * i, 2 * i + 2)
            == u16_be_bytes(
            vstd::wrapping::u16_specs::wrapping_sub(running_total(#[trigger] counts.take(i + 1)), 1),
        ) by {
            if i < prev.len() {
                assert(prev.take(i + 1) =~= counts.take(i + 1));
                assert(e.subrange(2 * i, 2 * i + 2) =~= end_points_bytes(prev).subrange(
                    2 * i,
                    2 * i + 2,
                ));
            } else {
                assert(counts.take(i + 1) =~= counts);
                assert(e.subrange(2 * i, 2 * i + 2) =~= u16_be_bytes(
                    vstd::wrapping::u16_specs::wrapping_sub(running_total(counts), 1),
                ));
            }
        }
    }
}

/// With no more than 65535 points the 16-bit running total does not wrap.
proof fn lemma_running_total_exact(counts: Seq<u16>)
    requires
        point_total(counts) <= 0xffff,
    ensures
        running_total(counts) == point_total(counts),
    decreases counts.len(),
{
    if counts.len() > 0 {
        lemma_running_total_exact(counts.drop_last());
    }
}

/// A TrueType reader gets back the simple glyph that the transform stored.
/// The bytes that `simple_glyph` gives hold, in order: the contour count;
/// the bounding box (from the bbox stream where the glyph has a bbox bit,
/// of the points otherwise); for each contour the index of its last point,
/// the running point total through it less one in 16-bit arithmetic, which
/// with no more than 65535 points is the exact total less one; the
/// instruction length and that many bytes of the instruction stream; one
/// flags byte per point, with the repeat bit clear, the on-curve bit set
/// where the point's transformed flag has its high bit clear, and the
/// overlap bit set where the overlap bitmap has the glyph's bit; and the two
/// coordinate arrays, from which the flags read back each point's x and y
/// deltas, and after which nothing is left.
#[verifier::rlimit(40)]
pub proof fn law_simple_glyph_reads_back(
    st: GlyfStreams,
    bitmaps: GlyfBitmaps,
    number_of_contours: i16,
    glyph_index: int,
)
    requires
        number_of_contours > 0,
        simple_glyph(st, bitmaps, number_of_contours, glyph_index) is Ok,
    ensures
        ({
            let bytes = simple_glyph(st, bitmaps, number_of_contours, glyph_index)->Ok_0.1;
            let counts = read_point_counts(st.n_points, number_of_contours as nat)->Some_0.0;
            let n = point_total(counts);
            let points = read_points(st.flag, st.glyph, n)->Some_0.0;
            let points_len = read_points(st.flag, st.glyph, n)->Some_0.1;
            let il = u255_u16_decode(st.glyph.skip(points_len as int)).0->Ok_0;
            let ia = 10 + 2 * number_of_contours;
            let fa = ia + 2 + il;
            let flags = bytes.subrange(fa, fa + n);
            let xs = read_deltas(flags, bytes.skip(fa + n), 0x02, 0x10);
            let ys = read_deltas(flags, bytes.skip(fa + n + xs.1), 0x04, 0x20);
            &&& be_i16(bytes) == number_of_contours
            &&& bytes.subrange(2, 10) == if bit_is_set(bitmaps.bbox, glyph_index) {
                st.bbox.take(8)
            } else {
                bounds_bytes(bounds(points))
            }
            &&& counts.len() == number_of_contours
            &&& forall|i: int|
                0 <= i < number_of_contours ==> be_u16(#[trigger] bytes.skip(10 + 2 * i))
                    == vstd::wrapping::u16_specs::wrapping_sub(
                    running_total(counts.take(i + 1)),
                    1,
                )
            &&& forall|i: int|
                0 <= i < number_of_contours && n <= 0xffff && point_total(counts.take(i + 1))
                    >= 1 ==> be_u16(#[trigger] bytes.skip(10 + 2 * i)) == point_total(
                    counts.take(i + 1),
                ) - 1
            &&& be_u16(bytes.skip(ia)) == il
            &&& bytes.subrange(ia + 2, fa) == st.instruction.take(il as int)
            &&& points.len() == n
            &&& forall|k: int|
                0 <= k < n ==> ((#[trigger] flags[k] & 0x01 != 0) == (points[k].flag & 0x80 == 0)
                    && flags[k] & 0x88 == 0 && (flags[k] & 0x40 != 0) == (bitmaps.overlap is Some
                    && bit_is_set(bitmaps.overlap->Some_0, glyph_index)))
            &&& xs.0 == x_deltas(points)
            &&& ys.0 == y_deltas(points)
            &&& fa + n + xs.1 + ys.1 == bytes.len()
        }),
{
    let bytes = simple_glyph(st, bitmaps, number_of_contours, glyph_index)->Ok_0.1;
    let counts = read_point_counts(st.n_points, number_of_contours as nat)->Some_0.0;
    let n = point_total(counts);
    let points = read_points(st.flag, st.glyph, n)->Some_0.0;
    let points_len = read_points(st.flag, st.glyph, n)->Some_0.1;
    let il = u255_u16_decode(st.glyph.skip(points_len as int)).0->Ok_0;
    let ia = 10 + 2 * number_of_contours;
    let fa = ia + 2 + il;
    let explicit_bbox = bit_is_set(bitmaps.bbox, glyph_index);
    let overlap = overlap_simple_bit(bitmaps, glyph_index);
    let bbox = if explicit_bbox {
        st.bbox.take(8)
    } else {
        bounds_bytes(bounds(points))
    };
    let a = i16_be_bytes(number_of_contours);
    let e = end_points_bytes(counts);
    let u = u16_be_bytes(il);
    let ins = st.instruction.take(il as int);
    let f = flags_bytes(points, overlap);
    let x = x_bytes(points);
    let y = y_bytes(points);
    assert(bytes == a + bbox + e + u + ins + f + x + y);
    lemma_read_point_counts_len(st.n_points, number_of_contours as nat);
    lemma_read_points_len(st.flag, st.glyph, n);
    lemma_end_points_bytes(counts);
    lemma_flags_bytes(points, overlap);
    assert(overlap == 0x00 || overlap == 0x40);
    lemma_i16_be_roundtrip(number_of_contours);
    lemma_u16_be_roundtrip(il);
    assert(bbox.len() == 8);
    assert(e.len() == 2 * number_of_contours);

    // The header and the contour ends.
    assert(bytes[0] == a[0] && bytes[1] == a[1]);
    assert(bytes.subrange(2, 10) =~= bbox);
    assert forall|i: int| 0 <= i < number_of_contours implies be_u16(
        #[trigger] bytes.skip(10 + 2 * i),
    ) == vstd::wrapping::u16_specs::wrapping_sub(running_total(counts.take(i + 1)), 1) by {
        let w = vstd::wrapping::u16_specs::wrapping_sub(running_total(counts.take(i + 1)), 1);
        assert(e.subrange(2 * i, 2 * i + 2) == u16_be_bytes(w));
        assert(bytes[10 + 2 * i] == e[2 * i]);
        assert(bytes[10 + 2 * i + 1] == e[2 * i + 1]);
        assert(e.subrange(2 * i, 2 * i + 2)[0] == e[2 * i]);
        assert(e.subrange(2 * i, 2 * i + 2)[1] == e[2 * i + 1]);
        lemma_u16_be_roundtrip(w);
    }
    assert forall|i: int|
        0 <= i < number_of_contours && n <= 0xffff && point_total(counts.take(i + 1))
            >= 1 implies be_u16(#[trigger] bytes.skip(10 + 2 * i)) == point_total(
        counts.take(i + 1),
    ) - 1 by {
        lemma_point_total_prefix(counts, i + 1);
        lemma_running_total_exact(counts.take(i + 1));
    }

    // The instructions.
    assert(bytes.skip(ia)[0] == u[0] && bytes.skip(ia)[1] == u[1]);
    assert(bytes.subrange(ia + 2, fa) =~= ins);

    // The flags and the coordinate arrays.
    let flags = bytes.subrange(fa, fa + n);
    assert(flags =~= f);
    assert forall|k: int| 0 <= k < n implies ((#[trigger] flags[k] & 0x01 != 0) == (
    points[k].flag & 0x80 == 0) && flags[k] & 0x88 == 0 && (flags[k] & 0x40 != 0) == (
    bitmaps.overlap is Some && bit_is_set(bitmaps.overlap->Some_0, glyph_index))) by {
        law_point_encoding_roundtrip(points[k], overlap);
    }
    assert(bytes.skip(fa + n) =~= x + y);
    lemma_read_x_deltas(points, overlap, y);
    assert(bytes.skip(fa + n + x.len()) =~= y + Seq::<u8>::empty());
    lemma_read_y_deltas(points, overlap, Seq::empty());
}

/// The coordinates of the points and their bounding box: point `k` stands
/// at the sums, in 16-bit arithmetic from the origin, of the deltas of the
/// points up to and including it; the box of no points is all zero, and
/// otherwise each of its four sides is the least or greatest coordinate
/// that a point has, so that every point lies within it and each side
/// touches a point.
#[verifier::rlimit(30)]
pub proof fn law_bounds_are_extents(points: Seq<TransformedPoint>)
    ensures
        end_x(points.take(0)) == 0 && end_y(points.take(0)) == 0,
        forall|k: int|
            0 <= k < points.len() ==> end_x(#[trigger] points.take(k + 1))
                == vstd::wrapping::i16_specs::wrapping_add(end_x(points.take(k)), points[k].dx)
                && end_y(points.take(k + 1)) == vstd::wrapping::i16_specs::wrapping_add(
                end_y(points.take(k)),
                points[k].dy,
            ),
        points.len() == 0 ==> bounds(points) == (0i16, 0i16, 0i16, 0i16),
        forall|k: int|
            0 <= k < points.len() ==> {
                let b = bounds(points);
                &&& b.0 <= end_x(#[trigger] points.take(k + 1)) <= b.2
                &&& b.1 <= end_y(points.take(k + 1)) <= b.3
            },
        points.len() > 0 ==> exists|k: int|
            0 <= k < points.len() && end_x(#[trigger] points.take(k + 1)) == bounds(points).0,
        points.len() > 0 ==> exists|k: int|
            0 <= k < points.len() && end_y(#[trigger] points.take(k + 1)) == bounds(points).1,
        points.len() > 0 ==> exists|k: int|
            0 <= k < points.len() && end_x(#[trigger] points.take(k + 1)) == bounds(points).2,
        points.len() > 0 ==> exists|k: int|
            0 <= k < points.len() && end_y(#[trigger] points.take(k + 1)) == bounds(points).3,
    decreases points.len(),
{
    assert(points.take(0) =~= Seq::<TransformedPoint>::empty());
    assert forall|k: int| 0 <= k < points.len() implies end_x(#[trigger] points.take(k + 1))
        == vstd::wrapping::i16_specs::wrapping_add(end_x(points.take(k)), points[k].dx)
        && end_y(points.take(k + 1)) == vstd::wrapping::i16_specs::wrapping_add(
        end_y(points.take(k)),
        points[k].dy,
    ) by {
        assert(points.take(k + 1).drop_last() =~= points.take(k));
    }
    let n = points.len();
    if n > 0 {
        let prev = points.drop_last();
        law_bounds_are_extents(prev);
        assert(points.take(n as int) =~= points);
        assert forall|k: int| 0 <= k < n - 1 implies #[trigger] points.take(k + 1) == prev.take(
            k + 1,
        ) by {
            assert(points.take(k + 1) =~= prev.take(k + 1));
        }
        let b = bounds(points);
        let x = end_x(points);
        let y = end_y(points);
        if n == 1 {
            assert(end_x(points.take(1)) == b.0);
        } else {
            let bp = bounds(prev);
            assert forall|k: int| 0 <= k < n implies {
                &&& b.0 <= end_x(#[trigger] points.take(k + 1)) <= b.2
                &&& b.1 <= end_y(points.take(k + 1)) <= b.3
            } by {
                if k < n - 1 {
                    assert(points.take(k + 1) == prev.take(k + 1));
                }
            }
            if x < bp.0 {
                assert(end_x(points.take(n - 1 + 1)) == b.0);
            } else {
                let k = choose|k: int|
                    0 <= k < prev.len() && end_x(#[trigger] prev.take(k + 1)) == bp.0;
                assert(points.take(k + 1) == prev.take(k + 1));
            }
            if y < bp.1 {
                assert(end_y(points.take(n - 1 + 1)) == b.1);
            } else {
                let k = choose|k: int|
                    0 <= k < prev.len() && end_y(#[trigger] prev.take(k + 1)) == bp.1;
                assert(points.take(k + 1) == prev.take(k + 1));
            }
            if x > bp.2 {
                assert(end_x(points.take(n - 1 + 1)) == b.2);
            } else {
                let k = choose|k: int|
                    0 <= k < prev.len() && end_x(#[trigger] prev.take(k + 1)) == bp.2;
                assert(points.take(k + 1) == prev.take(k + 1));
            }
            if y > bp.3 {
                assert(end_y(points.take(n - 1 + 1)) == b.3);
            } else {
                let k = choose|k: int|
                    0 <= k < prev.len() && end_y(#[trigger] prev.take(k + 1)) == bp.3;
                assert(points.take(k + 1) == prev.take(k + 1));
            }
        }
    }
}

/// The bytes of a point, as one word: the first `n` bytes of the glyph
/// stream, most significant first.
pub proof fn law_point_word_big_endian(s: Seq<u8>)
    ensures
        s.len() >= 1 ==> point_word(s, 1) == s[0],
        s.len() >= 2 ==> point_word(s, 2) == s[0] * 0x100 + s[1],
        s.len() >= 3 ==> point_word(s, 3) == s[0] * 0x1_0000 + s[1] * 0x100 + s[2],
        s.len() >= 4 ==> point_word(s, 4) == s[0] * 0x100_0000 + s[1] * 0x1_0000 + s[2] * 0x100
            + s[3],
{
    if s.len() >= 3 {
        assert(s.skip(1)[0] == s[1] && s.skip(1)[1] == s[2]);
    }
}

/// How a TrueType reader takes a coordinate delta (OpenType `glyf`, simple
/// glyph flags): with the short-vector bit, one byte, its magnitude, positive
/// where the same-or-positive bit is set and negative otherwise; without
/// it, no byte and a delta of 0 where the same-or-positive bit is set, and
/// otherwise two bytes, a big-endian two's complement value.
pub proof fn law_truetype_delta_reading(b: u8, c: u8, rest: Seq<u8>)
    ensures
        truetype_delta(true, true, seq![b] + rest) as int == b,
        truetype_delta(true, false, seq![b] + rest) as int == -b,
        truetype_delta(false, true, rest) == 0,
        truetype_delta(false, false, seq![b, c] + rest) as int == b * 0x100 + c - (if b >= 0x80 {
            0x1_0000int
        } else {
            0int
        }),
        truetype_delta_len(true, true) == 1 && truetype_delta_len(true, false) == 1,
        truetype_delta_len(false, true) == 0 && truetype_delta_len(false, false) == 2,
{
    assert((seq![b] + rest)[0] == b);
    assert((seq![b, c] + rest)[0] == b && (seq![b, c] + rest)[1] == c);
}

} // verus!
