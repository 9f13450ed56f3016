use woff2::glyf::decode_glyf_table;
use woff2::glyf::triplet::XYTriplet;
use woff2::glyf::GlyfDecoderError;

/// The header of a transformed `glyf` table.
fn header(
    option_flags: u16,
    num_glyphs: u16,
    index_format: u16,
    sizes: [u32; 7],
) -> Vec<u8> {
    let mut out = Vec::new();
    out.extend_from_slice(&0u16.to_be_bytes());
    out.extend_from_slice(&option_flags.to_be_bytes());
    out.extend_from_slice(&num_glyphs.to_be_bytes());
    out.extend_from_slice(&index_format.to_be_bytes());
    for size in sizes {
        out.extend_from_slice(&size.to_be_bytes());
    }
    out
}

/// One simple glyph of one contour with two points: (5, 0) on the curve
/// and (5, 7) off it.
fn simple_glyph_table() -> Vec<u8> {
    let mut t = header(0, 1, 0, [2, 1, 2, 3, 0, 4, 0]);
    t.extend_from_slice(&[0x00, 0x01]); // contour count
    t.extend_from_slice(&[0x02]); // point count
    t.extend_from_slice(&[0x0B, 0x81]); // flags: x only, y only (off curve)
    t.extend_from_slice(&[0x05, 0x07, 0x00]); // dx, dy, instruction length
    t.extend_from_slice(&[0, 0, 0, 0]); // bbox bitmap
    t
}

#[test]
fn decodes_simple_glyph() {
    let (glyf, loca) = decode_glyf_table(&simple_glyph_table()).unwrap();
    assert_eq!(
        glyf,
        vec![
            0x00, 0x01, // contours
            0x00, 0x05, 0x00, 0x00, 0x00, 0x05, 0x00, 0x07, // bbox
            0x00, 0x01, // end point of the contour
            0x00, 0x00, // no instructions
            0x33, 0x34, // flags
            0x05, // x
            0x07, // y
            0x00, 0x00, // padding
        ]
    );
    assert_eq!(loca, vec![0x00, 0x00, 0x00, 0x0A]);
}

#[test]
fn decodes_simple_glyph_with_explicit_bbox_and_overlap() {
    let mut t = header(1, 1, 1, [2, 1, 2, 3, 0, 12, 0]);
    t.extend_from_slice(&[0x00, 0x01]);
    t.extend_from_slice(&[0x02]);
    t.extend_from_slice(&[0x0B, 0x81]);
    t.extend_from_slice(&[0x05, 0x07, 0x00]);
    t.extend_from_slice(&[0x80, 0, 0, 0]); // bbox bitmap: glyph 0
    t.extend_from_slice(&[0xFF, 0xFF, 0x00, 0x00, 0x00, 0x10, 0x00, 0x20]); // bbox
    t.extend_from_slice(&[0x80, 0, 0, 0]); // overlap bitmap: glyph 0
    let (glyf, loca) = decode_glyf_table(&t).unwrap();
    assert_eq!(
        glyf,
        vec![
            0x00, 0x01, 0xFF, 0xFF, 0x00, 0x00, 0x00, 0x10, 0x00, 0x20, 0x00, 0x01, 0x00, 0x00,
            0x73, 0x74, 0x05, 0x07, 0x00, 0x00,
        ]
    );
    assert_eq!(loca, vec![0, 0, 0, 0, 0, 0, 0, 20]);
}

#[test]
fn decodes_empty_glyphs_in_both_loca_formats() {
    let mut t = header(0, 2, 0, [4, 0, 0, 0, 0, 4, 0]);
    t.extend_from_slice(&[0, 0, 0, 0]);
    t.extend_from_slice(&[0, 0, 0, 0]);
    let (glyf, loca) = decode_glyf_table(&t).unwrap();
    assert!(glyf.is_empty());
    assert_eq!(loca, vec![0; 6]);

    let mut t = header(0, 2, 1, [4, 0, 0, 0, 0, 4, 0]);
    t.extend_from_slice(&[0, 0, 0, 0]);
    t.extend_from_slice(&[0, 0, 0, 0]);
    let (glyf, loca) = decode_glyf_table(&t).unwrap();
    assert!(glyf.is_empty());
    assert_eq!(loca, vec![0; 12]);
}

fn composite_glyph_table(bbox_bit: u8) -> Vec<u8> {
    let mut t = header(0, 1, 0, [2, 0, 0, 0, 6, 12, 0]);
    t.extend_from_slice(&[0xFF, 0xFF]); // contour count -1
    t.extend_from_slice(&[0x00, 0x00, 0x00, 0x05, 0x01, 0x02]); // one component
    t.extend_from_slice(&[bbox_bit, 0, 0, 0]);
    t.extend_from_slice(&[0, 1, 0, 2, 0, 3, 0, 4]);
    t
}

#[test]
fn decodes_composite_glyph() {
    let (glyf, loca) = decode_glyf_table(&composite_glyph_table(0x80)).unwrap();
    assert_eq!(
        glyf,
        vec![0xFF, 0xFF, 0, 1, 0, 2, 0, 3, 0, 4, 0x00, 0x00, 0x00, 0x05, 0x01, 0x02]
    );
    assert_eq!(loca, vec![0, 0, 0, 8]);
}

#[test]
fn decodes_composite_glyph_with_instructions() {
    let mut t = header(0, 1, 0, [2, 0, 0, 1, 16, 12, 2]);
    t.extend_from_slice(&[0xFF, 0xFF]);
    t.extend_from_slice(&[0x02]); // instruction length
    // Two components: words as arguments, then more components; then a
    // scale and instructions.
    t.extend_from_slice(&[0x00, 0x21, 0x00, 0x01, 0x00, 0x10, 0x00, 0x20]);
    t.extend_from_slice(&[0x01, 0x08, 0x00, 0x02, 0x03, 0x04, 0x40, 0x00]);
    t.extend_from_slice(&[0x80, 0, 0, 0]);
    t.extend_from_slice(&[0, 1, 0, 2, 0, 3, 0, 4]);
    t.extend_from_slice(&[0xB0, 0x01]); // instructions
    let (glyf, loca) = decode_glyf_table(&t).unwrap();
    let mut expected = vec![0xFF, 0xFF, 0, 1, 0, 2, 0, 3, 0, 4];
    expected.extend_from_slice(&[0x00, 0x21, 0x00, 0x01, 0x00, 0x10, 0x00, 0x20]);
    expected.extend_from_slice(&[0x01, 0x08, 0x00, 0x02, 0x03, 0x04, 0x40, 0x00]);
    expected.extend_from_slice(&[0x00, 0x02, 0xB0, 0x01]);
    assert_eq!(glyf.len() % 4, 0);
    assert_eq!(&glyf[..expected.len()], &expected[..]);
    assert!(glyf[expected.len()..].iter().all(|&b| b == 0));
    assert_eq!(loca, vec![0, 0, 0, (glyf.len() / 2) as u8]);
}

#[test]
fn composite_glyph_without_bbox_fails() {
    assert_eq!(
        Err(GlyfDecoderError::CompositeGlyphWithoutBbox),
        decode_glyf_table(&composite_glyph_table(0x00))
    );
}

#[test]
fn short_header_is_truncated() {
    assert_eq!(Err(GlyfDecoderError::Truncated), decode_glyf_table(&[0; 35]));
}

#[test]
fn bbox_stream_smaller_than_bitmap_is_truncated() {
    let t = header(0, 1, 0, [0, 0, 0, 0, 0, 3, 0]);
    assert_eq!(Err(GlyfDecoderError::Truncated), decode_glyf_table(&t));
}

#[test]
fn streams_beyond_table_are_truncated() {
    let mut t = simple_glyph_table();
    t.pop();
    assert_eq!(Err(GlyfDecoderError::Truncated), decode_glyf_table(&t));
}

#[test]
fn missing_points_are_truncated() {
    let mut t = header(0, 1, 0, [2, 1, 1, 1, 0, 4, 0]);
    t.extend_from_slice(&[0x00, 0x01]);
    t.extend_from_slice(&[0x02]); // two points, but one flag
    t.extend_from_slice(&[0x0B]);
    t.extend_from_slice(&[0x05]);
    t.extend_from_slice(&[0, 0, 0, 0]);
    assert_eq!(Err(GlyfDecoderError::Truncated), decode_glyf_table(&t));
}

#[test]
fn trailing_bytes_are_extra_data() {
    let mut t = simple_glyph_table();
    t.push(0);
    assert_eq!(Err(GlyfDecoderError::ExtraData), decode_glyf_table(&t));
}

#[test]
fn unread_stream_bytes_are_extra_data() {
    let mut t = header(0, 1, 0, [2, 1, 2, 4, 0, 4, 0]);
    t.extend_from_slice(&[0x00, 0x01]);
    t.extend_from_slice(&[0x02]);
    t.extend_from_slice(&[0x0B, 0x81]);
    t.extend_from_slice(&[0x05, 0x07, 0x00, 0x09]);
    t.extend_from_slice(&[0, 0, 0, 0]);
    assert_eq!(Err(GlyfDecoderError::ExtraData), decode_glyf_table(&t));
}

#[test]
fn triplet_deltas() {
    // Entry 20: one byte, 4-bit fields, both deltas 1, both negative.
    let packed = XYTriplet {
        x_is_negative: true,
        y_is_negative: true,
        byte_count: 1,
        x_bits: 4,
        y_bits: 4,
        delta_x: 1,
        delta_y: 1,
    };
    assert_eq!(packed.dx(0x23), -3);
    assert_eq!(packed.dy(0x23), -4);
    // Entry 127: four bytes, 16-bit fields, both positive.
    let wide = XYTriplet {
        x_is_negative: false,
        y_is_negative: false,
        byte_count: 4,
        x_bits: 16,
        y_bits: 16,
        delta_x: 0,
        delta_y: 0,
    };
    assert_eq!(wide.dx(0x0102_0304), 0x0102);
    assert_eq!(wide.dy(0x0102_0304), 0x0304);
    // Entry 84: two bytes, 8-bit fields, deltas 1, both negative.
    let byte_fields = XYTriplet {
        x_is_negative: true,
        y_is_negative: true,
        byte_count: 2,
        x_bits: 8,
        y_bits: 8,
        delta_x: 1,
        delta_y: 1,
    };
    assert_eq!(byte_fields.dx(0xFF00), -256);
    assert_eq!(byte_fields.dy(0xFF00), -1);
}

/// Glyphs of no points and 65535 bytes of instructions each: with two of
/// them, the end of `glyf` is beyond what a short `loca` entry holds.
fn long_instructions_table(index_format: u16) -> Vec<u8> {
    let n = 2u32;
    let mut t = header(0, n as u16, index_format, [2 * n, n, 0, 3 * n, 0, 4, 65535 * n]);
    for _ in 0..n {
        t.extend_from_slice(&[0x00, 0x01]);
    }
    for _ in 0..n {
        t.push(0);
    }
    for _ in 0..n {
        t.extend_from_slice(&[253, 0xFF, 0xFF]);
    }
    t.extend_from_slice(&[0, 0, 0, 0]);
    t.extend(std::iter::repeat(0x2Cu8).take(65535 * n as usize));
    t
}

#[test]
fn checked_decoding_refuses_offsets_beyond_short_loca() {
    assert!(woff2::glyf::parser::decode_glyf_table_checked(&long_instructions_table(0)).is_none());
}

#[test]
fn checked_decoding_matches_unchecked_decoding() {
    let t = long_instructions_table(1);
    let (glyf, loca) = woff2::glyf::parser::decode_glyf_table_checked(&t).unwrap().unwrap();
    // Each glyph: 14 bytes of header and 65535 of instructions, padded.
    assert_eq!(glyf.len(), 2 * 65552);
    assert_eq!(loca, vec![0, 0, 0, 0, 0, 1, 0, 0x10, 0, 2, 0, 0x20]);
    assert_eq!(&glyf[10..14], &[0xFF, 0xFF, 0xFF, 0xFF]);
    assert_eq!(Ok((glyf, loca)), decode_glyf_table(&t));
    assert_eq!(
        Some(Err(GlyfDecoderError::ExtraData)),
        woff2::glyf::parser::decode_glyf_table_checked(&simple_glyph_table_with_trailer())
    );
}

fn simple_glyph_table_with_trailer() -> Vec<u8> {
    let mut t = simple_glyph_table();
    t.push(1);
    t
}

/// A simple glyph read as a TrueType reader reads it: the contour ends, the
/// instructions, and each point's coordinates and whether it is on the
/// curve (repeated flags are expanded).
fn read_simple_glyph(g: &[u8]) -> (Vec<u16>, Vec<u8>, Vec<(i32, i32, bool)>) {
    let contours = i16::from_be_bytes([g[0], g[1]]) as usize;
    let mut at = 10;
    let mut ends = Vec::new();
    for _ in 0..contours {
        ends.push(u16::from_be_bytes([g[at], g[at + 1]]));
        at += 2;
    }
    let n = ends.last().map_or(0, |e| *e as usize + 1);
    let instruction_length = u16::from_be_bytes([g[at], g[at + 1]]) as usize;
    at += 2;
    let instructions = g[at..at + instruction_length].to_vec();
    at += instruction_length;
    let mut flags = Vec::new();
    while flags.len() < n {
        let f = g[at];
        at += 1;
        flags.push(f);
        if f & 0x08 != 0 {
            let repeat = g[at];
            at += 1;
            for _ in 0..repeat {
                flags.push(f);
            }
        }
    }
    let mut read_axis = |short: u8, same: u8| {
        let mut v = 0i32;
        let mut out = Vec::new();
        for f in &flags {
            if f & short != 0 {
                let d = g[at] as i32;
                at += 1;
                v += if f & same != 0 { d } else { -d };
            } else if f & same == 0 {
                v += i16::from_be_bytes([g[at], g[at + 1]]) as i32;
                at += 2;
            }
            out.push(v);
        }
        out
    };
    let xs = read_axis(0x02, 0x10);
    let ys = read_axis(0x04, 0x20);
    let points = (0..n).map(|k| (xs[k], ys[k], flags[k] & 0x01 != 0)).collect();
    (ends, instructions, points)
}

/// Two contours of one and two points, with a negative one-byte x delta, a
/// two-byte x delta, an off-curve point and three instruction bytes.
#[test]
fn simple_glyph_reads_back_as_its_contours_and_points() {
    let mut t = header(0, 1, 0, [2, 2, 3, 7, 0, 4, 3]);
    t.extend_from_slice(&[0x00, 0x02]); // contour count
    t.extend_from_slice(&[0x01, 0x02]); // point counts
    t.extend_from_slice(&[0x0A, 0x7F, 0x80]); // flags
    t.extend_from_slice(&[0x20, 0x01, 0x2C, 0x00, 0x03, 0x05, 0x03]); // points, instruction length
    t.extend_from_slice(&[0, 0, 0, 0]); // bbox bitmap
    t.extend_from_slice(&[0x01, 0x02, 0x03]); // instructions
    let (glyf, loca) = decode_glyf_table(&t).unwrap();
    assert_eq!(
        glyf,
        vec![
            0x00, 0x02, // contours
            0xFF, 0xE0, 0xFF, 0xFE, 0x01, 0x0C, 0x00, 0x03, // bbox
            0x00, 0x00, 0x00, 0x02, // contour ends
            0x00, 0x03, 0x01, 0x02, 0x03, // instructions
            0x23, 0x25, 0x14, // flags
            0x20, 0x01, 0x2C, // x
            0x03, 0x05, // y
            0x00, // padding
        ]
    );
    assert_eq!(loca, vec![0x00, 0x00, 0x00, 0x0E]);
    let (ends, instructions, points) = read_simple_glyph(&glyf[..27]);
    assert_eq!(ends, vec![0, 2]);
    assert_eq!(instructions, vec![0x01, 0x02, 0x03]);
    assert_eq!(points, vec![(-32, 0, true), (268, 3, true), (268, -2, false)]);
}
