//! The header of the transformed `glyf` table and the division of the rest
//! of the table into its streams.
use vstd::prelude::*;

use crate::buffer::{
    padded_to_four, be_u16, be_u32, buf_get_u16, buf_get_u32, lemma_u16_be_roundtrip, lemma_u32_be_roundtrip,
};

use super::{
    glyph_bytes, lemma_glyph_segment, lemma_glyphs_prefix_err_propagates, next_glyph, all_glyphs, bitmap_byte_len, glyph_offset, glyphs_prefix, lemma_glyphs_prefix_aligned,
    lemma_glyphs_prefix_ok_shorter, lemma_loca_prefix_entries, loca_entry, loca_entry_at, loca_entry_size,
    loca_entry_value, loca_offset_fits, loca_offsets_fit, loca_prefix, streams_exhausted, Bitmap, GlyfBitmaps,
    GlyfDecoderError, GlyfStreams, Woff2GlyfDecoder,
};

verus! {

/// The size of the header of the transformed `glyf` table.
pub const GLYF_HEADER_SIZE: usize = 36;

/// The option flag that says the table has an overlap bitmap.
pub const OVERLAP_BITMAP_FLAG: u16 = 0x01;

/// The header of the transformed `glyf` table, with the sizes of the
/// streams that follow it.
pub struct GlyfHeader {
    pub num_glyphs: u16,
    pub index_format: u16,
    pub n_contour_stream_size: usize,
    pub n_points_stream_size: usize,
    pub flag_stream_size: usize,
    pub glyph_stream_size: usize,
    pub composite_stream_size: usize,
    pub bbox_bitmap_size: usize,
    pub bbox_stream_size: usize,
    pub instruction_stream_size: usize,
    pub overlap_bitmap_size: usize,
}

/// The header at the start of a transformed `glyf` table: big-endian
/// fields, a reserved word, the option flags, the glyph count, the index
/// format and seven stream sizes, of which the bbox one counts the bbox
/// bitmap too (an error where it is smaller than the bitmap).
pub open spec fn glyf_header(t: Seq<u8>) -> Result<GlyfHeader, GlyfDecoderError> {
    if t.len() < GLYF_HEADER_SIZE {
        Err(GlyfDecoderError::Truncated)
    } else {
        let option_flags = be_u16(t.skip(2));
        let num_glyphs = be_u16(t.skip(4));
        let bbox_bitmap_size = bitmap_byte_len(num_glyphs as nat);
        let bbox_size = be_u32(t.skip(28));
        if bbox_size < bbox_bitmap_size {
            Err(GlyfDecoderError::Truncated)
        } else {
            Ok(
                GlyfHeader {
                    num_glyphs,
                    index_format: be_u16(t.skip(6)),
                    n_contour_stream_size: be_u32(t.skip(8)) as usize,
                    n_points_stream_size: be_u32(t.skip(12)) as usize,
                    flag_stream_size: be_u32(t.skip(16)) as usize,
                    glyph_stream_size: be_u32(t.skip(20)) as usize,
                    composite_stream_size: be_u32(t.skip(24)) as usize,
                    bbox_bitmap_size: bbox_bitmap_size as usize,
                    bbox_stream_size: (bbox_size - bbox_bitmap_size) as usize,
                    instruction_stream_size: be_u32(t.skip(32)) as usize,
                    overlap_bitmap_size: if option_flags & OVERLAP_BITMAP_FLAG != 0 {
                        bbox_bitmap_size as usize
                    } else {
                        0
                    },
                },
            )
        }
    }
}

/// A transformed `glyf` table taken apart: its glyph count and index
/// format, its streams, its bitmaps, and what follows the last of them.
pub struct GlyfTableParts {
    pub num_glyphs: u16,
    pub index_format: u16,
    pub streams: GlyfStreams,
    pub bitmaps: GlyfBitmaps,
    pub trailer: Seq<u8>,
}

/// The transformed `glyf` table `t` taken apart: after the header, the
/// streams one after the other in the sizes that the header gives (an
/// error where the table is shorter than their sum), then the rest.
pub open spec fn glyf_table_parts(t: Seq<u8>) -> Result<GlyfTableParts, GlyfDecoderError> {
    match glyf_header(t) {
        Err(e) => Err(e),
        Ok(h) => {
            let body = t.skip(GLYF_HEADER_SIZE as int);
            let e0 = h.n_contour_stream_size as int;
            let e1 = e0 + h.n_points_stream_size;
            let e2 = e1 + h.flag_stream_size;
            let e3 = e2 + h.glyph_stream_size;
            let e4 = e3 + h.composite_stream_size;
            let e5 = e4 + h.bbox_bitmap_size;
            let e6 = e5 + h.bbox_stream_size;
            let e7 = e6 + h.instruction_stream_size;
            let e8 = e7 + h.overlap_bitmap_size;
            if e8 > body.len() {
                Err(GlyfDecoderError::Truncated)
            } else {
                Ok(
                    GlyfTableParts {
                        num_glyphs: h.num_glyphs,
                        index_format: h.index_format,
                        streams: GlyfStreams {
                            n_contour: body.subrange(0, e0),
                            n_points: body.subrange(e0, e1),
                            flag: body.subrange(e1, e2),
                            glyph: body.subrange(e2, e3),
                            composite: body.subrange(e3, e4),
                            bbox: body.subrange(e5, e6),
                            instruction: body.subrange(e6, e7),
                        },
                        bitmaps: GlyfBitmaps {
                            bbox: body.subrange(e4, e5),
                            overlap: if h.overlap_bitmap_size != 0 {
                                Some(body.subrange(e7, e8))
                            } else {
                                None
                            },
                        },
                        trailer: body.skip(e8),
                    },
                )
            }
        },
    }
}

/// The `glyf` and `loca` tables that the transformed `glyf` table `t`
/// decodes to: every glyph in turn, and then nothing may be left over in
/// the streams or after them. The `loca` table has the long format where
/// the index format is not 0.
pub open spec fn glyf_decode(t: Seq<u8>) -> Result<(Seq<u8>, Seq<u8>), GlyfDecoderError> {
    match glyf_table_parts(t) {
        Err(e) => Err(e),
        Ok(parts) => match all_glyphs(
            parts.streams,
            parts.bitmaps,
            parts.index_format > 0,
            parts.num_glyphs as nat,
        ) {
            Err(e) => Err(e),
            Ok((after, glyf, loca)) => if streams_exhausted(after) && parts.trailer.len() == 0 {
                Ok((glyf, loca))
            } else {
                Err(GlyfDecoderError::ExtraData)
            },
        },
    }
}

/// Every `glyf` offset that decoding `t` writes to `loca` fits the entry
/// format (in the short format, a glyph that starts beyond 131070 bytes
/// does not).
pub open spec fn glyf_loca_fits(t: Seq<u8>) -> bool {
    match glyf_table_parts(t) {
        Err(_) => true,
        Ok(parts) => loca_offsets_fit(
            parts.streams,
            parts.bitmaps,
            parts.index_format > 0,
            parts.num_glyphs as nat,
        ),
    }
}

/// The `loca` table indexes the `glyf` table: it has an entry for each
/// glyph and one more, entry `k` read back is where glyph `k` starts, glyph
/// 0 starts at 0, the offsets never decrease and are multiples of four, and
/// the last one is the length of `glyf`.
pub proof fn law_loca_indexes_glyf(t: Seq<u8>)
    requires
        glyf_loca_fits(t),
        glyf_decode(t) is Ok,
    ensures
        ({
            let parts = glyf_table_parts(t)->Ok_0;
            let glyf = glyf_decode(t)->Ok_0.0;
            let loca = glyf_decode(t)->Ok_0.1;
            let long_format = parts.index_format > 0;
            let n = parts.num_glyphs as nat;
            let w = loca_entry_size(long_format);
            &&& glyf.len() % 4 == 0
            &&& loca.len() == (n + 1) * w
            &&& glyph_offset(parts.streams, parts.bitmaps, 0) == 0
            &&& glyph_offset(parts.streams, parts.bitmaps, n) == glyf.len()
            &&& forall|k: nat|
                k <= n ==> loca_entry_value(
                    long_format,
                    #[trigger] loca_entry_at(loca, long_format, k),
                ) == glyph_offset(parts.streams, parts.bitmaps, k)
            &&& forall|k: nat|
                k <= n ==> #[trigger] glyph_offset(parts.streams, parts.bitmaps, k) % 4 == 0
            &&& forall|j: nat, k: nat|
                j <= k <= n ==> #[trigger] glyph_offset(parts.streams, parts.bitmaps, j)
                    <= #[trigger] glyph_offset(parts.streams, parts.bitmaps, k)
        }),
{
    let parts = glyf_table_parts(t)->Ok_0;
    let long_format = parts.index_format > 0;
    let n = parts.num_glyphs as nat;
    assert(glyphs_prefix(parts.streams, parts.bitmaps, n) is Ok);
    lemma_loca_indexes_glyphs(parts.streams, parts.bitmaps, long_format, n);
}

/// Each glyph's piece of `glyf`, from where it starts to where the next
/// one starts, is the glyph's bytes followed by the zero bytes that pad them
/// to a multiple of four.
pub proof fn law_glyf_segments(t: Seq<u8>)
    requires
        glyf_decode(t) is Ok,
    ensures
        ({
            let parts = glyf_table_parts(t)->Ok_0;
            let glyf = glyf_decode(t)->Ok_0.0;
            forall|k: nat|
                k < parts.num_glyphs ==> glyf.subrange(
                    glyph_offset(parts.streams, parts.bitmaps, k) as int,
                    glyph_offset(parts.streams, parts.bitmaps, k + 1) as int,
                ) == padded_to_four(#[trigger] glyph_bytes(parts.streams, parts.bitmaps, k))
        }),
{
    let parts = glyf_table_parts(t)->Ok_0;
    let st = parts.streams;
    let bitmaps = parts.bitmaps;
    let n = parts.num_glyphs as nat;
    assert(glyphs_prefix(st, bitmaps, n) is Ok);
    assert forall|k: nat| k < n implies glyf_decode(t)->Ok_0.0.subrange(
        glyph_offset(st, bitmaps, k) as int,
        glyph_offset(st, bitmaps, k + 1) as int,
    ) == padded_to_four(#[trigger] glyph_bytes(st, bitmaps, k)) by {
        lemma_glyph_segment(st, bitmaps, k, n);
    }
}

/// Where decoding reaches glyph `k` and glyph `k` fails, decoding the table
/// fails with the error of glyph `k`; the glyphs after it are not looked at.
pub proof fn law_first_failing_glyph_decides(t: Seq<u8>, k: nat)
    requires
        glyf_table_parts(t) is Ok,
        k < glyf_table_parts(t)->Ok_0.num_glyphs,
        glyphs_prefix(glyf_table_parts(t)->Ok_0.streams, glyf_table_parts(t)->Ok_0.bitmaps, k) is Ok,
        next_glyph(
            glyphs_prefix(
                glyf_table_parts(t)->Ok_0.streams,
                glyf_table_parts(t)->Ok_0.bitmaps,
                k,
            )->Ok_0.0,
            glyf_table_parts(t)->Ok_0.bitmaps,
            k as int,
        ) is Err,
    ensures
        glyf_decode(t) == Err::<(Seq<u8>, Seq<u8>), GlyfDecoderError>(
            next_glyph(
                glyphs_prefix(
                    glyf_table_parts(t)->Ok_0.streams,
                    glyf_table_parts(t)->Ok_0.bitmaps,
                    k,
                )->Ok_0.0,
                glyf_table_parts(t)->Ok_0.bitmaps,
                k as int,
            )->Err_0,
        ),
{
    let parts = glyf_table_parts(t)->Ok_0;
    assert(glyphs_prefix(parts.streams, parts.bitmaps, k + 1) is Err);
    lemma_glyphs_prefix_err_propagates(
        parts.streams,
        parts.bitmaps,
        k + 1,
        parts.num_glyphs as nat,
    );
}

/// The law above, on the streams and bitmaps of the table.
proof fn lemma_loca_indexes_glyphs(
    st: GlyfStreams,
    bitmaps: GlyfBitmaps,
    long_format: bool,
    n: nat,
)
    requires
        glyphs_prefix(st, bitmaps, n) is Ok,
        loca_offsets_fit(st, bitmaps, long_format, n),
    ensures
        ({
            let glyf = all_glyphs(st, bitmaps, long_format, n)->Ok_0.1;
            let loca = all_glyphs(st, bitmaps, long_format, n)->Ok_0.2;
            let w = loca_entry_size(long_format);
            &&& glyf.len() % 4 == 0
            &&& loca.len() == (n + 1) * w
            &&& glyph_offset(st, bitmaps, 0) == 0
            &&& glyph_offset(st, bitmaps, n) == glyf.len()
            &&& forall|k: nat|
                k <= n ==> loca_entry_value(long_format, #[trigger] loca_entry_at(loca, long_format, k))
                    == glyph_offset(st, bitmaps, k)
            &&& forall|k: nat| k <= n ==> #[trigger] glyph_offset(st, bitmaps, k) % 4 == 0
            &&& forall|j: nat, k: nat|
                j <= k <= n ==> #[trigger] glyph_offset(st, bitmaps, j) <= #[trigger] glyph_offset(
                    st,
                    bitmaps,
                    k,
                )
        }),
{
    let w = loca_entry_size(long_format) as int;
    let glyf = glyphs_prefix(st, bitmaps, n)->Ok_0.1;
    let entries = loca_prefix(st, bitmaps, long_format, n);
    let loca = entries + loca_entry(long_format, glyf.len());
    lemma_glyphs_prefix_aligned(st, bitmaps, n);
    lemma_loca_prefix_entries(st, bitmaps, long_format, n);
    assert(loca_entry(long_format, glyf.len()).len() == w);
    assert(n * w + w == (n + 1) * w) by (nonlinear_arith);
    assert forall|k: nat| k <= n implies #[trigger] glyph_offset(st, bitmaps, k) % 4 == 0
        && loca_offset_fits(long_format, glyph_offset(st, bitmaps, k)) by {
        lemma_glyphs_prefix_ok_shorter(st, bitmaps, k, n);
        lemma_glyphs_prefix_aligned(st, bitmaps, k);
    }
    assert forall|k: nat| k <= n implies loca_entry_value(
        long_format,
        #[trigger] loca_entry_at(loca, long_format, k),
    ) == glyph_offset(st, bitmaps, k) by {
        lemma_loca_entry_read_back(st, bitmaps, long_format, n, k);
    }
    assert forall|j: nat, k: nat| j <= k <= n implies #[trigger] glyph_offset(st, bitmaps, j)
        <= #[trigger] glyph_offset(st, bitmaps, k) by {
        lemma_glyphs_prefix_ok_shorter(st, bitmaps, k, n);
        lemma_glyphs_prefix_ok_shorter(st, bitmaps, j, k);
    }
}

/// Entry `k` of the `loca` table of `n` glyphs, read back, is where glyph
/// `k` starts.
proof fn lemma_loca_entry_read_back(
    st: GlyfStreams,
    bitmaps: GlyfBitmaps,
    long_format: bool,
    n: nat,
    k: nat,
)
    requires
        k <= n,
        glyphs_prefix(st, bitmaps, n) is Ok,
        loca_offsets_fit(st, bitmaps, long_format, n),
    ensures
        loca_entry_value(
            long_format,
            loca_entry_at(all_glyphs(st, bitmaps, long_format, n)->Ok_0.2, long_format, k),
        ) == glyph_offset(st, bitmaps, k),
{
    let w = loca_entry_size(long_format) as int;
    let glyf = glyphs_prefix(st, bitmaps, n)->Ok_0.1;
    let entries = loca_prefix(st, bitmaps, long_format, n);
    let loca = entries + loca_entry(long_format, glyf.len());
    assert(all_glyphs(st, bitmaps, long_format, n)->Ok_0.2 == loca);
    lemma_loca_prefix_entries(st, bitmaps, long_format, n);
    lemma_glyphs_prefix_ok_shorter(st, bitmaps, k, n);
    lemma_glyphs_prefix_aligned(st, bitmaps, k);
    let off = glyph_offset(st, bitmaps, k);
    assert(loca_offset_fits(long_format, off));
    assert((k + 1) * w == k * w + w) by (nonlinear_arith);
    if k < n {
        assert(k * w + w <= n * w) by (nonlinear_arith)
            requires
                k < n,
                w >= 0,
        ;
        assert(loca_entry_at(loca, long_format, k) =~= loca_entry_at(entries, long_format, k));
    } else {
        assert(loca_entry_at(loca, long_format, k) =~= loca_entry(long_format, glyf.len()));
    }
    if long_format {
        lemma_u32_be_roundtrip(off as u32);
    } else {
        lemma_u16_be_roundtrip((off / 2) as u16);
    }
}

/// Decodes a transformed `glyf` table into the `glyf` and `loca` tables.
pub fn decode_glyf_table(glyf_table: &[u8]) -> (r: Result<(Vec<u8>, Vec<u8>), GlyfDecoderError>)
    requires
        glyf_loca_fits(glyf_table@),
    ensures
        match glyf_decode(glyf_table@) {
            Ok((glyf, loca)) => r is Ok && r->Ok_0.0@ == glyf && r->Ok_0.1@ == loca,
            Err(e) => r == Err::<(Vec<u8>, Vec<u8>), GlyfDecoderError>(e),
        },
{
    match decode_glyf_table_checked(glyf_table) {
        Some(r) => r,
        None => {
            // The offsets fit, so the checked decoding never gives `None`.
            assert(false);
            Err(GlyfDecoderError::Truncated)
        },
    }
}

/// Decodes a transformed `glyf` table into the `glyf` and `loca` tables, or
/// gives `None` where the offset of a glyph does not fit its `loca` entry.
pub fn decode_glyf_table_checked(glyf_table: &[u8]) -> (r: Option<
    Result<(Vec<u8>, Vec<u8>), GlyfDecoderError>,
>)
    ensures
        r is None <==> !glyf_loca_fits(glyf_table@),
        r is Some ==> match glyf_decode(glyf_table@) {
            Ok((glyf, loca)) => r->Some_0 is Ok && r->Some_0->Ok_0.0@ == glyf
                && r->Some_0->Ok_0.1@ == loca,
            Err(e) => r->Some_0 == Err::<(Vec<u8>, Vec<u8>), GlyfDecoderError>(e),
        },
{
    let mut decoder = match Woff2GlyfDecoder::new(glyf_table) {
        Ok(d) => d,
        Err(e) => {
            return Some(Err(e));
        },
    };
    let res = match decoder.parse_all_glyphs() {
        None => {
            return None;
        },
        Some(Ok(v)) => v,
        Some(Err(e)) => {
            return Some(Err(e));
        },
    };
    if decoder.has_read_all() {
        Some(Ok(res))
    } else {
        Some(Err(GlyfDecoderError::ExtraData))
    }
}

impl GlyfHeader {
    /// Reads the header of the transformed `glyf` table.
    fn parse(transformed_glyf_table: &[u8]) -> (r: Result<Self, GlyfDecoderError>)
        ensures
            match glyf_header(transformed_glyf_table@) {
                Ok(h) => r is Ok && r->Ok_0 == h,
                Err(e) => r is Err && r->Err_0 == e,
            },
    {
        let mut table_buf = transformed_glyf_table;
        let ghost t = transformed_glyf_table@;
        if table_buf.len() < GLYF_HEADER_SIZE {
            return Err(GlyfDecoderError::Truncated);
        }
        let _reserved = buf_get_u16(&mut table_buf);
        let option_flags = buf_get_u16(&mut table_buf);
        let num_glyphs = buf_get_u16(&mut table_buf);
        let bbox_bitmap_size = bit_stream_byte_length(num_glyphs);
        let index_format = buf_get_u16(&mut table_buf);
        let n_contour_stream_size = buf_get_u32(&mut table_buf) as usize;
        let n_points_stream_size = buf_get_u32(&mut table_buf) as usize;
        let flag_stream_size = buf_get_u32(&mut table_buf) as usize;
        let glyph_stream_size = buf_get_u32(&mut table_buf) as usize;
        let composite_stream_size = buf_get_u32(&mut table_buf) as usize;
        let bbox_size = buf_get_u32(&mut table_buf) as usize;
        let bbox_stream_size = match bbox_size.checked_sub(bbox_bitmap_size) {
            Some(v) => v,
            None => {
                return Err(GlyfDecoderError::Truncated);
            },
        };
        let instruction_stream_size = buf_get_u32(&mut table_buf) as usize;
        let overlap_bitmap_size = if option_flags & OVERLAP_BITMAP_FLAG != 0 {
            bit_stream_byte_length(num_glyphs)
        } else {
            0
        };
        Ok(
            Self {
                num_glyphs,
                index_format,
                n_contour_stream_size,
                n_points_stream_size,
                flag_stream_size,
                glyph_stream_size,
                composite_stream_size,
                bbox_bitmap_size,
                bbox_stream_size,
                instruction_stream_size,
                overlap_bitmap_size,
            },
        )
    }

    fn has_overlap_bitmap(&self) -> (r: bool)
        ensures
            r == (self.overlap_bitmap_size != 0),
    {
        self.overlap_bitmap_size != 0
    }
}

/// Hands out consecutive pieces of a byte slice.
struct StreamReader<'a> {
    input: &'a [u8],
}

impl<'a> StreamReader<'a> {
    fn new(input: &'a [u8]) -> (r: Self)
        ensures
            r.input@ == input@,
    {
        Self { input }
    }

    /// The next `len` bytes, or an error where fewer are left (which takes
    /// nothing).
    fn take(&mut self, len: usize) -> (r: Result<&'a [u8], GlyfDecoderError>)
        ensures
            match r {
                Ok(s) => {
                    &&& old(self).input@.len() >= len
                    &&& s@ == old(self).input@.take(len as int)
                    &&& final(self).input@ == old(self).input@.skip(len as int)
                },
                Err(e) => {
                    &&& old(self).input@.len() < len
                    &&& e == GlyfDecoderError::Truncated
                    &&& final(self).input@ == old(self).input@
                },
            },
    {
        if self.input.len() < len {
            return Err(GlyfDecoderError::Truncated);
        }
        let (stream, rest) = self.input.split_at(len);
        self.input = rest;
        Ok(stream)
    }

    /// What is left after the pieces handed out.
    fn finish(self) -> (r: &'a [u8])
        ensures
            r@ == self.input@,
    {
        self.input
    }
}

impl<'a> Woff2GlyfDecoder<'a> {
    /// Takes the transformed `glyf` table apart into its streams.
    #[verifier::rlimit(100)]
    pub(crate) fn new(transformed_glyf_table: &'a [u8]) -> (r: Result<Self, GlyfDecoderError>)
        ensures
            match glyf_table_parts(transformed_glyf_table@) {
                Ok(parts) => {
                    &&& r is Ok
                    &&& r->Ok_0.wf()
                    &&& r->Ok_0.num_glyphs == parts.num_glyphs
                    &&& r->Ok_0.index_format == parts.index_format
                    &&& r->Ok_0.streams() == parts.streams
                    &&& r->Ok_0.bitmaps() == parts.bitmaps
                    &&& r->Ok_0.trailer@ == parts.trailer
                },
                Err(e) => r is Err && r->Err_0 == e,
            },
    {
        let ghost t = transformed_glyf_table@;
        let header = match GlyfHeader::parse(transformed_glyf_table) {
            Ok(h) => h,
            Err(e) => {
                return Err(e);
            },
        };
        let (_, body) = transformed_glyf_table.split_at(GLYF_HEADER_SIZE);
        let ghost b = body@;
        let ghost e0 = header.n_contour_stream_size as int;
        let ghost e1 = e0 + header.n_points_stream_size;
        let ghost e2 = e1 + header.flag_stream_size;
        let ghost e3 = e2 + header.glyph_stream_size;
        let ghost e4 = e3 + header.composite_stream_size;
        let ghost e5 = e4 + header.bbox_bitmap_size;
        let ghost e6 = e5 + header.bbox_stream_size;
        let ghost e7 = e6 + header.instruction_stream_size;
        let ghost e8 = e7 + header.overlap_bitmap_size;
        let mut streams = StreamReader::new(body);

        let n_contour_stream = match streams.take(header.n_contour_stream_size) {
            Ok(s) => s,
            Err(e) => {
                return Err(e);
            },
        };
        assert(streams.input@ =~= b.skip(e0));
        let n_points_stream = match streams.take(header.n_points_stream_size) {
            Ok(s) => s,
            Err(e) => {
                return Err(e);
            },
        };
        assert(streams.input@ =~= b.skip(e1));
        let flag_stream = match streams.take(header.flag_stream_size) {
            Ok(s) => s,
            Err(e) => {
                return Err(e);
            },
        };
        assert(streams.input@ =~= b.skip(e2));
        let glyph_stream = match streams.take(header.glyph_stream_size) {
            Ok(s) => s,
            Err(e) => {
                return Err(e);
            },
        };
        assert(streams.input@ =~= b.skip(e3));
        let composite_stream = match streams.take(header.composite_stream_size) {
            Ok(s) => s,
            Err(e) => {
                return Err(e);
            },
        };
        assert(streams.input@ =~= b.skip(e4));
        let bbox_bitmap = match streams.take(header.bbox_bitmap_size) {
            Ok(s) => Bitmap::new(s),
            Err(e) => {
                return Err(e);
            },
        };
        assert(streams.input@ =~= b.skip(e5));
        let bbox_stream = match streams.take(header.bbox_stream_size) {
            Ok(s) => s,
            Err(e) => {
                return Err(e);
            },
        };
        assert(streams.input@ =~= b.skip(e6));
        let instruction_stream = match streams.take(header.instruction_stream_size) {
            Ok(s) => s,
            Err(e) => {
                return Err(e);
            },
        };
        assert(streams.input@ =~= b.skip(e7));
        let overlap_bitmap = if header.has_overlap_bitmap() {
            match streams.take(header.overlap_bitmap_size) {
                Ok(s) => Some(Bitmap::new(s)),
                Err(e) => {
                    return Err(e);
                },
            }
        } else {
            None
        };
        assert(streams.input@ =~= b.skip(e8));
        proof {
            assert(n_contour_stream@ =~= b.subrange(0, e0));
            assert(n_points_stream@ =~= b.subrange(e0, e1));
            assert(flag_stream@ =~= b.subrange(e1, e2));
            assert(glyph_stream@ =~= b.subrange(e2, e3));
            assert(composite_stream@ =~= b.subrange(e3, e4));
            assert(bbox_bitmap@ =~= b.subrange(e4, e5));
            assert(bbox_stream@ =~= b.subrange(e5, e6));
            assert(instruction_stream@ =~= b.subrange(e6, e7));
            lemma_bitmap_covers(header.num_glyphs as nat);
            assert(b == t.skip(GLYF_HEADER_SIZE as int));
            let parts = glyf_table_parts(t)->Ok_0;
            assert(glyf_table_parts(t) is Ok);
            assert(parts.streams == GlyfStreams {
                n_contour: n_contour_stream@,
                n_points: n_points_stream@,
                flag: flag_stream@,
                glyph: glyph_stream@,
                composite: composite_stream@,
                bbox: bbox_stream@,
                instruction: instruction_stream@,
            });
        }
        let decoder = Self {
            num_glyphs: header.num_glyphs,
            n_contour_stream,
            n_points_stream,
            flag_stream,
            glyph_stream,
            composite_stream,
            bbox_bitmap,
            bbox_stream,
            instruction_stream,
            overlap_bitmap,
            trailer: streams.finish(),
            index_format: header.index_format,
        };
        proof {
            let parts = glyf_table_parts(t)->Ok_0;
            assert(decoder.streams() == parts.streams);
            assert(decoder.bitmaps().bbox == parts.bitmaps.bbox);
            assert(decoder.bitmaps().overlap == parts.bitmaps.overlap);
            assert(decoder.trailer@ == parts.trailer);
            assert(decoder.wf());
        }
        Ok(decoder)
    }
}

/// The byte length of a bitmap with a bit for each of `bit_stream_bit_length`
/// glyphs, padded to whole 32-bit words.
fn bit_stream_byte_length(bit_stream_bit_length: u16) -> (r: usize)
    ensures
        r == bitmap_byte_len(bit_stream_bit_length as nat),
{
    let n = bit_stream_bit_length;
    assert(n >> 5u16 == n / 32) by (bit_vector);
    let words = (n >> 5) + if n % 32 != 0 {
        1
    } else {
        0
    };
    assert(n >> 5u16 == n / 32) by (bit_vector);
    assert(words <= 2048);
    assert(words << 2u16 == words * 4) by (bit_vector)
        requires
            words <= 2048,
    ;
    usize::from(words << 2)
}

} // verus!

verus! {

/// A bitmap of whole 32-bit words has a bit for each of the glyphs.
pub proof fn lemma_bitmap_covers(bits: nat)
    ensures
        bitmap_byte_len(bits) * 8 >= bits,
{
    assert(((bits + 31) / 32) * 32 >= bits) by (nonlinear_arith);
}

} // verus!
