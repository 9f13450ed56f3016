//! Reconstruction of the `glyf` and `loca` tables from the transformed
//! `glyf` table of WOFF2 (<https://www.w3.org/TR/WOFF2/#glyf_table_format>).
use vstd::prelude::*;

use crate::buffer::{
    be_i16, be_u16, be_u32, i16_be_bytes, pad_to_multiple_of_four, padded_to_four, padding_to_four, put_u16,
    put_u32, put_u8, u16_be_bytes, u32_be_bytes, SafeBuf, TruncatedError,
};

pub mod bitmap;
pub mod composite;
pub mod parser;
pub mod simple;
pub mod triplet;

use bitmap::Bitmap;
pub use parser::decode_glyf_table;

verus! {

/// Why a transformed `glyf` table could not be decoded.
#[derive(Debug, Clone, Copy, PartialEq, Eq, Structural)]
pub enum GlyfDecoderError {
    /// A stream ended before what the glyphs ask of it.
    Truncated,
    /// A composite glyph has no bounding box in the bbox stream.
    CompositeGlyphWithoutBbox,
    /// Bytes are left over after the last glyph.
    ExtraData,
}

impl From<TruncatedError> for GlyfDecoderError {
    fn from(e: TruncatedError) -> (r: GlyfDecoderError)
        ensures
            r == GlyfDecoderError::Truncated,
    {
        GlyfDecoderError::Truncated
    }
}

impl vstd::std_specs::convert::FromSpecImpl<TruncatedError> for GlyfDecoderError {
    open spec fn obeys_from_spec() -> bool {
        true
    }

    open spec fn from_spec(e: TruncatedError) -> GlyfDecoderError {
        GlyfDecoderError::Truncated
    }
}

// ---------------------------------------------------------------------------
// The model of the decoder's state
// ---------------------------------------------------------------------------

/// The streams of a transformed `glyf` table that glyph decoding reads, as
/// far as they are left to read.
pub struct GlyfStreams {
    pub n_contour: Seq<u8>,
    pub n_points: Seq<u8>,
    pub flag: Seq<u8>,
    pub glyph: Seq<u8>,
    pub composite: Seq<u8>,
    pub bbox: Seq<u8>,
    pub instruction: Seq<u8>,
}

/// The bitmaps of a transformed `glyf` table: which glyphs have an explicit
/// bounding box, and, where the table has one, which glyphs overlap.
pub struct GlyfBitmaps {
    pub bbox: Seq<u8>,
    pub overlap: Option<Seq<u8>>,
}

/// Bit `index` of a bitmap, the most significant bit of each byte first.
pub open spec fn bit_is_set(bytes: Seq<u8>, index: int) -> bool {
    bytes[index / 8] & (0x80u8 >> ((index % 8) as u8)) != 0
}

/// The byte length of a bitmap of `bits` bits, padded to whole 32-bit words.
pub open spec fn bitmap_byte_len(bits: nat) -> nat {
    ((bits + 31) / 32 * 4) as nat
}

/// The bit of a simple glyph's point flags that marks an overlapping glyph.
pub open spec fn overlap_simple_bit(bitmaps: GlyfBitmaps, glyph_index: int) -> u8 {
    match bitmaps.overlap {
        Some(b) => if bit_is_set(b, glyph_index) {
            0x40u8
        } else {
            0x00u8
        },
        None => 0x00u8,
    }
}

/// The next glyph: its contour count from the contour stream, then nothing
/// for an empty glyph, a simple glyph for a positive count, a composite one
/// for a negative count. The streams after it, and its bytes in `glyf`.
#[verifier::opaque]
pub open spec fn next_glyph(st: GlyfStreams, bitmaps: GlyfBitmaps, glyph_index: int) -> Result<
    (GlyfStreams, Seq<u8>),
    GlyfDecoderError,
> {
    if st.n_contour.len() < 2 {
        Err(GlyfDecoderError::Truncated)
    } else {
        let number_of_contours = be_i16(st.n_contour);
        let rest = GlyfStreams { n_contour: st.n_contour.skip(2), ..st };
        if number_of_contours == 0 {
            Ok((rest, Seq::empty()))
        } else if number_of_contours > 0 {
            simple::simple_glyph(rest, bitmaps, number_of_contours, glyph_index)
        } else {
            composite::composite_glyph(rest, bitmaps, glyph_index)
        }
    }
}

/// The first `count` glyphs, each padded to a multiple of four bytes: the
/// streams after them and their bytes in `glyf`.
pub open spec fn glyphs_prefix(st: GlyfStreams, bitmaps: GlyfBitmaps, count: nat) -> Result<
    (GlyfStreams, Seq<u8>),
    GlyfDecoderError,
>
    decreases count,
{
    if count == 0 {
        Ok((st, Seq::empty()))
    } else {
        match glyphs_prefix(st, bitmaps, (count - 1) as nat) {
            Err(e) => Err(e),
            Ok((before, glyf)) => match next_glyph(before, bitmaps, count - 1) {
                Err(e) => Err(e),
                Ok((after, bytes)) => Ok((after, padded_to_four(glyf + bytes))),
            },
        }
    }
}

/// The `loca` entry for a glyph that starts at `offset` in `glyf`: the
/// offset as 32 bits in the long format, half of it as 16 bits in the short
/// one.
pub open spec fn loca_entry(long_format: bool, offset: nat) -> Seq<u8> {
    if long_format {
        u32_be_bytes(offset as u32)
    } else {
        u16_be_bytes((offset / 2) as u16)
    }
}

/// Whether a `glyf` offset can stand in a `loca` entry of the format.
pub open spec fn loca_offset_fits(long_format: bool, offset: nat) -> bool {
    if long_format {
        offset <= u32::MAX
    } else {
        offset / 2 <= u16::MAX
    }
}

/// The `loca` entries of the first `count` glyphs.
pub open spec fn loca_prefix(
    st: GlyfStreams,
    bitmaps: GlyfBitmaps,
    long_format: bool,
    count: nat,
) -> Seq<u8>
    decreases count,
{
    if count == 0 {
        Seq::empty()
    } else {
        loca_prefix(st, bitmaps, long_format, (count - 1) as nat) + loca_entry(
            long_format,
            glyphs_prefix(st, bitmaps, (count - 1) as nat)->Ok_0.1.len(),
        )
    }
}

/// Every offset that decoding `count` glyphs writes to `loca` fits its
/// entry: the offset after each prefix of the glyphs that decodes.
pub open spec fn loca_offsets_fit(
    st: GlyfStreams,
    bitmaps: GlyfBitmaps,
    long_format: bool,
    count: nat,
) -> bool {
    forall|k: nat|
        k <= count && (#[trigger] glyphs_prefix(st, bitmaps, k)) is Ok ==> loca_offset_fits(
            long_format,
            glyphs_prefix(st, bitmaps, k)->Ok_0.1.len(),
        )
}

/// All `count` glyphs: the streams after them, the `glyf` table, and the
/// `loca` table with its closing entry.
pub open spec fn all_glyphs(
    st: GlyfStreams,
    bitmaps: GlyfBitmaps,
    long_format: bool,
    count: nat,
) -> Result<(GlyfStreams, Seq<u8>, Seq<u8>), GlyfDecoderError> {
    match glyphs_prefix(st, bitmaps, count) {
        Err(e) => Err(e),
        Ok((after, glyf)) => Ok(
            (
                after,
                glyf,
                loca_prefix(st, bitmaps, long_format, count) + loca_entry(long_format, glyf.len()),
            ),
        ),
    }
}

/// The streams are all read to the end.
pub open spec fn streams_exhausted(st: GlyfStreams) -> bool {
    &&& st.n_contour.len() == 0
    &&& st.n_points.len() == 0
    &&& st.flag.len() == 0
    &&& st.glyph.len() == 0
    &&& st.composite.len() == 0
    &&& st.bbox.len() == 0
    &&& st.instruction.len() == 0
}

/// A prefix of the glyphs that decodes extends the one before it.
pub proof fn lemma_glyphs_prefix_ok_shorter(
    st: GlyfStreams,
    bitmaps: GlyfBitmaps,
    j: nat,
    k: nat,
)
    requires
        j <= k,
        glyphs_prefix(st, bitmaps, k) is Ok,
    ensures
        glyphs_prefix(st, bitmaps, j) is Ok,
        glyphs_prefix(st, bitmaps, j)->Ok_0.1.len() <= glyphs_prefix(st, bitmaps, k)->Ok_0.1.len(),
    decreases k - j,
{
    if j < k {
        lemma_glyphs_prefix_ok_shorter(st, bitmaps, j, (k - 1) as nat);
    }
}

/// Where glyph `k` starts in `glyf`: the length of the glyphs before it.
pub open spec fn glyph_offset(st: GlyfStreams, bitmaps: GlyfBitmaps, k: nat) -> nat {
    glyphs_prefix(st, bitmaps, k)->Ok_0.1.len()
}

/// The bytes of glyph `k`, as decoding them after the glyphs before it gives.
pub open spec fn glyph_bytes(st: GlyfStreams, bitmaps: GlyfBitmaps, k: nat) -> Seq<u8> {
    next_glyph(glyphs_prefix(st, bitmaps, k)->Ok_0.0, bitmaps, k as int)->Ok_0.1
}

/// The first `j` glyphs of a decoded prefix are the prefix of `j` glyphs.
pub proof fn lemma_glyphs_prefix_extends(st: GlyfStreams, bitmaps: GlyfBitmaps, j: nat, k: nat)
    requires
        j <= k,
        glyphs_prefix(st, bitmaps, k) is Ok,
    ensures
        glyphs_prefix(st, bitmaps, j) is Ok,
        glyph_offset(st, bitmaps, j) <= glyph_offset(st, bitmaps, k),
        glyphs_prefix(st, bitmaps, k)->Ok_0.1.take(glyph_offset(st, bitmaps, j) as int)
            == glyphs_prefix(st, bitmaps, j)->Ok_0.1,
    decreases k - j,
{
    lemma_glyphs_prefix_ok_shorter(st, bitmaps, j, k);
    if j < k {
        let km = (k - 1) as nat;
        lemma_glyphs_prefix_extends(st, bitmaps, j, km);
        let before = glyphs_prefix(st, bitmaps, km)->Ok_0.1;
        let after = glyphs_prefix(st, bitmaps, k)->Ok_0.1;
        let bytes = next_glyph(glyphs_prefix(st, bitmaps, km)->Ok_0.0, bitmaps, km as int)->Ok_0.1;
        assert(after == padded_to_four(before + bytes));
        let o = glyph_offset(st, bitmaps, j) as int;
        assert(after.take(o) =~= before.take(o));
    } else {
        let g = glyphs_prefix(st, bitmaps, k)->Ok_0.1;
        assert(g.take(g.len() as int) =~= g);
    }
}

/// The piece of the decoded `glyf` bytes of `n` glyphs that glyph `k` takes
/// is its bytes, padded.
pub proof fn lemma_glyph_segment(st: GlyfStreams, bitmaps: GlyfBitmaps, k: nat, n: nat)
    requires
        k < n,
        glyphs_prefix(st, bitmaps, n) is Ok,
    ensures
        glyphs_prefix(st, bitmaps, n)->Ok_0.1.subrange(
            glyph_offset(st, bitmaps, k) as int,
            glyph_offset(st, bitmaps, k + 1) as int,
        ) == padded_to_four(glyph_bytes(st, bitmaps, k)),
{
    lemma_glyphs_prefix_extends(st, bitmaps, k + 1, n);
    lemma_glyphs_prefix_ok_shorter(st, bitmaps, k, k + 1);
    lemma_glyphs_prefix_aligned(st, bitmaps, k);
    let g = glyphs_prefix(st, bitmaps, n)->Ok_0.1;
    let before = glyphs_prefix(st, bitmaps, k)->Ok_0.1;
    let next = glyphs_prefix(st, bitmaps, k + 1)->Ok_0.1;
    let bytes = glyph_bytes(st, bitmaps, k);
    assert(next == padded_to_four(before + bytes));
    let a = before.len() as int;
    let b = next.len() as int;
    assert(padding_to_four((before + bytes).len()) == padding_to_four(bytes.len()));
    assert(g.subrange(a, b) =~= next.subrange(a, b));
    assert(next.subrange(a, b) =~= padded_to_four(bytes));
}

/// The size of a `loca` entry: four bytes in the long format, two in the short.
pub open spec fn loca_entry_size(long_format: bool) -> nat {
    if long_format {
        4
    } else {
        2
    }
}

/// The offset that a reader of `loca` takes an entry to hold: the 32-bit
/// value in the long format, twice the 16-bit value in the short one.
pub open spec fn loca_entry_value(long_format: bool, bytes: Seq<u8>) -> nat {
    if long_format {
        be_u32(bytes) as nat
    } else {
        be_u16(bytes) as nat * 2
    }
}

/// The bytes of entry `k` of a `loca` table.
pub open spec fn loca_entry_at(loca: Seq<u8>, long_format: bool, k: nat) -> Seq<u8> {
    let w = loca_entry_size(long_format) as int;
    loca.subrange(k * w, (k + 1) * w)
}

/// How a reader of `loca` (OpenType) takes the offset of entry `k`: in the
/// short format the two bytes at `2k`, big-endian, times two; in the long
/// format the four bytes at `4k`, big-endian.
pub proof fn law_loca_entry_reading(loca: Seq<u8>, long_format: bool, k: nat)
    requires
        loca.len() >= (k + 1) * loca_entry_size(long_format),
    ensures
        ({
            let i = k as int;
            &&& !long_format ==> loca_entry_value(false, loca_entry_at(loca, false, k)) == (loca[2
                * i] * 0x100 + loca[2 * i + 1]) * 2
            &&& long_format ==> loca_entry_value(true, loca_entry_at(loca, true, k)) == loca[4 * i]
                * 0x100_0000 + loca[4 * i + 1] * 0x1_0000 + loca[4 * i + 2] * 0x100 + loca[4 * i
                + 3]
        }),
{
    let e = loca_entry_at(loca, long_format, k);
    let w = loca_entry_size(long_format) as int;
    assert(e[0] == loca[k * w] && e[1] == loca[k * w + 1]);
    if long_format {
        assert(e[2] == loca[k * w + 2] && e[3] == loca[k * w + 3]);
    }
}

/// The `loca` entries of the first `k` glyphs are one entry each, in order,
/// each the entry for where its glyph starts.
pub proof fn lemma_loca_prefix_entries(
    st: GlyfStreams,
    bitmaps: GlyfBitmaps,
    long_format: bool,
    k: nat,
)
    requires
        glyphs_prefix(st, bitmaps, k) is Ok,
    ensures
        loca_prefix(st, bitmaps, long_format, k).len() == k * loca_entry_size(long_format),
        forall|j: nat|
            j < k ==> #[trigger] loca_entry_at(
                loca_prefix(st, bitmaps, long_format, k),
                long_format,
                j,
            ) == loca_entry(long_format, glyph_offset(st, bitmaps, j)),
    decreases k,
{
    if k > 0 {
        let w = loca_entry_size(long_format) as int;
        lemma_glyphs_prefix_ok_shorter(st, bitmaps, (k - 1) as nat, k);
        lemma_loca_prefix_entries(st, bitmaps, long_format, (k - 1) as nat);
        let before = loca_prefix(st, bitmaps, long_format, (k - 1) as nat);
        let all = loca_prefix(st, bitmaps, long_format, k);
        assert((k - 1) * w + w == k * w) by (nonlinear_arith);
        assert forall|j: nat| j < k implies #[trigger] loca_entry_at(all, long_format, j)
            == loca_entry(long_format, glyph_offset(st, bitmaps, j)) by {
            assert((j + 1) * w == j * w + w) by (nonlinear_arith);
            if j < k - 1 {
                assert(j * w + w <= (k - 1) * w) by (nonlinear_arith)
                    requires
                        j < k - 1,
                        w >= 0,
                ;
                assert(loca_entry_at(all, long_format, j) =~= loca_entry_at(before, long_format, j));
            } else {
                assert(j * w == (k - 1) * w);
                assert(loca_entry_at(all, long_format, j) =~= loca_entry(
                    long_format,
                    glyph_offset(st, bitmaps, j),
                ));
            }
        }
    }
}

/// Every prefix of the glyphs is a whole number of four-byte words long.
pub proof fn lemma_glyphs_prefix_aligned(st: GlyfStreams, bitmaps: GlyfBitmaps, k: nat)
    requires
        glyphs_prefix(st, bitmaps, k) is Ok,
    ensures
        glyphs_prefix(st, bitmaps, k)->Ok_0.1.len() % 4 == 0,
    decreases k,
{
    if k > 0 {
        lemma_glyphs_prefix_aligned(st, bitmaps, (k - 1) as nat);
    }
}

// ---------------------------------------------------------------------------
// The decoder
// ---------------------------------------------------------------------------

/// The streams of a transformed `glyf` table, as far as they are still to
/// be read, with the table's bitmaps.
pub(crate) struct Woff2GlyfDecoder<'a> {
    pub(crate) num_glyphs: u16,
    pub(crate) n_contour_stream: &'a [u8],
    pub(crate) n_points_stream: &'a [u8],
    pub(crate) flag_stream: &'a [u8],
    pub(crate) glyph_stream: &'a [u8],
    pub(crate) composite_stream: &'a [u8],
    pub(crate) bbox_bitmap: Bitmap<'a>,
    pub(crate) bbox_stream: &'a [u8],
    pub(crate) instruction_stream: &'a [u8],
    pub(crate) overlap_bitmap: Option<Bitmap<'a>>,
    pub(crate) trailer: &'a [u8],
    pub(crate) index_format: u16,
}

impl<'a> Woff2GlyfDecoder<'a> {
    pub(crate) open spec fn streams(&self) -> GlyfStreams {
        GlyfStreams {
            n_contour: self.n_contour_stream@,
            n_points: self.n_points_stream@,
            flag: self.flag_stream@,
            glyph: self.glyph_stream@,
            composite: self.composite_stream@,
            bbox: self.bbox_stream@,
            instruction: self.instruction_stream@,
        }
    }

    pub(crate) open spec fn bitmaps(&self) -> GlyfBitmaps {
        GlyfBitmaps {
            bbox: self.bbox_bitmap@,
            overlap: match self.overlap_bitmap {
                Some(b) => Some(b@),
                None => None,
            },
        }
    }

    /// The bitmaps have a bit for every glyph.
    pub(crate) open spec fn wf(&self) -> bool {
        &&& self.bbox_bitmap@.len() * 8 >= self.num_glyphs
        &&& match self.overlap_bitmap {
            Some(b) => b@.len() * 8 >= self.num_glyphs,
            None => true,
        }
    }

    /// The bitmaps have a bit for glyph `glyph_index`.
    pub(crate) open spec fn has_bits_for(&self, glyph_index: int) -> bool {
        &&& glyph_index < self.bbox_bitmap@.len() * 8
        &&& match self.overlap_bitmap {
            Some(b) => glyph_index < b@.len() * 8,
            None => true,
        }
    }

    /// What reading glyphs leaves as it is.
    pub(crate) open spec fn same_layout(&self, other: Self) -> bool {
        &&& self.num_glyphs == other.num_glyphs
        &&& self.index_format == other.index_format
        &&& self.bitmaps() == other.bitmaps()
        &&& self.trailer@ == other.trailer@
        &&& self.wf() == other.wf()
    }

    /// Whether every stream, and what follows them, has been read.
    fn has_read_all(&self) -> (r: bool)
        ensures
            r == (streams_exhausted(self.streams()) && self.trailer@.len() == 0),
    {
        self.n_contour_stream.is_empty() && self.n_points_stream.is_empty()
            && self.flag_stream.is_empty() && self.glyph_stream.is_empty()
            && self.composite_stream.is_empty() && self.bbox_stream.is_empty()
            && self.instruction_stream.is_empty() && self.trailer.is_empty()
    }

    /// Appends the next glyph to `output_vector`.
    fn parse_next_glyph(&mut self, glyph_index: u16, output_vector: &mut Vec<u8>) -> (r: Result<
        (),
        GlyfDecoderError,
    >)
        requires
            old(self).has_bits_for(glyph_index as int),
        ensures
            final(self).same_layout(*old(self)),
            match next_glyph(old(self).streams(), old(self).bitmaps(), glyph_index as int) {
                Ok((after, bytes)) => {
                    &&& r is Ok
                    &&& final(self).streams() == after
                    &&& final(output_vector)@ == old(output_vector)@ + bytes
                },
                Err(e) => r == Err::<(), GlyfDecoderError>(e),
            },
            // The contour count cannot be read: nothing is taken or written.
            old(self).n_contour_stream@.len() < 2 ==> {
                &&& final(output_vector)@ == old(output_vector)@
                &&& final(self).streams() == old(self).streams()
            },
            // A simple glyph that fails writes nothing.
            old(self).n_contour_stream@.len() >= 2 && be_i16(old(self).n_contour_stream@) > 0
                && r is Err ==> final(output_vector)@ == old(output_vector)@,
            // A composite glyph without a bounding box writes only its contour
            // count, and takes only that from the streams.
            old(self).n_contour_stream@.len() >= 2 && be_i16(old(self).n_contour_stream@) < 0
                && r == Err::<(), GlyfDecoderError>(GlyfDecoderError::CompositeGlyphWithoutBbox)
                ==> {
                &&& final(output_vector)@ == old(output_vector)@ + i16_be_bytes(-1i16)
                &&& final(self).streams() == GlyfStreams {
                    n_contour: old(self).n_contour_stream@.skip(2),
                    ..old(self).streams()
                }
            },
            // A simple glyph takes what reading it got to, on success and on
            // failure alike.
            old(self).n_contour_stream@.len() >= 2 && be_i16(old(self).n_contour_stream@) > 0
                ==> final(self).streams() == simple::simple_glyph_progress(
                (GlyfStreams { n_contour: old(self).n_contour_stream@.skip(2), ..old(self).streams() }),
                old(self).bitmaps(),
                be_i16(old(self).n_contour_stream@),
                glyph_index as int,
            ),
            // A composite glyph writes and takes what reading it got to, on
            // success and on failure alike.
            old(self).n_contour_stream@.len() >= 2 && be_i16(old(self).n_contour_stream@) < 0
                ==> {
                let progress = composite::composite_glyph_progress(
                    GlyfStreams {
                        n_contour: old(self).n_contour_stream@.skip(2),
                        ..old(self).streams()
                    },
                    old(self).bitmaps(),
                    glyph_index as int,
                );
                &&& final(output_vector)@ == old(output_vector)@ + progress.1
                &&& final(self).streams() == progress.0
            },
    {
        reveal(next_glyph);
        let ghost st = self.streams();
        let number_of_contours = match SafeBuf::try_get_i16(&mut self.n_contour_stream) {
            Ok(n) => n,
            Err(e) => {
                return Err(GlyfDecoderError::from(e));
            },
        };
        assert(self.streams() == GlyfStreams { n_contour: st.n_contour.skip(2), ..st });
        if number_of_contours == 0 {
            assert(output_vector@ == old(output_vector)@ + Seq::<u8>::empty());
            Ok(())
        } else if number_of_contours > 0 {
            self.parse_simple_glyph(number_of_contours, glyph_index, output_vector)
        } else {
            self.parse_composite_glyph(glyph_index, output_vector)
        }
    }

    /// Decodes every glyph: the `glyf` table, each glyph padded to four
    /// bytes, and the `loca` table in the table's index format. `None` where
    /// the offset of a glyph does not fit its `loca` entry.
    fn parse_all_glyphs(&mut self) -> (r: Option<Result<(Vec<u8>, Vec<u8>), GlyfDecoderError>>)
        requires
            old(self).wf(),
        ensures
            final(self).same_layout(*old(self)),
            r is None <==> !loca_offsets_fit(
                old(self).streams(),
                old(self).bitmaps(),
                old(self).index_format > 0,
                old(self).num_glyphs as nat,
            ),
            r is Some ==> match all_glyphs(
                old(self).streams(),
                old(self).bitmaps(),
                old(self).index_format > 0,
                old(self).num_glyphs as nat,
            ) {
                Ok((after, glyf, loca)) => {
                    &&& r->Some_0 is Ok
                    &&& r->Some_0->Ok_0.0@ == glyf
                    &&& r->Some_0->Ok_0.1@ == loca
                    &&& final(self).streams() == after
                },
                Err(e) => r->Some_0 == Err::<(Vec<u8>, Vec<u8>), GlyfDecoderError>(e),
            },
    {
        let ghost st = self.streams();
        let ghost bitmaps = self.bitmaps();
        let loca_uses_u32 = self.index_format > 0;
        let ghost long_format = loca_uses_u32;
        let loca_entry_size: usize = if loca_uses_u32 {
            4
        } else {
            2
        };
        let mut output_glyf_table: Vec<u8> = Vec::new();
        let mut output_loca_table: Vec<u8> = Vec::with_capacity(
            (self.num_glyphs as usize + 1) * loca_entry_size,
        );
        let num_glyphs = self.num_glyphs;
        let mut glyph_index: u16 = 0;
        while glyph_index < num_glyphs
            invariant
                glyph_index <= num_glyphs,
                num_glyphs == old(self).num_glyphs,
                self.same_layout(*old(self)),
                old(self).wf(),
                st == old(self).streams(),
                bitmaps == old(self).bitmaps(),
                long_format == (old(self).index_format > 0),
                loca_uses_u32 == long_format,
                glyphs_prefix(st, bitmaps, glyph_index as nat) is Ok,
                glyphs_prefix(st, bitmaps, glyph_index as nat)->Ok_0.0 == self.streams(),
                glyphs_prefix(st, bitmaps, glyph_index as nat)->Ok_0.1 == output_glyf_table@,
                loca_prefix(st, bitmaps, long_format, glyph_index as nat) == output_loca_table@,
                forall|k: nat|
                    k <= glyph_index && (#[trigger] glyphs_prefix(st, bitmaps, k)) is Ok
                        ==> loca_offset_fits(
                        long_format,
                        glyphs_prefix(st, bitmaps, k)->Ok_0.1.len(),
                    ),
            decreases num_glyphs - glyph_index,
        {
            let glyf_len = output_glyf_table.len();
            write_loca_entry(&mut output_loca_table, glyf_len, loca_uses_u32);
            let ghost k = (glyph_index + 1) as nat;
            match self.parse_padded_glyph(glyph_index, &mut output_glyf_table, loca_uses_u32) {
                Some(Ok(())) => {},
                Some(Err(e)) => {
                    assert(glyphs_prefix(st, bitmaps, k) == Err::<
                        (GlyfStreams, Seq<u8>),
                        GlyfDecoderError,
                    >(e));
                    proof {
                        lemma_glyphs_prefix_err_propagates(st, bitmaps, k, num_glyphs as nat);
                        lemma_offsets_fit_up_to(
                            st,
                            bitmaps,
                            long_format,
                            glyph_index as nat,
                            num_glyphs as nat,
                        );
                    }
                    return Some(Err(e));
                },
                None => {
                    assert(glyphs_prefix(st, bitmaps, k) is Ok);
                    assert(!loca_offset_fits(long_format, glyphs_prefix(st, bitmaps, k)->Ok_0.1.len()));
                    return None;
                },
            }
            glyph_index = glyph_index + 1;
        }
        proof {
            lemma_glyphs_prefix_aligned(st, bitmaps, num_glyphs as nat);
        }
        if !loca_uses_u32 && output_glyf_table.len() % 2 == 1 {
            put_u8(&mut output_glyf_table, 0);
        }
        let glyf_len = output_glyf_table.len();
        write_loca_entry(&mut output_loca_table, glyf_len, loca_uses_u32);
        Some(Ok((output_glyf_table, output_loca_table)))
    }
}

impl<'a> Woff2GlyfDecoder<'a> {
    /// Appends the next glyph to `glyf`, padded to four bytes; `None` where
    /// the padded length does not fit a `loca` entry.
    fn parse_padded_glyph(&mut self, glyph_index: u16, glyf: &mut Vec<u8>, loca_uses_u32: bool) -> (r:
        Option<Result<(), GlyfDecoderError>>)
        requires
            old(self).has_bits_for(glyph_index as int),
        ensures
            final(self).same_layout(*old(self)),
            match next_glyph(old(self).streams(), old(self).bitmaps(), glyph_index as int) {
                Ok((after, bytes)) => if loca_offset_fits(
                    loca_uses_u32,
                    padded_to_four(old(glyf)@ + bytes).len(),
                ) {
                    &&& r == Some(Ok::<(), GlyfDecoderError>(()))
                    &&& final(glyf)@ == padded_to_four(old(glyf)@ + bytes)
                    &&& final(self).streams() == after
                } else {
                    r is None
                },
                Err(e) => r == Some(Err::<(), GlyfDecoderError>(e)),
            },
    {
        match self.parse_next_glyph(glyph_index, glyf) {
            Ok(()) => {},
            Err(e) => {
                return Some(Err(e));
            },
        }
        let unpadded = glyf.len();
        if unpadded > (u32::MAX - 3) as usize {
            return None;
        }
        pad_to_multiple_of_four(glyf);
        let padded = glyf.len();
        if !offset_fits(padded, loca_uses_u32) {
            return None;
        }
        Some(Ok(()))
    }
}

/// Whether a `glyf` offset can stand in a `loca` entry of the format.
fn offset_fits(offset: usize, loca_uses_u32: bool) -> (r: bool)
    ensures
        r == loca_offset_fits(loca_uses_u32, offset as nat),
{
    if loca_uses_u32 {
        offset as u64 <= u32::MAX as u64
    } else {
        offset / 2 <= u16::MAX as usize
    }
}

/// Where every offset up to glyph `j` fits and decoding fails after it,
/// every offset that decoding the `n` glyphs writes fits.
proof fn lemma_offsets_fit_up_to(
    st: GlyfStreams,
    bitmaps: GlyfBitmaps,
    long_format: bool,
    j: nat,
    n: nat,
)
    requires
        j < n,
        glyphs_prefix(st, bitmaps, j + 1) is Err,
        forall|k: nat|
            k <= j && (#[trigger] glyphs_prefix(st, bitmaps, k)) is Ok ==> loca_offset_fits(
                long_format,
                glyphs_prefix(st, bitmaps, k)->Ok_0.1.len(),
            ),
    ensures
        loca_offsets_fit(st, bitmaps, long_format, n),
{
    assert forall|k: nat|
        k <= n && (#[trigger] glyphs_prefix(st, bitmaps, k)) is Ok implies loca_offset_fits(
        long_format,
        glyphs_prefix(st, bitmaps, k)->Ok_0.1.len(),
    ) by {
        if k > j {
            lemma_glyphs_prefix_err_propagates(st, bitmaps, j + 1, k);
        }
    }
}

/// Appends the `loca` entry for a glyph that starts at `glyf_len`.
fn write_loca_entry(loca_table: &mut Vec<u8>, glyf_len: usize, loca_uses_u32: bool)
    requires
        loca_offset_fits(loca_uses_u32, glyf_len as nat),
    ensures
        final(loca_table)@ == old(loca_table)@ + loca_entry(loca_uses_u32, glyf_len as nat),
{
    if loca_uses_u32 {
        put_u32(loca_table, glyf_len as u32);
    } else {
        put_u16(loca_table, (glyf_len / 2) as u16);
    }
}

/// Once a prefix of the glyphs fails, every longer one fails the same way.
pub proof fn lemma_glyphs_prefix_err_propagates(st: GlyfStreams, bitmaps: GlyfBitmaps, j: nat, k: nat)
    requires
        j <= k,
        glyphs_prefix(st, bitmaps, j) is Err,
    ensures
        glyphs_prefix(st, bitmaps, k) == glyphs_prefix(st, bitmaps, j),
    decreases k - j,
{
    if j < k {
        lemma_glyphs_prefix_err_propagates(st, bitmaps, j, (k - 1) as nat);
    }
}

} // verus!
