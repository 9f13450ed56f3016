//! Composite glyphs: a bounding box, the component records as the composite
//! stream holds them, and the instructions where a component asks for them.
use vstd::prelude::*;

use crate::buffer::{
    be_i16, be_u16, i16_be_bytes, put_i16, put_u16, u16_be_bytes, u255_u16_decode, BufExt,
    SafeBuf,
};

use super::{bit_is_set, GlyfBitmaps, GlyfDecoderError, GlyfStreams, Woff2GlyfDecoder};

verus! {

/// The component flag: more components follow this one.
pub open spec fn has_more_components(flag_word: u16) -> bool {
    flag_word & 0x0020 != 0
}

/// The component flag: the glyph has instructions.
pub open spec fn has_instructions(flag_word: u16) -> bool {
    flag_word & 0x0100 == 0x0100
}

/// The bytes of a component record after its flag word: the glyph index and
/// the two arguments (words where bit 0 is set, bytes otherwise), then one
/// scale (bit 3), an x and a y scale (bit 6) or a two by two matrix (bit 7).
pub open spec fn component_args_len(flag_word: u16) -> nat {
    4 + (if flag_word & 0x0001 == 0x0001 {
        2nat
    } else {
        0nat
    }) + (if flag_word & 0x0008 == 0x0008 {
        2nat
    } else if flag_word & 0x0040 == 0x0040 {
        4nat
    } else if flag_word & 0x0080 == 0x0080 {
        8nat
    } else {
        0nat
    })
}

/// A component record of OpenType, after its flag word: the glyph index
/// (two bytes); the two arguments, two bytes each where
/// ARG_1_AND_2_ARE_WORDS (bit 0) is set and one byte each otherwise; and
/// the transformation, of two-byte values: one scale (WE_HAVE_A_SCALE,
/// bit 3), else an x and a y scale (WE_HAVE_AN_X_AND_Y_SCALE, bit 6), else
/// a two by two matrix (WE_HAVE_A_TWO_BY_TWO, bit 7), else none. Another
/// record follows where MORE_COMPONENTS (bit 5) is set, and the glyph has
/// instructions where WE_HAVE_INSTRUCTIONS (bit 8) is.
pub proof fn law_component_record_layout(flag_word: u16)
    ensures
        component_args_len(flag_word) == 2 + 2 * (if flag_word & 0x0001 != 0 {
            2int
        } else {
            1int
        }) + 2 * (if flag_word & 0x0008 != 0 {
            1int
        } else if flag_word & 0x0040 != 0 {
            2int
        } else if flag_word & 0x0080 != 0 {
            4int
        } else {
            0int
        }),
        component_args_len(0x0000) == 4,
        component_args_len(0x0001) == 6,
        component_args_len(0x0008) == 6,
        component_args_len(0x0040) == 8,
        component_args_len(0x0080) == 12,
        component_args_len(0x0081) == 14,
        has_more_components(flag_word) == (flag_word / 32 % 2 == 1),
        has_instructions(flag_word) == (flag_word / 256 % 2 == 1),
{
    assert((flag_word & 0x0020 != 0) == (flag_word / 32 % 2 == 1) && (flag_word & 0x0100
        == 0x0100) == (flag_word / 256 % 2 == 1)) by (bit_vector);
    assert({
        &&& (flag_word & 0x0001 == 0x0001) == (flag_word & 0x0001 != 0)
        &&& (flag_word & 0x0008 == 0x0008) == (flag_word & 0x0008 != 0)
        &&& (flag_word & 0x0040 == 0x0040) == (flag_word & 0x0040 != 0)
        &&& (flag_word & 0x0080 == 0x0080) == (flag_word & 0x0080 != 0)
    }) by (bit_vector);
    assert({
        &&& 0x0000u16 & 0x0001 == 0 && 0x0000u16 & 0x0008 == 0 && 0x0000u16 & 0x0040 == 0
            && 0x0000u16 & 0x0080 == 0
        &&& 0x0001u16 & 0x0001 == 0x0001 && 0x0001u16 & 0x0008 == 0 && 0x0001u16 & 0x0040 == 0
            && 0x0001u16 & 0x0080 == 0
        &&& 0x0008u16 & 0x0001 == 0 && 0x0008u16 & 0x0008 == 0x0008
        &&& 0x0040u16 & 0x0001 == 0 && 0x0040u16 & 0x0008 == 0 && 0x0040u16 & 0x0040 == 0x0040
        &&& 0x0080u16 & 0x0001 == 0 && 0x0080u16 & 0x0008 == 0 && 0x0080u16 & 0x0040 == 0
            && 0x0080u16 & 0x0080 == 0x0080
        &&& 0x0081u16 & 0x0001 == 0x0001 && 0x0081u16 & 0x0008 == 0 && 0x0081u16 & 0x0040 == 0
            && 0x0081u16 & 0x0080 == 0x0080
    }) by (bit_vector);
}

/// The component records at the start of `s`, up to the one without the
/// more-components flag: their length in bytes, and whether one of them
/// asks for instructions. `None` where `s` ends first.
pub open spec fn component_records(s: Seq<u8>) -> Option<(nat, bool)>
    decreases s.len(),
{
    if s.len() < 2 {
        None
    } else {
        let flag_word = be_u16(s);
        let len = 2 + component_args_len(flag_word);
        if s.len() < len {
            None
        } else if !has_more_components(flag_word) {
            Some((len, has_instructions(flag_word)))
        } else {
            records_after(len, has_instructions(flag_word), component_records(s.skip(len as int)))
        }
    }
}

/// The records `rest`, behind `len` bytes of records of which some ask for
/// instructions where `have`.
pub open spec fn records_after(len: nat, have: bool, rest: Option<(nat, bool)>) -> Option<
    (nat, bool),
> {
    match rest {
        Some((m, h)) => Some((len + m, have || h)),
        None => None,
    }
}

/// A composite glyph: -1 for its contour count, its bounding box from the
/// bbox stream (an error where the bbox bitmap has no bit for it), the
/// component records as they are, and, where a record asks for them, the
/// instruction length (a `255UInt16` of the glyph stream) and the
/// instructions. The streams after it, and its bytes in `glyf`.
pub open spec fn composite_glyph(st: GlyfStreams, bitmaps: GlyfBitmaps, glyph_index: int) -> Result<
    (GlyfStreams, Seq<u8>),
    GlyfDecoderError,
> {
    if !bit_is_set(bitmaps.bbox, glyph_index) {
        Err(GlyfDecoderError::CompositeGlyphWithoutBbox)
    } else if st.bbox.len() < 8 {
        Err(GlyfDecoderError::Truncated)
    } else {
        match component_records(st.composite) {
            None => Err(GlyfDecoderError::Truncated),
            Some((len, have_instructions)) => {
                let head = i16_be_bytes(-1i16) + st.bbox.take(8) + st.composite.take(len as int);
                let rest = GlyfStreams {
                    bbox: st.bbox.skip(8),
                    composite: st.composite.skip(len as int),
                    ..st
                };
                if !have_instructions {
                    Ok((rest, head))
                } else {
                    match u255_u16_decode(rest.glyph) {
                        (Err(_), _) => Err(GlyfDecoderError::Truncated),
                        (Ok(n), used) => if rest.instruction.len() < n {
                            Err(GlyfDecoderError::Truncated)
                        } else {
                            Ok(
                                (
                                    GlyfStreams {
                                        glyph: rest.glyph.skip(used as int),
                                        instruction: rest.instruction.skip(n as int),
                                        ..rest
                                    },
                                    head + u16_be_bytes(n) + rest.instruction.take(n as int),
                                ),
                            )
                        },
                    }
                }
            },
        }
    }
}

/// How many bytes of the component records at the start of `s` a reader
/// takes, and copies as they are, until the records end or a read fails: a
/// flag word that is there is taken even where its arguments are not.
pub open spec fn component_records_taken(s: Seq<u8>) -> nat
    decreases s.len(),
{
    if s.len() < 2 {
        0
    } else {
        let flag_word = be_u16(s);
        let len = 2 + component_args_len(flag_word);
        if s.len() < len {
            2
        } else if !has_more_components(flag_word) {
            len
        } else {
            len + component_records_taken(s.skip(len as int))
        }
    }
}

/// What reading a composite glyph leaves of the streams and writes, on
/// success and on failure alike: -1 for the contour count; the bounding box
/// words that are there, up to four; the component records as far as they
/// are read; and, where a record asks for instructions, what is read of
/// their length and, where all of them are there, the instructions.
pub open spec fn composite_glyph_progress(
    st: GlyfStreams,
    bitmaps: GlyfBitmaps,
    glyph_index: int,
) -> (GlyfStreams, Seq<u8>) {
    if !bit_is_set(bitmaps.bbox, glyph_index) {
        (st, i16_be_bytes(-1i16))
    } else if st.bbox.len() < 8 {
        let k = (st.bbox.len() / 2 * 2) as int;
        (GlyfStreams { bbox: st.bbox.skip(k), ..st }, i16_be_bytes(-1i16) + st.bbox.take(k))
    } else {
        let taken = component_records_taken(st.composite);
        let head = i16_be_bytes(-1i16) + st.bbox.take(8) + st.composite.take(taken as int);
        let rest = GlyfStreams {
            bbox: st.bbox.skip(8),
            composite: st.composite.skip(taken as int),
            ..st
        };
        match component_records(st.composite) {
            Some((_, true)) => {
                let length = u255_u16_decode(rest.glyph);
                let rest = GlyfStreams { glyph: rest.glyph.skip(length.1 as int), ..rest };
                match length.0 {
                    Err(_) => (rest, head),
                    Ok(n) => if rest.instruction.len() < n {
                        (rest, head + u16_be_bytes(n))
                    } else {
                        (
                            GlyfStreams { instruction: rest.instruction.skip(n as int), ..rest },
                            head + u16_be_bytes(n) + rest.instruction.take(n as int),
                        )
                    },
                }
            },
            _ => (rest, head),
        }
    }
}

/// Writing back a big-endian `u16` just read gives the bytes it was read from.
pub proof fn lemma_u16_rewritten(s: Seq<u8>)
    requires
        s.len() >= 2,
    ensures
        u16_be_bytes(be_u16(s)) == s.take(2),
{
    assert(u16_be_bytes(be_u16(s)) =~= s.take(2));
}

/// Writing back a big-endian `i16` just read gives the bytes it was read from.
pub proof fn lemma_i16_rewritten(s: Seq<u8>)
    requires
        s.len() >= 2,
    ensures
        i16_be_bytes(be_i16(s)) == s.take(2),
{
    assert(i16_be_bytes(be_i16(s)) =~= s.take(2));
}

/// Eight bytes read as four big-endian `i16` and written back are the same
/// eight bytes.
pub proof fn lemma_four_i16_rewritten(s: Seq<u8>)
    requires
        s.len() >= 8,
    ensures
        i16_be_bytes(be_i16(s)) + i16_be_bytes(be_i16(s.skip(2))) + i16_be_bytes(
            be_i16(s.skip(4)),
        ) + i16_be_bytes(be_i16(s.skip(6))) == s.take(8),
{
    lemma_i16_rewritten(s);
    lemma_i16_rewritten(s.skip(2));
    lemma_i16_rewritten(s.skip(4));
    lemma_i16_rewritten(s.skip(6));
    assert(s.take(2) + s.skip(2).take(2) + s.skip(4).take(2) + s.skip(6).take(2) =~= s.take(8));
}

impl Woff2GlyfDecoder<'_> {
    /// Copies the four bounding box words of the bbox stream to `output`,
    /// as many of them as are there.
    fn copy_composite_bbox(&mut self, output: &mut Vec<u8>) -> (r: Result<(), GlyfDecoderError>)
        ensures
            final(self).same_layout(*old(self)),
            ({
                let b = old(self).bbox_stream@;
                let k = if b.len() >= 8 {
                    8
                } else {
                    (b.len() / 2 * 2) as int
                };
                &&& final(output)@ == old(output)@ + b.take(k)
                &&& final(self).streams() == GlyfStreams { bbox: b.skip(k), ..old(self).streams() }
                &&& r is Ok <==> b.len() >= 8
                &&& r is Err ==> r->Err_0 == GlyfDecoderError::Truncated
            }),
    {
        let ghost b = self.bbox_stream@;
        let ghost out0 = output@;
        proof {
            assert(b.take(0) =~= Seq::<u8>::empty());
            assert(b.skip(0) =~= b);
            assert(out0 =~= out0 + b.take(0));
        }
        let mut i: usize = 0;
        while i < 4
            invariant
                i <= 4,
                2 * i <= b.len(),
                b == old(self).bbox_stream@,
                out0 == old(output)@,
                self.same_layout(*old(self)),
                self.streams() == (GlyfStreams { bbox: b.skip(2 * i), ..old(self).streams() }),
                output@ == out0 + b.take(2 * i),
            decreases 4 - i,
        {
            let ghost cur = self.bbox_stream@;
            let v = match SafeBuf::try_get_i16(&mut self.bbox_stream) {
                Ok(v) => v,
                Err(e) => {
                    assert(b.len() / 2 * 2 == 2 * i);
                    return Err(GlyfDecoderError::from(e));
                },
            };
            put_i16(output, v);
            proof {
                lemma_i16_rewritten(cur);
                assert(b.take(2 * i) + cur.take(2) =~= b.take(2 * i + 2));
                assert(cur.skip(2) =~= b.skip(2 * i + 2));
            }
            i = i + 1;
        }
        Ok(())
    }

    /// Copies the component records of the composite stream to `output`,
    /// as far as they are read: whether a record asks for instructions.
    fn copy_component_records(&mut self, output: &mut Vec<u8>) -> (r: Result<
        bool,
        GlyfDecoderError,
    >)
        ensures
            final(self).same_layout(*old(self)),
            ({
                let c = old(self).composite_stream@;
                let taken = component_records_taken(c);
                &&& final(output)@ == old(output)@ + c.take(taken as int)
                &&& final(self).streams() == GlyfStreams {
                    composite: c.skip(taken as int),
                    ..old(self).streams()
                }
                &&& match component_records(c) {
                    Some((len, have)) => r == Ok::<bool, GlyfDecoderError>(have) && taken == len,
                    None => r == Err::<bool, GlyfDecoderError>(GlyfDecoderError::Truncated),
                }
            }),
    {
        let ghost out1 = output@;
        let ghost comp = self.composite_stream@;
        let ghost mut consumed: nat = 0;
        let mut have_instructions = false;
        assert(comp.skip(0) =~= comp);
        assert(comp.take(0) =~= Seq::<u8>::empty());
        assert(out1 + comp.take(0) =~= out1);
        loop
            invariant_except_break
                consumed <= comp.len(),
                self.composite_stream@ == comp.skip(consumed as int),
                output@ == out1 + comp.take(consumed as int),
                component_records(comp) == records_after(
                    consumed,
                    have_instructions,
                    component_records(self.composite_stream@),
                ),
                component_records_taken(comp) == consumed + component_records_taken(
                    self.composite_stream@,
                ),
                self.streams() == (GlyfStreams {
                    composite: self.composite_stream@,
                    ..old(self).streams()
                }),
            invariant
                self.same_layout(*old(self)),
                comp == old(self).composite_stream@,
                out1 == old(output)@,
            ensures
                consumed <= comp.len(),
                self.composite_stream@ == comp.skip(consumed as int),
                output@ == out1 + comp.take(consumed as int),
                component_records(comp) == Some((consumed, have_instructions)),
                component_records_taken(comp) == consumed,
                self.streams() == (GlyfStreams {
                    composite: self.composite_stream@,
                    ..old(self).streams()
                }),
            decreases self.composite_stream@.len(),
        {
            let ghost cur = self.composite_stream@;
            let flag_word = match SafeBuf::try_get_u16(&mut self.composite_stream) {
                Ok(v) => v,
                Err(e) => {
                    return Err(GlyfDecoderError::from(e));
                },
            };
            let mut num_bytes = 4usize;
            if flag_word & 0x0001 == 0x0001 {
                num_bytes += 2;
            }
            if flag_word & 0x0008 == 0x0008 {
                num_bytes += 2;
            } else if flag_word & 0x0040 == 0x0040 {
                num_bytes += 4;
            } else if flag_word & 0x0080 == 0x0080 {
                num_bytes += 8;
            }
            assert(num_bytes == component_args_len(flag_word));
            put_u16(output, flag_word);
            proof {
                lemma_u16_rewritten(cur);
                assert(comp.take(consumed as int) + cur.take(2) =~= comp.take(consumed + 2 as int));
                assert(cur.skip(2) =~= comp.skip(consumed + 2 as int));
            }
            match self.composite_stream.try_copy_to_buf(output, num_bytes) {
                Ok(()) => {},
                Err(e) => {
                    return Err(GlyfDecoderError::from(e));
                },
            }
            let ghost len: nat = (2 + num_bytes) as nat;
            proof {
                assert(cur.skip(2).skip(num_bytes as int) =~= cur.skip(len as int));
                assert(comp.skip(consumed as int).skip(len as int) =~= comp.skip(
                    (consumed + len) as int,
                ));
                assert(cur.take(2) + cur.skip(2).take(num_bytes as int) =~= cur.take(len as int));
                assert(comp.take(consumed as int) + comp.skip(consumed as int).take(len as int)
                    =~= comp.take((consumed + len) as int));
            }
            if flag_word & 0x0100 == 0x0100 {
                have_instructions = true;
            }
            proof {
                consumed = (consumed + len) as nat;
            }
            if flag_word & 0x0020 == 0 {
                break;
            }
        }
        Ok(have_instructions)
    }

    /// Copies the instruction length, a `255UInt16` of the glyph stream, and
    /// that many bytes of the instruction stream to `output`, as far as they
    /// are read.
    fn copy_composite_instructions(&mut self, output: &mut Vec<u8>) -> (r: Result<
        (),
        GlyfDecoderError,
    >)
        ensures
            final(self).same_layout(*old(self)),
            ({
                let g = old(self).glyph_stream@;
                let ins = old(self).instruction_stream@;
                let length = u255_u16_decode(g);
                match length.0 {
                    Err(_) => {
                        &&& r == Err::<(), GlyfDecoderError>(GlyfDecoderError::Truncated)
                        &&& final(output)@ == old(output)@
                        &&& final(self).streams() == GlyfStreams {
                            glyph: g.skip(length.1 as int),
                            ..old(self).streams()
                        }
                    },
                    Ok(n) => if ins.len() < n {
                        &&& r == Err::<(), GlyfDecoderError>(GlyfDecoderError::Truncated)
                        &&& final(output)@ == old(output)@ + u16_be_bytes(n)
                        &&& final(self).streams() == GlyfStreams {
                            glyph: g.skip(length.1 as int),
                            ..old(self).streams()
                        }
                    } else {
                        &&& r is Ok
                        &&& final(output)@ == old(output)@ + u16_be_bytes(n) + ins.take(n as int)
                        &&& final(self).streams() == GlyfStreams {
                            glyph: g.skip(length.1 as int),
                            instruction: ins.skip(n as int),
                            ..old(self).streams()
                        }
                    },
                }
            }),
    {
        let instruction_length = match self.glyph_stream.try_get_255_u16() {
            Ok(v) => v,
            Err(e) => {
                return Err(GlyfDecoderError::from(e));
            },
        };
        put_u16(output, instruction_length);
        match self.instruction_stream.try_copy_to_buf(output, instruction_length as usize) {
            Ok(()) => {},
            Err(e) => {
                return Err(GlyfDecoderError::from(e));
            },
        }
        Ok(())
    }

    /// Appends a composite glyph to `output_buffer`.
    pub(crate) fn parse_composite_glyph(
        &mut self,
        glyph_index: u16,
        output_buffer: &mut Vec<u8>,
    ) -> (r: Result<(), GlyfDecoderError>)
        requires
            (glyph_index as int) < old(self).bbox_bitmap@.len() * 8,
        ensures
            final(self).same_layout(*old(self)),
            match composite_glyph(old(self).streams(), old(self).bitmaps(), glyph_index as int) {
                Ok((after, bytes)) => {
                    &&& r is Ok
                    &&& final(self).streams() == after
                    &&& final(output_buffer)@ == old(output_buffer)@ + bytes
                },
                Err(e) => r == Err::<(), GlyfDecoderError>(e),
            },
            r == Err::<(), GlyfDecoderError>(GlyfDecoderError::CompositeGlyphWithoutBbox) ==> {
                &&& final(output_buffer)@ == old(output_buffer)@ + i16_be_bytes(-1i16)
                &&& final(self).streams() == old(self).streams()
            },
            final(output_buffer)@ == old(output_buffer)@ + composite_glyph_progress(
                old(self).streams(),
                old(self).bitmaps(),
                glyph_index as int,
            ).1,
            final(self).streams() == composite_glyph_progress(
                old(self).streams(),
                old(self).bitmaps(),
                glyph_index as int,
            ).0,
    {
        let ghost st = self.streams();
        let ghost out0 = output_buffer@;
        put_i16(output_buffer, -1);
        if !self.bbox_bitmap.is_set(glyph_index) {
            return Err(GlyfDecoderError::CompositeGlyphWithoutBbox);
        }
        match self.copy_composite_bbox(output_buffer) {
            Ok(()) => {},
            Err(e) => {
                return Err(e);
            },
        }
        let ghost out1 = output_buffer@;
        assert(out1 == out0 + i16_be_bytes(-1i16) + st.bbox.take(8));
        let have_instructions = match self.copy_component_records(output_buffer) {
            Ok(h) => h,
            Err(e) => {
                return Err(e);
            },
        };
        if have_instructions {
            let ghost out2 = output_buffer@;
            let r = self.copy_composite_instructions(output_buffer);
            proof {
                let n = u255_u16_decode(st.glyph).0;
                if n is Ok && st.instruction.len() >= n->Ok_0 {
                    assert(output_buffer@ =~= out2 + (u16_be_bytes(n->Ok_0) + st.instruction.take(
                        n->Ok_0 as int,
                    )));
                }
            }
            return r;
        }
        Ok(())
    }
}

} // verus!
