//! Readers for the integer encodings of WOFF2 on byte slices, and the writers
//! that the table reconstruction uses on byte vectors.
use four_cc::FourCC;
use vstd::prelude::*;

verus! {

// ---------------------------------------------------------------------------
// Big-endian encodings
// ---------------------------------------------------------------------------

/// The unsigned 16-bit integer that the first two bytes of `s` hold, most
/// significant byte first.
pub open spec fn be_u16(s: Seq<u8>) -> u16 {
    (s[0] as int * 0x100 + s[1] as int) as u16
}

/// The signed (two's complement) 16-bit integer that the first two bytes of `s` hold.
pub open spec fn be_i16(s: Seq<u8>) -> i16 {
    let u = be_u16(s) as int;
    (if u >= 0x8000 {
        u - 0x1_0000
    } else {
        u
    }) as i16
}

/// The unsigned 32-bit integer that the first four bytes of `s` hold.
pub open spec fn be_u32(s: Seq<u8>) -> u32 {
    (s[0] as int * 0x100_0000 + s[1] as int * 0x1_0000 + s[2] as int * 0x100
        + s[3] as int) as u32
}

/// The two bytes of `v`, most significant first.
pub open spec fn u16_be_bytes(v: u16) -> Seq<u8> {
    seq![(v / 0x100) as u8, (v % 0x100) as u8]
}

/// The two bytes of the two's complement form of `v`, most significant first.
pub open spec fn i16_be_bytes(v: i16) -> Seq<u8> {
    u16_be_bytes(
        (if v < 0 {
            v + 0x1_0000
        } else {
            v as int
        }) as u16,
    )
}

/// The four bytes of `v`, most significant first.
pub open spec fn u32_be_bytes(v: u32) -> Seq<u8> {
    seq![
        (v / 0x100_0000) as u8,
        (v / 0x1_0000 % 0x100) as u8,
        (v / 0x100 % 0x100) as u8,
        (v % 0x100) as u8,
    ]
}

/// Reading back what was written: the big-endian bytes of a `u16` decode to it.
pub proof fn lemma_u16_be_roundtrip(v: u16)
    ensures
        be_u16(u16_be_bytes(v)) == v,
{
}

/// Reading back what was written: the big-endian bytes of a `u32` decode to it.
pub proof fn lemma_u32_be_roundtrip(v: u32)
    ensures
        be_u32(u32_be_bytes(v)) == v,
{
}

/// Reading back what was written: the big-endian bytes of an `i16` decode to it.
pub proof fn lemma_i16_be_roundtrip(v: i16)
    ensures
        be_i16(i16_be_bytes(v)) == v,
{
}

// ---------------------------------------------------------------------------
// Calls into the `bytes` crate
// ---------------------------------------------------------------------------

/// `bytes::Buf::get_u8` on a byte slice: the first byte, with the slice
/// advanced past it. It panics on an empty slice, which `requires` leaves out.
#[verifier::external_body]
fn buf_get_u8(buf: &mut &[u8]) -> (r: u8)
    requires
        old(buf)@.len() >= 1,
    ensures
        r == old(buf)@[0],
        final(buf)@ == old(buf)@.skip(1),
{
    bytes::Buf::get_u8(buf)
}

/// `bytes::Buf::get_u16` on a byte slice: the first two bytes read big-endian,
/// with the slice advanced past them. It panics on fewer than two bytes.
#[verifier::external_body]
pub(crate) fn buf_get_u16(buf: &mut &[u8]) -> (r: u16)
    requires
        old(buf)@.len() >= 2,
    ensures
        r == be_u16(old(buf)@),
        final(buf)@ == old(buf)@.skip(2),
{
    bytes::Buf::get_u16(buf)
}

/// `bytes::Buf::get_i16` on a byte slice: the first two bytes read as a
/// big-endian two's complement integer, with the slice advanced past them. It
/// panics on fewer than two bytes.
#[verifier::external_body]
fn buf_get_i16(buf: &mut &[u8]) -> (r: i16)
    requires
        old(buf)@.len() >= 2,
    ensures
        r == be_i16(old(buf)@),
        final(buf)@ == old(buf)@.skip(2),
{
    bytes::Buf::get_i16(buf)
}

/// `bytes::Buf::get_u32` on a byte slice: the first four bytes read
/// big-endian, with the slice advanced past them. It panics on fewer than four
/// bytes.
#[verifier::external_body]
pub(crate) fn buf_get_u32(buf: &mut &[u8]) -> (r: u32)
    requires
        old(buf)@.len() >= 4,
    ensures
        r == be_u32(old(buf)@),
        final(buf)@ == old(buf)@.skip(4),
{
    bytes::Buf::get_u32(buf)
}

/// `bytes::Buf::copy_to_slice` on a byte slice, into four bytes: they receive
/// the first four bytes of the slice, which is advanced past them. It panics
/// on fewer than four bytes.
#[verifier::external_body]
fn buf_copy_to_slice(buf: &mut &[u8], dest: &mut [u8; 4])
    requires
        old(buf)@.len() >= 4,
    ensures
        final(dest)@ == old(buf)@.take(4),
        final(buf)@ == old(buf)@.skip(4),
{
    bytes::Buf::copy_to_slice(buf, &mut dest[..])
}

/// `bytes::BufMut::put_u8` on a byte vector: appends the byte.
#[verifier::external_body]
pub(crate) fn put_u8(out: &mut Vec<u8>, v: u8)
    ensures
        final(out)@ == old(out)@.push(v),
{
    bytes::BufMut::put_u8(out, v)
}

/// `bytes::BufMut::put_u16` on a byte vector: appends the two bytes of `v`,
/// most significant first.
#[verifier::external_body]
pub(crate) fn put_u16(out: &mut Vec<u8>, v: u16)
    ensures
        final(out)@ == old(out)@ + u16_be_bytes(v),
{
    bytes::BufMut::put_u16(out, v)
}

/// `bytes::BufMut::put_i16` on a byte vector: appends the two bytes of the
/// two's complement form of `v`, most significant first.
#[verifier::external_body]
pub(crate) fn put_i16(out: &mut Vec<u8>, v: i16)
    ensures
        final(out)@ == old(out)@ + i16_be_bytes(v),
{
    bytes::BufMut::put_i16(out, v)
}

/// `bytes::BufMut::put_u32` on a byte vector: appends the four bytes of `v`,
/// most significant first.
#[verifier::external_body]
pub(crate) fn put_u32(out: &mut Vec<u8>, v: u32)
    ensures
        final(out)@ == old(out)@ + u32_be_bytes(v),
{
    bytes::BufMut::put_u32(out, v)
}

/// `bytes::BufMut::put_slice` on a byte vector: appends the bytes of `src`.
#[verifier::external_body]
pub(crate) fn put_slice(out: &mut Vec<u8>, src: &[u8])
    ensures
        final(out)@ == old(out)@ + src@,
{
    bytes::BufMut::put_slice(out, src)
}

/// What `FourCC(bytes)` is, for four bytes.
pub uninterp spec fn four_cc_of(bytes: Seq<u8>) -> FourCC;

/// The tuple constructor of `four_cc::FourCC`, which holds the four bytes as
/// they are.
#[verifier::external_body]
fn make_four_cc(bytes: [u8; 4]) -> (r: FourCC)
    ensures
        r == four_cc_of(bytes@),
{
    FourCC(bytes)
}

#[verifier::external_type_specification]
#[verifier::external_body]
pub struct ExFourCC(FourCC);

// ---------------------------------------------------------------------------
// Errors
// ---------------------------------------------------------------------------

/// A read asked for more bytes than the buffer holds.
#[derive(Debug, Clone, Copy, PartialEq, Eq, Structural)]
pub struct TruncatedError;

/// Why a `UIntBase128` could not be read.
#[derive(Debug, Clone, Copy, PartialEq, Eq, Structural)]
pub enum Base128Error {
    /// The first byte is 0x80, a leading zero group.
    LeadingZero,
    /// Five bytes were read and the last of them still had its high bit set.
    MoreThan5Bytes,
    /// The buffer ended before the last byte.
    Truncated,
    /// The value does not fit in 32 bits.
    Overflow,
}

impl From<TruncatedError> for Base128Error {
    fn from(e: TruncatedError) -> (r: Base128Error)
        ensures
            r == Base128Error::Truncated,
    {
        Base128Error::Truncated
    }
}

impl vstd::std_specs::convert::FromSpecImpl<TruncatedError> for Base128Error {
    open spec fn obeys_from_spec() -> bool {
        true
    }

    open spec fn from_spec(e: TruncatedError) -> Base128Error {
        Base128Error::Truncated
    }
}

// ---------------------------------------------------------------------------
// The encodings that WOFF2 defines
// ---------------------------------------------------------------------------

/// `UIntBase128` from byte `i` on, with `accum` the value of the groups
/// before it: the outcome and how many bytes of `s` a reader takes for it.
pub open spec fn base128_from(s: Seq<u8>, i: nat, accum: u32) -> (Result<u32, Base128Error>, nat)
    decreases 5 - i,
{
    if i >= 5 {
        (Err(Base128Error::MoreThan5Bytes), 5)
    } else if i >= s.len() {
        (Err(Base128Error::Truncated), i)
    } else if i == 0 && s[0] == 0x80 {
        (Err(Base128Error::LeadingZero), 1)
    } else if accum >= 0x200_0000 {
        (Err(Base128Error::Overflow), i + 1)
    } else {
        let next = (accum * 128 + s[i as int] % 128) as u32;
        if s[i as int] < 128 {
            (Ok(next), i + 1)
        } else {
            base128_from(s, i + 1, next)
        }
    }
}

/// `UIntBase128` at the start of `s`: big-endian groups of seven bits, each
/// byte but the last with its high bit set, at most five bytes, no leading
/// zero group and no value above `u32::MAX`. The outcome, and how many bytes
/// a reader takes for it (on an error too).
pub open spec fn base128_decode(s: Seq<u8>) -> (Result<u32, Base128Error>, nat) {
    base128_from(s, 0, 0)
}

/// `255UInt16` at the start of `s`: the outcome, and how many bytes a reader
/// takes for it (on an error too).
pub open spec fn u255_u16_decode(s: Seq<u8>) -> (Result<u16, TruncatedError>, nat) {
    if s.len() < 1 {
        (Err(TruncatedError), 0)
    } else if s[0] == 253 {
        if s.len() < 3 {
            (Err(TruncatedError), 1)
        } else {
            (Ok(be_u16(s.skip(1))), 3)
        }
    } else if s[0] == 255 {
        if s.len() < 2 {
            (Err(TruncatedError), 1)
        } else {
            (Ok((s[1] + 253) as u16), 2)
        }
    } else if s[0] == 254 {
        if s.len() < 2 {
            (Err(TruncatedError), 1)
        } else {
            (Ok((s[1] + 506) as u16), 2)
        }
    } else {
        (Ok(s[0] as u16), 1)
    }
}

// ---------------------------------------------------------------------------
// Readers
// ---------------------------------------------------------------------------

/// Reads of big-endian integers that fail, rather than panic, where the
/// buffer is too short; such a read takes nothing.
pub trait SafeBuf: Sized {
    /// The bytes that are left to read.
    spec fn remaining_bytes(&self) -> Seq<u8>;

    fn try_get_u8(&mut self) -> (r: Result<u8, TruncatedError>)
        ensures
            match r {
                Ok(v) => {
                    &&& old(self).remaining_bytes().len() >= 1
                    &&& v == old(self).remaining_bytes()[0]
                    &&& final(self).remaining_bytes() == old(self).remaining_bytes().skip(1)
                },
                Err(_) => {
                    &&& old(self).remaining_bytes().len() < 1
                    &&& final(self).remaining_bytes() == old(self).remaining_bytes()
                },
            },
    ;

    fn try_get_u16(&mut self) -> (r: Result<u16, TruncatedError>)
        ensures
            match r {
                Ok(v) => {
                    &&& old(self).remaining_bytes().len() >= 2
                    &&& v == be_u16(old(self).remaining_bytes())
                    &&& final(self).remaining_bytes() == old(self).remaining_bytes().skip(2)
                },
                Err(_) => {
                    &&& old(self).remaining_bytes().len() < 2
                    &&& final(self).remaining_bytes() == old(self).remaining_bytes()
                },
            },
    ;

    fn try_get_u32(&mut self) -> (r: Result<u32, TruncatedError>)
        ensures
            match r {
                Ok(v) => {
                    &&& old(self).remaining_bytes().len() >= 4
                    &&& v == be_u32(old(self).remaining_bytes())
                    &&& final(self).remaining_bytes() == old(self).remaining_bytes().skip(4)
                },
                Err(_) => {
                    &&& old(self).remaining_bytes().len() < 4
                    &&& final(self).remaining_bytes() == old(self).remaining_bytes()
                },
            },
    ;

    fn try_get_i16(&mut self) -> (r: Result<i16, TruncatedError>)
        ensures
            match r {
                Ok(v) => {
                    &&& old(self).remaining_bytes().len() >= 2
                    &&& v == be_i16(old(self).remaining_bytes())
                    &&& final(self).remaining_bytes() == old(self).remaining_bytes().skip(2)
                },
                Err(_) => {
                    &&& old(self).remaining_bytes().len() < 2
                    &&& final(self).remaining_bytes() == old(self).remaining_bytes()
                },
            },
    ;
}

impl<'a> SafeBuf for &'a [u8] {
    open spec fn remaining_bytes(&self) -> Seq<u8> {
        (*self)@
    }

    fn try_get_u8(&mut self) -> (r: Result<u8, TruncatedError>) {
        if self.len() < 1 {
            Err(TruncatedError)
        } else {
            Ok(buf_get_u8(self))
        }
    }

    fn try_get_u16(&mut self) -> (r: Result<u16, TruncatedError>) {
        if self.len() < 2 {
            Err(TruncatedError)
        } else {
            Ok(buf_get_u16(self))
        }
    }

    fn try_get_u32(&mut self) -> (r: Result<u32, TruncatedError>) {
        if self.len() < 4 {
            Err(TruncatedError)
        } else {
            Ok(buf_get_u32(self))
        }
    }

    fn try_get_i16(&mut self) -> (r: Result<i16, TruncatedError>) {
        if self.len() < 2 {
            Err(TruncatedError)
        } else {
            Ok(buf_get_i16(self))
        }
    }
}

/// Readers of the tags and variable-length integers of WOFF2.
pub trait BufExt: SafeBuf {
    /// Reads a four-character code.
    fn get_four_cc(&mut self) -> (r: FourCC)
        requires
            old(self).remaining_bytes().len() >= 4,
        ensures
            r == four_cc_of(old(self).remaining_bytes().take(4)),
            final(self).remaining_bytes() == old(self).remaining_bytes().skip(4),
    ;

    /// Reads a four-character code, or fails on fewer than four bytes.
    fn try_get_four_cc(&mut self) -> (r: Result<FourCC, TruncatedError>)
        ensures
            match r {
                Ok(v) => {
                    &&& old(self).remaining_bytes().len() >= 4
                    &&& v == four_cc_of(old(self).remaining_bytes().take(4))
                    &&& final(self).remaining_bytes() == old(self).remaining_bytes().skip(4)
                },
                Err(_) => {
                    &&& old(self).remaining_bytes().len() < 4
                    &&& final(self).remaining_bytes() == old(self).remaining_bytes()
                },
            },
    ;

    /// Reads a `UIntBase128`. On an error the bytes read so far stay taken.
    fn try_get_base_128(&mut self) -> (r: Result<u32, Base128Error>)
        ensures
            r == base128_decode(old(self).remaining_bytes()).0,
            final(self).remaining_bytes() == old(self).remaining_bytes().skip(
                base128_decode(old(self).remaining_bytes()).1 as int,
            ),
    ;

    /// Reads a `255UInt16`. On an error the bytes read so far stay taken.
    fn try_get_255_u16(&mut self) -> (r: Result<u16, TruncatedError>)
        ensures
            r == u255_u16_decode(old(self).remaining_bytes()).0,
            final(self).remaining_bytes() == old(self).remaining_bytes().skip(
                u255_u16_decode(old(self).remaining_bytes()).1 as int,
            ),
    ;

    /// Moves `num_bytes` bytes to the end of `dest`, or, where fewer are
    /// left, fails and moves nothing.
    fn try_copy_to_buf(&mut self, dest: &mut Vec<u8>, num_bytes: usize) -> (r: Result<
        (),
        TruncatedError,
    >)
        ensures
            match r {
                Ok(_) => {
                    &&& old(self).remaining_bytes().len() >= num_bytes
                    &&& final(dest)@ == old(dest)@ + old(self).remaining_bytes().take(
                        num_bytes as int,
                    )
                    &&& final(self).remaining_bytes() == old(self).remaining_bytes().skip(
                        num_bytes as int,
                    )
                },
                Err(_) => {
                    &&& old(self).remaining_bytes().len() < num_bytes
                    &&& final(dest)@ == old(dest)@
                    &&& final(self).remaining_bytes() == old(self).remaining_bytes()
                },
            },
    ;
}

impl<'a> BufExt for &'a [u8] {
    fn get_four_cc(&mut self) -> (r: FourCC) {
        let mut dest = [0u8; 4];
        buf_copy_to_slice(self, &mut dest);
        make_four_cc(dest)
    }

    fn try_get_four_cc(&mut self) -> (r: Result<FourCC, TruncatedError>) {
        if self.len() < 4 {
            Err(TruncatedError)
        } else {
            Ok(self.get_four_cc())
        }
    }

    fn try_get_base_128(&mut self) -> (r: Result<u32, Base128Error>) {
        let ghost orig = (*self)@;
        let mut accum: u32 = 0;
        let mut i: usize = 0;
        assert(orig.skip(0) == orig);
        while i < 5
            invariant
                i <= 5,
                i <= orig.len(),
                orig == old(self).remaining_bytes(),
                (*self)@ == orig.skip(i as int),
                base128_from(orig, i as nat, accum) == base128_decode(orig),
            decreases 5 - i,
        {
            let byte = match self.try_get_u8() {
                Ok(b) => b,
                Err(e) => {
                    return Err(Base128Error::from(e));
                },
            };
            assert(byte == orig[i as int]);
            assert(orig.skip(i as int).skip(1) == orig.skip(i + 1));
            if i == 0 && byte == 0x80 {
                return Err(Base128Error::LeadingZero);
            }
            assert((accum >> 25u32 != 0) == (accum >= 0x200_0000)) by (bit_vector);
            if accum >> 25 != 0 {
                return Err(Base128Error::Overflow);
            }
            assert((accum << 7u32) | ((byte & 0x7F) as u32) == accum * 128 + byte % 128)
                by (bit_vector)
                requires
                    accum < 0x200_0000,
            ;
            assert((byte & 0x80 == 0) == (byte < 128)) by (bit_vector);
            accum = (accum << 7) | ((byte & 0x7F) as u32);
            if byte & 0x80 == 0 {
                return Ok(accum);
            }
            i = i + 1;
        }
        Err(Base128Error::MoreThan5Bytes)
    }

    fn try_get_255_u16(&mut self) -> (r: Result<u16, TruncatedError>) {
        let ghost orig = (*self)@;
        let code = match self.try_get_u8() {
            Ok(c) => c,
            Err(e) => {
                return Err(e);
            },
        };
        if code == 253 {
            let r = self.try_get_u16();
            match r {
                Ok(v) => {
                    assert(orig.skip(1).skip(2) =~= orig.skip(3));
                    Ok(v)
                },
                Err(e) => Err(e),
            }
        } else if code == 255 {
            let b = self.try_get_u8()?;
            assert(orig.skip(1).skip(1) =~= orig.skip(2));
            Ok(b as u16 + 253)
        } else if code == 254 {
            let b = self.try_get_u8()?;
            assert(orig.skip(1).skip(1) =~= orig.skip(2));
            Ok(b as u16 + 2 * 253)
        } else {
            Ok(code as u16)
        }
    }

    fn try_copy_to_buf(&mut self, dest: &mut Vec<u8>, num_bytes: usize) -> (r: Result<
        (),
        TruncatedError,
    >) {
        if self.len() < num_bytes {
            return Err(TruncatedError);
        }
        // A slice is a single chunk, which holds all the bytes to move.

        let (chunk, rest) = self.split_at(num_bytes);
        put_slice(dest, chunk);
        *self = rest;
        Ok(())
    }
}

/// How many bytes take `len` to the next multiple of four.
pub open spec fn padding_to_four(len: nat) -> nat {
    ((4 - len % 4) % 4) as nat
}

/// `s` followed by the zero bytes that take it to a multiple of four bytes.
pub open spec fn padded_to_four(s: Seq<u8>) -> Seq<u8> {
    s + Seq::new(padding_to_four(s.len()), |i: int| 0u8)
}

/// Appends zero bytes to `buffer` up to the next multiple of four bytes.
pub fn pad_to_multiple_of_four(buffer: &mut Vec<u8>)
    requires
        padded_to_four(old(buffer)@).len() <= usize::MAX,
    ensures
        final(buffer)@ == padded_to_four(old(buffer)@),
        old(buffer)@.len() % 4 == 0 ==> final(buffer)@ == old(buffer)@,
{
    let len = buffer.len();
    assert(usize::MAX % 4 == 3) by {
        assert(usize::MAX == 0xffff_ffff || usize::MAX == 0xffff_ffff_ffff_ffff);
    }
    assert((len & 3usize) == len % 4) by (bit_vector);
    if len & 3 != 0 {
        let rounded_up = len + 3;
        assert((rounded_up & !3usize) == rounded_up - rounded_up % 4) by (bit_vector);
        let new_len = rounded_up & !3;
        buffer.resize(new_len, 0);
        assert(buffer@.subrange(0, len as int) == old(buffer)@);
    }
    assert(buffer@ =~= padded_to_four(old(buffer)@));
}

/// Padding gives whole four-byte words, adding fewer than four zero bytes
/// behind the bytes as they were, and padding again adds nothing.
pub proof fn law_padding_idempotent(s: Seq<u8>)
    ensures
        padded_to_four(s).len() % 4 == 0,
        s.len() <= padded_to_four(s).len() < s.len() + 4,
        padded_to_four(s).take(s.len() as int) == s,
        forall|i: int| s.len() <= i < padded_to_four(s).len() ==> #[trigger] padded_to_four(s)[i] == 0,
        padded_to_four(padded_to_four(s)) == padded_to_four(s),
{
    assert(padded_to_four(s).take(s.len() as int) =~= s);
    assert(padded_to_four(padded_to_four(s)) =~= padded_to_four(s));
}

/// The shortest `UIntBase128` encoding of `v`: its seven-bit groups from the
/// most significant non-zero one, the high bit set on all bytes but the last.
pub open spec fn base128_encoding(v: u32) -> Seq<u8> {
    let g0 = (v % 128) as u8;
    let g1 = (v / 0x80 % 128 + 128) as u8;
    let g2 = (v / 0x4000 % 128 + 128) as u8;
    let g3 = (v / 0x20_0000 % 128 + 128) as u8;
    let g4 = (v / 0x1000_0000 + 128) as u8;
    if v < 0x80 {
        seq![g0]
    } else if v < 0x4000 {
        seq![(v / 0x80 + 128) as u8, g0]
    } else if v < 0x20_0000 {
        seq![(v / 0x4000 + 128) as u8, g1, g0]
    } else if v < 0x1000_0000 {
        seq![(v / 0x20_0000 + 128) as u8, g2, g1, g0]
    } else {
        seq![g4, g3, g2, g1, g0]
    }
}

/// A read gives back what a write wrote: the shortest `UIntBase128`
/// encoding of any 32-bit value decodes to that value, taking exactly its
/// bytes, whatever follows them.
pub proof fn law_base128_roundtrip(v: u32, rest: Seq<u8>)
    ensures
        base128_decode(base128_encoding(v) + rest) == (
            Ok::<u32, Base128Error>(v),
            base128_encoding(v).len(),
        ),
{
    let e = base128_encoding(v);
    let s = e + rest;
    assert forall|i: int| 0 <= i < e.len() implies s[i] == e[i] by {}
    if v < 0x80 {
        lemma_base128_last_group(s, 0, 0, v);
    } else if v < 0x4000 {
        lemma_base128_group(s, 0, 0, v / 0x80);
        lemma_base128_last_group(s, 1, v / 0x80, v);
    } else if v < 0x20_0000 {
        lemma_base128_group(s, 0, 0, v / 0x4000);
        lemma_base128_group(s, 1, v / 0x4000, v / 0x80);
        lemma_base128_last_group(s, 2, v / 0x80, v);
    } else if v < 0x1000_0000 {
        lemma_base128_group(s, 0, 0, v / 0x20_0000);
        lemma_base128_group(s, 1, v / 0x20_0000, v / 0x4000);
        lemma_base128_group(s, 2, v / 0x4000, v / 0x80);
        lemma_base128_last_group(s, 3, v / 0x80, v);
    } else {
        lemma_base128_group(s, 0, 0, v / 0x1000_0000);
        lemma_base128_group(s, 1, v / 0x1000_0000, v / 0x20_0000);
        lemma_base128_group(s, 2, v / 0x20_0000, v / 0x4000);
        lemma_base128_group(s, 3, v / 0x4000, v / 0x80);
        lemma_base128_last_group(s, 4, v / 0x80, v);
    }
}

/// A `UIntBase128` that decodes is not changed by what follows it.
pub proof fn law_base128_prefix_stable(s: Seq<u8>, rest: Seq<u8>)
    requires
        base128_decode(s).0 is Ok,
    ensures
        base128_decode(s + rest) == base128_decode(s),
{
    lemma_base128_from_prefix_stable(s, rest, 0, 0);
}

proof fn lemma_base128_from_prefix_stable(s: Seq<u8>, rest: Seq<u8>, i: nat, accum: u32)
    requires
        base128_from(s, i, accum).0 is Ok,
    ensures
        base128_from(s + rest, i, accum) == base128_from(s, i, accum),
    decreases 5 - i,
{
    if i < 5 && i < s.len() {
        assert((s + rest)[i as int] == s[i as int]);
        if !(i == 0 && s[0] == 0x80) && accum < 0x200_0000 && s[i as int] >= 128 {
            let next = (accum * 128 + s[i as int] % 128) as u32;
            lemma_base128_from_prefix_stable(s, rest, i + 1, next);
        }
    }
}

/// The `255UInt16` encoding of `v` that the WOFF2 specification gives: one
/// byte below 253, then 255 or 254 and one byte up to 761, and 253 with
/// two big-endian bytes above.
pub open spec fn u255_u16_encoding(v: u16) -> Seq<u8> {
    if v < 253 {
        seq![v as u8]
    } else if v < 506 {
        seq![255u8, (v - 253) as u8]
    } else if v < 762 {
        seq![254u8, (v - 506) as u8]
    } else {
        seq![253u8] + u16_be_bytes(v)
    }
}

/// A read gives back what a write wrote: the `255UInt16` encoding of any
/// value decodes to it, taking exactly its bytes, whatever follows them.
pub proof fn law_u255_u16_roundtrip(v: u16, rest: Seq<u8>)
    ensures
        u255_u16_decode(u255_u16_encoding(v) + rest) == (
            Ok::<u16, TruncatedError>(v),
            u255_u16_encoding(v).len(),
        ),
{
    let e = u255_u16_encoding(v);
    let s = e + rest;
    assert forall|i: int| 0 <= i < e.len() implies s[i] == e[i] by {}
    if v >= 762 {
        assert(s.skip(1)[0] == e[1] && s.skip(1)[1] == e[2]);
        lemma_u16_be_roundtrip(v);
    }
}

/// A byte with its high bit set that is not a leading zero takes the value
/// so far from `accum` to `next`, and decoding goes on after it.
proof fn lemma_base128_group(s: Seq<u8>, i: nat, accum: u32, next: u32)
    requires
        i < 4,
        i < s.len(),
        s[i as int] >= 128,
        i == 0 ==> s[0] != 0x80,
        accum < 0x200_0000,
        next == accum * 128 + s[i as int] % 128,
    ensures
        base128_from(s, i, accum) == base128_from(s, i + 1, next),
{
}

/// A byte with its high bit clear ends the value at `value`.
proof fn lemma_base128_last_group(s: Seq<u8>, i: nat, accum: u32, value: u32)
    requires
        i < 5,
        i < s.len(),
        s[i as int] < 128,
        accum < 0x200_0000,
        value == accum * 128 + s[i as int],
    ensures
        base128_from(s, i, accum) == (Ok::<u32, Base128Error>(value), i + 1),
{
}

} // verus!
