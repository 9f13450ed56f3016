//! The errors of WOFF2 decoding, and the test for the WOFF2 signature.
use vstd::prelude::*;

use crate::brotli::{brotli_decompress_outcome, decompress_to_vec, UNEXPECTED_EOF};

verus! {

/// Why a WOFF2 file could not be decoded.
#[derive(Debug)]
pub enum DecodeError {
    /// The file does not follow the format; the message says how.
    Invalid(String),
    /// The file uses a feature that decoding does not support.
    Unsupported(&'static str),
}

/// `d` is an `Invalid` error with the message `message`.
pub open spec fn is_invalid_with(d: DecodeError, message: Seq<char>) -> bool {
    d matches DecodeError::Invalid(m) && m@ == message
}

impl From<&'static str> for DecodeError {
    fn from(e: &'static str) -> (r: Self)
        ensures
            is_invalid_with(r, e@),
    {
        DecodeError::Invalid(e.to_owned())
    }
}

/// The message of an `Invalid` error is a `String`, which a spec function
/// cannot build from the `&str`; what `from` returns is stated by its own
/// `ensures` instead.
impl vstd::std_specs::convert::FromSpecImpl<&'static str> for DecodeError {
    open spec fn obeys_from_spec() -> bool {
        false
    }

    open spec fn from_spec(e: &'static str) -> DecodeError {
        choose|d: DecodeError| #[trigger] is_invalid_with(d, e@)
    }
}

impl DecodeError {
    /// An `Invalid` error with the message `error`.
    pub fn invalid(error: &str) -> (r: Self)
        ensures
            is_invalid_with(r, error@),
    {
        Self::Invalid(error.to_owned())
    }
}

/// The four bytes that a WOFF2 file starts with: `wOF2`.
pub const WOFF2_SIGNATURE: [u8; 4] = [0x77, 0x4F, 0x46, 0x32];

/// Whether `input` starts with the WOFF2 signature.
pub open spec fn starts_with_woff2_signature(input: Seq<u8>) -> bool {
    input.len() >= 4 && input.take(4) == WOFF2_SIGNATURE@
}

/// Returns whether the buffer starts with the WOFF2 magic number.
pub fn is_woff2(input_buffer: &[u8]) -> (r: bool)
    ensures
        r == starts_with_woff2_signature(input_buffer@),
{
    let signature = WOFF2_SIGNATURE;
    if input_buffer.len() < 4 {
        return false;
    }
    let mut i: usize = 0;
    while i < 4
        invariant
            i <= 4,
            input_buffer@.len() >= 4,
            signature@ == WOFF2_SIGNATURE@,
            forall|j: int| 0 <= j < i ==> input_buffer@[j] == signature@[j],
        decreases 4 - i,
    {
        if input_buffer[i] != signature[i] {
            assert(input_buffer@.take(4)[i as int] != WOFF2_SIGNATURE@[i as int]);
            return false;
        }
        i = i + 1;
    }
    assert(input_buffer@.take(4) =~= WOFF2_SIGNATURE@);
    true
}

/// Decompresses the table data of a WOFF2 file: the Brotli stream that
/// takes the first `total_compressed_size` bytes of `input_buffer`. Fewer
/// bytes than that are a truncated stream; a stream that ends before them
/// does not match the header. Of `input_buffer` the decoder takes what it
/// read (on success, exactly the stream).
pub fn decompress_table_data(input_buffer: &mut &[u8], total_compressed_size: usize) -> (r: Result<
    Vec<u8>,
    DecodeError,
>)
    ensures
        old(input_buffer)@.len() < total_compressed_size ==> {
            &&& r is Err
            &&& is_invalid_with(r->Err_0, "Truncated compressed stream"@)
            &&& final(input_buffer)@ == old(input_buffer)@
        },
        old(input_buffer)@.len() >= total_compressed_size ==> {
            let outcome = brotli_decompress_outcome(
                old(input_buffer)@.take(total_compressed_size as int),
            );
            &&& final(input_buffer)@ == old(input_buffer)@.skip(
                total_compressed_size - outcome.2,
            )
            &&& !outcome.0 ==> r is Err && is_invalid_with(r->Err_0, UNEXPECTED_EOF@)
            &&& outcome.0 && outcome.2 != 0 ==> r is Err && is_invalid_with(
                r->Err_0,
                "Compressed stream size does not match header"@,
            )
            &&& outcome.0 && outcome.2 == 0 ==> r is Ok && r->Ok_0@ == outcome.1
        },
{
    let input: &[u8] = *input_buffer;
    if input.len() < total_compressed_size {
        return Err(DecodeError::invalid("Truncated compressed stream"));
    }
    let (stream, _) = input.split_at(total_compressed_size);
    let mut compressed_stream: &[u8] = stream;
    let mut decompressed_tables: Vec<u8> = Vec::new();
    let decompressed = decompress_to_vec(&mut compressed_stream, &mut decompressed_tables);
    let (_, rest) = input.split_at(total_compressed_size - compressed_stream.len());
    *input_buffer = rest;
    assert(old(input_buffer)@.take(total_compressed_size as int) == stream@);
    assert(decompressed_tables@ =~= Seq::<u8>::empty() + brotli_decompress_outcome(stream@).1);
    match decompressed {
        Ok(()) => {},
        Err(e) => {
            return Err(DecodeError::from(e));
        },
    }
    if compressed_stream.len() != 0 {
        return Err(DecodeError::invalid("Compressed stream size does not match header"));
    }
    Ok(decompressed_tables)
}

/// The sfnt flavor of a font collection: `ttcf`.
pub const TTF_COLLECTION_FLAVOR: u32 = 0x7474_6366;

/// The sfnt flavor of a font with CFF outlines: `OTTO`.
pub const TTF_CFF_FLAVOR: u32 = 0x4F54_544F;

/// The sfnt flavor of a font with TrueType outlines.
pub const TTF_TRUE_TYPE_FLAVOR: u32 = 0x0001_0000;

/// Whether `flavor` is one of the three sfnt flavors that WOFF2 can hold.
pub open spec fn is_known_flavor(flavor: u32) -> bool {
    flavor == TTF_COLLECTION_FLAVOR || flavor == TTF_CFF_FLAVOR || flavor == TTF_TRUE_TYPE_FLAVOR
}

/// Accepts the flavor of a WOFF2 header: a font collection, a font with
/// CFF outlines or one with TrueType outlines.
pub fn check_flavor(flavor: u32) -> (r: Result<(), DecodeError>)
    ensures
        r is Ok <==> is_known_flavor(flavor),
        r is Err ==> is_invalid_with(r->Err_0, "Invalid font flavor"@),
{
    if flavor == TTF_COLLECTION_FLAVOR || flavor == TTF_CFF_FLAVOR || flavor
        == TTF_TRUE_TYPE_FLAVOR {
        Ok(())
    } else {
        Err(DecodeError::invalid("Invalid font flavor"))
    }
}

} // verus!
