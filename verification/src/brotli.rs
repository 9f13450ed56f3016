//! The Brotli stage of WOFF2: the table data is one Brotli stream.
use vstd::prelude::*;

verus! {

/// What `brotli::BrotliDecompress` does with a byte slice as its reader and
/// a byte vector as its writer: whether it succeeds, the bytes it writes
/// (on a failure too, as far as it got), and how many bytes of the input it
/// leaves unread.
pub uninterp spec fn brotli_decompress_outcome(input: Seq<u8>) -> (bool, Seq<u8>, nat);

/// `brotli::BrotliDecompress` reading `input` and writing to a new vector.
/// The contract names what the decoder does; it states only that the
/// reader, a slice, can leave no more bytes unread than it had.
#[verifier::external_body]
fn brotli_decompress(input: &[u8]) -> (r: (bool, Vec<u8>, usize))
    ensures
        r.0 == brotli_decompress_outcome(input@).0,
        r.1@ == brotli_decompress_outcome(input@).1,
        r.2 == brotli_decompress_outcome(input@).2,
        r.2 <= input@.len(),
{
    let mut reader: &[u8] = input;
    let mut writer: Vec<u8> = Vec::new();
    let ok = ::brotli::BrotliDecompress(&mut reader, &mut writer).is_ok();
    (ok, writer, reader.len())
}

/// The message of every Brotli failure.
pub const UNEXPECTED_EOF: &'static str = "Unexpected EOF";

/// Decompresses the Brotli stream at the start of `input_buffer`, appending
/// what it gives to `output` and taking from `input_buffer` what the
/// decoder read. On a failure the output so far stays appended.
pub fn decompress_to_vec(input_buffer: &mut &[u8], output: &mut Vec<u8>) -> (r: Result<
    (),
    &'static str,
>)
    ensures
        final(output)@ == old(output)@ + brotli_decompress_outcome(old(input_buffer)@).1,
        final(input_buffer)@ == old(input_buffer)@.skip(
            old(input_buffer)@.len() - brotli_decompress_outcome(old(input_buffer)@).2,
        ),
        brotli_decompress_outcome(old(input_buffer)@).2 <= old(input_buffer)@.len(),
        r is Ok <==> brotli_decompress_outcome(old(input_buffer)@).0,
        r is Err ==> r->Err_0 == UNEXPECTED_EOF,
{
    let (ok, decompressed, remaining) = brotli_decompress(*input_buffer);
    apply_decompression(input_buffer, output, ok, &decompressed, remaining)
}

/// What follows a run of the Brotli decoder on `input_buffer` that
/// succeeded where `ok`, wrote `decompressed` and left `remaining` bytes
/// unread: the bytes go to the end of `output`, the bytes read leave
/// `input_buffer`, and a failure is an error with the decoder's message.
pub fn apply_decompression(
    input_buffer: &mut &[u8],
    output: &mut Vec<u8>,
    ok: bool,
    decompressed: &Vec<u8>,
    remaining: usize,
) -> (r: Result<(), &'static str>)
    requires
        remaining <= old(input_buffer)@.len(),
    ensures
        final(output)@ == old(output)@ + decompressed@,
        final(input_buffer)@ == old(input_buffer)@.skip(old(input_buffer)@.len() - remaining),
        r is Ok <==> ok,
        r is Err ==> r->Err_0 == UNEXPECTED_EOF,
{
    let input: &[u8] = *input_buffer;
    output.extend_from_slice(decompressed.as_slice());
    assert(output@ =~= old(output)@ + decompressed@);
    let (_, rest) = input.split_at(input.len() - remaining);
    *input_buffer = rest;
    if ok {
        Ok(())
    } else {
        Err(UNEXPECTED_EOF)
    }
}

} // verus!
