use std::io::Write;

use woff2::brotli::{apply_decompression, decompress_to_vec};
use woff2::decode::{decompress_table_data, DecodeError};

fn compress(data: &[u8]) -> Vec<u8> {
    let mut compressed = Vec::new();
    {
        let mut writer = brotli::CompressorWriter::new(&mut compressed, 4096, 5, 22);
        writer.write_all(data).unwrap();
    }
    compressed
}

#[test]
fn decompresses_a_brotli_stream() {
    let data = b"glyf loca glyf loca glyf loca head hhea hmtx maxp".repeat(10);
    let compressed = compress(&data);
    let mut input = compressed.as_slice();
    let mut output = vec![1u8, 2, 3];
    decompress_to_vec(&mut input, &mut output).unwrap();
    assert_eq!(&output[..3], &[1, 2, 3]);
    assert_eq!(&output[3..], &data[..]);
    assert!(input.is_empty());
}

#[test]
fn truncated_brotli_stream_fails() {
    let data = b"0123456789abcdef".repeat(64);
    let compressed = compress(&data);
    let mut input = &compressed[..compressed.len() / 2];
    let mut output = Vec::new();
    assert_eq!(Err("Unexpected EOF"), decompress_to_vec(&mut input, &mut output));
}

#[test]
fn applies_decoder_outcome() {
    let data = [1u8, 2, 3, 4, 5];
    let mut input = &data[..];
    let mut output = vec![9u8];
    assert_eq!(Ok(()), apply_decompression(&mut input, &mut output, true, &vec![7, 8], 2));
    assert_eq!(input, &[4, 5]);
    assert_eq!(output, vec![9, 7, 8]);
    let mut input = &data[..];
    assert_eq!(
        Err("Unexpected EOF"),
        apply_decompression(&mut input, &mut output, false, &vec![6], 0)
    );
    assert!(input.is_empty());
    assert_eq!(output, vec![9, 7, 8, 6]);
}

fn invalid_message(r: Result<Vec<u8>, DecodeError>) -> String {
    match r {
        Err(DecodeError::Invalid(m)) => m,
        other => panic!("expected an Invalid error, got {:?}", other),
    }
}

#[test]
fn table_data_takes_exactly_the_compressed_stream() {
    let data = b"head hhea maxp".repeat(20);
    let mut input = compress(&data);
    let n = input.len();
    input.extend_from_slice(&[0xAA, 0xBB]);
    let mut rest = input.as_slice();
    assert_eq!(decompress_table_data(&mut rest, n).unwrap(), data);
    assert_eq!(rest, &[0xAA, 0xBB]);
}

#[test]
fn table_data_shorter_than_header_is_truncated() {
    let input = compress(b"abc");
    let mut rest = input.as_slice();
    let message = invalid_message(decompress_table_data(&mut rest, input.len() + 1));
    assert_eq!(message, "Truncated compressed stream");
    assert_eq!(rest.len(), input.len());
}

/// The decoder reads its input in blocks of 4096 bytes: a stream that ends
/// in the first block of a longer span leaves the later blocks unread.
#[test]
fn table_data_ending_early_does_not_match_header() {
    let mut input = compress(b"abc");
    input.extend_from_slice(&[0u8; 5000]);
    let mut rest = input.as_slice();
    let message = invalid_message(decompress_table_data(&mut rest, input.len()));
    assert_eq!(message, "Compressed stream size does not match header");
}

#[test]
fn broken_table_data_is_invalid() {
    let data = b"0123456789abcdef".repeat(64);
    let compressed = compress(&data);
    let mut rest = &compressed[..compressed.len() / 2];
    let message = invalid_message(decompress_table_data(&mut rest, compressed.len() / 2));
    assert_eq!(message, "Unexpected EOF");
}
