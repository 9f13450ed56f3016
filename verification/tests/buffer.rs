use bytes::{Buf, BufMut};
use woff2::buffer::{pad_to_multiple_of_four, Base128Error, BufExt, SafeBuf, TruncatedError};

fn test_get_255_u16(expected: u16, data: &[u8]) {
    let mut buf = data;
    let result = buf.try_get_255_u16();
    assert_eq!(expected, result.unwrap());
}

#[test]
fn u255_uint_16_0_works() {
    test_get_255_u16(0, &[0u8]);
}

#[test]
fn u255_uint_16_128_works() {
    test_get_255_u16(128, &[128u8]);
}

#[test]
fn u255_uint_16_506_works() {
    test_get_255_u16(506, &[255, 253]);
    test_get_255_u16(506, &[254, 0]);
    test_get_255_u16(506, &[253, 1, 250]);
}

#[test]
fn uint_base_128_0_works() {
    let mut buf = &[0][..];
    let result = buf.try_get_base_128();
    assert_eq!(0, result.unwrap());
}

#[test]
fn uint_base_128_128_works() {
    let mut buf = &[0x81u8, 0u8][..];
    let result = buf.try_get_base_128();
    assert_eq!(128, result.unwrap());
}

#[test]
fn try_copy_to_buf() {
    let mut src: &[u8] = &[42; 11];
    let mut dest = Vec::new();

    src.try_copy_to_buf(&mut dest, 5).unwrap();
    assert_eq!(src.remaining(), 6);
    dest.put_u8(0);
    src.try_copy_to_buf(&mut dest, 5).unwrap();
    assert_eq!(src.remaining(), 1);

    assert!(src.try_copy_to_buf(&mut dest, 2).is_err());

    assert_eq!(dest, &[42, 42, 42, 42, 42, 0, 42, 42, 42, 42, 42]);
}

#[test]
fn base_128_largest_value() {
    let mut buf = &[0x8F, 0xFF, 0xFF, 0xFF, 0x7F, 0x11][..];
    assert_eq!(Ok(u32::MAX), buf.try_get_base_128());
    assert_eq!(buf, &[0x11]);
}

#[test]
fn base_128_multi_byte_value() {
    let mut buf = &[0x82, 0x80, 0x01][..];
    assert_eq!(Ok(2 * 128 * 128 + 1), buf.try_get_base_128());
    assert!(buf.is_empty());
}

#[test]
fn base_128_leading_zero() {
    let mut buf = &[0x80, 0x01][..];
    assert_eq!(Err(Base128Error::LeadingZero), buf.try_get_base_128());
    assert_eq!(buf, &[0x01]);
}

#[test]
fn base_128_overflow() {
    let mut buf = &[0x90, 0x80, 0x80, 0x80, 0x00][..];
    assert_eq!(Err(Base128Error::Overflow), buf.try_get_base_128());
    assert!(buf.is_empty());
}

#[test]
fn base_128_more_than_5_bytes() {
    let mut buf = &[0x81, 0x80, 0x80, 0x80, 0x80, 0x00][..];
    assert_eq!(Err(Base128Error::MoreThan5Bytes), buf.try_get_base_128());
    assert_eq!(buf, &[0x00]);
}

#[test]
fn base_128_truncated() {
    let mut buf = &[0x81, 0x80][..];
    assert_eq!(Err(Base128Error::Truncated), buf.try_get_base_128());
    assert!(buf.is_empty());
    let mut empty: &[u8] = &[];
    assert_eq!(Err(Base128Error::Truncated), empty.try_get_base_128());
}

#[test]
fn base_128_error_from_truncated() {
    assert_eq!(Base128Error::Truncated, Base128Error::from(TruncatedError));
}

#[test]
fn u255_uint_16_word_code() {
    let mut buf = &[253, 0x12, 0x34, 9][..];
    assert_eq!(Ok(0x1234), buf.try_get_255_u16());
    assert_eq!(buf, &[9]);
}

#[test]
fn u255_uint_16_one_more_byte_codes() {
    let mut buf = &[255, 0][..];
    assert_eq!(Ok(253), buf.try_get_255_u16());
    let mut buf = &[254, 255][..];
    assert_eq!(Ok(761), buf.try_get_255_u16());
    let mut buf = &[252][..];
    assert_eq!(Ok(252), buf.try_get_255_u16());
}

#[test]
fn u255_uint_16_truncated() {
    let mut empty: &[u8] = &[];
    assert_eq!(Err(TruncatedError), empty.try_get_255_u16());
    let mut buf = &[253, 1][..];
    assert_eq!(Err(TruncatedError), buf.try_get_255_u16());
    assert_eq!(buf, &[1]);
    let mut buf = &[255][..];
    assert_eq!(Err(TruncatedError), buf.try_get_255_u16());
    assert!(buf.is_empty());
}

#[test]
fn safe_buf_reads_big_endian() {
    let mut buf = &[0x12, 0x34, 0x56, 0x78, 0xFF, 0xFE, 0xAB][..];
    assert_eq!(Ok(0x1234), SafeBuf::try_get_u16(&mut buf));
    assert_eq!(Ok(0x5678_FFFE), SafeBuf::try_get_u32(&mut buf));
    assert_eq!(Ok(0xAB), SafeBuf::try_get_u8(&mut buf));
    assert_eq!(Err(TruncatedError), SafeBuf::try_get_u8(&mut buf));
    let mut buf = &[0xFF, 0xFE][..];
    assert_eq!(Ok(-2), SafeBuf::try_get_i16(&mut buf));
}

#[test]
fn safe_buf_short_reads_take_nothing() {
    let mut buf = &[1, 2, 3][..];
    assert_eq!(Err(TruncatedError), SafeBuf::try_get_u32(&mut buf));
    assert_eq!(buf, &[1, 2, 3]);
    let mut buf = &[1][..];
    assert_eq!(Err(TruncatedError), SafeBuf::try_get_u16(&mut buf));
    assert_eq!(Err(TruncatedError), SafeBuf::try_get_i16(&mut buf));
    assert_eq!(buf, &[1]);
}

#[test]
fn four_cc_reads() {
    let mut buf = &b"glyfloca"[..];
    let tag = buf.get_four_cc();
    let bytes = tag.0;
    assert_eq!(bytes, *b"glyf");
    let tag = buf.try_get_four_cc().unwrap();
    let bytes = tag.0;
    assert_eq!(bytes, *b"loca");
    assert!(buf.is_empty());
    assert_eq!(Err(TruncatedError), buf.try_get_four_cc().map(|t| t.0));
}

#[test]
fn pad_to_multiple_of_four_pads_with_zeros() {
    for len in 0..9usize {
        let mut buffer = vec![7u8; len];
        pad_to_multiple_of_four(&mut buffer);
        let expected_len = (len + 3) / 4 * 4;
        assert_eq!(buffer.len(), expected_len);
        assert!(buffer[..len].iter().all(|&b| b == 7));
        assert!(buffer[len..].iter().all(|&b| b == 0));
        let before = buffer.clone();
        pad_to_multiple_of_four(&mut buffer);
        assert_eq!(before, buffer);
    }
}

#[test]
fn base_128_shortest_encodings_read_back() {
    let cases: [(u32, &[u8]); 4] = [
        (300, &[0x82, 0x2C]),
        (127, &[0x7F]),
        (16384, &[0x81, 0x80, 0x00]),
        (0x1000_0000, &[0x81, 0x80, 0x80, 0x80, 0x00]),
    ];
    for (value, encoding) in cases {
        let mut data = encoding.to_vec();
        data.push(0xFF);
        let mut buf = data.as_slice();
        assert_eq!(Ok(value), buf.try_get_base_128());
        assert_eq!(buf, &[0xFF]);
    }
}

#[test]
fn u255_uint_16_encodings_read_back() {
    let cases: [(u16, &[u8]); 5] = [
        (252, &[252]),
        (300, &[255, 47]),
        (600, &[254, 94]),
        (1000, &[253, 0x03, 0xE8]),
        (65535, &[253, 0xFF, 0xFF]),
    ];
    for (value, encoding) in cases {
        let mut data = encoding.to_vec();
        data.push(7);
        let mut buf = data.as_slice();
        assert_eq!(Ok(value), buf.try_get_255_u16());
        assert_eq!(buf, &[7]);
    }
}
