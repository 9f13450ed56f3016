use woff2::decode::{check_flavor, is_woff2, DecodeError};

/// The first bytes of a WOFF2 file: the signature, then the flavor
/// (TrueType) and the file length.
const WOFF2_FILE_START: &[u8] = &[
    0x77, 0x4F, 0x46, 0x32, 0x00, 0x01, 0x00, 0x00, 0x00, 0x00, 0x3A, 0x10,
];

#[test]
fn sample_font_is_woff2() {
    assert!(is_woff2(WOFF2_FILE_START));
}

#[test]
fn other_data_is_not_woff2() {
    assert!(!is_woff2(b"wOFF\x00\x01\x00\x00"));
    assert!(!is_woff2(b"wOF"));
    assert!(!is_woff2(b""));
    assert!(!is_woff2(&[0x00, 0x01, 0x00, 0x00]));
    assert!(is_woff2(b"wOF2"));
}

#[test]
fn invalid_error_holds_message() {
    match DecodeError::invalid("Missing `head` table") {
        DecodeError::Invalid(message) => assert_eq!(message, "Missing `head` table"),
        DecodeError::Unsupported(_) => panic!("wrong variant"),
    }
    match DecodeError::from("Unexpected EOF") {
        DecodeError::Invalid(message) => assert_eq!(message, "Unexpected EOF"),
        DecodeError::Unsupported(_) => panic!("wrong variant"),
    }
}

#[test]
fn known_flavors_are_accepted() {
    assert!(check_flavor(u32::from_be_bytes(*b"ttcf")).is_ok());
    assert!(check_flavor(u32::from_be_bytes(*b"OTTO")).is_ok());
    assert!(check_flavor(0x0001_0000).is_ok());
}

#[test]
fn unknown_flavor_is_invalid() {
    match check_flavor(u32::from_be_bytes(*b"true")) {
        Err(DecodeError::Invalid(m)) => assert_eq!(m, "Invalid font flavor"),
        other => panic!("expected an Invalid error, got {:?}", other),
    }
}
