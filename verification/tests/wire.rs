use realm_guard_core::wire::{read_array, read_bytes, read_varint, write_bytes, write_varint, WireError};
use realm_guard_core::{core_version, Error};

#[test]
fn reports_core_version() {
    assert_eq!(core_version(), "1.0.0");
    assert!(!core_version().is_empty());
}

#[test]
fn varint_encodings() {
    let mut out = Vec::new();
    write_varint(&mut out, 0);
    write_varint(&mut out, 127);
    write_varint(&mut out, 128);
    write_varint(&mut out, 300);
    assert_eq!(out, vec![0x00, 0x7F, 0x80, 0x01, 0xAC, 0x02]);
    let mut big = Vec::new();
    write_varint(&mut big, usize::MAX);
    assert_eq!(big.len(), 10);
    assert_eq!(big[9], 0x01);
    assert_eq!(read_varint(&big, 0), Ok((usize::MAX as u128, 10)));
}

#[test]
fn varint_reads_back() {
    let bytes = [0xAC, 0x02, 0x07];
    assert_eq!(read_varint(&bytes, 0), Ok((300, 2)));
    assert_eq!(read_varint(&bytes, 2), Ok((7, 3)));
    assert_eq!(read_varint(&bytes, 3), Err(WireError::UnexpectedEnd));
    assert_eq!(read_varint(&[0x80, 0x80], 0), Err(WireError::UnexpectedEnd));
}

#[test]
fn varint_rejects_overlong() {
    let eleven = [0xFFu8; 11];
    assert_eq!(read_varint(&eleven, 0), Err(WireError::BadVarint));
    let mut tenth_too_big = [0xFFu8; 10];
    tenth_too_big[9] = 0x02;
    assert_eq!(read_varint(&tenth_too_big, 0), Err(WireError::BadVarint));
}

#[test]
fn byte_strings_round_trip() {
    let mut out = vec![9u8];
    write_bytes(&mut out, b"hello");
    out.push(1);
    assert_eq!(out, vec![9, 5, b'h', b'e', b'l', b'l', b'o', 1]);
    assert_eq!(read_bytes(&out, 1), Ok((b"hello".to_vec(), 7)));
    assert_eq!(read_bytes(&[3, 1, 2], 0), Err(WireError::UnexpectedEnd));
    assert_eq!(read_array::<2>(&out, 6), Ok([b'o', 1]));
    assert_eq!(read_array::<3>(&out, 6), Err(WireError::UnexpectedEnd));
}

#[test]
fn wire_errors_are_serialization_errors() {
    assert!(WireError::UnexpectedEnd.message().contains("end of buffer"));
    assert!(matches!(WireError::BadVarint.into_error(), Error::Serialization(_)));
}

#[test]
fn error_text_names_the_kind() {
    assert_eq!(Error::Crypto("x".to_string()).to_text(), "crypto error: x");
    assert_eq!(Error::Serialization("y".to_string()).to_text(), "serialization error: y");
    assert_eq!(WireError::BadVarint.into_error().to_text(), format!("serialization error: {}", WireError::BadVarint.message()));
}
