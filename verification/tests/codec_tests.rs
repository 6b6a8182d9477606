//! Byte-codec behavior: little-endian and decimal encodings.
use modloader::codec::{bytes_eq, le8_at, parse_decimal, to_lower, u64_to_decimal, u64_to_le};

#[test]
fn le_encoding_is_little_endian() {
    assert_eq!(u64_to_le(0), vec![0, 0, 0, 0, 0, 0, 0, 0]);
    assert_eq!(u64_to_le(1), vec![1, 0, 0, 0, 0, 0, 0, 0]);
    assert_eq!(u64_to_le(0x0102_0304), vec![4, 3, 2, 1, 0, 0, 0, 0]);
    assert_eq!(u64_to_le(u64::MAX), vec![255; 8]);
}

#[test]
fn le_roundtrip_reads_back() {
    for x in [0u64, 1, 255, 256, 0xDEAD_BEEF, u64::MAX] {
        let bytes = u64_to_le(x);
        assert_eq!(le8_at(&bytes, 0), x);
    }
}

#[test]
fn le_read_at_offset() {
    let mut buf = vec![9u8, 9, 9];
    buf.extend_from_slice(&u64_to_le(77));
    assert_eq!(le8_at(&buf, 3), 77);
}

#[test]
fn decimal_rendering_is_exact() {
    assert_eq!(u64_to_decimal(0), b"0".to_vec());
    assert_eq!(u64_to_decimal(42), b"42".to_vec());
    assert_eq!(u64_to_decimal(1000), b"1000".to_vec());
    assert_eq!(u64_to_decimal(u64::MAX), b"18446744073709551615".to_vec());
}

#[test]
fn decimal_parsing_accepts_numerals() {
    assert_eq!(parse_decimal(&b"0".to_vec()), Some(0));
    assert_eq!(parse_decimal(&b"42".to_vec()), Some(42));
    assert_eq!(parse_decimal(&b"0007".to_vec()), Some(7));
    assert_eq!(parse_decimal(&b"18446744073709551615".to_vec()), Some(u64::MAX));
}

#[test]
fn decimal_parsing_rejects_junk_and_overflow() {
    assert_eq!(parse_decimal(&b"".to_vec()), None);
    assert_eq!(parse_decimal(&b"12a".to_vec()), None);
    assert_eq!(parse_decimal(&b"-1".to_vec()), None);
    assert_eq!(parse_decimal(&b"18446744073709551616".to_vec()), None);
    assert_eq!(parse_decimal(&b"99999999999999999999999".to_vec()), None);
}

#[test]
fn byte_equality_and_lowercasing() {
    assert!(bytes_eq(&b"abc".to_vec(), &b"abc".to_vec()));
    assert!(!bytes_eq(&b"abc".to_vec(), &b"abd".to_vec()));
    assert!(!bytes_eq(&b"abc".to_vec(), &b"ab".to_vec()));
    assert_eq!(to_lower(&b"MoDiNfO.JsOn".to_vec()), b"modinfo.json".to_vec());
    assert_eq!(to_lower(&b"path/File-1.TXT".to_vec()), b"path/file-1.txt".to_vec());
}
