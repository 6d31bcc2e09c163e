use schema_dumper::text::{bytes_eq, copy_bytes, push_bytes, push_decimal, push_hex,
    push_hex_padded, push_indent, push_signed_decimal, push_spaces, push_str};

fn decimal_text(n: u64) -> Vec<u8> {
    let mut out = Vec::new();
    push_decimal(&mut out, n);
    out
}

fn signed_text(v: i64) -> Vec<u8> {
    let mut out = Vec::new();
    push_signed_decimal(&mut out, v);
    out
}

fn hex_text(n: u64) -> Vec<u8> {
    let mut out = Vec::new();
    push_hex(&mut out, n);
    out
}

#[test]
fn decimal_writes_digits_without_leading_zeros() {
    assert_eq!(decimal_text(0), b"0".to_vec());
    assert_eq!(decimal_text(7), b"7".to_vec());
    assert_eq!(decimal_text(10), b"10".to_vec());
    assert_eq!(decimal_text(12345), b"12345".to_vec());
    assert_eq!(decimal_text(u64::MAX), b"18446744073709551615".to_vec());
}

#[test]
fn decimal_appends_to_what_is_there() {
    let mut out = b"n=".to_vec();
    push_decimal(&mut out, 42);
    assert_eq!(out, b"n=42".to_vec());
}

#[test]
fn signed_decimal_writes_the_sign() {
    assert_eq!(signed_text(0), b"0".to_vec());
    assert_eq!(signed_text(17), b"17".to_vec());
    assert_eq!(signed_text(-1), b"-1".to_vec());
    assert_eq!(signed_text(-128), b"-128".to_vec());
    assert_eq!(signed_text(i64::MAX), b"9223372036854775807".to_vec());
    assert_eq!(signed_text(i64::MIN), b"-9223372036854775808".to_vec());
}

#[test]
fn hex_writes_upper_case_digits() {
    assert_eq!(hex_text(0), b"0".to_vec());
    assert_eq!(hex_text(8), b"8".to_vec());
    assert_eq!(hex_text(10), b"A".to_vec());
    assert_eq!(hex_text(255), b"FF".to_vec());
    assert_eq!(hex_text(0x1a2b3c), b"1A2B3C".to_vec());
    assert_eq!(hex_text(u64::MAX), b"FFFFFFFFFFFFFFFF".to_vec());
}

#[test]
fn padded_hex_has_a_fixed_width() {
    let mut out = Vec::new();
    push_hex_padded(&mut out, 0x1a2b, 16);
    assert_eq!(out, b"0000000000001A2B".to_vec());
    let mut short = Vec::new();
    push_hex_padded(&mut short, 0x1a2b, 2);
    assert_eq!(short, b"2B".to_vec());
    let mut none = Vec::new();
    push_hex_padded(&mut none, 0x1a2b, 0);
    assert_eq!(none, Vec::<u8>::new());
}

#[test]
fn indent_is_width_times_depth_spaces() {
    let mut out = Vec::new();
    push_indent(&mut out, 4, 2);
    assert_eq!(out, b"        ".to_vec());
    let mut flat = Vec::new();
    push_indent(&mut flat, 4, 0);
    assert!(flat.is_empty());
    let mut three = Vec::new();
    push_spaces(&mut three, 3);
    assert_eq!(three, b"   ".to_vec());
}

#[test]
fn strings_and_bytes_are_appended_as_they_are() {
    let mut out = Vec::new();
    push_str(&mut out, "namespace ");
    push_bytes(&mut out, b"Foo");
    assert_eq!(out, b"namespace Foo".to_vec());
    assert_eq!(copy_bytes(b"abc"), b"abc".to_vec());
}

#[test]
fn byte_strings_are_equal_when_all_bytes_are() {
    assert!(bytes_eq(b"", b""));
    assert!(bytes_eq(b"abc", b"abc"));
    assert!(!bytes_eq(b"abc", b"abd"));
    assert!(!bytes_eq(b"abc", b"ab"));
}
