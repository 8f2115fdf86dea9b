use rheo::bytes::{copied, put_u32, put_u64, read_u32, read_u64, read_until_zero, same};
use rheo::text;

#[test]
fn decimal_is_written_without_leading_zeros() {
    let mut out = Vec::new();
    text::put_u64(&mut out, 0);
    out.push(b' ');
    text::put_u64(&mut out, 1234567890);
    out.push(b' ');
    text::put_u64(&mut out, u64::MAX);
    assert_eq!(out, b"0 1234567890 18446744073709551615");
}

#[test]
fn hexadecimal_is_written_in_lower_case() {
    let mut out = Vec::new();
    text::put_hex(&mut out, 0);
    out.push(b' ');
    text::put_hex(&mut out, 0xDEAD_BEEF);
    out.push(b' ');
    text::put_hex(&mut out, u64::MAX);
    assert_eq!(out, b"0x0 0xdeadbeef 0xffffffffffffffff");
}

#[test]
fn padded_hexadecimal_keeps_its_width() {
    let mut out = Vec::new();
    text::put_hex_pad(&mut out, 0x2a, 4);
    out.push(b' ');
    text::put_hex_pad(&mut out, 0x12345, 4);
    out.push(b' ');
    text::put_hex_pad(&mut out, 7, 0);
    assert_eq!(out, b"0x002a 0x2345 0x");
}

#[test]
fn text_is_appended() {
    let mut out = b"a".to_vec();
    text::put_str(&mut out, "bc");
    text::put_bytes(&mut out, b"d");
    assert_eq!(out, b"abcd");
}

#[test]
fn numbers_are_read_up_to_the_first_other_character() {
    assert_eq!(text::parse_u64(b"4096 rest"), 4096);
    assert_eq!(text::parse_u64(b"12x34"), 12);
    assert_eq!(text::parse_u64(b""), 0);
    assert_eq!(text::parse_u64(b" 7"), 0);
    assert_eq!(text::parse_u64(b"abc"), 0);
    // A number that is too long wraps.
    assert_eq!(text::parse_u64(b"18446744073709551616"), 0);
    assert_eq!(text::parse_u64(b"18446744073709551618"), 2);
}

#[test]
fn what_follows_a_number_is_found() {
    assert_eq!(text::after_num(b"12  ab"), 4);
    assert_eq!(text::after_num(b"ab"), 0);
    assert_eq!(text::after_num(b""), 0);
    assert_eq!(text::after_num(b"12"), 2);
}

#[test]
fn a_number_that_was_written_is_read_back() {
    for v in [0u64, 9, 10, 99, 100, 65535, 1 << 40, u64::MAX] {
        let mut out = Vec::new();
        text::put_u64(&mut out, v);
        assert_eq!(text::parse_u64(&out), v);
    }
}

#[test]
fn words_are_little_endian() {
    let mut out = Vec::new();
    put_u32(&mut out, 0x0403_0201);
    put_u64(&mut out, 0x0c0b_0a09_0807_0605);
    assert_eq!(out, [1, 2, 3, 4, 5, 6, 7, 8, 9, 10, 11, 12]);
    assert_eq!(read_u32(&out, 0), 0x0403_0201);
    assert_eq!(read_u64(&out, 4), 0x0c0b_0a09_0807_0605);
    assert_eq!(read_u32(&out, 1), 0x0504_0302);
}

#[test]
fn a_text_ends_at_its_zero() {
    assert_eq!(read_until_zero(b"abc\0def\0", 0), b"abc");
    assert_eq!(read_until_zero(b"abc\0def\0", 4), b"def");
    assert_eq!(read_until_zero(b"abc", 1), b"bc");
    assert_eq!(read_until_zero(b"\0", 0), b"");
}

#[test]
fn bytes_are_compared_and_copied() {
    assert!(same(b"abc", b"abc"));
    assert!(!same(b"abc", b"abd"));
    assert!(!same(b"abc", b"ab"));
    assert!(same(b"", b""));
    assert_eq!(copied(b"xyz"), b"xyz");
}
