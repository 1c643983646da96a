use lora_mesh::bytes::{
    append, copy, copy_range, find_byte, find_marker, has_prefix, has_suffix, space, trim,
};
use lora_mesh::decimal::{parse_digits, parse_u64, push_decimal};

fn decimal(n: u64) -> Vec<u8> {
    let mut out = Vec::new();
    push_decimal(&mut out, n);
    out
}

#[test]
fn find_marker_gives_first_occurrence() {
    assert_eq!(find_marker(b"xx+RCV=1,+RCV=2", b"+RCV="), Some(2));
    assert_eq!(find_marker(b"+RCV=", b"+RCV="), Some(0));
    assert_eq!(find_marker(b"abc+RCV=", b"+RCV="), Some(3));
}

#[test]
fn find_marker_reports_absence() {
    assert_eq!(find_marker(b"AT+SEND=0,1,x\r\n", b"+RCV="), None);
    assert_eq!(find_marker(b"+RC", b"+RCV="), None);
    assert_eq!(find_marker(b"", b"+RCV="), None);
    assert_eq!(find_marker(b"+RCV+RCV", b"+RCV="), None);
}

#[test]
fn find_marker_of_nothing_is_at_the_start() {
    assert_eq!(find_marker(b"abc", b""), Some(0));
    assert_eq!(find_marker(b"", b""), Some(0));
}

#[test]
fn find_byte_searches_from_the_given_index() {
    let line = b"a,b,c";
    assert_eq!(find_byte(line, b',', 0), Some(1));
    assert_eq!(find_byte(line, b',', 1), Some(1));
    assert_eq!(find_byte(line, b',', 2), Some(3));
    assert_eq!(find_byte(line, b',', 4), None);
    assert_eq!(find_byte(line, b',', 5), None);
}

#[test]
fn suffix_and_prefix_are_tested_bytewise() {
    assert!(has_suffix(b"abc\r\n", b"\r\n"));
    assert!(!has_suffix(b"abc\r", b"\r\n"));
    assert!(!has_suffix(b"\n", b"\r\n"));
    assert!(has_suffix(b"abc", b""));
    assert!(has_prefix(b"CONFIRMED17", b"CONFIRMED"));
    assert!(!has_prefix(b"CONFIRME", b"CONFIRMED"));
    assert!(!has_prefix(b"xCONFIRMED", b"CONFIRMED"));
}

#[test]
fn trim_removes_white_space_at_both_ends_only() {
    assert_eq!(trim(b"  hi there \r\n"), b"hi there");
    assert_eq!(trim(b"hi"), b"hi");
    assert_eq!(trim(b"\t\x0b\x0c\r\n "), b"");
    assert_eq!(trim(b""), b"");
    assert_eq!(trim(b" a "), b"a");
}

#[test]
fn space_is_ascii_white_space() {
    for b in [9u8, 10, 11, 12, 13, 32] {
        assert!(space(b));
    }
    for b in [0u8, 8, 14, 31, 33, b'a', 0x85, 0xa0, 255] {
        assert!(!space(b));
    }
}

#[test]
fn append_and_copy_keep_every_byte() {
    let mut out = vec![1u8, 2];
    append(&mut out, &[3, 4, 5]);
    assert_eq!(out, vec![1, 2, 3, 4, 5]);
    append(&mut out, &[]);
    assert_eq!(out, vec![1, 2, 3, 4, 5]);
    assert_eq!(copy(&out), out);
    assert_eq!(copy_range(&out, 1, 4), vec![2, 3, 4]);
    assert_eq!(copy_range(&out, 2, 2), Vec::<u8>::new());
}

#[test]
fn decimal_has_no_leading_zeros() {
    assert_eq!(decimal(0), b"0");
    assert_eq!(decimal(9), b"9");
    assert_eq!(decimal(10), b"10");
    assert_eq!(decimal(60), b"60");
    assert_eq!(decimal(67), b"67");
    assert_eq!(decimal(1700000000), b"1700000000");
    assert_eq!(decimal(u64::MAX), b"18446744073709551615");
}

#[test]
fn push_decimal_appends_to_what_is_there() {
    let mut out = b"AT+SEND=0,".to_vec();
    push_decimal(&mut out, 105);
    assert_eq!(out, b"AT+SEND=0,105");
}

#[test]
fn parse_reads_what_push_wrote() {
    for n in [0u64, 7, 10, 99, 100, 1700000000, 9999999999, u64::MAX] {
        assert_eq!(parse_u64(&decimal(n)), Some(n));
        assert_eq!(parse_digits(&decimal(n)), Some(n));
    }
}

#[test]
fn parse_accepts_a_plus_sign_and_leading_zeros() {
    assert_eq!(parse_u64(b"+170000000"), Some(170000000));
    assert_eq!(parse_u64(b"0000000005"), Some(5));
    assert_eq!(parse_digits(b"+5"), None);
}

#[test]
fn parse_rejects_what_is_no_number() {
    assert_eq!(parse_u64(b""), None);
    assert_eq!(parse_u64(b"+"), None);
    assert_eq!(parse_u64(b"-5"), None);
    assert_eq!(parse_u64(b"12a4"), None);
    assert_eq!(parse_u64(b" 12"), None);
    assert_eq!(parse_u64(b"++1"), None);
}

#[test]
fn parse_rejects_what_does_not_fit() {
    assert_eq!(parse_u64(b"18446744073709551615"), Some(u64::MAX));
    assert_eq!(parse_u64(b"18446744073709551616"), None);
    assert_eq!(parse_u64(b"99999999999999999999"), None);
    assert_eq!(parse_u64(b"184467440737095516150"), None);
}
