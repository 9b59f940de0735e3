use fcr_simulator::text::{
    chars_of, find, parse_u64, push_decimal, push_padded, starts_and_ends_with, string_of,
};

fn decimal(n: u64) -> String {
    let mut out = String::new();
    push_decimal(&mut out, n);
    out
}

fn padded(n: u64, width: usize) -> String {
    let mut out = String::from("x");
    push_padded(&mut out, n, width);
    out
}

fn parsed(text: &str) -> Option<u64> {
    let chars = chars_of(text);
    parse_u64(&chars, 0, chars.len())
}

#[test]
fn decimal_notation() {
    assert_eq!(decimal(0), "0");
    assert_eq!(decimal(9), "9");
    assert_eq!(decimal(10), "10");
    assert_eq!(decimal(u64::MAX), u64::MAX.to_string());
}

#[test]
fn padded_notation() {
    assert_eq!(padded(7, 5), "x00007");
    assert_eq!(padded(12345, 5), "x12345");
    assert_eq!(padded(123456, 5), "x123456");
    assert_eq!(padded(0, 0), "x0");
}

#[test]
fn texts_are_found_at_their_first_place() {
    let chars = chars_of("abcabc");
    assert_eq!(find(&chars, 0, 6, &chars_of("bc")), Some(1));
    assert_eq!(find(&chars, 2, 6, &chars_of("bc")), Some(2));
    assert_eq!(find(&chars, 0, 2, &chars_of("bc")), None);
    assert_eq!(find(&chars, 0, 6, &chars_of("")), Some(0));
    assert_eq!(find(&chars, 0, 6, &chars_of("abcabcd")), None);
    assert_eq!(string_of(&chars, 1, 4), "bca");
}

#[test]
fn numbers_are_parsed() {
    assert_eq!(parsed("0"), Some(0));
    assert_eq!(parsed("00042"), Some(42));
    assert_eq!(parsed("+7"), Some(7));
    assert_eq!(parsed("18446744073709551615"), Some(u64::MAX));
    for text in ["", "+", "++1", "-1", "1a", " 1", "18446744073709551616", "99999999999999999999x"] {
        assert_eq!(parsed(text), None, "{text}");
        assert_eq!(parsed(text), text.parse::<u64>().ok());
    }
}

#[test]
fn starts_and_ends() {
    assert!(starts_and_ends_with("mainnet-00001-ab.era", "mainnet-00001-", ".era"));
    assert!(!starts_and_ends_with("mainnet-00001-ab.erb", "mainnet-00001-", ".era"));
    assert!(!starts_and_ends_with("mainnet-00002-ab.era", "mainnet-00001-", ".era"));
    assert!(starts_and_ends_with("aba", "ab", "ba"));
    assert!(!starts_and_ends_with("a", "ab", ""));
}
