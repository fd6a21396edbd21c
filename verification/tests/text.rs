use mini_http::text::{ascii_bytes, decimal_string, eq_ignore_ascii_case, parse_decimal, push_all};

#[test]
fn decimal_numerals() {
    assert_eq!(parse_decimal(b"120"), Some(120));
    assert_eq!(parse_decimal(b"0"), Some(0));
    assert_eq!(parse_decimal(b"007"), Some(7));
    assert_eq!(parse_decimal(b""), None);
    assert_eq!(parse_decimal(b"12a"), None);
    assert_eq!(parse_decimal(b"-1"), None);
    assert_eq!(parse_decimal(b"+1"), None);
    assert_eq!(parse_decimal(b" 1"), None);
}

#[test]
fn decimal_numerals_at_the_limit() {
    let largest = usize::MAX.to_string();
    assert_eq!(parse_decimal(largest.as_bytes()), Some(usize::MAX));
    let mut beyond = largest.clone();
    beyond.push('0');
    assert_eq!(parse_decimal(beyond.as_bytes()), None);
    let next = (usize::MAX as u128 + 1).to_string();
    assert_eq!(parse_decimal(next.as_bytes()), None);
    let padded = format!("00000{}", largest);
    assert_eq!(parse_decimal(padded.as_bytes()), Some(usize::MAX));
}

#[test]
fn numbers_read_back_from_their_numerals() {
    for n in [0usize, 1, 9, 10, 99, 100, 1024, 65535, usize::MAX] {
        assert_eq!(decimal_string(n), n.to_string());
        assert_eq!(parse_decimal(decimal_string(n).as_bytes()), Some(n));
    }
}

#[test]
fn case_is_ignored_in_ascii_letters_only() {
    assert!(eq_ignore_ascii_case(b"Keep-Alive", b"keep-alive"));
    assert!(eq_ignore_ascii_case(b"", b""));
    assert!(!eq_ignore_ascii_case(b"keep-alive", b"keep-alive "));
    assert!(!eq_ignore_ascii_case(b"@", b"`"));
    assert!(!eq_ignore_ascii_case(b"[", b"{"));
    assert!(!eq_ignore_ascii_case(&[0xc4], &[0xe4]));
}

#[test]
fn bytes_go_behind_what_is_there() {
    let mut v = b"ab".to_vec();
    push_all(&mut v, ascii_bytes("cd"));
    push_all(&mut v, b"");
    assert_eq!(v, b"abcd");
}
