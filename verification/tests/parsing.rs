use tinyrenderer::parse::{first_field, parse_i32, split_lines, tokenize};

fn p(s: &str) -> Option<i32> {
    parse_i32(&s.as_bytes().to_vec())
}

#[test]
fn parse_i32_plain() {
    assert_eq!(p("123"), Some(123));
    assert_eq!(p("0"), Some(0));
    assert_eq!(p("+7"), Some(7));
    assert_eq!(p("-42"), Some(-42));
}

#[test]
fn parse_i32_limits() {
    assert_eq!(p("2147483647"), Some(i32::MAX));
    assert_eq!(p("-2147483648"), Some(i32::MIN));
    assert_eq!(p("2147483648"), None);
    assert_eq!(p("-2147483649"), None);
    assert_eq!(p("99999999999999999999"), None);
}

#[test]
fn parse_i32_leading_zeros() {
    assert_eq!(p("007"), Some(7));
    assert_eq!(p("00000000000000001"), Some(1));
}

#[test]
fn parse_i32_rejects_junk() {
    assert_eq!(p(""), None);
    assert_eq!(p("-"), None);
    assert_eq!(p("+"), None);
    assert_eq!(p("12a"), None);
    assert_eq!(p(" 1"), None);
    assert_eq!(p("1 "), None);
    assert_eq!(p("--1"), None);
}

#[test]
fn first_field_splits_at_slash() {
    assert_eq!(first_field(&b"12/3/4".to_vec()), b"12".to_vec());
    assert_eq!(first_field(&b"/x".to_vec()), b"".to_vec());
    assert_eq!(first_field(&b"9".to_vec()), b"9".to_vec());
}

#[test]
fn tokenize_collapses_whitespace() {
    let toks = tokenize(&b"  a \t bb  ".to_vec());
    assert_eq!(toks, vec![b"a".to_vec(), b"bb".to_vec()]);
    assert_eq!(tokenize(&b"".to_vec()).len(), 0);
    assert_eq!(tokenize(&b"   ".to_vec()).len(), 0);
}

#[test]
fn split_lines_handles_crlf_and_empty() {
    let lines = split_lines(&b"a\nb\r\n\nc".to_vec());
    assert_eq!(lines, vec![b"a".to_vec(), b"b".to_vec(), b"".to_vec(), b"c".to_vec()]);
    assert_eq!(split_lines(&b"".to_vec()).len(), 0);
    assert_eq!(split_lines(&b"x\n".to_vec()), vec![b"x".to_vec()]);
}
