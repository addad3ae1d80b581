use libcorn::scalar::parse_integer;
use libcorn::text::{parse_char, trim_multiline_string};

fn chars(s: &str) -> Vec<char> {
    s.chars().collect()
}

#[test]
fn trim_common_indent() {
    assert_eq!(trim_multiline_string("\n  foo\n  bar\n"), "foo\nbar");
}

#[test]
fn trim_keeps_first_line() {
    assert_eq!(trim_multiline_string("first\n    a\n      b"), "first\na\n  b");
}

#[test]
fn trim_uses_smallest_indent() {
    assert_eq!(trim_multiline_string("\n    a\n  b\n"), "  a\nb");
}

#[test]
fn trim_whitespace_line_counts_toward_indent() {
    assert_eq!(trim_multiline_string("\n    a\n \n    b"), "   a\n\n   b");
}

#[test]
fn trim_empty_line_becomes_empty() {
    assert_eq!(trim_multiline_string("\n  a\n  \n  b"), "a\n\nb");
}

#[test]
fn trim_crlf() {
    assert_eq!(trim_multiline_string("\r\n  a\r\n  b"), "a\nb");
}

#[test]
fn trim_single_line() {
    assert_eq!(trim_multiline_string("  solo"), "  solo");
    assert_eq!(trim_multiline_string(""), "");
}

#[test]
fn char_escapes() {
    assert_eq!(parse_char(&chars("a")), 'a');
    assert_eq!(parse_char(&chars("\\n")), '\n');
    assert_eq!(parse_char(&chars("\\r")), '\r');
    assert_eq!(parse_char(&chars("\\t")), '\t');
    assert_eq!(parse_char(&chars("\\\"")), '"');
    assert_eq!(parse_char(&chars("\\$")), '$');
    assert_eq!(parse_char(&chars("\\\\")), '\\');
    assert_eq!(parse_char(&chars("\\u0041")), 'A');
    assert_eq!(parse_char(&chars("\\u20AC")), '\u{20AC}');
    assert_eq!(parse_char(&chars("\\uDFFF")), '\u{FFFD}');
}

#[test]
fn integer_literals() {
    assert_eq!(parse_integer(&chars("0")), Some(0));
    assert_eq!(parse_integer(&chars("1_000")), Some(1000));
    assert_eq!(parse_integer(&chars("-15")), Some(-15));
    assert_eq!(parse_integer(&chars("0xff")), Some(255));
    assert_eq!(parse_integer(&chars("0x7FFFFFFFFFFFFFFF")), Some(i64::MAX));
    assert_eq!(parse_integer(&chars("0x8000000000000000")), None);
    assert_eq!(parse_integer(&chars("-9223372036854775808")), Some(i64::MIN));
    assert_eq!(parse_integer(&chars("-9223372036854775809")), None);
    assert_eq!(parse_integer(&chars("12a")), None);
    assert_eq!(parse_integer(&chars("")), None);
    assert_eq!(parse_integer(&chars("0x")), None);
}
