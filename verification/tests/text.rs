use mlrs::text::{char_is_whitespace, decimal_string, parse_usize};

#[test]
fn decimal_rendering() {
    assert_eq!(decimal_string(0), "0");
    assert_eq!(decimal_string(7), "7");
    assert_eq!(decimal_string(10), "10");
    assert_eq!(decimal_string(102400), "102400");
    assert_eq!(decimal_string(usize::MAX), usize::MAX.to_string());
}

#[test]
fn parse_usize_like_std() {
    for s in ["0", "42", "+42", "007", "", "+", "-1", "4a", " 4", "18446744073709551615", "18446744073709551616", "é"] {
        assert_eq!(parse_usize(s), s.parse::<usize>().ok(), "input {s:?}");
    }
}

#[test]
fn whitespace_matches_std_on_every_char() {
    for u in 0u32..=0x10FFFF {
        if let Some(c) = char::from_u32(u) {
            assert_eq!(char_is_whitespace(c), c.is_whitespace(), "U+{u:04X}");
        }
    }
}
