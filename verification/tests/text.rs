//! Text.
use zodl_slipstream::text::{
    chars_of, find_char, find_from, matches_at, parse_uint, push_dec, push_dec_padded,
    push_signed, range_is, rfind_char, same_text, str_contains, string_of, trim_bounds,
    u128_to_dec, u64_to_dec, ParseUintError,
};

#[test]
fn numbers_are_written() {
    assert_eq!(u64_to_dec(0), "0");
    assert_eq!(u64_to_dec(u64::MAX), "18446744073709551615");
    assert_eq!(
        u128_to_dec(u128::MAX),
        "340282366920938463463374607431768211455"
    );
    let mut s = String::from("n");
    push_dec(&mut s, 7);
    push_dec_padded(&mut s, 7, 3);
    push_dec_padded(&mut s, 12345, 3);
    push_signed(&mut s, i64::MIN);
    assert_eq!(s, "n700712345-9223372036854775808");
}

#[test]
fn numbers_are_read() {
    let read = |s: &str, max| {
        let v = chars_of(s);
        parse_uint(&v, 0, v.len(), max)
    };
    assert_eq!(read("0", 9).ok(), Some(0));
    assert_eq!(read("+9", 9).ok(), Some(9));
    assert_eq!(read("0009", 9).ok(), Some(9));
    assert!(matches!(read("10", 9), Err(ParseUintError::PosOverflow)));
    assert!(matches!(read("", 9), Err(ParseUintError::Empty)));
    assert!(matches!(read("+", 9), Err(ParseUintError::InvalidDigit)));
    assert!(matches!(read("-1", 9), Err(ParseUintError::InvalidDigit)));
    assert!(matches!(read("1a", 9), Err(ParseUintError::InvalidDigit)));
    assert_eq!(
        read("18446744073709551615", u64::MAX).ok(),
        Some(u64::MAX)
    );
    for (text, max) in [("", 9), ("x", 9), ("300", 255)] {
        assert_eq!(
            read(text, max).unwrap_err().message(),
            text.parse::<u8>().unwrap_err().to_string()
        );
    }
}

#[test]
fn texts_are_searched() {
    let v = chars_of("a:b:c");
    assert_eq!(find_char(&v, 0, 5, ':'), Some(1));
    assert_eq!(rfind_char(&v, 0, 5, ':'), Some(3));
    assert_eq!(find_char(&v, 0, 1, ':'), None);
    assert_eq!(find_from(&v, &chars_of(":"), 2), Some(3));
    assert_eq!(find_from(&v, &chars_of("::"), 0), None);
    assert!(matches_at(&v, &chars_of("b:"), 2));
    assert!(range_is(&v, 2, 3, "b"));
    assert!(str_contains("abc", "bc") && !str_contains("abc", "cb"));
    assert!(same_text("a", "a") && !same_text("a", "b"));
    assert_eq!(string_of(&v, 1, 3), ":b");
    let padded = chars_of("\u{a0} x y\n");
    assert_eq!(trim_bounds(&padded, 0, padded.len()), (2, 5));
    let blank = chars_of("  ");
    let (from, to) = trim_bounds(&blank, 0, 2);
    assert_eq!(from, to);
}
