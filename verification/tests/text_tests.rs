use muserv::text::{
    chars_of, concat3, lowercase_equals, parse_i64, parse_u64, same_text, split_whitespace,
    starts_with, trim, u64_to_decimal, white_space,
};

#[test]
fn trim_removes_unicode_white_space() {
    assert_eq!(trim("  hello \t\n"), "hello");
    assert_eq!(trim("\u{3000}x y\u{a0}"), "x y");
    assert_eq!(trim("   "), "");
    assert_eq!(trim(""), "");
    assert_eq!(trim("abc"), "abc");
}

#[test]
fn trim_matches_std() {
    for s in ["", " a ", "\u{2028}b\u{2029}", "\u{85}c", "d\u{200b}", "\t e \r"] {
        assert_eq!(trim(s), s.trim());
    }
}

#[test]
fn split_whitespace_matches_std() {
    for s in ["", "  ", "a", " a  b ", "genre:rock -composer:bach", "x\ty\nz", "a\u{3000}b"] {
        let ours: Vec<&str> = split_whitespace(s);
        let theirs: Vec<&str> = s.split_whitespace().collect();
        assert_eq!(ours, theirs);
    }
}

#[test]
fn white_space_matches_std() {
    for c in ['\t', '\n', ' ', '\u{85}', '\u{a0}', '\u{1680}', '\u{2000}', '\u{200a}', '\u{200b}', 'a', '\u{3000}', '\u{feff}'] {
        assert_eq!(white_space(c), c.is_whitespace());
    }
}

#[test]
fn parse_u64_like_std() {
    for s in ["0", "42", "+7", "-1", "", "+", "18446744073709551615", "18446744073709551616", "1a", " 1", "007"] {
        assert_eq!(parse_u64(s), s.parse::<u64>().ok(), "{s}");
    }
}

#[test]
fn parse_i64_like_std() {
    for s in ["0", "-0", "42", "+7", "-1", "", "-", "9223372036854775807", "9223372036854775808",
        "-9223372036854775808", "-9223372036854775809", "12x", "2024"] {
        assert_eq!(parse_i64(s), s.parse::<i64>().ok(), "{s}");
    }
}

#[test]
fn decimal_rendering() {
    assert_eq!(u64_to_decimal(0), "0");
    assert_eq!(u64_to_decimal(7), "7");
    assert_eq!(u64_to_decimal(1234567890), "1234567890");
    assert_eq!(u64_to_decimal(u64::MAX), u64::MAX.to_string());
}

#[test]
fn decimal_round_trip() {
    for n in [0u64, 9, 10, 99, 100, 65535, u64::MAX] {
        assert_eq!(parse_u64(&u64_to_decimal(n)), Some(n));
    }
}

#[test]
fn trim_twice_is_trim_once() {
    for s in ["  a b  ", "\u{3000}", "x"] {
        assert_eq!(trim(trim(s)), trim(s));
    }
}

#[test]
fn small_helpers() {
    assert_eq!(chars_of("añb"), vec!['a', 'ñ', 'b']);
    assert!(lowercase_equals(&chars_of("MP3"), "mp3"));
    assert!(!lowercase_equals(&chars_of("MP4"), "mp3"));
    assert!(starts_with("127.0.0.1:80", "127."));
    assert!(!starts_with("12", "127."));
    assert!(same_text("abc", "abc"));
    assert!(!same_text("abc", "abd"));
    assert_eq!(concat3("a", "b", "c"), "abc");
}
