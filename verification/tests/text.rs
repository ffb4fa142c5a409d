use chameleon_voice::text::{
    blank, contains, control_code, decimal_text, parse_unsigned, same_text,
    starts_with, to_ascii_lower, trim, trim_end_slashes, white,
};

#[test]
fn white_space_and_control_codes_are_those_of_unicode() {
    for n in 0..=0x10ffffu32 {
        if let Some(c) = char::from_u32(n) {
            assert_eq!(white(c), c.is_whitespace(), "{:x}", n);
            assert_eq!(control_code(c), c.is_control(), "{:x}", n);
        }
    }
}

#[test]
fn trimming_takes_white_space_off_both_ends() {
    for s in [
        "", " ", "a", " a", "a ", "\t a b \u{3000}", "\u{a0}x\u{2028}", "\u{200b}x", "\n\n",
    ] {
        assert_eq!(trim(s), s.trim());
        assert_eq!(blank(s), s.trim().is_empty());
        assert_eq!(trim(&trim(s)), trim(s));
    }
}

#[test]
fn trailing_slashes_are_taken_off() {
    assert_eq!(trim_end_slashes("http://h:1//"), "http://h:1");
    assert_eq!(trim_end_slashes("/a/b"), "/a/b");
    assert_eq!(trim_end_slashes("///"), "");
    assert_eq!(trim_end_slashes(""), "");
}

#[test]
fn searching_agrees_with_the_standard_library() {
    for s in ["", "a", "loopback", "My Loopback 2", "aab", "\u{e9}t\u{e9}"] {
        for n in ["", "a", "ab", "loop", "back", "\u{e9}", "aabb"] {
            assert_eq!(contains(s, n), s.contains(n), "{} {}", s, n);
            assert_eq!(starts_with(s, n), s.starts_with(n), "{} {}", s, n);
        }
    }
    assert!(same_text("x", "x"));
    assert!(!same_text("x", "X"));
}

#[test]
fn lower_case_of_ascii_leaves_other_letters() {
    assert_eq!(to_ascii_lower("AbZ-\u{c9}@[`{"), "abz-\u{c9}@[`{");
}

#[test]
fn decimal_notation_is_that_of_the_standard_library() {
    for n in [0u128, 7, 10, 99, 100, 16_000, 65_535, u64::MAX as u128, u128::MAX] {
        assert_eq!(decimal_text(n), n.to_string());
    }
}

#[test]
fn numbers_are_read_as_the_standard_library_reads_them() {
    for s in [
        "", "+", "-", "0", "-0", "+0", "007", "65535", "65536", "+65535", "1 ", " 1", "1_0", "a",
        "0x1", "99999999999999999999999", "99999999999999999999999x", "\u{661}",
    ] {
        assert_eq!(parse_unsigned(s, u16::MAX as u64), s.parse::<u16>().ok().map(|n| n as u64));
        assert_eq!(parse_unsigned(s, u64::MAX), s.parse::<u64>().ok());
    }
    assert_eq!(parse_unsigned("18446744073709551615", u64::MAX), Some(u64::MAX));
    assert_eq!(parse_unsigned("18446744073709551616", u64::MAX), None);
}

#[test]
fn a_number_is_read_back_from_its_decimal_notation() {
    for n in [0u64, 9, 10, 4096, 1 << 40, u64::MAX] {
        assert_eq!(parse_unsigned(&decimal_text(n as u128), u64::MAX), Some(n));
    }
}
