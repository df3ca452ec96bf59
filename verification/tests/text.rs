//! White space, trimming, cutting and numbers.

use den_embed::number::{decimal, parse_number};
use den_embed::text::{is_blank, is_white_space, same_text, strip_prefix, take_chars, trim};

#[test]
fn blank_detection() {
    assert!(is_blank(""));
    assert!(is_blank("   "));
    assert!(!is_blank("hola"));
}

#[test]
fn white_space_is_what_unicode_says_it_is() {
    for u in 0..=0x10ffffu32 {
        if let Some(c) = char::from_u32(u) {
            assert_eq!(is_white_space(c), c.is_whitespace(), "U+{u:04X}");
        }
    }
}

#[test]
fn trimming_agrees_with_the_standard_library() {
    for s in ["", " ", "a", " a", "a ", "\t a b\n", "\u{3000}ñ\u{a0}", "\u{200b}x", "   "] {
        assert_eq!(trim(s), s.trim(), "{s:?}");
        assert_eq!(is_blank(s), s.trim().is_empty(), "{s:?}");
        assert_eq!(trim(trim(s)), trim(s));
    }
}

#[test]
fn cutting_counts_characters_not_bytes() {
    assert_eq!(take_chars("ñandú", 3), "ñan");
    assert_eq!(take_chars("ñandú", 5), "ñandú");
    assert_eq!(take_chars("ñandú", 6), "ñandú");
    assert_eq!(take_chars("ñandú", 0), "");
}

#[test]
fn a_prefix_is_stripped_once() {
    assert_eq!(strip_prefix("Bearer Bearer x", "Bearer "), Some("Bearer x"));
    assert_eq!(strip_prefix("Bearer", "Bearer "), None);
    assert_eq!(strip_prefix("bearer x", "Bearer "), None);
    assert_eq!(strip_prefix("x", ""), Some("x"));
    assert!(same_text("ñ", "ñ"));
    assert!(!same_text("ñ", "n"));
}

#[test]
fn numbers_are_read_as_the_standard_library_reads_them() {
    for s in [
        "", "+", "-", "0", "-0", "+7", "++7", "007", "42", " 42", "4_2", "4.2", "600s", "٣",
        "18446744073709551615", "18446744073709551616", "99999999999999999999999",
    ] {
        assert_eq!(parse_number(s, u64::MAX), s.parse::<u64>().ok(), "{s:?}");
    }
    for s in ["65535", "65536", "0", "+80", "70000", "-1"] {
        assert_eq!(parse_number(s, u16::MAX as u64), s.parse::<u16>().ok().map(u64::from), "{s:?}");
    }
}

#[test]
fn a_number_that_was_written_is_read_back() {
    for n in [0, 7, 10, 99, 100, 12_288, u64::MAX] {
        assert_eq!(decimal(n), n.to_string());
        assert_eq!(parse_number(&decimal(n), u64::MAX), Some(n));
    }
}
