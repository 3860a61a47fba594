use kaneo_core::text::{
    chars_of, decimal, find, is_whitespace, lines, lower_chars, signed_decimal, slice_of,
    starts_with, text_of, trim,
};

#[test]
fn white_space_is_that_of_unicode() {
    for c in '\u{0}'..='\u{10ffff}' {
        assert_eq!(is_whitespace(c), c.is_whitespace(), "{:x}", c as u32);
    }
}

#[test]
fn trimming_takes_white_space_from_both_ends() {
    for text in ["", " ", "a", " a b ", "\u{3000}é\u{2028}", "\n\t x\r\n", "\u{200b}x"] {
        assert_eq!(trim(text), text.trim());
    }
}

#[test]
fn patterns_are_found_where_they_first_stand() {
    let at = |text: &str, pattern: &str| find(&chars_of(text), &chars_of(pattern));
    assert_eq!(at("abcabc", "ca"), Some(2));
    assert_eq!(at("ééx", "x"), Some(2));
    assert_eq!(at("abc", ""), Some(0));
    assert_eq!(at("", ""), Some(0));
    assert_eq!(at("ab", "abc"), None);
    assert_eq!(at("aab", "ab"), Some(1));
    assert_eq!(at("abc", "d"), None);
    assert!(starts_with("export A", "export "));
    assert!(!starts_with("exp", "export "));
}

#[test]
fn ascii_letters_are_lowered() {
    let lower = |text: &str| text_of(&lower_chars(text));
    for text in ["", "AZaz@[`{", "ÄÉ Token_1"] {
        assert_eq!(lower(text), text.to_ascii_lowercase());
    }
}

#[test]
fn numerals_are_decimal() {
    for n in [0, 7, 10, 99, 100, 1_234_567_890, u128::MAX] {
        assert_eq!(decimal(n), n.to_string());
    }
    for n in [0, 9, -1, -10, i32::MAX, i32::MIN] {
        assert_eq!(signed_decimal(n), n.to_string());
    }
}

#[test]
fn lines_end_at_line_feeds() {
    assert_eq!(lines("a\nb\r\n\nc"), vec!["a", "b\r", "", "c"]);
    assert_eq!(lines(""), vec![""]);
    assert_eq!(lines("a\n"), vec!["a", ""]);
}

#[test]
fn slices_are_parts() {
    let chars = chars_of("héllo");
    assert_eq!(text_of(&slice_of(&chars, 1, 3)), "él");
    assert_eq!(text_of(&slice_of(&chars, 5, 5)), "");
}
