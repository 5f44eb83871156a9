use speedreader::decimal::{parse_i32, parse_usize};
use speedreader::paging::{page_of_word, whole_pages};
use speedreader::text::{is_white_space, starts_with_dash, text_eq, trim};

#[test]
fn text_eq_compares_characters() {
    assert!(text_eq("wpm", "wpm"));
    assert!(!text_eq("wpm", "wpn"));
    assert!(!text_eq("wpm", "wpm "));
    assert!(text_eq("", ""));
}

#[test]
fn trim_removes_surrounding_white_space() {
    assert_eq!(trim("  wpm \t"), "wpm");
    assert_eq!(trim("\u{a0}cyan\r"), "cyan");
    assert_eq!(trim("a b"), "a b");
    assert_eq!(trim("   "), "");
    assert_eq!(trim(""), "");
}

#[test]
fn dash_marks_an_option() {
    assert!(starts_with_dash("-c"));
    assert!(!starts_with_dash("book.txt"));
    assert!(!starts_with_dash(""));
}

#[test]
fn usize_parsing_follows_the_standard_library() {
    assert_eq!(parse_usize("42"), Some(42));
    assert_eq!(parse_usize("+7"), Some(7));
    assert_eq!(parse_usize("007"), Some(7));
    assert_eq!(parse_usize("-1"), None);
    assert_eq!(parse_usize("-0"), None);
    assert_eq!(parse_usize(""), None);
    assert_eq!(parse_usize("+"), None);
    assert_eq!(parse_usize(" 1"), None);
    assert_eq!(parse_usize("1x"), None);
    assert_eq!(parse_usize(&usize::MAX.to_string()), Some(usize::MAX));
    assert_eq!(parse_usize("99999999999999999999999"), None);
    for s in ["0", "1", "250", "+12", "-3", "", "x", "18446744073709551616", "٣"] {
        assert_eq!(parse_usize(s), s.parse::<usize>().ok(), "{:?}", s);
    }
}

#[test]
fn i32_parsing_follows_the_standard_library() {
    assert_eq!(parse_i32("-2147483648"), Some(i32::MIN));
    assert_eq!(parse_i32("2147483647"), Some(i32::MAX));
    assert_eq!(parse_i32("2147483648"), None);
    assert_eq!(parse_i32("-2147483649"), None);
    assert_eq!(parse_i32("-"), None);
    assert_eq!(parse_i32("-0"), Some(0));
    assert_eq!(parse_i32("+5"), Some(5));
    assert_eq!(parse_i32("+-5"), None);
    for s in ["3", "-17", "+0", "", "-", "+", "1.5", "99999999999", " 4"] {
        assert_eq!(parse_i32(s), s.parse::<i32>().ok(), "{:?}", s);
    }
}

#[test]
fn pages_hold_250_words() {
    assert_eq!(page_of_word(0), 1);
    assert_eq!(page_of_word(249), 1);
    assert_eq!(page_of_word(250), 2);
    assert_eq!(page_of_word(1000), 5);
    assert_eq!(whole_pages(499), 1);
    assert_eq!(whole_pages(500), 2);
    assert_eq!(whole_pages(0), 0);
}

#[test]
fn white_space_agrees_with_the_standard_library() {
    for v in 0u32..0x11000 {
        if let Some(c) = char::from_u32(v) {
            assert_eq!(is_white_space(c), c.is_whitespace(), "{:#x}", v);
        }
    }
    assert!(is_white_space(' '));
    assert!(is_white_space('\u{3000}'));
    assert!(!is_white_space('\u{180e}'));
    assert!(!is_white_space('='));
}
