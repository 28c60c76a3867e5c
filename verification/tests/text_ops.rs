use eh2telegraph::text::{
    chars_of, decimal_text, is_whitespace, join, option_text, parse_usize, remove_char, replace,
    same_text, signed_decimal_text, split_whitespace, take_chars, trim_end_slashes,
};

#[test]
fn decimal_notation() {
    assert_eq!(decimal_text(0), "0");
    assert_eq!(decimal_text(9), "9");
    assert_eq!(decimal_text(10), "10");
    assert_eq!(decimal_text(120), "120");
    assert_eq!(decimal_text(u128::MAX), u128::MAX.to_string());
}

#[test]
fn signed_decimal_notation() {
    for n in [0, 1, -1, 42, -1001234567890, i64::MAX, i64::MIN] {
        assert_eq!(signed_decimal_text(n), n.to_string());
    }
}

#[test]
fn numbers_are_read_as_the_standard_library_reads_them() {
    let inputs = [
        "", "+", "-", "0", "3", "16", "+5", "++5", "-1", "007", " 3", "3 ", "1_000", "12a", "a12",
        "\u{0663}", "4294967295", "18446744073709551615", "18446744073709551616",
        "99999999999999999999999999",
    ];
    for s in inputs {
        assert_eq!(parse_usize(s), s.parse::<usize>().ok(), "{s:?}");
    }
}

#[test]
fn numbers_survive_being_written() {
    for n in [0usize, 7, 10, 99, 100, 123456789, usize::MAX] {
        assert_eq!(parse_usize(&decimal_text(n as u128)), Some(n));
    }
}

#[test]
fn white_space_is_that_of_unicode() {
    for c in '\0'..=char::MAX {
        assert_eq!(is_whitespace(c), c.is_whitespace(), "{c:?}");
    }
}

#[test]
fn words_between_white_space() {
    let inputs = ["", "   ", "a", " a ", "url 3 16", "\turl\u{3000}3\n\n16 ", "a\u{a0}b c\u{2009}d"];
    for s in inputs {
        let expected: Vec<String> = s.split_whitespace().map(|w| w.to_string()).collect();
        assert_eq!(split_whitespace(s), expected, "{s:?}");
    }
}

#[test]
fn slashes_at_the_end_go() {
    for s in ["", "/", "///", "/g/1/a", "/g/1/a/", "/g/1/a///", "a/b"] {
        assert_eq!(trim_end_slashes(s), s.trim_end_matches('/'), "{s:?}");
    }
}

#[test]
fn occurrences_are_replaced_from_left_to_right() {
    let inputs = [
        "", "exhentai", "exhentai|/g/1", "exexhentai", "exhentaiexhentai", "exhenta", "e-hentai",
        "xexhentaix", "\u{1f600}exhentai\u{1f600}",
    ];
    for s in inputs {
        assert_eq!(replace(s, "exhentai", "e-hentai"), s.replace("exhentai", "e-hentai"), "{s:?}");
    }
    assert_eq!(replace("aaa", "aa", "b"), "ba");
    assert_eq!(replace("abab", "ab", ""), "");
}

#[test]
fn characters_are_removed() {
    assert_eq!(remove_char("a|b||c", '|'), "abc");
    assert_eq!(remove_char("|", '|'), "");
    assert_eq!(remove_char("abc", '|'), "abc");
}

#[test]
fn texts_are_cut_by_characters() {
    assert_eq!(take_chars("abc", 2), "ab");
    assert_eq!(take_chars("abc", 3), "abc");
    assert_eq!(take_chars("abc", 4), "abc");
    assert_eq!(take_chars("\u{1f600}\u{1f601}\u{1f602}", 2), "\u{1f600}\u{1f601}");
    assert_eq!(take_chars("abc", 0), "");
}

#[test]
fn texts_are_joined() {
    let names = |v: &[&str]| v.iter().map(|s| s.to_string()).collect::<Vec<String>>();
    assert_eq!(join(&names(&[]), ", "), "");
    assert_eq!(join(&names(&["a"]), ", "), "a");
    assert_eq!(join(&names(&["a", "b", "c"]), ", "), "a, b, c");
}

#[test]
fn optional_numbers_are_shown() {
    for n in [None, Some(0), Some(3), Some(usize::MAX)] {
        assert_eq!(option_text(n), format!("{n:?}"));
    }
}

#[test]
fn texts_are_compared() {
    assert!(same_text("", ""));
    assert!(same_text("a\u{e9}", "a\u{e9}"));
    assert!(!same_text("a", "ab"));
    assert!(!same_text("a", "b"));
    assert_eq!(chars_of("a\u{e9}"), vec!['a', '\u{e9}']);
}
