use extractor::text::{
    chars_of, contains_str, decimal_string, ends_with_str, find_char, hex_lower_string,
    is_whitespace, parse_u32_exec, replace_char_exec, str_equal, trim_to_string,
};

#[test]
fn trim_removes_unicode_white_space() {
    assert_eq!(trim_to_string("\u{3000}\u{a0} 한림대\t\n\u{2009}"), "한림대");
    assert_eq!(trim_to_string("  "), "");
    assert_eq!(trim_to_string(""), "");
    assert_eq!(trim_to_string("a b"), "a b");
    // U+200B (zero width space) is not white space.
    assert_eq!(trim_to_string("\u{200b}x"), "\u{200b}x");
}

#[test]
fn whitespace_matches_std() {
    for c in ['\t', '\n', '\u{b}', '\u{c}', '\r', ' ', '\u{85}', '\u{a0}', '\u{1680}', '\u{2000}',
              '\u{200a}', '\u{2028}', '\u{2029}', '\u{202f}', '\u{205f}', '\u{3000}', 'a', '대',
              '\u{200b}', '\u{180e}', '_', '-'] {
        assert_eq!(is_whitespace(c), c.is_whitespace(), "{:?}", c);
    }
}

#[test]
fn contains_and_ends_with() {
    assert!(contains_str("2026 수시 입결", "수시"));
    assert!(!contains_str("2026 정시", "수시"));
    assert!(contains_str("abc", ""));
    assert!(!contains_str("ab", "abc"));
    assert!(ends_with_str("아주대", "대"));
    assert!(!ends_with_str("아주대학", "대"));
    assert!(ends_with_str("x", ""));
}

#[test]
fn find_char_gives_first() {
    let cs = chars_of("aㅣbㅣ");
    assert_eq!(find_char(&cs, 'ㅣ'), Some(1));
    assert_eq!(find_char(&cs, 'z'), None);
}

#[test]
fn decimal_and_hex() {
    assert_eq!(decimal_string(0), "0");
    assert_eq!(decimal_string(2026), "2026");
    assert_eq!(decimal_string(u64::MAX), u64::MAX.to_string());
    assert_eq!(hex_lower_string(&[0x00, 0xab, 0x1f, 0xff]), "00ab1fff");
    assert_eq!(hex_lower_string(&[]), "");
}

#[test]
fn parse_u32_like_std() {
    for s in ["2026", "+7", "", "+", "-1", "4294967295", "4294967296", "00012", "1a", " 1", "٣", "99999999999999999999"] {
        assert_eq!(parse_u32_exec(s), s.parse::<u32>().ok(), "{:?}", s);
    }
}

#[test]
fn replace_and_equal() {
    assert_eq!(replace_char_exec("강원\\한림대\\a.pdf", '\\', "/"), "강원/한림대/a.pdf");
    assert!(str_equal("xlsx", "xlsx"));
    assert!(!str_equal("xls", "xlsx"));
    assert!(!str_equal("pdf", "pdF"));
}

#[test]
fn trimming_twice_is_trimming_once() {
    for s in ["  a b  ", "\u{3000}x", "", " \t ", "가\u{a0}"] {
        let once = trim_to_string(s);
        assert_eq!(trim_to_string(&once), once);
    }
}
