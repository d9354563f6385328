//! Numbers, searching, splitting and trimming.

use lumen_diff::text::{
    contains_text, find_from, has_prefix, parse_u64, same_text, split_at_char, to_chars,
    to_decimal, trim, trim_end_char, trim_start_char,
};

#[test]
fn numbers_are_written_and_read_back() {
    for n in [0, 7, 10, 99, 100, 1_234_567_890, u64::MAX] {
        assert_eq!(to_decimal(n), n.to_string());
        assert_eq!(parse_u64(&to_decimal(n)), Some(n));
    }
}

#[test]
fn numbers_are_read_as_the_standard_library_does() {
    for s in [
        "", "+", "-1", "+5", "++5", "007", "1 ", " 1", "1_0", "18446744073709551615",
        "18446744073709551616", "99999999999999999999999", "٣", "0x1", "1.0",
    ] {
        assert_eq!(parse_u64(s), s.parse::<u64>().ok(), "{:?}", s);
    }
}

#[test]
fn texts_are_trimmed_as_the_standard_library_does() {
    for s in ["", " ", "a", " a b ", "\u{a0}\u{2003}a\u{85}\n", "\u{200b}a", "\x0b\x0ca\t"] {
        assert_eq!(trim(s), s.trim(), "{:?}", s);
    }
    let slashes: String = trim_end_char(&to_chars("a/b//"), '/').iter().collect();
    assert_eq!(slashes, "a/b");
    let colons: String = trim_start_char(&to_chars("::a:"), ':').iter().collect();
    assert_eq!(colons, "a:");
}

#[test]
fn texts_are_split_and_searched_as_the_standard_library_does() {
    for s in ["", "/", "a", "a/b", "/a//b/", "ä/ö"] {
        let parts: Vec<String> = s.split('/').map(|p| p.to_string()).collect();
        assert_eq!(split_at_char(&to_chars(s), '/'), parts);
        assert_eq!(contains_text(s, "/b"), s.contains("/b"));
        assert_eq!(has_prefix(s, "a/"), s.starts_with("a/"));
    }
    let chars = to_chars("abcabc");
    assert_eq!(find_from(&chars, &to_chars("bc"), 0), Some(1));
    assert_eq!(find_from(&chars, &to_chars("bc"), 2), Some(4));
    assert_eq!(find_from(&chars, &to_chars("bc"), 5), None);
    assert_eq!(find_from(&chars, &[], 6), Some(6));
    assert!(same_text("a", "a"));
    assert!(!same_text("a", "ab"));
    assert!(!same_text("a", "b"));
}

#[test]
fn white_space_is_what_unicode_lists() {
    let listed = |c: char| {
        matches!(c, '\u{9}'..='\u{d}' | '\u{20}' | '\u{85}' | '\u{a0}' | '\u{1680}')
            || matches!(c, '\u{2000}'..='\u{200a}' | '\u{2028}' | '\u{2029}' | '\u{202f}')
            || matches!(c, '\u{205f}' | '\u{3000}')
    };
    for c in '\0'..=char::MAX {
        let mut buffer = [0u8; 4];
        assert_eq!(trim(c.encode_utf8(&mut buffer)).is_empty(), listed(c), "{:?}", c);
    }
    assert_eq!(trim("17\r\n"), "17");
}
