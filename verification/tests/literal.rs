//! Texts between quotation marks.

use lumen_diff::literal::{escape, find_literal_end, unescape};
use lumen_diff::text::to_chars;

#[test]
fn every_character_is_written_and_reads_back() {
    for c in '\0'..=char::MAX {
        let mut buffer = [0u8; 4];
        let text: &str = c.encode_utf8(&mut buffer);
        let written = escape(text);
        assert_eq!(unescape(&to_chars(&written)), text);
        if c < '\u{100}' || c > '\u{10fff0}' {
            let document = format!("\"{}\"", written);
            let parsed: String = serde_json::from_str(&document).unwrap();
            assert_eq!(parsed, text);
        }
    }
    assert_eq!(escape("a\"\\\u{1f}/ä"), "a\\\"\\\\\\u001f/ä");
}

#[test]
fn escapes_are_undone_as_json_does() {
    for raw in [
        r"plain",
        r"\b\f\n\r\t\/",
        r"\u0041\u00e9\uD83D\uDE00\ud7ff\ue000\uFFFF",
        r"\ud800\udc00\udbff\udfff",
    ] {
        let document = format!("\"{}\"", raw);
        let parsed: String = serde_json::from_str(&document).unwrap();
        assert_eq!(unescape(&to_chars(raw)), parsed);
    }
}

#[test]
fn what_is_no_escape_stands_for_itself() {
    for raw in [r"\", r"\x", r"\u12", r"\u12g4", r"\ud800", r"\ud800\u0041", r"\udc00"] {
        let text = unescape(&to_chars(raw));
        assert!(text.starts_with('\\'));
    }
    assert_eq!(unescape(&to_chars(r"\ud800\u0041")), r"\ud800A");
}

#[test]
fn a_text_ends_at_the_first_mark_that_is_not_escaped() {
    let end = |s: &str| find_literal_end(&to_chars(s), 0);
    assert_eq!(end("ab\"c\""), Some(2));
    assert_eq!(end(r#"a\"b"c"#), Some(4));
    assert_eq!(end(r#"a\\"b"#), Some(3));
    assert_eq!(end(r#"a\""#), None);
    assert_eq!(end("a\\"), None);
    assert_eq!(end(""), None);
    assert_eq!(find_literal_end(&to_chars("\"\""), 1), Some(1));
}
