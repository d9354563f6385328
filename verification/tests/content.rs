//! Decoding the contents of files.

use base64::Engine;
use lumen_diff::content::{decode_content, decode_github_content, pack};
use serde_json::Value;

fn object(members: &[(&str, Value)]) -> Value {
    let mut map = serde_json::Map::new();
    for (key, value) in members {
        map.insert(key.to_string(), value.clone());
    }
    Value::Object(map)
}

fn text(value: &str) -> Value {
    Value::String(value.to_string())
}

#[test]
fn github_content_preserves_literal_control_escapes_and_empty_files() {
    let original = "literal \\u0000 and \\u0001\n";
    let encoded = base64::engine::general_purpose::STANDARD.encode(original);
    let file = object(&[
        ("encoding", text("base64")),
        ("content", text(&format!("{}\n", encoded))),
    ]);
    assert_eq!(decode_github_content(&file).unwrap(), original);
    let empty = object(&[("encoding", text("base64")), ("content", text(""))]);
    assert_eq!(decode_github_content(&empty).unwrap(), "");
    let invalid = object(&[("encoding", text("base64")), ("content", text("!!!"))]);
    assert!(decode_github_content(&invalid).is_err());
    assert!(decode_github_content(&object(&[])).is_err());
}

#[test]
fn every_refusal_of_content_has_its_message() {
    let other = object(&[("encoding", text("none")), ("content", text("aGk="))]);
    assert_eq!(
        decode_github_content(&other).unwrap_err(),
        "GitHub did not return base64 file content"
    );
    let number = object(&[("encoding", Value::from(64)), ("content", text("aGk="))]);
    assert_eq!(
        decode_github_content(&number).unwrap_err(),
        "GitHub did not return base64 file content"
    );
    let missing = object(&[("encoding", text("base64"))]);
    assert_eq!(
        decode_github_content(&missing).unwrap_err(),
        "GitHub did not return file content"
    );
    let null = object(&[("encoding", text("base64")), ("content", Value::Null)]);
    assert_eq!(
        decode_github_content(&null).unwrap_err(),
        "GitHub did not return file content"
    );
    let invalid = object(&[("encoding", text("base64")), ("content", text("a"))]);
    assert!(decode_github_content(&invalid)
        .unwrap_err()
        .starts_with("Invalid base64 file content: "));
    assert!(decode_github_content(&Value::Null).is_err());
}

#[test]
fn content_of_every_length_survives_encoding_and_line_breaks() {
    for length in 0..40usize {
        let original: String = "The quick brown fox\tjumps over the lazy dog."
            .chars()
            .take(length)
            .collect();
        let encoded = base64::engine::general_purpose::STANDARD.encode(&original);
        let mut broken = String::new();
        for (i, c) in encoded.chars().enumerate() {
            if i % 5 == 0 {
                broken.push_str("\r\n ");
            }
            broken.push(c);
        }
        let decoded = decode_content(Some("base64".to_string()), Some(broken));
        assert_eq!(decoded.unwrap(), original);
    }
}

#[test]
fn bytes_that_are_no_text_are_replaced() {
    let encoded = base64::engine::general_purpose::STANDARD.encode([b'a', 0xff, b'b']);
    let decoded = decode_content(Some("base64".to_string()), Some(encoded));
    assert_eq!(decoded.unwrap(), "a\u{fffd}b");
}

#[test]
fn packing_drops_ascii_white_space_only() {
    assert_eq!(pack(" a\tb\nc\x0cd\re "), "abcde");
    assert_eq!(pack("a\u{a0}b\x0bc"), "a\u{a0}b\x0bc");
}
