//! File contents as GitHub sends them: base64 in a JSON document, which keeps literal escape
//! sequences and binary data intact on the way.

use base64::Engine;
use vstd::prelude::*;
use vstd::utf8::{
    decode_utf8, encode_utf8, encode_utf8_decode_utf8, encode_utf8_valid_utf8, valid_utf8,
};

use crate::json::{json_contents, member_text, optional_text, text_below};
use crate::text::{same_text, to_chars};

verus! {

// ---------------------------------------------------------------------------------------------
// Base64
// ---------------------------------------------------------------------------------------------

/// The symbol of six bits in the standard alphabet.
pub open spec fn base64_symbol(bits: int) -> char {
    if bits < 26 {
        ('A' as int + bits) as char
    } else if bits < 52 {
        ('a' as int + bits - 26) as char
    } else if bits < 62 {
        ('0' as int + bits - 52) as char
    } else if bits == 62 {
        '+'
    } else {
        '/'
    }
}

/// Bytes in the standard base64 notation: four symbols for three bytes, padded at the end.
pub open spec fn base64_text(bytes: Seq<u8>) -> Seq<char>
    decreases bytes.len(),
{
    let b0 = bytes[0] as int;
    let b1 = bytes[1] as int;
    let b2 = bytes[2] as int;
    if bytes.len() == 0 {
        Seq::empty()
    } else if bytes.len() == 1 {
        seq![base64_symbol(b0 / 4), base64_symbol(b0 % 4 * 16), '=', '=']
    } else if bytes.len() == 2 {
        seq![
            base64_symbol(b0 / 4),
            base64_symbol(b0 % 4 * 16 + b1 / 16),
            base64_symbol(b1 % 16 * 4),
            '=',
        ]
    } else {
        seq![
            base64_symbol(b0 / 4),
            base64_symbol(b0 % 4 * 16 + b1 / 16),
            base64_symbol(b1 % 16 * 4 + b2 / 64),
            base64_symbol(b2 % 64),
        ] + base64_text(bytes.skip(3))
    }
}

/// The decoder's message for a text that is no base64 notation.
pub uninterp spec fn base64_message(text: Seq<char>) -> Seq<char>;

/// Decoding with the `STANDARD` engine of the `base64` crate accepts exactly the canonical
/// notations: the padding must be there and the unused bits must be zero. It gives the bytes
/// whose notation the text is. The message for any other text depends on the text alone and goes
/// by the name `base64_message`.
#[verifier::external_body]
fn base64_decode(text: &str) -> (r: Result<Vec<u8>, String>)
    ensures
        match r {
            Ok(bytes) => base64_text(bytes@) == text@,
            Err(message) => message@ == base64_message(text@) && forall|bytes: Seq<u8>|
                #[trigger] base64_text(bytes) != text@,
        },
{
    base64::engine::general_purpose::STANDARD.decode(text).map_err(|e| e.to_string())
}

proof fn lemma_symbol_injective(a: int, b: int)
    requires
        0 <= a < 64,
        0 <= b < 64,
        base64_symbol(a) == base64_symbol(b),
    ensures
        a == b,
{
}

proof fn lemma_symbol_not_padding(a: int)
    requires
        0 <= a < 64,
    ensures
        base64_symbol(a) != '=',
{
}

/// Different bytes have different base64 notations.
pub proof fn lemma_base64_injective(a: Seq<u8>, b: Seq<u8>)
    requires
        base64_text(a) == base64_text(b),
    ensures
        a == b,
    decreases a.len(),
{
    let s = base64_text(a);
    let t = base64_text(b);
    assert(a.len() == 0 <==> s.len() == 0);
    assert(b.len() == 0 <==> t.len() == 0);
    if a.len() > 0 && b.len() > 0 {
        let (a0, a1, a2) = (a[0] as int, a[1] as int, a[2] as int);
        let (b0, b1, b2) = (b[0] as int, b[1] as int, b[2] as int);
        assert(s[0] == base64_symbol(a0 / 4) && t[0] == base64_symbol(b0 / 4));
        lemma_symbol_injective(a0 / 4, b0 / 4);
        lemma_symbol_not_padding(a1 % 16 * 4);
        lemma_symbol_not_padding(b1 % 16 * 4);
        lemma_symbol_not_padding(a1 % 16 * 4 + a2 / 64);
        lemma_symbol_not_padding(b1 % 16 * 4 + b2 / 64);
        lemma_symbol_not_padding(a2 % 64);
        lemma_symbol_not_padding(b2 % 64);
        assert(s[2] == '=' <==> a.len() == 1);
        assert(t[2] == '=' <==> b.len() == 1);
        assert(s[3] == '=' <==> a.len() <= 2);
        assert(t[3] == '=' <==> b.len() <= 2);
        if a.len() == 1 {
            assert(s[1] == base64_symbol(a0 % 4 * 16));
            assert(t[1] == base64_symbol(b0 % 4 * 16));
            lemma_symbol_injective(a0 % 4 * 16, b0 % 4 * 16);
            assert(a =~= b);
        } else {
            assert(s[1] == base64_symbol(a0 % 4 * 16 + a1 / 16));
            assert(t[1] == base64_symbol(b0 % 4 * 16 + b1 / 16));
            lemma_symbol_injective(a0 % 4 * 16 + a1 / 16, b0 % 4 * 16 + b1 / 16);
            assert(a0 == b0 && a1 / 16 == b1 / 16);
            if a.len() == 2 {
                assert(s[2] == base64_symbol(a1 % 16 * 4));
                assert(t[2] == base64_symbol(b1 % 16 * 4));
                lemma_symbol_injective(a1 % 16 * 4, b1 % 16 * 4);
                assert(a =~= b);
            } else {
                assert(s[2] == base64_symbol(a1 % 16 * 4 + a2 / 64));
                assert(t[2] == base64_symbol(b1 % 16 * 4 + b2 / 64));
                assert(s[3] == base64_symbol(a2 % 64));
                assert(t[3] == base64_symbol(b2 % 64));
                lemma_symbol_injective(a1 % 16 * 4 + a2 / 64, b1 % 16 * 4 + b2 / 64);
                lemma_symbol_injective(a2 % 64, b2 % 64);
                assert(a1 == b1 && a2 == b2);
                assert(s.skip(4) == base64_text(a.skip(3)));
                assert(t.skip(4) == base64_text(b.skip(3)));
                lemma_base64_injective(a.skip(3), b.skip(3));
                assert forall|i: int| 0 <= i < a.len() implies a[i] == b[i] by {
                    if i >= 3 {
                        assert(a[i] == a.skip(3)[i - 3]);
                        assert(b[i] == b.skip(3)[i - 3]);
                    }
                }
                assert(a.len() == a.skip(3).len() + 3 && b.len() == b.skip(3).len() + 3);
                assert(a =~= b);
            }
        }
    } else {
        assert(a =~= b);
    }
}

// ---------------------------------------------------------------------------------------------
// Bytes as text
// ---------------------------------------------------------------------------------------------

/// Bytes as text, with replacement characters for what is not UTF-8.
pub uninterp spec fn lossy_text(bytes: Seq<u8>) -> Seq<char>;

/// `String::from_utf8_lossy` decodes UTF-8. Where the bytes are not UTF-8 it puts in replacement
/// characters; where these stand is left to the name `lossy_text`.
#[verifier::external_body]
pub(crate) fn utf8_lossy(bytes: &[u8]) -> (r: String)
    ensures
        r@ == lossy_text(bytes@),
        valid_utf8(bytes@) ==> r@ == decode_utf8(bytes@),
{
    String::from_utf8_lossy(bytes).into_owned()
}

// ---------------------------------------------------------------------------------------------
// File contents
// ---------------------------------------------------------------------------------------------

/// Whether a character is ASCII white space: tab, line feed, form feed, carriage return, space.
pub open spec fn ascii_space(c: char) -> bool {
    c == '\t' || c == '\n' || c == '\x0C' || c == '\r' || c == ' '
}

/// A text without its ASCII white space.
pub open spec fn packed(s: Seq<char>) -> Seq<char> {
    s.filter(|c: char| !ascii_space(c))
}

/// Drops the ASCII white space in `s`.
pub fn pack(s: &str) -> (r: String)
    ensures
        r@ == packed(s@),
{
    let chars = to_chars(s);
    let mut kept = String::new();
    let ghost keep = |c: char| !ascii_space(c);
    reveal(Seq::filter);
    assert(s@.take(0).filter(keep) == Seq::<char>::empty());
    for i in 0..chars.len()
        invariant
            chars@ == s@,
            keep == (|c: char| !ascii_space(c)),
            kept@ == s@.take(i as int).filter(keep),
    {
        reveal(Seq::filter);
        let c = chars[i];
        assert(s@.take(i + 1).drop_last() == s@.take(i as int));
        assert(s@.take(i + 1).last() == c);
        if c != '\t' && c != '\n' && c != '\x0C' && c != '\r' && c != ' ' {
            kept.push(c);
        }
    }
    assert(s@.take(s@.len() as int) == s@);
    kept
}

/// The views of a text or of a message.
pub open spec fn text_or_message(r: Result<String, String>) -> Result<Seq<char>, Seq<char>> {
    match r {
        Ok(text) => Ok(text@),
        Err(message) => Err(message@),
    }
}

/// The text of a file that was sent in an encoding: only base64 is read, and white space in it
/// does not count.
pub open spec fn file_text(encoding: Option<Seq<char>>, content: Option<Seq<char>>) -> Result<
    Seq<char>,
    Seq<char>,
> {
    if encoding != Some("base64"@) {
        Err("GitHub did not return base64 file content"@)
    } else {
        match content {
            None => Err("GitHub did not return file content"@),
            Some(content) => if exists|bytes: Seq<u8>|
                #[trigger] base64_text(bytes) == packed(content) {
                Ok(
                    lossy_text(
                        choose|bytes: Seq<u8>| #[trigger] base64_text(bytes) == packed(content),
                    ),
                )
            } else {
                Err("Invalid base64 file content: "@ + base64_message(packed(content)))
            },
        }
    }
}

/// A text that was sent as base64 comes back as it was before it was encoded.
pub open spec fn keeps_text(
    encoding: Option<Seq<char>>,
    content: Option<Seq<char>>,
    r: Result<Seq<char>, Seq<char>>,
) -> bool {
    encoding == Some("base64"@) && content is Some ==> forall|text: Seq<char>|
        #[trigger] base64_text(encode_utf8(text)) == packed(content->0) ==> r == Ok::<
            Seq<char>,
            Seq<char>,
        >(text)
}

/// Decodes the content of a file that was sent in an encoding. A text comes back as it was
/// before it was encoded.
pub fn decode_content(encoding: Option<String>, content: Option<String>) -> (r: Result<
    String,
    String,
>)
    ensures
        text_or_message(r) == file_text(optional_text(encoding), optional_text(content)),
        keeps_text(optional_text(encoding), optional_text(content), text_or_message(r)),
{
    let is_base64 = match &encoding {
        Some(name) => same_text(name.as_str(), "base64"),
        None => false,
    };
    if !is_base64 {
        return Err("GitHub did not return base64 file content".to_string());
    }
    let content = match content {
        Some(content) => content,
        None => return Err("GitHub did not return file content".to_string()),
    };
    let encoded = pack(content.as_str());
    match base64_decode(encoded.as_str()) {
        Ok(bytes) => {
            proof {
                let chosen = choose|bytes: Seq<u8>|
                    #[trigger] base64_text(bytes) == packed(content@);
                lemma_base64_injective(chosen, bytes@);
                assert forall|text: Seq<char>|
                    #[trigger] base64_text(encode_utf8(text)) == packed(
                        content@,
                    ) implies valid_utf8(bytes@) && decode_utf8(bytes@) == text by {
                    lemma_base64_injective(encode_utf8(text), bytes@);
                    encode_utf8_valid_utf8(text);
                    encode_utf8_decode_utf8(text);
                }
            }
            Ok(utf8_lossy(&bytes))
        },
        Err(message) => {
            let mut text = "Invalid base64 file content: ".to_string();
            text.append(message.as_str());
            Err(text)
        },
    }
}

/// Decodes the content of a file from the document that GitHub describes it with.
pub fn decode_github_content(file: &serde_json::Value) -> (r: Result<String, String>)
    ensures
        text_or_message(r) == file_text(
            text_below(json_contents(*file), "encoding"@),
            text_below(json_contents(*file), "content"@),
        ),
        keeps_text(
            text_below(json_contents(*file), "encoding"@),
            text_below(json_contents(*file), "content"@),
            text_or_message(r),
        ),
{
    decode_content(member_text(file, "encoding"), member_text(file, "content"))
}

/// Base64 keeps every file intact: however white space is put into the notation of its bytes, the
/// decoded file has those bytes.
pub proof fn law_content_survives_encoding(bytes: Seq<u8>, content: Seq<char>)
    requires
        packed(content) == base64_text(bytes),
    ensures
        file_text(Some("base64"@), Some(content)) == Ok::<Seq<char>, Seq<char>>(lossy_text(bytes)),
{
    let chosen = choose|b: Seq<u8>| #[trigger] base64_text(b) == packed(content);
    assert(base64_text(bytes) == packed(content));
    lemma_base64_injective(chosen, bytes);
}

/// White space is taken out of a text character by character: the five ASCII ones go, and all
/// others stay where they are.
pub proof fn law_packing_drops_ascii_white_space(s: Seq<char>, c: char)
    ensures
        packed(Seq::empty()).len() == 0,
        c == ' ' || c == '\t' || c == '\n' || c == '\r' || c == '\x0C' ==> packed(s.push(c))
            == packed(s),
        c != ' ' && c != '\t' && c != '\n' && c != '\r' && c != '\x0C' ==> packed(s.push(c))
            == packed(s).push(c),
{
    reveal(Seq::filter);
    assert(s.push(c).drop_last() =~= s);
}

/// Only base64 is read, and only where there is a content: everything else is refused.
pub proof fn law_only_base64_is_read(encoding: Option<Seq<char>>, content: Option<Seq<char>>)
    ensures
        encoding != Some("base64"@) ==> file_text(encoding, content) == Err::<Seq<char>, Seq<char>>(
            "GitHub did not return base64 file content"@,
        ),
        encoding == Some("base64"@) && content is None ==> file_text(encoding, content) == Err::<
            Seq<char>,
            Seq<char>,
        >("GitHub did not return file content"@),
        encoding == Some("base64"@) && content is Some ==> (file_text(encoding, content) is Ok
            <==> exists|bytes: Seq<u8>| #[trigger] base64_text(bytes) == packed(content->0)),
{
}

/// A text or a message is kept as it is.
pub proof fn law_text_or_message_is_kept(r: Result<String, String>)
    ensures
        r matches Ok(text) ==> text_or_message(r) == Ok::<Seq<char>, Seq<char>>(text@),
        r matches Err(message) ==> text_or_message(r) == Err::<Seq<char>, Seq<char>>(message@),
{
}

} // verus!
