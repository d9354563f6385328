//! What the library reads from JSON documents.
//!
//! A document is read as a map. Its keys are the paths of object keys that lead to a value other
//! than null; the value at a path is the text found there, or `None` for a value that is no text.

use vstd::prelude::*;

verus! {

/// `serde_json::Value`, a parsed document. Nothing is seen inside of it; what it holds goes by the
/// name `json_contents`.
#[verifier::external_type_specification]
#[verifier::external_body]
pub struct ExValue(serde_json::Value);

/// What a JSON value holds: for each path of object keys that leads to a value other than null,
/// the text there, or `None` where a boolean, a number, an array or an object stands.
pub uninterp spec fn json_contents(value: serde_json::Value) -> Map<
    Seq<Seq<char>>,
    Option<Seq<char>>,
>;

/// What the document `text` holds, or the parser's message if it is no JSON document.
pub uninterp spec fn json_document(text: Seq<char>) -> Result<
    Map<Seq<Seq<char>>, Option<Seq<char>>>,
    Seq<char>,
>;

/// What stands below `key`.
pub open spec fn below(
    contents: Map<Seq<Seq<char>>, Option<Seq<char>>>,
    key: Seq<char>,
) -> Map<Seq<Seq<char>>, Option<Seq<char>>> {
    Map::new(
        |path: Seq<Seq<char>>| contents.dom().contains(seq![key] + path),
        |path: Seq<Seq<char>>| contents[seq![key] + path],
    )
}

/// The text at the root, if a text stands there.
pub open spec fn root_text(contents: Map<Seq<Seq<char>>, Option<Seq<char>>>) -> Option<Seq<char>> {
    if contents.dom().contains(Seq::empty()) {
        contents[Seq::empty()]
    } else {
        None
    }
}

/// The text below `key`, if a text stands there.
pub open spec fn text_below(
    contents: Map<Seq<Seq<char>>, Option<Seq<char>>>,
    key: Seq<char>,
) -> Option<Seq<char>> {
    root_text(below(contents, key))
}

/// `serde_json::from_str` parses a document. What a document holds, and the message for a text
/// that is none, depend on the text alone and go by the name `json_document`.
#[verifier::external_body]
pub(crate) fn parse_json(text: &str) -> (r: Result<serde_json::Value, String>)
    ensures
        match r {
            Ok(value) => json_document(text@) == Ok::<
                Map<Seq<Seq<char>>, Option<Seq<char>>>,
                Seq<char>,
            >(json_contents(value)),
            Err(message) => json_document(text@) == Err::<
                Map<Seq<Seq<char>>, Option<Seq<char>>>,
                Seq<char>,
            >(message@),
        },
{
    serde_json::from_str(text).map_err(|e| e.to_string())
}

/// Indexing a `serde_json::Value` by a string gives the value under that key of an object, and
/// null where the value is no object or has no such key. It does not panic.
#[verifier::external_body]
pub(crate) fn json_member<'a>(value: &'a serde_json::Value, key: &str) -> (r: &'a serde_json::Value)
    ensures
        json_contents(*r) == below(json_contents(*value), key@),
{
    &value[key]
}

/// `serde_json::Value::as_str` gives the text of a string, and `None` for any other value.
#[verifier::external_body]
pub(crate) fn json_text<'a>(value: &'a serde_json::Value) -> (r: Option<&'a str>)
    ensures
        match r {
            Some(text) => root_text(json_contents(*value)) == Some(text@),
            None => root_text(json_contents(*value)) is None,
        },
{
    value.as_str()
}

/// `serde_json::Value::is_null` tells whether the value is null. Nothing stands in or below null.
#[verifier::external_body]
pub(crate) fn json_is_null(value: &serde_json::Value) -> (r: bool)
    ensures
        r == !json_contents(*value).dom().contains(Seq::empty()),
        r ==> json_contents(*value).dom() == Set::<Seq<Seq<char>>>::empty(),
{
    value.is_null()
}

/// The view of an optional text.
pub open spec fn optional_text(text: Option<String>) -> Option<Seq<char>> {
    match text {
        Some(text) => Some(text@),
        None => None,
    }
}

/// The text below `key` of a value.
pub(crate) fn member_text(value: &serde_json::Value, key: &str) -> (r: Option<String>)
    ensures
        optional_text(r) == text_below(json_contents(*value), key@),
{
    match json_text(json_member(value, key)) {
        Some(text) => Some(text.to_string()),
        None => None,
    }
}

/// A text stands below a key exactly if the document has it at the path of that one key.
pub proof fn law_text_stands_at_its_path(
    contents: Map<Seq<Seq<char>>, Option<Seq<char>>>,
    key: Seq<char>,
)
    ensures
        text_below(contents, key) == if contents.dom().contains(seq![key]) {
            contents[seq![key]]
        } else {
            None
        },
        forall|path: Seq<Seq<char>>| #[trigger]
            below(contents, key).dom().contains(path) <==> contents.dom().contains(
                seq![key] + path,
            ),
        forall|path: Seq<Seq<char>>|
            #![trigger below(contents, key)[path]]
            below(contents, key).dom().contains(path) ==> below(contents, key)[path] == contents[
            seq![key] + path],
{
    assert(seq![key] + Seq::<Seq<char>>::empty() =~= seq![key]);
}

/// An optional text keeps the text.
pub proof fn law_optional_text_is_kept(text: Option<String>)
    ensures
        text matches Some(some) ==> optional_text(text) == Some(some@),
        text is None ==> optional_text(text) is None,
{
}

} // verus!
