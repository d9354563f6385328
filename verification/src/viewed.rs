//! Which files of a pull request are marked as viewed on GitHub.

use vstd::prelude::*;

use crate::command::{
    command_output, graphql_args, graphql_reply, plain_error, plain_output, CommandOutcome,
};
use crate::literal::{
    escape, escaped, find_literal_end, is_literal, law_escaped_text_reads_back,
    lemma_literal_end, lemma_literal_stands, literal_end, unescape, unescaped,
};
use crate::text::{
    decimal, find_from, first_occurrences, from_chars, holds, law_first_occurrences,
    lemma_first_position, lemma_position_from, occurs_at, position_from, same_text, texts, to_chars,
    to_decimal, trimmed,
};
use crate::types::PrInfo;

verus! {

// ---------------------------------------------------------------------------------------------
// Requests
// ---------------------------------------------------------------------------------------------

/// The query for the viewed state of the files of a pull request, up to a hundred of them from a
/// cursor on. The answer tells whether there are more, and from which cursor on.
pub open spec fn viewed_query(owner: Seq<char>, name: Seq<char>, number: nat) -> Seq<char> {
    "query($endCursor: String) { repository(owner: \""@ + owner + "\", name: \""@ + name
        + "\") { pullRequest(number: "@ + decimal(number)
        + ") { files(first: 100, after: $endCursor) { pageInfo { hasNextPage endCursor } nodes { path viewerViewedState } } } } }"@
}

/// The arguments with which `gh` asks for the viewed state of all files. With `--paginate` it
/// repeats the query from each cursor that it is told, as long as there are more files, and writes
/// one answer after the other.
pub fn viewed_args(pr_info: &PrInfo) -> (r: Vec<String>)
    ensures
        texts(r@) == seq![
            "api"@,
            "graphql"@,
            "--paginate"@,
            "-f"@,
            "query="@ + viewed_query(
                pr_info.repo_owner@,
                pr_info.repo_name@,
                pr_info.number as nat,
            ),
        ],
{
    let mut query = "query($endCursor: String) { repository(owner: \"".to_string();
    query.append(pr_info.repo_owner.as_str());
    query.append("\", name: \"");
    query.append(pr_info.repo_name.as_str());
    query.append("\") { pullRequest(number: ");
    query.append(to_decimal(pr_info.number).as_str());
    query.append(
        ") { files(first: 100, after: $endCursor) { pageInfo { hasNextPage endCursor } nodes { path viewerViewedState } } } } }",
    );
    let mut field = "query=".to_string();
    field.append(query.as_str());
    let ghost field_text = field@;
    let args = vec![
        "api".to_string(),
        "graphql".to_string(),
        "--paginate".to_string(),
        "-f".to_string(),
        field,
    ];
    assert(texts(args@) =~= seq!["api"@, "graphql"@, "--paginate"@, "-f"@, field_text]);
    args
}

/// A mutation on a file of a pull request. The node id and the path stand between quotation marks,
/// escaped where they must be.
pub open spec fn file_mutation(
    name: Seq<char>,
    node_id: Seq<char>,
    file_path: Seq<char>,
) -> Seq<char> {
    "mutation { "@ + name + "(input: { pullRequestId: \""@ + escaped(node_id) + "\", path: \""@
        + escaped(file_path)
        + "\" }) { clientMutationId } }"@
}

fn mutation_args(name: &str, node_id: &str, file_path: &str) -> (r: Vec<String>)
    ensures
        texts(r@) == seq![
            "api"@,
            "graphql"@,
            "-f"@,
            "query="@ + file_mutation(name@, node_id@, file_path@),
        ],
{
    let mut mutation = "mutation { ".to_string();
    mutation.append(name);
    mutation.append("(input: { pullRequestId: \"");
    mutation.append(escape(node_id).as_str());
    mutation.append("\", path: \"");
    mutation.append(escape(file_path).as_str());
    mutation.append("\" }) { clientMutationId } }");
    graphql_args(mutation.as_str())
}

/// The arguments with which `gh` marks a file as viewed.
pub fn mark_viewed_args(node_id: &str, file_path: &str) -> (r: Vec<String>)
    ensures
        texts(r@) == seq![
            "api"@,
            "graphql"@,
            "-f"@,
            "query="@ + file_mutation("markFileAsViewed"@, node_id@, file_path@),
        ],
{
    mutation_args("markFileAsViewed", node_id, file_path)
}

/// The arguments with which `gh` unmarks a file as viewed.
pub fn unmark_viewed_args(node_id: &str, file_path: &str) -> (r: Vec<String>)
    ensures
        texts(r@) == seq![
            "api"@,
            "graphql"@,
            "-f"@,
            "query="@ + file_mutation("unmarkFileAsViewed"@, node_id@, file_path@),
        ],
{
    mutation_args("unmarkFileAsViewed", node_id, file_path)
}

// ---------------------------------------------------------------------------------------------
// The answer
// ---------------------------------------------------------------------------------------------

/// What stands in front of a path in the answer.
pub const PATH_KEY: &'static str = "\"path\":\"";

/// What stands in front of a viewed state in the answer.
pub const STATE_KEY: &'static str = "\"viewerViewedState\":\"";

/// The first quotation mark from `from` on.
pub open spec fn quote_from(s: Seq<char>, from: int) -> Option<int> {
    position_from(s, seq!['"'], from)
}

/// The first viewed state that is told from `from` on.
pub open spec fn state_from(s: Seq<char>, from: int) -> Option<Seq<char>> {
    match position_from(s, STATE_KEY@, from) {
        Some(key) => match quote_from(s, key + STATE_KEY@.len()) {
            Some(end) => Some(s.subrange(key + STATE_KEY@.len(), end)),
            None => None,
        },
        None => None,
    }
}

/// The first path that is told from `from` on: where it begins, and where the quotation mark stands
/// that ends it.
pub open spec fn path_from(s: Seq<char>, from: int) -> Option<(int, int)> {
    match position_from(s, PATH_KEY@, from) {
        Some(key) => match literal_end(s, key + PATH_KEY@.len()) {
            Some(end) => Some((key + PATH_KEY@.len(), end)),
            None => None,
        },
        None => None,
    }
}

/// A found path lies within the text, behind its key.
pub proof fn lemma_path_from(s: Seq<char>, from: int)
    requires
        0 <= from,
    ensures
        path_from(s, from) matches Some((start, end)) ==> from < start <= end < s.len(),
{
    reveal_strlit("\"path\":\"");
    lemma_position_from(s, PATH_KEY@, from);
    if let Some(key) = position_from(s, PATH_KEY@, from) {
        lemma_literal_end(s, key + PATH_KEY@.len());
    }
}

/// The paths from `from` on whose state is `VIEWED`, in order. The state of a path is the first
/// one that is told after it.
pub open spec fn viewed_from(s: Seq<char>, from: int) -> Seq<Seq<char>>
    decreases s.len() - from,
    when 0 <= from
{
    match path_from(s, from) {
        Some((start, end)) => {
            proof {
                lemma_path_from(s, from);
            }
            let here = if state_from(s, end) == Some("VIEWED"@) {
                seq![unescaped(s.subrange(start, end))]
            } else {
                Seq::empty()
            };
            here + viewed_from(s, end)
        },
        None => Seq::empty(),
    }
}

/// The viewed files that an answer tells of, each once.
pub open spec fn viewed_list(response: Seq<char>) -> Seq<Seq<char>> {
    first_occurrences(viewed_from(response, 0))
}

/// Reads the paths of the viewed files from the answer, each once.
pub fn viewed_files_in(response: &str) -> (r: Vec<String>)
    ensures
        texts(r@) == viewed_list(response@),
{
    let chars = to_chars(response);
    let path_key = to_chars(PATH_KEY);
    let state_key = to_chars(STATE_KEY);
    let quote = vec!['"'];
    assert(quote@ =~= seq!['"']);
    let len = chars.len();
    let mut viewed: Vec<String> = Vec::new();
    let mut from: usize = 0;
    let ghost mut found: Seq<Seq<char>> = Seq::empty();
    assert(texts(viewed@) =~= first_occurrences(found));
    assert(found + viewed_from(response@, 0) =~= viewed_from(response@, 0));
    loop
        invariant
            chars@ == response@,
            path_key@ == PATH_KEY@,
            state_key@ == STATE_KEY@,
            quote@ == seq!['"'],
            len == chars@.len(),
            from <= len,
            texts(viewed@) == first_occurrences(found),
            found + viewed_from(response@, from as int) == viewed_from(response@, 0),
        ensures
            texts(viewed@) == first_occurrences(viewed_from(response@, 0)),
        decreases len - from,
    {
        proof {
            lemma_path_from(response@, from as int);
        }
        let start = match find_from(&chars, &path_key, from) {
            Some(key) => key + path_key.len(),
            None => {
                assert(found + viewed_from(response@, from as int) =~= found);
                break ;
            },
        };
        let end = match find_literal_end(&chars, start) {
            Some(end) => end,
            None => {
                assert(found + viewed_from(response@, from as int) =~= found);
                break ;
            },
        };
        assert(path_from(response@, from as int) == Some((start as int, end as int)));
        let is_viewed = match find_from(&chars, &state_key, end) {
            Some(key) => match find_from(&chars, &quote, key + state_key.len()) {
                Some(state_end) => same_text(
                    from_chars(&chars, key + state_key.len(), state_end).as_str(),
                    "VIEWED",
                ),
                None => false,
            },
            None => false,
        };
        assert(is_viewed == (state_from(response@, end as int) == Some("VIEWED"@)));
        let ghost rest = viewed_from(response@, end as int);
        if is_viewed {
            let path = unescape(vstd::slice::slice_subrange(&chars, start, end));
            let ghost text = path@;
            assert(found.push(text).drop_last() =~= found);
            if !holds(&viewed, &path) {
                let ghost was = texts(viewed@);
                viewed.push(path);
                assert(texts(viewed@) =~= was.push(text));
            }
            assert(found.push(text) + rest =~= found + (seq![text] + rest));
            proof {
                found = found.push(text);
            }
        } else {
            assert(found + rest =~= found + (Seq::<Seq<char>>::empty() + rest));
        }
        from = end;
    }
    viewed
}

/// The viewed files that the outcome of the query tells of, or what went wrong.
pub fn viewed_reply(outcome: CommandOutcome) -> (r: Result<Vec<String>, String>)
    ensures
        match command_output(
            outcome,
            "Failed to run gh api graphql: "@,
            "gh api graphql failed: "@,
        ) {
            Ok(response) => r matches Ok(files) && texts(files@) == viewed_list(response),
            Err(e) => r matches Err(message) && message@ == e,
        },
        plain_output(outcome) matches Some(response) ==> r matches Ok(files) && texts(files@)
            == viewed_list(response),
        plain_error(outcome) matches Some(text) ==> r matches Err(message) && message@
            == "gh api graphql failed: "@ + trimmed(text),
{
    match graphql_reply(outcome) {
        Ok(response) => Ok(viewed_files_in(response.as_str())),
        Err(message) => Err(message),
    }
}

// ---------------------------------------------------------------------------------------------
// Laws
// ---------------------------------------------------------------------------------------------

/// A file in the answer: its path, how the answer writes the path, and its viewed state.
pub struct AnsweredFile {
    pub path: Seq<char>,
    pub notation: Seq<char>,
    pub state: Seq<char>,
}

/// How the answer tells of a file.
pub open spec fn file_entry(file: AnsweredFile) -> Seq<char> {
    "{\"path\":\""@ + file.notation + "\",\"viewerViewedState\":\""@ + file.state + "\"}"@
}

/// How the answer tells of files: one entry after the other, with commas between them.
pub open spec fn file_entries(files: Seq<AnsweredFile>) -> Seq<char>
    decreases files.len(),
{
    if files.len() == 0 {
        Seq::empty()
    } else if files.len() == 1 {
        file_entry(files[0])
    } else {
        file_entry(files[0]) + seq![','] + file_entries(files.drop_first())
    }
}

/// One answer: some of the files, and whether and from which cursor on there are more.
pub struct AnsweredPage {
    pub more: bool,
    pub cursor: Option<Seq<char>>,
    pub files: Seq<AnsweredFile>,
}

/// How an answer tells of a cursor. The answer without files has none.
pub open spec fn cursor_entry(cursor: Option<Seq<char>>) -> Seq<char> {
    match cursor {
        Some(cursor) => "\""@ + cursor + "\"},\"nodes\":["@,
        None => "null},\"nodes\":["@,
    }
}

/// What stands in an answer before its files.
pub open spec fn page_head(page: AnsweredPage) -> Seq<char> {
    "{\"data\":{\"repository\":{\"pullRequest\":{\"files\":{\"pageInfo\":{\"hasNextPage\":"@ + (
    if page.more {
        "true,\"endCursor\":"@
    } else {
        "false,\"endCursor\":"@
    }) + cursor_entry(page.cursor)
}

/// The answer that is a page.
pub open spec fn page_answer(page: AnsweredPage) -> Seq<char> {
    page_head(page) + file_entries(page.files) + "]}}}}}"@
}

/// The answers that are pages, each followed by `joint`.
pub open spec fn pages_answer(pages: Seq<AnsweredPage>, joint: Seq<char>) -> Seq<char>
    decreases pages.len(),
{
    if pages.len() == 0 {
        Seq::empty()
    } else {
        page_answer(pages[0]) + joint + pages_answer(pages.drop_first(), joint)
    }
}

/// The files of all pages, in order.
pub open spec fn answered_files(pages: Seq<AnsweredPage>) -> Seq<AnsweredFile>
    decreases pages.len(),
{
    if pages.len() == 0 {
        Seq::empty()
    } else {
        pages[0].files + answered_files(pages.drop_first())
    }
}

/// Whether an answer tells of its files as JSON does, and of a cursor without quotation marks.
pub open spec fn page_well_written(page: AnsweredPage) -> bool {
    &&& forall|i: int| 0 <= i < page.files.len() ==> well_written(#[trigger] page.files[i])
    &&& page.cursor matches Some(cursor) ==> !cursor.contains('"')
}

/// The paths of the files whose state is `VIEWED`, in order.
pub open spec fn viewed_paths(files: Seq<AnsweredFile>) -> Seq<Seq<char>>
    decreases files.len(),
{
    if files.len() == 0 {
        Seq::empty()
    } else {
        let rest = viewed_paths(files.drop_first());
        if files[0].state == "VIEWED"@ {
            seq![files[0].path] + rest
        } else {
            rest
        }
    }
}

/// Whether the answer tells of a file as JSON does: the notation of the path can stand between
/// quotation marks and is read as the path, and the state is a word without quotation marks.
pub open spec fn well_written(file: AnsweredFile) -> bool {
    &&& is_literal(file.notation)
    &&& unescaped(file.notation) == file.path
    &&& !file.state.contains('"')
}

/// The quotation mark after a text without one.
proof fn lemma_closing_quote(s: Seq<char>, from: int, text: Seq<char>)
    requires
        0 <= from,
        from + text.len() < s.len(),
        s.subrange(from, from + text.len()) == text,
        !text.contains('"'),
        s[from + text.len()] == '"',
    ensures
        quote_from(s, from) == Some(from + text.len()),
{
    let at = from + text.len();
    assert(s.subrange(at, at + 1) =~= seq!['"']);
    assert forall|j: int| from <= j < at implies !#[trigger] occurs_at(s, seq!['"'], j) by {
        assert(s[j] == text[j - from]);
        assert(text.contains(text[j - from]));
        if occurs_at(s, seq!['"'], j) {
            assert(s.subrange(j, j + 1)[0] == '"');
        }
    }
    lemma_first_position(s, seq!['"'], from, at);
}

/// Where the path of an entry at `at` ends.
spec fn path_end(at: int, file: AnsweredFile) -> int {
    at + 9 + file.notation.len()
}

/// Where the state of an entry at `at` begins.
spec fn state_start(at: int, file: AnsweredFile) -> int {
    path_end(at, file) + 23
}

/// What stands where in an entry.
proof fn lemma_entry_layout(s: Seq<char>, at: int, file: AnsweredFile)
    requires
        occurs_at(s, file_entry(file), at),
    ensures
        s[at] == '{',
        occurs_at(s, PATH_KEY@, at + 1),
        s.subrange(at + 9, path_end(at, file)) == file.notation,
        s[path_end(at, file)] == '"',
        s[path_end(at, file) + 1] == ',',
        occurs_at(s, STATE_KEY@, path_end(at, file) + 2),
        s.subrange(state_start(at, file), state_start(at, file) + file.state.len()) == file.state,
        s[state_start(at, file) + file.state.len()] == '"',
        s[state_start(at, file) + file.state.len() + 1] == '}',
        file_entry(file).len() == 34 + file.notation.len() + file.state.len(),
{
    reveal_strlit("\"path\":\"");
    reveal_strlit("{\"path\":\"");
    reveal_strlit("\"viewerViewedState\":\"");
    reveal_strlit("\",\"viewerViewedState\":\"");
    reveal_strlit("\"}");
    let entry = file_entry(file);
    assert forall|k: int| 0 <= k < entry.len() implies s[at + k] == #[trigger] entry[k] by {
        assert(s.subrange(at, at + entry.len())[k] == entry[k]);
    }
    let p: int = file.notation.len() as int;
    let q: int = file.state.len() as int;
    assert(s[at] == entry[0]);
    assert(s.subrange(at + 1, at + 9) =~= PATH_KEY@) by {
        assert forall|k: int| 0 <= k < 8 implies s[at + 1 + k] == #[trigger] PATH_KEY@[k] by {
            assert(entry[1 + k] == "{\"path\":\""@[1 + k]);
        }
    }
    assert(s.subrange(at + 9, at + 9 + p) =~= file.notation) by {
        assert forall|k: int| 0 <= k < p implies s[at + 9 + k] == #[trigger] file.notation[k] by {
            assert(entry[9 + k] == file.notation[k]);
        }
    }
    assert(s[at + 9 + p] == entry[9 + p]);
    assert(s[at + 10 + p] == entry[10 + p]);
    assert(s.subrange(at + 11 + p, at + 32 + p) =~= STATE_KEY@) by {
        assert forall|k: int| 0 <= k < 21 implies s[at + 11 + p + k] == #[trigger] STATE_KEY@[k] by {
            assert(entry[11 + p + k] == "\",\"viewerViewedState\":\""@[2 + k]);
        }
    }
    assert(s.subrange(at + 32 + p, at + 32 + p + q) =~= file.state) by {
        assert forall|k: int| 0 <= k < q implies s[at + 32 + p + k] == #[trigger] file.state[k] by {
            assert(entry[32 + p + k] == file.state[k]);
        }
    }
    assert(s[at + 32 + p + q] == entry[32 + p + q]);
    assert(s[at + 33 + p + q] == entry[33 + p + q]);
}

/// No path is told between the end of the path of an entry and the end of the entry.
proof fn lemma_no_path_behind_path(s: Seq<char>, at: int, file: AnsweredFile, j: int)
    requires
        occurs_at(s, file_entry(file), at),
        well_written(file),
        path_end(at, file) <= j < at + file_entry(file).len(),
    ensures
        !occurs_at(s, PATH_KEY@, j),
{
    lemma_entry_layout(s, at, file);
    reveal_strlit("\"path\":\"");
    reveal_strlit("\"viewerViewedState\":\"");
    let e = path_end(at, file);
    let q = state_start(at, file);
    let n = file.state.len();
    assert forall|k: int| 0 <= k < 21 implies s[e + 2 + k] == #[trigger] STATE_KEY@[k] by {
        assert(s.subrange(e + 2, e + 23)[k] == STATE_KEY@[k]);
    }
    assert forall|k: int| 0 <= k < n implies #[trigger] s[q + k] != '"' by {
        assert(s.subrange(q, q + n)[k] == file.state[k]);
        assert(file.state.contains(file.state[k]));
    }
    if occurs_at(s, PATH_KEY@, j) {
        let found = s.subrange(j, j + 8);
        assert(found[0] == s[j] && found[1] == s[j + 1] && found[2] == s[j + 2] && found[3] == s[j
            + 3] && found[4] == s[j + 4] && found[5] == s[j + 5] && found[6] == s[j + 6]);
        if e + 2 <= j < q {
            assert(STATE_KEY@[j - e - 2] == '"');
            if j < q - 1 {
                assert(s[j + 1] == STATE_KEY@[j + 1 - e - 2]);
                assert(false);
            } else {
                assert(n >= 4) by {
                    assert(n != 0 && n != 1 && n != 2 && n != 3);
                }
                if n > 4 {
                    assert(s[q + 4] != '"');
                }
                assert(false);
            }
        } else if q <= j < q + n {
            assert(s[q + (j - q)] != '"');
        }
    }
}

/// A key does not stand where its first letters do not.
proof fn lemma_no_key(s: Seq<char>, j: int)
    requires
        0 <= j,
        ({
            ||| j < s.len() && s[j] != '"'
            ||| j + 1 < s.len() && s[j + 1] != 'p'
            ||| j + 2 < s.len() && s[j + 2] != 'a'
            ||| j + 3 < s.len() && s[j + 3] != 't'
        }),
    ensures
        !occurs_at(s, PATH_KEY@, j),
{
    reveal_strlit("\"path\":\"");
    if occurs_at(s, PATH_KEY@, j) {
        let found = s.subrange(j, j + 8);
        assert(found[0] == s[j] && found[1] == s[j + 1] && found[2] == s[j + 2] && found[3] == s[j
            + 3]);
    }
}

/// The characters of a text that stands in another.
proof fn lemma_chars_of(s: Seq<char>, text: Seq<char>, at: int)
    requires
        occurs_at(s, text, at),
    ensures
        forall|k: int| 0 <= k < text.len() ==> s[at + k] == #[trigger] text[k],
        forall|j: int| at <= j < at + text.len() ==> #[trigger] s[j] == text[j - at],
{
    assert forall|k: int| 0 <= k < text.len() implies s[at + k] == #[trigger] text[k] by {
        assert(s.subrange(at, at + text.len())[k] == text[k]);
    }
    assert forall|j: int| at <= j < at + text.len() implies #[trigger] s[j] == text[j - at] by {
        assert(s[at + (j - at)] == text[j - at]);
    }
}

/// Two texts that stand one after the other.
proof fn lemma_both_stand(s: Seq<char>, first: Seq<char>, second: Seq<char>, at: int)
    requires
        occurs_at(s, first + second, at),
    ensures
        occurs_at(s, first, at),
        occurs_at(s, second, at + first.len()),
{
    lemma_chars_of(s, first + second, at);
    assert forall|k: int| 0 <= k < first.len() implies s[at + k] == #[trigger] first[k] by {
        assert((first + second)[k] == first[k]);
    }
    assert forall|k: int| 0 <= k < second.len() implies s[at + first.len() + k]
        == #[trigger] second[k] by {
        assert((first + second)[first.len() + k] == second[k]);
    }
    assert(s.subrange(at, at + first.len()) =~= first);
    assert(s.subrange(at + first.len(), at + first.len() + second.len()) =~= second);
}

/// No path is told in a quoted text that a closing brace follows.
proof fn lemma_no_key_in_quoted(s: Seq<char>, at: int, text: Seq<char>, j: int)
    requires
        occurs_at(s, "\""@ + text + "\"},\"nodes\":["@, at),
        !text.contains('"'),
        at <= j < at + text.len() + 13,
    ensures
        !occurs_at(s, PATH_KEY@, j),
{
    reveal_strlit("\"");
    reveal_strlit("\"},\"nodes\":[");
    reveal_strlit("\"path\":\"");
    lemma_both_stand(s, "\""@ + text, "\"},\"nodes\":["@, at);
    lemma_both_stand(s, "\""@, text, at);
    lemma_chars_of(s, "\""@, at);
    lemma_chars_of(s, text, at + 1);
    let n = text.len();
    let close = at + 1 + n;
    lemma_chars_of(s, "\"},\"nodes\":["@, close);
    assert forall|k: int| at < k < close implies #[trigger] s[k] != '"' by {
        assert(s[k] == text[k - at - 1]);
        assert(text.contains(text[k - at - 1]));
    }
    if j == at {
        if occurs_at(s, PATH_KEY@, j) {
            let found = s.subrange(j, j + 8);
            assert(found[1] == s[j + 1] && found[2] == s[j + 2] && found[3] == s[j + 3] && found[4]
                == s[j + 4] && found[5] == s[j + 5] && found[6] == s[j + 6]);
            assert(s[close] == '"' && s[close + 1] == '}');
            if n > 4 {
                assert(s[at + 5] != '"');
            } else {
                assert(n == 0 || n == 1 || n == 2 || n == 3 || n == 4);
            }
            assert(false);
        }
    } else {
        lemma_no_key(s, j);
    }
}

/// No path is told before the files of an answer.
proof fn lemma_no_key_in_head(s: Seq<char>, at: int, page: AnsweredPage, j: int)
    requires
        occurs_at(s, page_head(page), at),
        page_well_written(page),
        at <= j < at + page_head(page).len(),
    ensures
        !occurs_at(s, PATH_KEY@, j),
{
    let opening =
        "{\"data\":{\"repository\":{\"pullRequest\":{\"files\":{\"pageInfo\":{\"hasNextPage\":"@;
    let answer = if page.more {
        "true,\"endCursor\":"@
    } else {
        "false,\"endCursor\":"@
    };
    let cursor = cursor_entry(page.cursor);
    lemma_both_stand(s, opening + answer, cursor, at);
    lemma_both_stand(s, opening, answer, at);
    lemma_chars_of(s, opening, at);
    lemma_chars_of(s, answer, at + opening.len());
    let middle = at + opening.len();
    let last = middle + answer.len();
    if j < middle {
        reveal_strlit(
            "{\"data\":{\"repository\":{\"pullRequest\":{\"files\":{\"pageInfo\":{\"hasNextPage\":",
        );
        assert(s[j] == opening[j - at]);
        if j + 1 < middle {
            assert(s[j + 1] == opening[j + 1 - at]);
        }
        if j + 2 < middle {
            assert(s[j + 2] == opening[j + 2 - at]);
        }
        if j + 3 < middle {
            assert(s[j + 3] == opening[j + 3 - at]);
        }
        lemma_no_key(s, j);
    } else if j < last {
        reveal_strlit("true,\"endCursor\":");
        reveal_strlit("false,\"endCursor\":");
        assert(s[j] == answer[j - middle]);
        if j + 1 < last {
            assert(s[j + 1] == answer[j + 1 - middle]);
        }
        lemma_no_key(s, j);
    } else {
        match page.cursor {
            Some(text) => {
                reveal_strlit("\"");
                reveal_strlit("\"},\"nodes\":[");
                assert("\""@.len() == 1 && "\"},\"nodes\":["@.len() == 12);
                lemma_no_key_in_quoted(s, last as int, text, j);
            },
            None => {
                reveal_strlit("null},\"nodes\":[");
                lemma_chars_of(s, cursor, last as int);
                assert(s[j] == cursor[j - last]);
                if j + 1 < last + cursor.len() {
                    assert(s[j + 1] == cursor[j + 1 - last]);
                }
                lemma_no_key(s, j);
            },
        }
    }
}

/// Scanning finds the paths of the viewed files among entries, and then goes on from a place from
/// which on the entries tell of no more paths.
proof fn lemma_scan_entries(s: Seq<char>, from: int, at: int, files: Seq<AnsweredFile>) -> (end:
    int)
    requires
        0 <= from <= at,
        occurs_at(s, file_entries(files), at),
        forall|i: int| 0 <= i < files.len() ==> well_written(#[trigger] files[i]),
        forall|j: int| from <= j < at ==> !#[trigger] occurs_at(s, PATH_KEY@, j),
    ensures
        from <= end <= at + file_entries(files).len(),
        viewed_from(s, from) == viewed_paths(files) + viewed_from(s, end),
        forall|j: int|
            end <= j < at + file_entries(files).len() ==> !#[trigger] occurs_at(s, PATH_KEY@, j),
    decreases files.len(),
{
    reveal_strlit("\"path\":\"");
    reveal_strlit("\"viewerViewedState\":\"");
    if files.len() == 0 {
        assert(viewed_paths(files) + viewed_from(s, from) =~= viewed_from(s, from));
        from
    } else {
        let file = files[0];
        let rest = files.drop_first();
        let entry = file_entry(file);
        let next = if files.len() == 1 {
            at + entry.len()
        } else {
            at + entry.len() + 1
        };
        if files.len() == 1 {
            assert(rest =~= Seq::<AnsweredFile>::empty());
            assert(s.subrange(next, next) =~= file_entries(rest));
        } else {
            lemma_both_stand(s, entry + seq![','], file_entries(rest), at);
            lemma_both_stand(s, entry, seq![','], at);
            lemma_chars_of(s, seq![','], at + entry.len());
            assert(s[at + entry.len() + 0] == seq![','][0]);
        }
        lemma_entry_layout(s, at, file);
        let e = path_end(at, file);
        let q = state_start(at, file);
        lemma_no_key(s, at);
        lemma_first_position(s, PATH_KEY@, from, at + 1);
        lemma_literal_stands(s, at + 9, file.notation);
        assert(path_from(s, from) == Some((at + 9, e)));
        assert(!occurs_at(s, STATE_KEY@, e)) by {
            if occurs_at(s, STATE_KEY@, e) {
                assert(s.subrange(e, e + 21)[1] == s[e + 1]);
            }
        }
        assert(!occurs_at(s, STATE_KEY@, e + 1)) by {
            if occurs_at(s, STATE_KEY@, e + 1) {
                assert(s.subrange(e + 1, e + 22)[0] == s[e + 1]);
            }
        }
        lemma_first_position(s, STATE_KEY@, e, e + 2);
        lemma_closing_quote(s, q, file.state);
        assert(state_from(s, e) == Some(file.state));
        assert forall|j: int| e <= j < next implies !#[trigger] occurs_at(s, PATH_KEY@, j) by {
            if j < at + entry.len() {
                lemma_no_path_behind_path(s, at, file, j);
            } else {
                lemma_no_key(s, j);
            }
        }
        assert forall|i: int| 0 <= i < rest.len() implies well_written(#[trigger] rest[i]) by {
            assert(rest[i] == files[i + 1]);
        }
        let end = lemma_scan_entries(s, e, next, rest);
        let here = if file.state == "VIEWED"@ {
            seq![file.path]
        } else {
            Seq::empty()
        };
        assert(viewed_paths(files) =~= here + viewed_paths(rest));
        assert(viewed_from(s, from) =~= here + viewed_from(s, e));
        assert(here + (viewed_paths(rest) + viewed_from(s, end)) =~= here + viewed_paths(rest)
            + viewed_from(s, end));
        end
    }
}

/// The viewed files of two lists are those of the first and then those of the second.
proof fn lemma_viewed_paths_join(first: Seq<AnsweredFile>, second: Seq<AnsweredFile>)
    ensures
        viewed_paths(first + second) == viewed_paths(first) + viewed_paths(second),
    decreases first.len(),
{
    if first.len() == 0 {
        assert(first + second =~= second);
        assert(viewed_paths(first) + viewed_paths(second) =~= viewed_paths(second));
    } else {
        assert((first + second).drop_first() =~= first.drop_first() + second);
        lemma_viewed_paths_join(first.drop_first(), second);
        assert(viewed_paths(first + second) =~= viewed_paths(first) + viewed_paths(second));
    }
}

/// Scanning finds the paths of the viewed files of all pages.
proof fn lemma_scan_pages(
    s: Seq<char>,
    from: int,
    at: int,
    pages: Seq<AnsweredPage>,
    joint: Seq<char>,
)
    requires
        0 <= from <= at <= s.len(),
        s.skip(at) == pages_answer(pages, joint),
        !joint.contains('"'),
        forall|i: int| 0 <= i < pages.len() ==> page_well_written(#[trigger] pages[i]),
        forall|j: int| from <= j < at ==> !#[trigger] occurs_at(s, PATH_KEY@, j),
    ensures
        viewed_from(s, from) == viewed_paths(answered_files(pages)),
    decreases pages.len(),
{
    let tail = s.skip(at);
    if pages.len() == 0 {
        reveal_strlit("\"path\":\"");
        assert(at == s.len());
        lemma_position_from(s, PATH_KEY@, from);
    } else {
        let page = pages[0];
        let rest = pages.drop_first();
        let closing = "]}}}}}"@;
        let head = page_head(page);
        let entries = file_entries(page.files);
        let later = pages_answer(rest, joint);
        assert(occurs_at(s, page_answer(page) + joint + later, at)) by {
            assert(s.subrange(at, s.len() as int) =~= tail);
        }
        lemma_both_stand(s, page_answer(page) + joint, later, at);
        lemma_both_stand(s, page_answer(page), joint, at);
        lemma_both_stand(s, head + entries, closing, at);
        lemma_both_stand(s, head, entries, at);
        let inside = at + head.len();
        let behind = inside + entries.len();
        let next = behind + closing.len() + joint.len();
        assert forall|j: int| from <= j < inside implies !#[trigger] occurs_at(
            s,
            PATH_KEY@,
            j,
        ) by {
            if j >= at {
                lemma_no_key_in_head(s, at, page, j);
            }
        }
        let end = lemma_scan_entries(s, from, inside as int, page.files);
        lemma_chars_of(s, closing, behind as int);
        lemma_chars_of(s, joint, behind + closing.len());
        assert forall|j: int| end <= j < next implies !#[trigger] occurs_at(s, PATH_KEY@, j) by {
            if j >= behind {
                reveal_strlit("]}}}}}");
                if j < behind + closing.len() {
                    assert(s[j] == closing[j - behind]);
                } else {
                    assert(s[j] == joint[j - behind - closing.len()]);
                    assert(joint.contains(joint[j - behind - closing.len()]));
                }
                lemma_no_key(s, j);
            }
        }
        assert(s.skip(next as int) =~= later);
        assert forall|i: int| 0 <= i < rest.len() implies page_well_written(#[trigger] rest[i]) by {
            assert(rest[i] == pages[i + 1]);
        }
        lemma_scan_pages(s, end, next as int, rest, joint);
        lemma_viewed_paths_join(page.files, answered_files(rest));
    }
}

/// Of answers that tell of all files page by page, the scan finds the paths of the files whose
/// state is `VIEWED`, and no others, in order, however many pages there are and however JSON writes
/// the paths.
pub proof fn law_scan_finds_viewed_files(pages: Seq<AnsweredPage>, joint: Seq<char>)
    requires
        forall|i: int| 0 <= i < pages.len() ==> page_well_written(#[trigger] pages[i]),
        !joint.contains('"'),
    ensures
        viewed_from(pages_answer(pages, joint), 0) == viewed_paths(answered_files(pages)),
{
    let s = pages_answer(pages, joint);
    assert(s.skip(0) =~= s);
    lemma_scan_pages(s, 0, 0, pages, joint);
}

/// A file with any path can be told of: its escaped path is a notation of it.
pub proof fn law_every_path_can_be_told(path: Seq<char>, state: Seq<char>)
    requires
        !state.contains('"'),
    ensures
        well_written(AnsweredFile { path, notation: escaped(path), state }),
{
    law_escaped_text_reads_back(path);
}

proof fn lemma_viewed_paths(files: Seq<AnsweredFile>, path: Seq<char>)
    ensures
        viewed_paths(files).contains(path) <==> exists|i: int|
            0 <= i < files.len() && (#[trigger] files[i]).path == path && files[i].state
                == "VIEWED"@,
    decreases files.len(),
{
    if files.len() > 0 {
        let rest = files.drop_first();
        let all = viewed_paths(files);
        let later = viewed_paths(rest);
        lemma_viewed_paths(rest, path);
        let here = if files[0].state == "VIEWED"@ {
            seq![files[0].path]
        } else {
            Seq::empty()
        };
        assert(all =~= here + later);
        if all.contains(path) {
            let k = choose|k: int| 0 <= k < all.len() && all[k] == path;
            if k < here.len() {
                assert(files[0].path == path);
            } else {
                assert(later[k - here.len()] == path);
                assert(later.contains(path));
                let i = choose|i: int|
                    0 <= i < rest.len() && (#[trigger] rest[i]).path == path && rest[i].state
                        == "VIEWED"@;
                assert(files[i + 1] == rest[i]);
            }
        }
        if exists|i: int|
            0 <= i < files.len() && (#[trigger] files[i]).path == path && files[i].state
                == "VIEWED"@ {
            let i = choose|i: int|
                0 <= i < files.len() && (#[trigger] files[i]).path == path && files[i].state
                    == "VIEWED"@;
            if i == 0 {
                assert(all[0] == path);
            } else {
                assert(rest[i - 1] == files[i]);
                assert(later.contains(path));
                let k = choose|k: int| 0 <= k < later.len() && later[k] == path;
                assert(all[here.len() + k] == path);
            }
        }
    }
}

/// The files that are read from the answers are exactly those that are marked as viewed, each of
/// them once, however many files the pull request has and whatever their paths hold.
pub proof fn law_viewed_files_are_those_marked(pages: Seq<AnsweredPage>, joint: Seq<char>)
    requires
        forall|i: int| 0 <= i < pages.len() ==> page_well_written(#[trigger] pages[i]),
        !joint.contains('"'),
    ensures
        ({
            let found = viewed_list(pages_answer(pages, joint));
            let files = answered_files(pages);
            &&& found.no_duplicates()
            &&& forall|path: Seq<char>| #[trigger]
                found.contains(path) <==> exists|i: int|
                    0 <= i < files.len() && (#[trigger] files[i]).path == path && files[i].state
                        == "VIEWED"@
        }),
{
    law_scan_finds_viewed_files(pages, joint);
    let files = answered_files(pages);
    let found = first_occurrences(viewed_paths(files));
    law_first_occurrences(viewed_paths(files));
    assert forall|path: Seq<char>| #[trigger] found.contains(path) <==> exists|i: int|
        0 <= i < files.len() && (#[trigger] files[i]).path == path && files[i].state
            == "VIEWED"@ by {
        lemma_viewed_paths(files, path);
    }
}

/// A mutation names the pull request and the file that it is made for, between quotation marks, and
/// reads back to them.
pub proof fn law_mutation_names_its_file(
    name: Seq<char>,
    node_id: Seq<char>,
    path: Seq<char>,
)
    ensures
        file_mutation(name, node_id, path) == ("mutation { "@ + name) + (
        "(input: { pullRequestId: \""@ + escaped(node_id)) + ("\", path: \""@ + escaped(path))
            + "\" }) { clientMutationId } }"@,
        unescaped(escaped(node_id)) == node_id && is_literal(escaped(node_id)),
        unescaped(escaped(path)) == path && is_literal(escaped(path)),
{
    law_escaped_text_reads_back(node_id);
    law_escaped_text_reads_back(path);
    assert(file_mutation(name, node_id, path) =~= ("mutation { "@ + name) + (
    "(input: { pullRequestId: \""@ + escaped(node_id)) + ("\", path: \""@ + escaped(path))
        + "\" }) { clientMutationId } }"@);
}

/// The query names the owner, the repository and the number of the pull request, and asks for the
/// files from a cursor on, with the next cursor, their paths and their states.
pub proof fn law_viewed_query_names_pull_request(owner: Seq<char>, name: Seq<char>, number: nat)
    ensures
        viewed_query(owner, name, number) == ("query($endCursor: String) { repository(owner: \""@
            + owner) + ("\", name: \""@ + name) + ("\") { pullRequest(number: "@ + decimal(
            number,
        ))
            + ") { files(first: 100, after: $endCursor) { pageInfo { hasNextPage endCursor } nodes { path viewerViewedState } } } } }"@,
{
    assert(viewed_query(owner, name, number) =~= (
    "query($endCursor: String) { repository(owner: \""@ + owner) + ("\", name: \""@ + name) + (
    "\") { pullRequest(number: "@ + decimal(number))
        + ") { files(first: 100, after: $endCursor) { pageInfo { hasNextPage endCursor } nodes { path viewerViewedState } } } } }"@);
}

} // verus!
