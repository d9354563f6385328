//! Which pull request is meant, what GitHub tells of it, and how it is described to others.

use vstd::prelude::*;

use crate::command::{
    command_output, graphql_args, graphql_reply, law_output_is_what_was_written, plain_error,
    plain_output, CommandOutcome,
};
use crate::content::{lossy_text, text_or_message, utf8_lossy};
use crate::json::{
    below, json_document, json_is_null, json_member, law_text_stands_at_its_path, member_text,
    optional_text, parse_json, text_below,
};
use crate::pr_load::{full_name, repo_full_name};
use crate::text::{
    decimal, find_from, find_name, from_chars, has_prefix, has_text, is_digit,
    law_contained_text_has_surroundings, law_number_of_decimal, lemma_decimal_digits, lemma_first_position, lemma_name_position,
    lemma_piece_stands, lemma_pieces_count, lemma_pieces_last, lemma_pieces_pair, lemma_pieces_single,
    lemma_position_from, name_position, number, occurs_at, parse_u64, pieces, position_from,
    split_at_char, stands_at, texts, to_chars, to_decimal, trim, trim_end_char, trim_start_char,
    trimmed, without_leading, without_trailing,
};
use crate::types::PrInfo;

verus! {

// ---------------------------------------------------------------------------------------------
// Which pull request is meant
// ---------------------------------------------------------------------------------------------

/// Whether a text is a web address.
pub open spec fn is_url(s: Seq<char>) -> bool {
    occurs_at(s, "http://"@, 0) || occurs_at(s, "https://"@, 0)
}

/// The pull request that the pieces of a web address name: the number after the first `pull`, and
/// the owner and the repository before it.
pub open spec fn pull_in(parts: Seq<Seq<char>>) -> Option<
    (Option<Seq<char>>, Option<Seq<char>>, u64),
> {
    match name_position(parts, "pull"@, 0) {
        Some(pos) => if pos + 1 < parts.len() {
            match number(parts[pos + 1]) {
                Some(n) => if pos >= 2 {
                    Some((Some(parts[pos - 2]), Some(parts[pos - 1]), n))
                } else {
                    Some((None, None, n))
                },
                None => None,
            }
        } else {
            None
        },
        None => None,
    }
}

/// The pull request that a text names: a web address such as
/// `https://github.com/owner/repo/pull/123`, or a number.
pub open spec fn pull_request(s: Seq<char>) -> Option<(Option<Seq<char>>, Option<Seq<char>>, u64)> {
    if is_url(s) {
        pull_in(pieces(without_trailing(s, '/'), '/'))
    } else {
        match number(s) {
            Some(n) => Some((None, None, n)),
            None => None,
        }
    }
}

/// The view of a named pull request.
pub open spec fn named(r: Option<(Option<String>, Option<String>, u64)>) -> Option<
    (Option<Seq<char>>, Option<Seq<char>>, u64),
> {
    match r {
        Some((owner, repo, n)) => Some((optional_text(owner), optional_text(repo), n)),
        None => None,
    }
}

/// Reads which pull request a text names, with owner and repository where it tells them.
pub fn parse_pr_input(input: &str) -> (r: Option<(Option<String>, Option<String>, u64)>)
    ensures
        named(r) == pull_request(input@),
{
    if has_prefix(input, "http://") || has_prefix(input, "https://") {
        let parts = split_at_char(&trim_end_char(&to_chars(input), '/'), '/');
        match find_name(&parts, "pull") {
            Some(pos) => {
                if parts.len() - pos > 1 {
                    assert(texts(parts@)[pos + 1] == parts@[pos + 1]@);
                    match parse_u64(parts[pos + 1].as_str()) {
                        Some(n) => {
                            if pos >= 2 {
                                assert(texts(parts@)[pos - 2] == parts@[pos - 2]@);
                                assert(texts(parts@)[pos - 1] == parts@[pos - 1]@);
                                Some((Some(parts[pos - 2].clone()), Some(parts[pos - 1].clone()), n))
                            } else {
                                Some((None, None, n))
                            }
                        },
                        None => None,
                    }
                } else {
                    None
                }
            },
            None => None,
        }
    } else {
        match parse_u64(input) {
            Some(n) => Some((None, None, n)),
            None => None,
        }
    }
}

// ---------------------------------------------------------------------------------------------
// The repository of the origin
// ---------------------------------------------------------------------------------------------

/// The arguments with which `git` tells the address of the origin.
pub fn origin_args() -> (r: Vec<String>)
    ensures
        texts(r@) == seq!["remote"@, "get-url"@, "origin"@],
{
    let args = vec!["remote".to_string(), "get-url".to_string(), "origin".to_string()];
    assert(texts(args@) =~= seq!["remote"@, "get-url"@, "origin"@]);
    args
}

/// An address without the `.git` at its end.
pub open spec fn without_git(url: Seq<char>) -> Seq<char> {
    if url.len() >= ".git"@.len() && occurs_at(url, ".git"@, url.len() - ".git"@.len()) {
        url.take(url.len() - ".git"@.len())
    } else {
        url
    }
}

/// What stands between the first and the second `pattern`, or after the only one.
pub open spec fn second_part(s: Seq<char>, pattern: Seq<char>) -> Option<Seq<char>> {
    match position_from(s, pattern, 0) {
        Some(i) => match position_from(s, pattern, i + pattern.len()) {
            Some(j) => Some(s.subrange(i + pattern.len(), j)),
            None => Some(s.skip(i + pattern.len())),
        },
        None => None,
    }
}

/// The repository that an address of the origin names, or why it names none.
pub open spec fn origin_repository(address: Seq<char>) -> Result<Seq<char>, Seq<char>> {
    let url = without_git(address);
    match second_part(url, "github.com"@) {
        None => Err("Origin URL is not a GitHub URL: "@ + url),
        Some(path) => {
            let parts = pieces(without_leading(without_leading(path, ':'), '/'), '/');
            if parts.len() >= 2 {
                Ok(full_name(parts[0], parts[1]))
            } else {
                Err("Could not parse owner/repo from origin URL: "@ + url)
            }
        },
    }
}

/// Reads the repository from an address of the origin.
pub fn repo_of_origin(address: &str) -> (r: Result<String, String>)
    ensures
        text_or_message(r) == origin_repository(address@),
{
    let chars = to_chars(address);
    let ending = to_chars(".git");
    let pattern = to_chars("github.com");
    let end = if chars.len() >= ending.len() && stands_at(
        &chars,
        &ending,
        chars.len() - ending.len(),
    ) {
        chars.len() - ending.len()
    } else {
        chars.len()
    };
    let url = from_chars(&chars, 0, end);
    let url_chars = to_chars(url.as_str());
    assert(url@ =~= without_git(address@));
    let path = match find_from(&url_chars, &pattern, 0) {
        Some(i) => {
            let start = i + pattern.len();
            let stop = match find_from(&url_chars, &pattern, start) {
                Some(j) => j,
                None => url_chars.len(),
            };
            let path = vstd::slice::slice_subrange(&url_chars, start, stop);
            assert(second_part(url@, "github.com"@) =~= Some(path@));
            path
        },
        None => {
            let mut message = "Origin URL is not a GitHub URL: ".to_string();
            message.append(url.as_str());
            return Err(message);
        },
    };
    let parts = split_at_char(&trim_start_char(&trim_start_char(path, ':'), '/'), '/');
    assert(texts(parts@).len() == parts@.len());
    if parts.len() >= 2 {
        assert(texts(parts@)[0] == parts@[0]@);
        assert(texts(parts@)[1] == parts@[1]@);
        Ok(repo_full_name(parts[0].as_str(), parts[1].as_str()))
    } else {
        let mut message = "Could not parse owner/repo from origin URL: ".to_string();
        message.append(url.as_str());
        Err(message)
    }
}

/// What `git` told of the origin: its repository, or what is wrong.
pub open spec fn origin_result(outcome: CommandOutcome) -> Result<Seq<char>, Seq<char>> {
    match outcome {
        CommandOutcome::NotRun(e) => Err("Failed to run git: "@ + e@),
        CommandOutcome::Ended { success, stdout, .. } => if success {
            origin_repository(trimmed(lossy_text(stdout@)))
        } else {
            Err("Could not determine repository. Set origin remote or use --origin owner/repo"@)
        },
    }
}

/// Reads the repository of the origin from what `git` told.
pub fn origin_reply(outcome: CommandOutcome) -> (r: Result<String, String>)
    ensures
        text_or_message(r) == origin_result(outcome),
        plain_output(outcome) matches Some(text) ==> text_or_message(r) == origin_repository(
            trimmed(text),
        ),
{
    match outcome {
        CommandOutcome::NotRun(e) => {
            let mut message = "Failed to run git: ".to_string();
            message.append(e.as_str());
            Err(message)
        },
        CommandOutcome::Ended { success, stdout, .. } => {
            if success {
                repo_of_origin(trim(utf8_lossy(&stdout).as_str()).as_str())
            } else {
                Err(
                    "Could not determine repository. Set origin remote or use --origin owner/repo".to_string(),
                )
            }
        },
    }
}

// ---------------------------------------------------------------------------------------------
// The pull request of the current branch
// ---------------------------------------------------------------------------------------------

/// The arguments with which `gh` tells the pull request of the current branch.
pub fn detect_args() -> (r: Vec<String>)
    ensures
        texts(r@) == seq!["pr"@, "view"@, "--json"@, "number"@, "-q"@, ".number"@],
{
    let args = vec![
        "pr".to_string(),
        "view".to_string(),
        "--json".to_string(),
        "number".to_string(),
        "-q".to_string(),
        ".number".to_string(),
    ];
    assert(texts(args@) =~= seq!["pr"@, "view"@, "--json"@, "number"@, "-q"@, ".number"@]);
    args
}

/// The text, or that no pull request was found if it is empty.
pub open spec fn or_missing(text: Seq<char>) -> Seq<char> {
    if text.len() == 0 {
        "No PR found for the current branch"@
    } else {
        text
    }
}

/// What `gh` told of the current branch: the number of its pull request, or what is wrong.
pub open spec fn detected(outcome: CommandOutcome) -> Result<Seq<char>, Seq<char>> {
    match outcome {
        CommandOutcome::NotRun(e) => Err("Failed to run gh: "@ + e@),
        CommandOutcome::Ended { success, stdout, stderr } => if !success {
            Err(or_missing(trimmed(lossy_text(stderr@))))
        } else if trimmed(lossy_text(stdout@)).len() == 0 {
            Err("No PR found for the current branch"@)
        } else {
            Ok(trimmed(lossy_text(stdout@)))
        },
    }
}

/// Reads the number of the pull request of the current branch from what `gh` told.
pub fn detect_reply(outcome: CommandOutcome) -> (r: Result<String, String>)
    ensures
        text_or_message(r) == detected(outcome),
        plain_output(outcome) matches Some(text) ==> text_or_message(r) == if trimmed(text).len()
            == 0 {
            Err("No PR found for the current branch"@)
        } else {
            Ok(trimmed(text))
        },
        plain_error(outcome) matches Some(text) ==> text_or_message(r) == Err::<
            Seq<char>,
            Seq<char>,
        >(or_missing(trimmed(text))),
{
    match outcome {
        CommandOutcome::NotRun(e) => {
            let mut message = "Failed to run gh: ".to_string();
            message.append(e.as_str());
            Err(message)
        },
        CommandOutcome::Ended { success, stdout, stderr } => {
            if !success {
                let message = trim(utf8_lossy(&stderr).as_str());
                if message.as_str().is_empty() {
                    return Err("No PR found for the current branch".to_string());
                }
                return Err(message);
            }
            let number = trim(utf8_lossy(&stdout).as_str());
            if number.as_str().is_empty() {
                return Err("No PR found for the current branch".to_string());
            }
            Ok(number)
        },
    }
}

// ---------------------------------------------------------------------------------------------
// Asking for a pull request
// ---------------------------------------------------------------------------------------------

/// A pull request that is asked for.
pub struct PrQuery {
    pub repo_owner: String,
    pub repo_name: String,
    pub number: u64,
}

/// The view of a pull request that is asked for.
pub struct Query {
    pub repo_owner: Seq<char>,
    pub repo_name: Seq<char>,
    pub number: u64,
}

impl View for PrQuery {
    type V = Query;

    open spec fn view(&self) -> Query {
        Query { repo_owner: self.repo_owner@, repo_name: self.repo_name@, number: self.number }
    }
}

/// What comes after the user has named a pull request.
pub enum AfterInput {
    /// No pull request is named.
    Failed(String),
    /// The repository of the origin is to be found out.
    AskOrigin { number: u64 },
    /// GitHub is to be asked.
    Ask(PrQuery),
}

/// The view of what comes after the user has named a pull request.
pub enum InputStep {
    Failed(Seq<char>),
    AskOrigin(u64),
    Ask(Query),
}

impl View for AfterInput {
    type V = InputStep;

    open spec fn view(&self) -> InputStep {
        match self {
            AfterInput::Failed(message) => InputStep::Failed(message@),
            AfterInput::AskOrigin { number } => InputStep::AskOrigin(*number),
            AfterInput::Ask(query) => InputStep::Ask(query@),
        }
    }
}

/// The pull request `number` of the repository `repo`, which must be of the form `owner/name`.
pub open spec fn query_in(repo: Seq<char>, number: u64) -> Result<Query, Seq<char>> {
    let parts = pieces(repo, '/');
    if parts.len() != 2 {
        Err("Invalid repo format: "@ + repo)
    } else {
        Ok(Query { repo_owner: parts[0], repo_name: parts[1], number })
    }
}

/// The view of a query, or of a message.
pub open spec fn query_or_message(r: Result<PrQuery, String>) -> Result<Query, Seq<char>> {
    match r {
        Ok(query) => Ok(query@),
        Err(message) => Err(message@),
    }
}

/// What comes after the user has named a pull request. A web address tells its own repository;
/// otherwise it is the one that the user chose, and else that of the origin.
pub open spec fn input_step(input: Seq<char>, chosen: Option<Seq<char>>) -> InputStep {
    match pull_request(input) {
        None => InputStep::Failed(
            "Invalid PR reference: "@ + input + ". Use a PR number or URL."@,
        ),
        Some((Some(owner), Some(repo), number)) => match query_in(
            full_name(owner, repo),
            number,
        ) {
            Ok(_) => InputStep::Ask(Query { repo_owner: owner, repo_name: repo, number }),
            Err(message) => InputStep::Failed(message),
        },
        Some((_, _, number)) => match chosen {
            Some(repo) => match query_in(repo, number) {
                Ok(query) => InputStep::Ask(query),
                Err(message) => InputStep::Failed(message),
            },
            None => InputStep::AskOrigin(number),
        },
    }
}

/// The pull request `number` of the repository `repo`.
pub fn query_in_repo(repo: &str, number: u64) -> (r: Result<PrQuery, String>)
    ensures
        query_or_message(r) == query_in(repo@, number),
{
    let parts = split_at_char(&to_chars(repo), '/');
    assert(texts(parts@).len() == parts@.len());
    if parts.len() != 2 {
        let mut message = "Invalid repo format: ".to_string();
        message.append(repo);
        return Err(message);
    }
    assert(texts(parts@)[0] == parts@[0]@);
    assert(texts(parts@)[1] == parts@[1]@);
    Ok(PrQuery { repo_owner: parts[0].clone(), repo_name: parts[1].clone(), number })
}

/// Reads which pull request the user named, and says what comes next.
pub fn after_input(pr_input: &str, repo_override: Option<&str>) -> (r: AfterInput)
    ensures
        r@ == input_step(
            pr_input@,
            match repo_override {
                Some(repo) => Some(repo@),
                None => None,
            },
        ),
{
    match parse_pr_input(pr_input) {
        None => {
            let mut message = "Invalid PR reference: ".to_string();
            message.append(pr_input);
            message.append(". Use a PR number or URL.");
            AfterInput::Failed(message)
        },
        Some((Some(owner), Some(repo), number)) => {
            match query_in_repo(repo_full_name(owner.as_str(), repo.as_str()).as_str(), number) {
                Ok(_) => AfterInput::Ask(PrQuery { repo_owner: owner, repo_name: repo, number }),
                Err(message) => AfterInput::Failed(message),
            }
        },
        Some((_, _, number)) => match repo_override {
            Some(repo) => match query_in_repo(repo, number) {
                Ok(query) => AfterInput::Ask(query),
                Err(message) => AfterInput::Failed(message),
            },
            None => AfterInput::AskOrigin { number },
        },
    }
}

/// What comes after the repository of the origin was found out.
pub open spec fn origin_step(number: u64, origin: Result<Seq<char>, Seq<char>>) -> Result<
    Query,
    Seq<char>,
> {
    match origin {
        Ok(repo) => query_in(repo, number),
        Err(message) => Err(message),
    }
}

/// The pull request `number` of the repository of the origin.
pub fn after_origin(number: u64, origin: Result<String, String>) -> (r: Result<PrQuery, String>)
    ensures
        query_or_message(r) == origin_step(number, text_or_message(origin)),
{
    match origin {
        Ok(repo) => query_in_repo(repo.as_str(), number),
        Err(message) => Err(message),
    }
}

/// The query for a pull request: its node id, its branches, and the owners of its repositories.
pub open spec fn pr_query(query: Query) -> Seq<char> {
    "query { repository(owner: \""@ + query.repo_owner + "\", name: \""@ + query.repo_name
        + "\") { pullRequest(number: "@ + decimal(query.number as nat)
        + ") { id url baseRefName headRefName baseRefOid headRefOid baseRepository { owner { login } } headRepository { nameWithOwner owner { login } } } } }"@
}

impl PrQuery {
    /// The arguments with which `gh` asks for the pull request.
    pub fn args(&self) -> (r: Vec<String>)
        ensures
            texts(r@) == seq!["api"@, "graphql"@, "-f"@, "query="@ + pr_query(self@)],
    {
        let mut query = "query { repository(owner: \"".to_string();
        query.append(self.repo_owner.as_str());
        query.append("\", name: \"");
        query.append(self.repo_name.as_str());
        query.append("\") { pullRequest(number: ");
        query.append(to_decimal(self.number).as_str());
        query.append(
            ") { id url baseRefName headRefName baseRefOid headRefOid baseRepository { owner { login } } headRepository { nameWithOwner owner { login } } } } }",
        );
        graphql_args(query.as_str())
    }
}

// ---------------------------------------------------------------------------------------------
// What GitHub tells
// ---------------------------------------------------------------------------------------------

/// The view of what is known of a pull request.
pub struct Pr {
    pub number: u64,
    pub node_id: Seq<char>,
    pub repo_owner: Seq<char>,
    pub repo_name: Seq<char>,
    pub base_ref: Seq<char>,
    pub head_ref: Seq<char>,
    pub base_commit: Seq<char>,
    pub head_commit: Seq<char>,
    pub base_repo_owner: Seq<char>,
    pub head_repo_owner: Option<Seq<char>>,
    pub head_repo: Option<Seq<char>>,
}

impl View for PrInfo {
    type V = Pr;

    open spec fn view(&self) -> Pr {
        Pr {
            number: self.number,
            node_id: self.node_id@,
            repo_owner: self.repo_owner@,
            repo_name: self.repo_name@,
            base_ref: self.base_ref@,
            head_ref: self.head_ref@,
            base_commit: self.base_commit@,
            head_commit: self.head_commit@,
            base_repo_owner: self.base_repo_owner@,
            head_repo_owner: optional_text(self.head_repo_owner),
            head_repo: optional_text(self.head_repo),
        }
    }
}

/// The view of a pull request, or of a message.
pub open spec fn pr_or_message(r: Result<PrInfo, String>) -> Result<Pr, Seq<char>> {
    match r {
        Ok(info) => Ok(info@),
        Err(message) => Err(message@),
    }
}

/// What is read from GitHub's answer. A text that is missing is `None`.
pub struct PrFields {
    pub id: Option<String>,
    pub base_ref_name: Option<String>,
    pub head_ref_name: Option<String>,
    pub base_ref_oid: Option<String>,
    pub head_ref_oid: Option<String>,
    pub base_owner: Option<String>,
    pub head_owner: Option<String>,
    /// Whether the head repository was deleted.
    pub head_deleted: bool,
    pub head_name: Option<String>,
}

/// The view of what is read from GitHub's answer.
pub struct Fields {
    pub id: Option<Seq<char>>,
    pub base_ref_name: Option<Seq<char>>,
    pub head_ref_name: Option<Seq<char>>,
    pub base_ref_oid: Option<Seq<char>>,
    pub head_ref_oid: Option<Seq<char>>,
    pub base_owner: Option<Seq<char>>,
    pub head_owner: Option<Seq<char>>,
    pub head_deleted: bool,
    pub head_name: Option<Seq<char>>,
}

impl View for PrFields {
    type V = Fields;

    open spec fn view(&self) -> Fields {
        Fields {
            id: optional_text(self.id),
            base_ref_name: optional_text(self.base_ref_name),
            head_ref_name: optional_text(self.head_ref_name),
            base_ref_oid: optional_text(self.base_ref_oid),
            head_ref_oid: optional_text(self.head_ref_oid),
            base_owner: optional_text(self.base_owner),
            head_owner: optional_text(self.head_owner),
            head_deleted: self.head_deleted,
            head_name: optional_text(self.head_name),
        }
    }
}

/// A text, or `default` if it is missing.
pub open spec fn text_or(text: Option<Seq<char>>, default: Seq<char>) -> Seq<char> {
    match text {
        Some(text) => text,
        None => default,
    }
}

/// The pull request that the fields describe, or which of them is missing. The branch names and
/// the owner of the base repository may be missing; so may the head repository, if it was
/// deleted.
pub open spec fn pr_of_fields(
    fields: Fields,
    number: u64,
    repo_owner: Seq<char>,
    repo_name: Seq<char>,
) -> Result<Pr, Seq<char>> {
    if fields.id is None {
        Err("Could not parse PR node ID from GraphQL response"@)
    } else if fields.base_ref_oid is None {
        Err("Could not parse PR base commit"@)
    } else if fields.head_ref_oid is None {
        Err("Could not parse PR head commit"@)
    } else if !fields.head_deleted && fields.head_name is None {
        Err("Could not parse head repository name from GraphQL response"@)
    } else {
        Ok(
            Pr {
                number,
                node_id: fields.id->0,
                repo_owner,
                repo_name,
                base_ref: text_or(fields.base_ref_name, "base"@),
                head_ref: text_or(fields.head_ref_name, "head"@),
                base_commit: fields.base_ref_oid->0,
                head_commit: fields.head_ref_oid->0,
                base_repo_owner: text_or(fields.base_owner, repo_owner),
                head_repo_owner: fields.head_owner,
                head_repo: if fields.head_deleted {
                    None
                } else {
                    fields.head_name
                },
            },
        )
    }
}

/// The fields that the answer to a query holds.
pub open spec fn answered_fields(
    answer: Map<Seq<Seq<char>>, Option<Seq<char>>>,
) -> Fields {
    let pr = below(below(below(answer, "data"@), "repository"@), "pullRequest"@);
    let head = below(pr, "headRepository"@);
    Fields {
        id: text_below(pr, "id"@),
        base_ref_name: text_below(pr, "baseRefName"@),
        head_ref_name: text_below(pr, "headRefName"@),
        base_ref_oid: text_below(pr, "baseRefOid"@),
        head_ref_oid: text_below(pr, "headRefOid"@),
        base_owner: text_below(below(below(pr, "baseRepository"@), "owner"@), "login"@),
        head_owner: text_below(below(head, "owner"@), "login"@),
        head_deleted: !head.dom().contains(Seq::empty()),
        head_name: text_below(head, "nameWithOwner"@),
    }
}

/// The pull request that the answer to a query describes, or what is wrong with the answer.
pub open spec fn answered_pr(
    response: Seq<char>,
    number: u64,
    repo_owner: Seq<char>,
    repo_name: Seq<char>,
) -> Result<Pr, Seq<char>> {
    match json_document(response) {
        Err(e) => Err("Could not parse PR GraphQL response: "@ + e),
        Ok(answer) => pr_of_fields(answered_fields(answer), number, repo_owner, repo_name),
    }
}

fn string_or(text: Option<String>, default: &str) -> (r: String)
    ensures
        r@ == text_or(optional_text(text), default@),
{
    match text {
        Some(text) => text,
        None => default.to_string(),
    }
}

/// Puts a pull request together from what was read of it.
pub fn pr_info_of_fields(
    fields: PrFields,
    number: u64,
    repo_owner: String,
    repo_name: String,
) -> (r: Result<PrInfo, String>)
    ensures
        pr_or_message(r) == pr_of_fields(fields@, number, repo_owner@, repo_name@),
{
    let node_id = match fields.id {
        Some(id) => id,
        None => return Err("Could not parse PR node ID from GraphQL response".to_string()),
    };
    let base_ref = string_or(fields.base_ref_name, "base");
    let head_ref = string_or(fields.head_ref_name, "head");
    let base_commit = match fields.base_ref_oid {
        Some(oid) => oid,
        None => return Err("Could not parse PR base commit".to_string()),
    };
    let head_commit = match fields.head_ref_oid {
        Some(oid) => oid,
        None => return Err("Could not parse PR head commit".to_string()),
    };
    let base_repo_owner = string_or(fields.base_owner, repo_owner.as_str());
    let head_repo_owner = fields.head_owner;
    let head_repo = if fields.head_deleted {
        None
    } else {
        match fields.head_name {
            Some(name) => Some(name),
            None => return Err(
                "Could not parse head repository name from GraphQL response".to_string(),
            ),
        }
    };
    Ok(
        PrInfo {
            number,
            node_id,
            repo_owner,
            repo_name,
            base_ref,
            head_ref,
            base_commit,
            head_commit,
            base_repo_owner,
            head_repo_owner,
            head_repo,
        },
    )
}

/// Reads a pull request from GitHub's answer. Where the source repository was deleted, its owner
/// is not known either.
pub fn parse_pr_info_response(
    response: &str,
    number: u64,
    repo_owner: String,
    repo_name: String,
) -> (r: Result<PrInfo, String>)
    ensures
        pr_or_message(r) == answered_pr(response@, number, repo_owner@, repo_name@),
        r matches Ok(info) ==> (info.head_repo is None ==> info.head_repo_owner is None),
{
    let json = match parse_json(response) {
        Ok(json) => json,
        Err(e) => {
            let mut message = "Could not parse PR GraphQL response: ".to_string();
            message.append(e.as_str());
            return Err(message);
        },
    };
    let pr = json_member(
        json_member(json_member(&json, "data"), "repository"),
        "pullRequest",
    );
    let head = json_member(pr, "headRepository");
    let fields = PrFields {
        id: member_text(pr, "id"),
        base_ref_name: member_text(pr, "baseRefName"),
        head_ref_name: member_text(pr, "headRefName"),
        base_ref_oid: member_text(pr, "baseRefOid"),
        head_ref_oid: member_text(pr, "headRefOid"),
        base_owner: member_text(json_member(json_member(pr, "baseRepository"), "owner"), "login"),
        head_owner: member_text(json_member(head, "owner"), "login"),
        head_deleted: json_is_null(head),
        head_name: member_text(head, "nameWithOwner"),
    };
    pr_info_of_fields(fields, number, repo_owner, repo_name)
}

/// What the outcome of a query comes to.
pub open spec fn query_result(query: Query, outcome: CommandOutcome) -> Result<Pr, Seq<char>> {
    match command_output(
        outcome,
        "Failed to run gh api graphql: "@,
        "gh api graphql failed: "@,
    ) {
        Err(message) => Err(message),
        Ok(response) => answered_pr(response, query.number, query.repo_owner, query.repo_name),
    }
}

/// Reads a pull request from the outcome of a query.
pub fn after_query(query: PrQuery, outcome: CommandOutcome) -> (r: Result<PrInfo, String>)
    ensures
        pr_or_message(r) == query_result(query@, outcome),
        plain_output(outcome) matches Some(response) ==> pr_or_message(r) == answered_pr(
            response,
            query.number,
            query.repo_owner@,
            query.repo_name@,
        ),
        plain_error(outcome) matches Some(text) ==> pr_or_message(r) == Err::<Pr, Seq<char>>(
            "gh api graphql failed: "@ + trimmed(text),
        ),
        r matches Ok(info) ==> (info.head_repo is None ==> info.head_repo_owner is None),
{
    match graphql_reply(outcome) {
        Err(message) => Err(message),
        Ok(response) => parse_pr_info_response(
            response.as_str(),
            query.number,
            query.repo_owner,
            query.repo_name,
        ),
    }
}

// ---------------------------------------------------------------------------------------------
// Describing a pull request
// ---------------------------------------------------------------------------------------------

/// What a coding agent is told about worktrees.
pub const WORKTREE_GUIDANCE: &'static str = "\n\n## Worktree instructions for the coding agent\n\n\
     Apply the annotations below in a worktree associated with this PR.\n\n\
     1. Locate the local repository by matching its remotes to the source or base \
     repository above. Do not assume the current checkout is the PR's source.\n\
     2. Inspect registered worktrees before creating anything. Reuse an existing \
     worktree associated with this PR or its source repository and branch. Do not \
     create a new worktree for each annotation round.\n\
     3. Fetch and verify the current source branch head. If the matching worktree \
     is already up to date, use it. If it is clean and behind, fast-forward it. \
     Preserve uncommitted edits and local commits; do not reset, discard, or \
     overwrite them. If it has diverged, report the conflict instead of silently \
     creating another worktree.\n\
     4. Only when no matching worktree exists, create one for the source branch \
     and retain its association with this PR for later annotation rounds. If the \
     source repository or branch is unavailable, report that before editing.\n\
     5. Run edits and validation from the selected worktree. These annotations \
     refer to the reviewed head commit above: if the source branch has advanced, \
     inspect that commit to map the comments to the current code before applying them.\n\n\
     Lumen only supplies this handoff; it has not created, updated, or switched a worktree.";

/// Where the source of a pull request can be had.
pub open spec fn source_line(head_repo: Option<Seq<char>>) -> Seq<char> {
    match head_repo {
        Some(repo) => "https://github.com/"@ + repo + ".git"@,
        None => "unavailable (the source repository was deleted)"@,
    }
}

/// The lines that identify a pull request.
pub open spec fn handoff(pr: Pr) -> Seq<char> {
    "PR: https://github.com/"@ + pr.repo_owner + "/"@ + pr.repo_name + "/pull/"@ + decimal(
        pr.number as nat,
    ) + "\n\nBase repository: https://github.com/"@ + pr.base_repo_owner + "/"@ + pr.repo_name
        + ".git\n\nSource repository: "@ + source_line(pr.head_repo) + "\n\nSource branch: `"@
        + pr.head_ref + "`\n\nReviewed head commit: `"@ + pr.head_commit + "`"@
}

/// What annotations on a pull request begin with.
pub open spec fn annotation_text(pr: Pr, worktree_guidance: bool) -> Seq<char> {
    if worktree_guidance {
        handoff(pr) + WORKTREE_GUIDANCE@
    } else {
        handoff(pr)
    }
}

impl PrInfo {
    /// What annotations on the pull request begin with: the lines that identify it, and on demand
    /// what a coding agent is to know about worktrees.
    pub fn annotation_context(&self, worktree_guidance: bool) -> (r: String)
        ensures
            r@ == annotation_text(self@, worktree_guidance),
    {
        let source = match &self.head_repo {
            Some(repo) => {
                let mut text = "https://github.com/".to_string();
                text.append(repo.as_str());
                text.append(".git");
                text
            },
            None => "unavailable (the source repository was deleted)".to_string(),
        };
        let mut context = "PR: https://github.com/".to_string();
        context.append(self.repo_owner.as_str());
        context.append("/");
        context.append(self.repo_name.as_str());
        context.append("/pull/");
        context.append(to_decimal(self.number).as_str());
        context.append("\n\nBase repository: https://github.com/");
        context.append(self.base_repo_owner.as_str());
        context.append("/");
        context.append(self.repo_name.as_str());
        context.append(".git\n\nSource repository: ");
        context.append(source.as_str());
        context.append("\n\nSource branch: `");
        context.append(self.head_ref.as_str());
        context.append("`\n\nReviewed head commit: `");
        context.append(self.head_commit.as_str());
        context.append("`");
        if worktree_guidance {
            context.append(WORKTREE_GUIDANCE);
        }
        context
    }
}

// ---------------------------------------------------------------------------------------------
// Laws
// ---------------------------------------------------------------------------------------------

proof fn lemma_full_name_pieces(owner: Seq<char>, name: Seq<char>)
    requires
        !owner.contains('/'),
        !name.contains('/'),
    ensures
        pieces(full_name(owner, name), '/') == seq![owner, name],
{
    reveal_strlit("/");
    assert(full_name(owner, name) =~= owner.push('/') + name);
    lemma_pieces_pair(owner, '/', name);
}

/// A number names the pull request of that number, and no repository.
pub proof fn law_number_names_pull_request(n: u64)
    ensures
        pull_request(decimal(n as nat)) == Some(
            (None::<Seq<char>>, None::<Seq<char>>, n),
        ),
{
    let s = decimal(n as nat);
    law_number_of_decimal(n);
    lemma_decimal_digits(n as nat);
    reveal_strlit("http://");
    reveal_strlit("https://");
    if is_url(s) {
        assert(s[0] == 'h') by {
            if occurs_at(s, "http://"@, 0) {
                assert(s.subrange(0, 7)[0] == s[0]);
            } else {
                assert(s.subrange(0, 8)[0] == s[0]);
            }
        }
        assert(is_digit(s[0]));
    }
}

/// The web address of a pull request names its number, its owner and its repository. An owner or
/// a repository that is called `pull` would be mistaken for the word before the number.
pub proof fn law_address_names_pull_request(owner: Seq<char>, repo: Seq<char>, n: u64)
    requires
        !owner.contains('/'),
        !repo.contains('/'),
        owner != "pull"@,
        repo != "pull"@,
    ensures
        pull_request(
            "https://github.com/"@ + owner + "/"@ + repo + "/pull/"@ + decimal(n as nat),
        ) == Some((Some(owner), Some(repo), n)),
{
    let digits = decimal(n as nat);
    let s = "https://github.com/"@ + owner + "/"@ + repo + "/pull/"@ + digits;
    law_number_of_decimal(n);
    lemma_decimal_digits(n as nat);
    reveal_strlit("https://github.com/");
    reveal_strlit("https://");
    reveal_strlit("https:");
    reveal_strlit("github.com");
    reveal_strlit("/");
    reveal_strlit("/pull/");
    reveal_strlit("pull");
    assert(is_url(s)) by {
        assert(s.subrange(0, 8) =~= "https://"@);
    }
    assert(is_digit(digits[digits.len() - 1]));
    assert(s.last() == digits.last());
    assert(without_trailing(s, '/') == s);
    assert forall|i: int| 0 <= i < digits.len() implies digits[i] != '/' by {
        assert(is_digit(digits[i]));
    }
    let scheme = "https:"@;
    let s1 = scheme.push('/') + Seq::<char>::empty();
    let s2 = s1.push('/') + "github.com"@;
    let s3 = s2.push('/') + owner;
    let s4 = s3.push('/') + repo;
    let s5 = s4.push('/') + "pull"@;
    let s6 = s5.push('/') + digits;
    assert(s2.push('/') =~= "https://github.com/"@);
    assert(s3.push('/') =~= "https://github.com/"@ + owner + "/"@);
    assert(s5.push('/') =~= "https://github.com/"@ + owner + "/"@ + repo + "/pull/"@);
    assert(s6 =~= s);
    lemma_pieces_single(scheme, '/');
    lemma_pieces_last(scheme, '/', Seq::empty());
    lemma_pieces_last(s1, '/', "github.com"@);
    lemma_pieces_last(s2, '/', owner);
    lemma_pieces_last(s3, '/', repo);
    lemma_pieces_last(s4, '/', "pull"@);
    lemma_pieces_last(s5, '/', digits);
    let parts = pieces(s, '/');
    assert(parts =~= seq![
        scheme,
        Seq::<char>::empty(),
        "github.com"@,
        owner,
        repo,
        "pull"@,
        digits,
    ]);
    assert(scheme.len() != "pull"@.len() && "github.com"@.len() != "pull"@.len());
    reveal_with_fuel(name_position, 6);
    assert(name_position(parts, "pull"@, 0) == Some(5int));
}

/// Slashes at the end of a web address do not matter.
pub proof fn law_trailing_slash_is_ignored(s: Seq<char>)
    requires
        is_url(s),
    ensures
        pull_request(s.push('/')) == pull_request(s),
{
    let longer = s.push('/');
    assert(longer.drop_last() =~= s);
    if occurs_at(s, "http://"@, 0) {
        assert(longer.subrange(0, "http://"@.len() as int) =~= s.subrange(
            0,
            "http://"@.len() as int,
        ));
    } else {
        assert(longer.subrange(0, "https://"@.len() as int) =~= s.subrange(
            0,
            "https://"@.len() as int,
        ));
    }
}

/// A web address that names owner and repository is asked for in that repository, whatever the
/// user chose.
pub proof fn law_address_tells_its_repository(
    input: Seq<char>,
    chosen: Option<Seq<char>>,
    owner: Seq<char>,
    repo: Seq<char>,
    number: u64,
)
    requires
        pull_request(input) == Some((Some(owner), Some(repo), number)),
    ensures
        input_step(input, chosen) == InputStep::Ask(
            Query { repo_owner: owner, repo_name: repo, number },
        ),
{
    let address = without_trailing(input, '/');
    let parts = pieces(address, '/');
    lemma_name_position(parts, "pull"@, 0);
    let pos = name_position(parts, "pull"@, 0)->0;
    lemma_piece_stands(address, '/', pos - 2);
    lemma_piece_stands(address, '/', pos - 1);
    lemma_full_name_pieces(owner, repo);
}

/// A number is asked for in the repository that the user chose, if it has an owner and a name,
/// and else in that of the origin.
pub proof fn law_number_is_asked_for_in_chosen_repository(
    number: u64,
    owner: Seq<char>,
    name: Seq<char>,
)
    requires
        !owner.contains('/'),
        !name.contains('/'),
    ensures
        input_step(decimal(number as nat), Some(full_name(owner, name))) == InputStep::Ask(
            Query { repo_owner: owner, repo_name: name, number },
        ),
        input_step(decimal(number as nat), None) == InputStep::AskOrigin(number),
{
    law_number_names_pull_request(number);
    lemma_full_name_pieces(owner, name);
}

/// A repository that was found for the origin always has an owner and a name, so that a pull
/// request of it can be asked for.
pub proof fn law_origin_can_be_asked(address: Seq<char>, number: u64)
    ensures
        origin_repository(address) is Ok ==> origin_step(number, origin_repository(address)) is Ok,
{
    if let Ok(repo) = origin_repository(address) {
        let path = second_part(without_git(address), "github.com"@)->0;
        let name = without_leading(without_leading(path, ':'), '/');
        let parts = pieces(name, '/');
        lemma_piece_stands(name, '/', 0);
        lemma_piece_stands(name, '/', 1);
        lemma_full_name_pieces(parts[0], parts[1]);
    }
}

/// What an address without `.git` names, if `github.com` stands in it once and is followed by a
/// colon or a slash, an owner and a name.
proof fn lemma_repository_of_url(
    before: Seq<char>,
    separator: char,
    owner: Seq<char>,
    name: Seq<char>,
)
    requires
        separator == ':' || separator == '/',
        owner.len() > 0,
        separator == ':' ==> owner[0] != ':',
        !owner.contains('/'),
        !name.contains('/'),
        !has_text(seq![separator] + full_name(owner, name), "github.com"@),
        position_from(
            before + "github.com"@ + seq![separator] + full_name(owner, name),
            "github.com"@,
            0,
        ) == Some(before.len() as int),
    ensures
        ({
            let url = before + "github.com"@ + seq![separator] + full_name(owner, name);
            let path = second_part(url, "github.com"@);
            &&& path is Some
            &&& pieces(without_leading(without_leading(path->0, ':'), '/'), '/') == seq![
                owner,
                name,
            ]
        }),
{
    let pattern = "github.com"@;
    let path = seq![separator] + full_name(owner, name);
    let url = before + pattern + seq![separator] + full_name(owner, name);
    let start = before.len() + pattern.len();
    assert(url.skip(start as int) =~= path);
    assert forall|j: int| start <= j implies !#[trigger] occurs_at(url, pattern, j) by {
        if occurs_at(url, pattern, j) {
            assert(path.subrange(j - start, j - start + pattern.len()) =~= url.subrange(
                j,
                j + pattern.len(),
            ));
            assert(occurs_at(path, pattern, j - start));
        }
    }
    lemma_position_from(url, pattern, start as int);
    assert(second_part(url, pattern) == Some(path));
    let full = full_name(owner, name);
    assert(path.drop_first() =~= full);
    assert(full.first() == owner[0]);
    assert(owner.contains(owner[0]));
    assert(without_leading(full, '/') == full);
    if separator == ':' {
        assert(without_leading(full, ':') == full);
        assert(without_leading(path, ':') == full);
    } else {
        assert(without_leading(path, ':') == path);
        assert(without_leading(path, '/') == full);
    }
    lemma_full_name_pieces(owner, name);
}

/// The secure address and both forms of the SSH address of a repository on GitHub, with or without
/// `.git` at the end, name that repository. This is so unless the owner or the name spells `github.com` once more,
/// the owner after a colon begins with one more, or the name itself ends in `.git` where the
/// address does not add it.
pub proof fn law_origin_names_repository(owner: Seq<char>, name: Seq<char>)
    requires
        owner.len() > 0,
        !owner.contains('/'),
        !name.contains('/'),
        !has_text(full_name(owner, name), "github.com"@),
    ensures
        origin_repository("https://github.com/"@ + full_name(owner, name) + ".git"@) == Ok::<
            Seq<char>,
            Seq<char>,
        >(full_name(owner, name)),
        without_git(name) == name ==> origin_repository(
            "https://github.com/"@ + full_name(owner, name),
        ) == Ok::<Seq<char>, Seq<char>>(full_name(owner, name)),
        origin_repository("ssh://git@github.com/"@ + full_name(owner, name) + ".git"@) == Ok::<
            Seq<char>,
            Seq<char>,
        >(full_name(owner, name)),
        without_git(name) == name ==> origin_repository(
            "ssh://git@github.com/"@ + full_name(owner, name),
        ) == Ok::<Seq<char>, Seq<char>>(full_name(owner, name)),
        owner[0] != ':' ==> origin_repository(
            "git@github.com:"@ + full_name(owner, name) + ".git"@,
        ) == Ok::<Seq<char>, Seq<char>>(full_name(owner, name)),
        owner[0] != ':' && without_git(name) == name ==> origin_repository(
            "git@github.com:"@ + full_name(owner, name),
        ) == Ok::<Seq<char>, Seq<char>>(full_name(owner, name)),
{
    let full = full_name(owner, name);
    lemma_origin_start("https://"@, '/', full);
    lemma_origin_start("ssh://git@"@, '/', full);
    lemma_origin_start("git@"@, ':', full);
    lemma_origin_prefixes();
    lemma_origin_of("https://"@, '/', owner, name);
    lemma_origin_of("ssh://git@"@, '/', owner, name);
    if owner[0] != ':' {
        lemma_origin_of("git@"@, ':', owner, name);
    }
}

proof fn lemma_origin_prefixes()
    ensures
        "https://github.com/"@ == "https://"@ + "github.com"@ + seq!['/'],
        "ssh://git@github.com/"@ == "ssh://git@"@ + "github.com"@ + seq!['/'],
        "git@github.com:"@ == "git@"@ + "github.com"@ + seq![':'],
{
    reveal_strlit("github.com");
    reveal_strlit("https://github.com/");
    reveal_strlit("https://");
    reveal_strlit("ssh://git@github.com/");
    reveal_strlit("ssh://git@");
    reveal_strlit("git@github.com:");
    reveal_strlit("git@");
    assert("https://github.com/"@ =~= "https://"@ + "github.com"@ + seq!['/']);
    assert("ssh://git@github.com/"@ =~= "ssh://git@"@ + "github.com"@ + seq!['/']);
    assert("git@github.com:"@ =~= "git@"@ + "github.com"@ + seq![':']);
}

/// In front of the three forms of an address `github.com` does not stand.
proof fn lemma_origin_start(before: Seq<char>, separator: char, full: Seq<char>)
    requires
        before == "https://"@ || before == "ssh://git@"@ || before == "git@"@,
    ensures
        position_from(
            before + "github.com"@ + seq![separator] + full,
            "github.com"@,
            0,
        ) == Some(before.len() as int),
{
    reveal_strlit("github.com");
    reveal_strlit("https://");
    reveal_strlit("ssh://git@");
    reveal_strlit("git@");
    let pattern = "github.com"@;
    let url = before + pattern + seq![separator] + full;
    let at = before.len() as int;
    assert(url.subrange(at, at + pattern.len()) =~= pattern);
    assert forall|j: int| 0 <= j < at implies !#[trigger] occurs_at(url, pattern, j) by {
        if occurs_at(url, pattern, j) {
            assert(url.subrange(j, j + pattern.len())[0] == url[j]);
            assert(url.subrange(j, j + pattern.len())[3] == url[j + 3]);
            assert(url[j] == before[j]);
            if j + 3 < at {
                assert(url[j + 3] == before[j + 3]);
            }
        }
    }
    lemma_first_position(url, pattern, 0, at);
}

proof fn lemma_not_behind_separator(separator: char, full: Seq<char>)
    requires
        separator == ':' || separator == '/',
        !has_text(full, "github.com"@),
    ensures
        !has_text(seq![separator] + full, "github.com"@),
{
    reveal_strlit("github.com");
    let pattern = "github.com"@;
    let path = seq![separator] + full;
    if has_text(path, pattern) {
        let i = choose|i: int| occurs_at(path, pattern, i);
        assert(path.subrange(i, i + pattern.len())[0] == path[i]);
        assert(full.subrange(i - 1, i - 1 + pattern.len()) =~= path.subrange(i, i + pattern.len()));
        assert(occurs_at(full, pattern, i - 1));
    }
}

/// An address names its repository, with or without `.git` at the end.
proof fn lemma_origin_of(before: Seq<char>, separator: char, owner: Seq<char>, name: Seq<char>)
    requires
        separator == ':' || separator == '/',
        owner.len() > 0,
        separator == ':' ==> owner[0] != ':',
        !owner.contains('/'),
        !name.contains('/'),
        !has_text(full_name(owner, name), "github.com"@),
        position_from(
            before + "github.com"@ + seq![separator] + full_name(owner, name),
            "github.com"@,
            0,
        ) == Some(before.len() as int),
    ensures
        ({
            let prefix = before + "github.com"@ + seq![separator];
            let full = full_name(owner, name);
            &&& origin_repository(prefix + full + ".git"@) == Ok::<Seq<char>, Seq<char>>(full)
            &&& without_git(name) == name ==> origin_repository(prefix + full) == Ok::<
                Seq<char>,
                Seq<char>,
            >(full)
        }),
{
    let prefix = before + "github.com"@ + seq![separator];
    let url = prefix + full_name(owner, name);
    lemma_not_behind_separator(separator, full_name(owner, name));
    lemma_repository_of_url(before, separator, owner, name);
    assert(without_git(url + ".git"@) == url) by {
        reveal_strlit(".git");
        let whole = url + ".git"@;
        assert(whole.subrange(whole.len() - 4, whole.len() as int) =~= ".git"@);
        assert(whole.take(whole.len() - 4) =~= url);
    }
    if without_git(name) == name {
        lemma_no_git_ending(prefix + owner, name);
        assert(prefix + owner + "/"@ + name =~= url);
    }
}

/// An address does not end in `.git` unless its last piece does.
proof fn lemma_no_git_ending(before: Seq<char>, name: Seq<char>)
    requires
        without_git(name) == name,
        !name.contains('/'),
    ensures
        without_git(before + "/"@ + name) == before + "/"@ + name,
{
    reveal_strlit(".git");
    reveal_strlit("/");
    let url = before + "/"@ + name;
    if url.len() >= 4 && occurs_at(url, ".git"@, url.len() - 4) {
        let ending = url.subrange(url.len() - 4, url.len() as int);
        if name.len() >= 4 {
            assert(name.subrange(name.len() - 4, name.len() as int) =~= ending);
            assert(without_git(name).len() == name.len() - 4);
        } else {
            assert(url[url.len() - name.len() - 1] == '/');
            assert(ending[3 - name.len()] == '/');
        }
    }
}

/// What is known of a pull request lacks the source repository exactly if it was deleted.
/// Otherwise the name of the source repository is owed, and the answer is refused without it.
pub proof fn law_source_repository_is_known_unless_deleted(
    fields: Fields,
    number: u64,
    repo_owner: Seq<char>,
    repo_name: Seq<char>,
)
    ensures
        pr_of_fields(fields, number, repo_owner, repo_name) matches Ok(pr) ==> {
            &&& pr.head_repo is None <==> fields.head_deleted
            &&& !fields.head_deleted ==> pr.head_repo == fields.head_name
        },
        !fields.head_deleted && fields.head_name is None ==> pr_of_fields(
            fields,
            number,
            repo_owner,
            repo_name,
        ) is Err,
{
}

/// The text that an answer has at a path of keys.
pub open spec fn told(
    answer: Map<Seq<Seq<char>>, Option<Seq<char>>>,
    path: Seq<Seq<char>>,
) -> Option<Seq<char>> {
    if answer.dom().contains(path) {
        answer[path]
    } else {
        None
    }
}

/// Where an answer tells of the pull request itself.
pub open spec fn pr_place() -> Seq<Seq<char>> {
    seq!["data"@, "repository"@, "pullRequest"@]
}

proof fn lemma_told(answer: Map<Seq<Seq<char>>, Option<Seq<char>>>, path: Seq<Seq<char>>)
    ensures
        ({
            let pr = below(below(below(answer, "data"@), "repository"@), "pullRequest"@);
            &&& pr.dom().contains(path) <==> answer.dom().contains(pr_place() + path)
            &&& pr.dom().contains(path) ==> pr[path] == answer[pr_place() + path]
        }),
{
    assert(seq!["data"@] + (seq!["repository"@] + (seq!["pullRequest"@] + path)) =~= pr_place()
        + path);
}

/// What is known of a pull request is what GitHub tells at the places where it tells it. The node id
/// and both commits are owed; the branches and the owner of the base repository have defaults; and
/// unless the head repository is missing, its name is owed too.
pub proof fn law_pull_request_is_what_github_tells(
    response: Seq<char>,
    answer: Map<Seq<Seq<char>>, Option<Seq<char>>>,
    number: u64,
    owner: Seq<char>,
    name: Seq<char>,
)
    requires
        json_document(response) == Ok::<Map<Seq<Seq<char>>, Option<Seq<char>>>, Seq<char>>(answer),
    ensures
        ({
            let id = told(answer, pr_place() + seq!["id"@]);
            let base = told(answer, pr_place() + seq!["baseRefOid"@]);
            let head = told(answer, pr_place() + seq!["headRefOid"@]);
            let exists_head = answer.dom().contains(pr_place() + seq!["headRepository"@]);
            let head_name = told(answer, pr_place() + seq!["headRepository"@, "nameWithOwner"@]);
            let r = answered_pr(response, number, owner, name);
            &&& r is Ok <==> id is Some && base is Some && head is Some && (exists_head
                ==> head_name is Some)
            &&& r matches Ok(pr) ==> {
                &&& pr.number == number && pr.repo_owner == owner && pr.repo_name == name
                &&& Some(pr.node_id) == id
                &&& Some(pr.base_commit) == base
                &&& Some(pr.head_commit) == head
                &&& pr.head_repo == if exists_head {
                    head_name
                } else {
                    None
                }
                &&& pr.head_repo_owner == told(
                    answer,
                    pr_place() + seq!["headRepository"@, "owner"@, "login"@],
                )
                &&& match told(answer, pr_place() + seq!["baseRefName"@]) {
                    Some(branch) => pr.base_ref == branch,
                    None => pr.base_ref == "base"@,
                }
                &&& match told(answer, pr_place() + seq!["headRefName"@]) {
                    Some(branch) => pr.head_ref == branch,
                    None => pr.head_ref == "head"@,
                }
                &&& match told(answer, pr_place() + seq!["baseRepository"@, "owner"@, "login"@]) {
                    Some(login) => pr.base_repo_owner == login,
                    None => pr.base_repo_owner == owner,
                }
            }
        }),
{
    let pr = below(below(below(answer, "data"@), "repository"@), "pullRequest"@);
    lemma_told(answer, seq!["id"@]);
    lemma_told(answer, seq!["baseRefOid"@]);
    lemma_told(answer, seq!["headRefOid"@]);
    lemma_told(answer, seq!["baseRefName"@]);
    lemma_told(answer, seq!["headRefName"@]);
    lemma_told(answer, seq!["headRepository"@]);
    lemma_told(answer, seq!["headRepository"@, "nameWithOwner"@]);
    lemma_told(answer, seq!["headRepository"@, "owner"@, "login"@]);
    lemma_told(answer, seq!["baseRepository"@, "owner"@, "login"@]);
    law_text_stands_at_its_path(pr, "id"@);
    law_text_stands_at_its_path(pr, "baseRefOid"@);
    law_text_stands_at_its_path(pr, "headRefOid"@);
    law_text_stands_at_its_path(pr, "baseRefName"@);
    law_text_stands_at_its_path(pr, "headRefName"@);
    let head = below(pr, "headRepository"@);
    law_text_stands_at_its_path(pr, "headRepository"@);
    law_text_stands_at_its_path(head, "nameWithOwner"@);
    law_text_stands_at_its_path(below(head, "owner"@), "login"@);
    law_text_stands_at_its_path(below(below(pr, "baseRepository"@), "owner"@), "login"@);
    assert(seq!["headRepository"@] + Seq::<Seq<char>>::empty() =~= seq!["headRepository"@]);
    assert(seq!["headRepository"@] + seq!["nameWithOwner"@] =~= seq![
        "headRepository"@,
        "nameWithOwner"@,
    ]);
    assert(seq!["headRepository"@] + (seq!["owner"@] + seq!["login"@]) =~= seq![
        "headRepository"@,
        "owner"@,
        "login"@,
    ]);
    assert(seq!["baseRepository"@] + (seq!["owner"@] + seq!["login"@]) =~= seq![
        "baseRepository"@,
        "owner"@,
        "login"@,
    ]);
}

/// The view of a pull request keeps every part of it.
pub proof fn law_pr_view_keeps_all_parts(info: PrInfo)
    ensures
        info@.number == info.number,
        info@.node_id == info.node_id@,
        info@.repo_owner == info.repo_owner@,
        info@.repo_name == info.repo_name@,
        info@.base_ref == info.base_ref@,
        info@.head_ref == info.head_ref@,
        info@.base_commit == info.base_commit@,
        info@.head_commit == info.head_commit@,
        info@.base_repo_owner == info.base_repo_owner@,
        info.head_repo_owner matches Some(owner) ==> info@.head_repo_owner == Some(owner@),
        info.head_repo_owner is None ==> info@.head_repo_owner is None,
        info.head_repo matches Some(repo) ==> info@.head_repo == Some(repo@),
        info.head_repo is None ==> info@.head_repo is None,
{
}

/// The view of a query keeps every part of it.
pub proof fn law_query_view_keeps_all_parts(query: PrQuery)
    ensures
        query@.repo_owner == query.repo_owner@,
        query@.repo_name == query.repo_name@,
        query@.number == query.number,
{
}

/// A text that begins neither with `http://` nor with `https://` names a pull request exactly if it
/// is a number.
pub proof fn law_other_text_is_a_number(s: Seq<char>)
    requires
        !(s.len() >= 7 && s.take(7) == "http://"@),
        !(s.len() >= 8 && s.take(8) == "https://"@),
    ensures
        pull_request(s) is Some <==> number(s) is Some,
        pull_request(s) matches Some((owner, repo, n)) ==> owner is None && repo is None && number(
            s,
        ) == Some(n),
{
    reveal_strlit("http://");
    reveal_strlit("https://");
    assert(s.subrange(0, 7) =~= s.take(7));
    assert(s.subrange(0, 8) =~= s.take(8));
}

/// A web address names the number behind its first piece `pull`, if a number stands there, and the
/// two pieces before that piece as owner and repository, if there are two. Otherwise it names no
/// pull request.
pub proof fn law_address_is_read_around_pull(s: Seq<char>, pos: int)
    requires
        (s.len() >= 7 && s.take(7) == "http://"@) || (s.len() >= 8 && s.take(8) == "https://"@),
        ({
            let parts = pieces(without_trailing(s, '/'), '/');
            0 <= pos < parts.len() && parts[pos] == "pull"@ && forall|j: int|
                0 <= j < pos ==> #[trigger] parts[j] != "pull"@
        }),
    ensures
        ({
            let parts = pieces(without_trailing(s, '/'), '/');
            let n = if pos + 1 < parts.len() {
                number(parts[pos + 1])
            } else {
                None
            };
            &&& pull_request(s) is Some <==> n is Some
            &&& pull_request(s) matches Some((owner, repo, found)) ==> {
                &&& Some(found) == n
                &&& pos >= 2 ==> owner == Some(parts[pos - 2]) && repo == Some(parts[pos - 1])
                &&& pos < 2 ==> owner is None && repo is None
            }
        }),
{
    reveal_strlit("http://");
    reveal_strlit("https://");
    if s.len() >= 7 && s.take(7) == "http://"@ {
        assert(s.subrange(0, 7) =~= s.take(7));
    } else {
        assert(s.subrange(0, 8) =~= s.take(8));
    }
    let parts = pieces(without_trailing(s, '/'), '/');
    lemma_name_position(parts, "pull"@, 0);
    assert(name_position(parts, "pull"@, 0) is Some);
    let p = name_position(parts, "pull"@, 0)->0;
    if p < pos {
        assert(parts[p] != "pull"@);
    }
    assert(p == pos);
}

/// A web address without a piece `pull` names no pull request.
pub proof fn law_address_without_pull_names_nothing(s: Seq<char>)
    requires
        (s.len() >= 7 && s.take(7) == "http://"@) || (s.len() >= 8 && s.take(8) == "https://"@),
        !pieces(without_trailing(s, '/'), '/').contains("pull"@),
    ensures
        pull_request(s) is None,
{
    reveal_strlit("http://");
    reveal_strlit("https://");
    if s.len() >= 7 && s.take(7) == "http://"@ {
        assert(s.subrange(0, 7) =~= s.take(7));
    } else {
        assert(s.subrange(0, 8) =~= s.take(8));
    }
    let parts = pieces(without_trailing(s, '/'), '/');
    lemma_name_position(parts, "pull"@, 0);
    if let Some(p) = name_position(parts, "pull"@, 0) {
        assert(parts.contains(parts[p]));
    }
}

/// A repository is asked in exactly if one slash stands in its name: before it stands the owner, and
/// behind it the name.
pub proof fn law_repository_is_owner_and_name(
    before: Seq<char>,
    behind: Seq<char>,
    plain: Seq<char>,
    number: u64,
)
    requires
        !behind.contains('/'),
        !plain.contains('/'),
    ensures
        query_in(before + "/"@ + behind, number) is Ok <==> !before.contains('/'),
        query_in(before + "/"@ + behind, number) matches Ok(query) ==> query == (Query {
            repo_owner: before,
            repo_name: behind,
            number,
        }),
        query_in(plain, number) is Err,
{
    reveal_strlit("/");
    lemma_pieces_single(plain, '/');
    assert(before + "/"@ + behind =~= before.push('/') + behind);
    lemma_pieces_last(before, '/', behind);
    if before.contains('/') {
        let i = choose|i: int| 0 <= i < before.len() && before[i] == '/';
        lemma_pieces_count(before, '/', i);
    } else {
        lemma_pieces_single(before, '/');
    }
}

/// What comes after any text that the user gave. Without a pull request in it there is an error that
/// names the text. Without a repository in it the chosen one is asked, if it can be, and the origin
/// if none was chosen.
pub proof fn law_named_number_is_asked_for(input: Seq<char>, chosen: Seq<char>, n: u64)
    ensures
        pull_request(input) is None ==> (input_step(input, Some(chosen)) matches InputStep::Failed(
            message,
        ) && has_text(message, input)) && input_step(input, None) is Failed,
        pull_request(input) == Some((None::<Seq<char>>, None::<Seq<char>>, n)) ==> {
            &&& input_step(input, None) == InputStep::AskOrigin(n)
            &&& query_in(chosen, n) matches Ok(query) ==> input_step(input, Some(chosen))
                == InputStep::Ask(query)
            &&& query_in(chosen, n) is Err ==> input_step(input, Some(chosen)) is Failed
        },
{
    let message = "Invalid PR reference: "@ + input + ". Use a PR number or URL."@;
    law_contained_text_has_surroundings(message, input);
}

/// A repository of the origin is asked for the number that the user gave; a failure to find it stays
/// one.
pub proof fn law_origin_is_asked_for_the_number(number: u64, repo: Seq<char>, message: Seq<char>)
    ensures
        origin_step(number, Ok(repo)) == query_in(repo, number),
        origin_step(number, Err(message)) == Err::<Query, Seq<char>>(message),
{
}

/// An address ends in `.git` or it does not; in the first case that is dropped, once.
pub proof fn law_git_ending_is_dropped_once(url: Seq<char>)
    ensures
        without_git(url + ".git"@) == url,
        !(url.len() >= 4 && url.skip(url.len() - 4) == ".git"@) ==> without_git(url) == url,
{
    reveal_strlit(".git");
    let whole = url + ".git"@;
    assert(whole.subrange(whole.len() - 4, whole.len() as int) =~= ".git"@);
    assert(whole.take(whole.len() - 4) =~= url);
    if url.len() >= 4 {
        assert(url.subrange(url.len() - 4, url.len() as int) =~= url.skip(url.len() - 4));
    }
}

/// Any address in which `github.com` stands names the repository in the path behind the first of
/// them, up to the second if there is one: colons and then slashes before the path are dropped, and
/// its first two pieces are the owner and the name. An address in which it does not stand names
/// none, and the message tells the address.
pub proof fn law_origin_is_read_behind_github(before: Seq<char>, path: Seq<char>, other: Seq<char>)
    requires
        position_from(before + "github.com"@ + path, "github.com"@, 0) == Some(before.len() as int),
        !has_text(path, "github.com"@),
        without_git(before + "github.com"@ + path) == before + "github.com"@ + path,
        !has_text(other, "github.com"@),
        without_git(other) == other,
    ensures
        ({
            let parts = pieces(without_leading(without_leading(path, ':'), '/'), '/');
            let r = origin_repository(before + "github.com"@ + path);
            &&& parts.len() >= 2 ==> r == Ok::<Seq<char>, Seq<char>>(parts[0] + "/"@ + parts[1])
            &&& parts.len() < 2 ==> r is Err
        }),
        origin_repository(other) matches Err(message) && has_text(message, other),
{
    let pattern = "github.com"@;
    let url = before + pattern + path;
    let start = (before.len() + pattern.len()) as int;
    assert(url.skip(start) =~= path);
    assert forall|j: int| start <= j implies !#[trigger] occurs_at(url, pattern, j) by {
        if occurs_at(url, pattern, j) {
            assert(path.subrange(j - start, j - start + pattern.len()) =~= url.subrange(
                j,
                j + pattern.len(),
            ));
            assert(occurs_at(path, pattern, j - start));
        }
    }
    lemma_position_from(url, pattern, start);
    lemma_position_from(other, pattern, 0);
    let message = "Origin URL is not a GitHub URL: "@ + other;
    assert(message =~= "Origin URL is not a GitHub URL: "@ + other + Seq::<char>::empty());
    law_contained_text_has_surroundings(message, other);
}

/// What `git` and `gh` tell is read without the white space around it. A command that did not run is
/// an error that tells why; one that failed is an error too; and an empty answer is no pull request.
pub proof fn law_answers_of_commands_are_trimmed(
    message: String,
    stdout: Vec<u8>,
    stderr: Vec<u8>,
)
    ensures
        origin_result(CommandOutcome::NotRun(message)) matches Err(e) && has_text(e, message@),
        origin_result(CommandOutcome::Ended { success: true, stdout, stderr }) == origin_repository(
            trimmed(lossy_text(stdout@)),
        ),
        origin_result(CommandOutcome::Ended { success: false, stdout, stderr }) is Err,
        detected(CommandOutcome::NotRun(message)) matches Err(e) && has_text(e, message@),
        ({
            let number = trimmed(lossy_text(stdout@));
            let r = detected(CommandOutcome::Ended { success: true, stdout, stderr });
            &&& number.len() > 0 ==> r == Ok::<Seq<char>, Seq<char>>(number)
            &&& number.len() == 0 ==> r is Err
        }),
        ({
            let told = trimmed(lossy_text(stderr@));
            let r = detected(CommandOutcome::Ended { success: false, stdout, stderr });
            &&& r is Err
            &&& told.len() > 0 ==> r == Err::<Seq<char>, Seq<char>>(told)
        }),
{
    let git = "Failed to run git: "@ + message@;
    assert(git =~= "Failed to run git: "@ + message@ + Seq::<char>::empty());
    law_contained_text_has_surroundings(git, message@);
    let gh = "Failed to run gh: "@ + message@;
    assert(gh =~= "Failed to run gh: "@ + message@ + Seq::<char>::empty());
    law_contained_text_has_surroundings(gh, message@);
}

/// The query names the owner, the repository and the number that it is made for, and asks for all
/// that is read from the answer.
pub proof fn law_query_names_pull_request(query: Query)
    ensures
        pr_query(query) == "query { repository(owner: \""@ + query.repo_owner + (
        "\", name: \""@ + query.repo_name) + ("\") { pullRequest(number: "@ + decimal(
            query.number as nat,
        ))
            + ") { id url baseRefName headRefName baseRefOid headRefOid baseRepository { owner { login } } headRepository { nameWithOwner owner { login } } } } }"@,
{
    assert(pr_query(query) =~= "query { repository(owner: \""@ + query.repo_owner + (
    "\", name: \""@ + query.repo_name) + ("\") { pullRequest(number: "@ + decimal(
        query.number as nat,
    ))
        + ") { id url baseRefName headRefName baseRefOid headRefOid baseRepository { owner { login } } headRepository { nameWithOwner owner { login } } } } }"@);
}

/// The outcome of a query is what the answer tells; a query that could not be asked, or that failed,
/// is an error that tells why.
pub proof fn law_query_outcome_is_read(
    query: Query,
    message: String,
    stdout: Vec<u8>,
    stderr: Vec<u8>,
)
    ensures
        query_result(query, CommandOutcome::Ended { success: true, stdout, stderr }) == answered_pr(
            lossy_text(stdout@),
            query.number,
            query.repo_owner,
            query.repo_name,
        ),
        query_result(query, CommandOutcome::NotRun(message)) matches Err(e) && has_text(e, message@),
        query_result(query, CommandOutcome::Ended { success: false, stdout, stderr }) matches Err(e)
            && has_text(e, trimmed(lossy_text(stderr@))),
{
    law_output_is_what_was_written(
        "Failed to run gh api graphql: "@,
        "gh api graphql failed: "@,
        message,
        stdout,
        stderr,
    );
}

/// The handoff identifies the pull request by its address, its repositories, its branch and its
/// commit, one after the other; a deleted source repository is said to be unavailable.
pub proof fn law_handoff_identifies_pull_request(pr: Pr)
    ensures
        ({
            let address = "PR: https://github.com/"@ + (pr.repo_owner + "/"@ + pr.repo_name)
                + "/pull/"@ + decimal(pr.number as nat);
            let base = "\n\nBase repository: https://github.com/"@ + (pr.base_repo_owner + "/"@
                + pr.repo_name) + ".git\n\nSource repository: "@;
            let source = match pr.head_repo {
                Some(repo) => "https://github.com/"@ + repo + ".git"@,
                None => "unavailable (the source repository was deleted)"@,
            };
            let branch = "\n\nSource branch: `"@ + pr.head_ref;
            let commit = "`\n\nReviewed head commit: `"@ + pr.head_commit + "`"@;
            handoff(pr) == address + base + source + branch + commit
        }),
{
    let source = source_line(pr.head_repo);
    assert(handoff(pr) =~= "PR: https://github.com/"@ + (pr.repo_owner + "/"@ + pr.repo_name)
        + "/pull/"@ + decimal(pr.number as nat) + ("\n\nBase repository: https://github.com/"@ + (
    pr.base_repo_owner + "/"@ + pr.repo_name) + ".git\n\nSource repository: "@) + source + (
    "\n\nSource branch: `"@ + pr.head_ref) + ("`\n\nReviewed head commit: `"@ + pr.head_commit
        + "`"@));
}

/// The views of results and steps keep what they carry.
pub proof fn law_result_views_keep_what_they_carry(
    owner: String,
    repo: String,
    n: u64,
    query: PrQuery,
    info: PrInfo,
    message: String,
)
    ensures
        named(Some((Some(owner), Some(repo), n))) == Some((Some(owner@), Some(repo@), n)),
        named(Some((None, None, n))) == Some((None::<Seq<char>>, None::<Seq<char>>, n)),
        named(None) is None,
        query_or_message(Ok(query)) == Ok::<Query, Seq<char>>(query@),
        query_or_message(Err(message)) == Err::<Query, Seq<char>>(message@),
        pr_or_message(Ok(info)) == Ok::<Pr, Seq<char>>(info@),
        pr_or_message(Err(message)) == Err::<Pr, Seq<char>>(message@),
        (AfterInput::Failed(message))@ == InputStep::Failed(message@),
        (AfterInput::AskOrigin { number: n })@ == InputStep::AskOrigin(n),
        (AfterInput::Ask(query))@ == InputStep::Ask(query@),
{
}

/// The view of what is read from an answer keeps every part of it.
pub proof fn law_fields_view_keeps_all_parts(fields: PrFields)
    ensures
        fields.id matches Some(text) ==> fields@.id == Some(text@),
        fields.base_ref_name matches Some(text) ==> fields@.base_ref_name == Some(text@),
        fields.head_ref_name matches Some(text) ==> fields@.head_ref_name == Some(text@),
        fields.base_ref_oid matches Some(text) ==> fields@.base_ref_oid == Some(text@),
        fields.head_ref_oid matches Some(text) ==> fields@.head_ref_oid == Some(text@),
        fields.base_owner matches Some(text) ==> fields@.base_owner == Some(text@),
        fields.head_owner matches Some(text) ==> fields@.head_owner == Some(text@),
        fields.head_name matches Some(text) ==> fields@.head_name == Some(text@),
        fields@.head_deleted == fields.head_deleted,
        fields@.id is None <==> fields.id is None,
        fields@.base_ref_name is None <==> fields.base_ref_name is None,
        fields@.head_ref_name is None <==> fields.head_ref_name is None,
        fields@.base_ref_oid is None <==> fields.base_ref_oid is None,
        fields@.head_ref_oid is None <==> fields.head_ref_oid is None,
        fields@.base_owner is None <==> fields.base_owner is None,
        fields@.head_owner is None <==> fields.head_owner is None,
        fields@.head_name is None <==> fields.head_name is None,
{
}

/// Guidance on worktrees comes behind what identifies the pull request, and only on demand: with it
/// and without it the text begins the same.
pub proof fn law_guidance_follows_handoff(pr: Pr)
    ensures
        annotation_text(pr, false) == handoff(pr),
        annotation_text(pr, true) == annotation_text(pr, false) + WORKTREE_GUIDANCE@,
{
}

} // verus!
