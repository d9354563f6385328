//! Loading the diffs of a pull request, step by step. Each step says what is to be run or fetched
//! next, and the step after it takes what came back.

use vstd::prelude::*;

use crate::command::{command_output, output_text, plain_error, plain_output, CommandOutcome};
use crate::content::{
    decode_content, decode_github_content, file_text, keeps_text, text_or_message,
};
use crate::fetch::{
    all_end, arrives, brought, content_pairs, fetch_result, fetch_run, fetch_start, fetch_tasks,
    law_downloads_come_together, law_tasks_belong, side_content, tasks, tasks_in_order, Event,
    FetchTask, Side, Sources,
};
use crate::git::{binary_side, either_binary};
use crate::json::{
    below, json_document, json_member, law_text_stands_at_its_path, member_text, optional_text,
    parse_json, text_below,
};
use crate::pr_files::{
    changed, parse_pr_changed_files, parsed_files, ChangedFile, GithubFile, PrChangedFile,
};
use crate::repository::{shows, Tree};
use crate::text::{decimal, same_text, texts, to_decimal, trimmed};
use crate::types::{FileDiff, PrInfo};
use crate::vcs::DiffHost;

verus! {

// ---------------------------------------------------------------------------------------------
// The list of files
// ---------------------------------------------------------------------------------------------

/// `owner/name`.
pub open spec fn full_name(owner: Seq<char>, name: Seq<char>) -> Seq<char> {
    owner + "/"@ + name
}

/// Writes `owner/name`.
pub fn repo_full_name(owner: &str, name: &str) -> (r: String)
    ensures
        r@ == full_name(owner@, name@),
{
    let mut text = owner.to_string();
    text.append("/");
    text.append(name);
    text
}

/// What is said while the list of files is fetched.
pub fn listing_message(pr_info: &PrInfo) -> (r: String)
    ensures
        r@ == "Fetching file list for "@ + pr_info.repo_owner@ + "/"@ + pr_info.repo_name@ + "#"@
            + decimal(pr_info.number as nat),
{
    let mut text = "Fetching file list for ".to_string();
    text.append(pr_info.repo_owner.as_str());
    text.append("/");
    text.append(pr_info.repo_name.as_str());
    text.append("#");
    text.append(to_decimal(pr_info.number).as_str());
    text
}

/// Where GitHub lists the files of a pull request.
pub open spec fn files_path(pr_info: PrInfo) -> Seq<char> {
    "repos/"@ + full_name(pr_info.repo_owner@, pr_info.repo_name@) + "/pulls/"@ + decimal(
        pr_info.number as nat,
    ) + "/files?per_page=100"@
}

/// The arguments with which `gh` fetches all pages of the list of files.
pub fn listing_args(pr_info: &PrInfo) -> (r: Vec<String>)
    ensures
        texts(r@) == seq!["api"@, files_path(*pr_info), "--paginate"@, "--slurp"@],
{
    let mut path = "repos/".to_string();
    path.append(
        repo_full_name(pr_info.repo_owner.as_str(), pr_info.repo_name.as_str()).as_str(),
    );
    path.append("/pulls/");
    path.append(to_decimal(pr_info.number).as_str());
    path.append("/files?per_page=100");
    let ghost path_text = path@;
    let args = vec!["api".to_string(), path, "--paginate".to_string(), "--slurp".to_string()];
    assert(texts(args@) =~= seq!["api"@, path_text, "--paginate"@, "--slurp"@]);
    args
}

/// The list of files as text, or what went wrong.
pub fn listing_reply(outcome: CommandOutcome) -> (r: Result<String, String>)
    ensures
        text_or_message(r) == command_output(
            outcome,
            "Failed to fetch PR file list: "@,
            "Failed to fetch PR file list: "@,
        ),
        plain_output(outcome) matches Some(text) ==> text_or_message(r) == Ok::<
            Seq<char>,
            Seq<char>,
        >(text),
        plain_error(outcome) matches Some(text) ==> text_or_message(r) == Err::<
            Seq<char>,
            Seq<char>,
        >("Failed to fetch PR file list: "@ + trimmed(text)),
{
    output_text(outcome, "Failed to fetch PR file list: ", "Failed to fetch PR file list: ")
}

// ---------------------------------------------------------------------------------------------
// The merge base
// ---------------------------------------------------------------------------------------------

/// The repository that the pull request goes to.
pub open spec fn base_repository(pr_info: PrInfo) -> Seq<char> {
    full_name(pr_info.base_repo_owner@, pr_info.repo_name@)
}

/// The repository that the pull request comes from. If it was deleted, the base repository still
/// has its commits.
pub open spec fn head_repository(pr_info: PrInfo) -> Seq<char> {
    match pr_info.head_repo {
        Some(repo) => repo@,
        None => base_repository(pr_info),
    }
}

/// Where GitHub compares the two sides of the pull request.
pub open spec fn compare_path(pr_info: PrInfo) -> Seq<char> {
    "repos/"@ + base_repository(pr_info) + "/compare/"@ + pr_info.base_commit@ + "..."@
        + pr_info.head_commit@
}

/// What comes after the list of files.
pub enum AfterListing {
    /// Something is wrong with the list.
    Failed(String),
    /// Nothing changed; the text says so.
    NoFiles(String),
    /// The comparison is to be fetched from `api_path`.
    Compare { files: Vec<PrChangedFile>, api_path: String },
}

/// Reads the parsed list of files, and says what comes next.
pub fn after_listing(
    pr_info: &PrInfo,
    pages: Result<Vec<Vec<GithubFile>>, String>,
) -> (r: AfterListing)
    ensures
        match parsed_files(pages) {
            Err(e) => r matches AfterListing::Failed(message) && message@ == e,
            Ok(list) => if list.len() == 0 {
                r matches AfterListing::NoFiles(message) && message@ == "PR has no changed files"@
            } else {
                r matches AfterListing::Compare { files, api_path } && changed(files@) == list
                    && api_path@ == compare_path(*pr_info)
            },
        },
{
    match parse_pr_changed_files(pages) {
        Err(message) => AfterListing::Failed(message),
        Ok(files) => {
            assert(changed(files@).len() == files@.len());
            if files.len() == 0 {
                AfterListing::NoFiles("PR has no changed files".to_string())
            } else {
                // PRs compare the common ancestor to the head, not the current base branch tip.
                let mut api_path = "repos/".to_string();
                api_path.append(
                    repo_full_name(
                        pr_info.base_repo_owner.as_str(),
                        pr_info.repo_name.as_str(),
                    ).as_str(),
                );
                api_path.append("/compare/");
                api_path.append(pr_info.base_commit.as_str());
                api_path.append("...");
                api_path.append(pr_info.head_commit.as_str());
                AfterListing::Compare { files, api_path }
            }
        },
    }
}

/// The merge base that a comparison tells of, or what is wrong with the comparison.
pub open spec fn compared_base(reply: Result<Seq<char>, Seq<char>>) -> Result<
    Seq<char>,
    Seq<char>,
> {
    match reply {
        Err(message) => Err(message),
        Ok(response) => match json_document(response) {
            Err(e) => Err("Could not parse GitHub comparison: "@ + e),
            Ok(contents) => base_or_message(
                text_below(below(contents, "merge_base_commit"@), "sha"@),
            ),
        },
    }
}

/// The merge base, or that there is none.
pub open spec fn base_or_message(sha: Option<Seq<char>>) -> Result<Seq<char>, Seq<char>> {
    match sha {
        Some(sha) => Ok(sha),
        None => Err("GitHub comparison did not return a merge base"@),
    }
}

/// The merge base, or that there is none.
pub fn require_merge_base(sha: Option<String>) -> (r: Result<String, String>)
    ensures
        text_or_message(r) == base_or_message(optional_text(sha)),
{
    match sha {
        Some(sha) => Ok(sha),
        None => Err("GitHub comparison did not return a merge base".to_string()),
    }
}

/// Reads the merge base from GitHub's comparison.
pub fn merge_base_of_comparison(reply: Result<String, String>) -> (r: Result<String, String>)
    ensures
        text_or_message(r) == compared_base(text_or_message(reply)),
{
    match reply {
        Err(message) => Err(message),
        Ok(response) => match parse_json(response.as_str()) {
            Err(e) => {
                let mut message = "Could not parse GitHub comparison: ".to_string();
                message.append(e.as_str());
                Err(message)
            },
            Ok(comparison) => require_merge_base(
                member_text(json_member(&comparison, "merge_base_commit"), "sha"),
            ),
        },
    }
}

/// Where the two sides of a pull request are fetched from: the old one from the base repository at
/// the merge base, and the new one from the head repository at the head commit.
pub open spec fn sources(pr_info: PrInfo, merge_base: Seq<char>) -> Sources {
    Sources {
        base_repo: base_repository(pr_info),
        base_ref: merge_base,
        head_repo: head_repository(pr_info),
        head_ref: pr_info.head_commit@,
    }
}

/// The downloads of a pull request whose merge base is `merge_base`, last one first.
pub fn download_tasks(pr_info: &PrInfo, files: &[PrChangedFile], merge_base: &str) -> (r: Vec<
    FetchTask,
>)
    ensures
        tasks(r@) == tasks_in_order(changed(files@), sources(*pr_info, merge_base@)).reverse(),
{
    let base_repo = repo_full_name(pr_info.base_repo_owner.as_str(), pr_info.repo_name.as_str());
    let head_repo = match &pr_info.head_repo {
        Some(repo) => repo.clone(),
        None => base_repo.clone(),
    };
    fetch_tasks(
        files,
        base_repo.as_str(),
        merge_base,
        head_repo.as_str(),
        pr_info.head_commit.as_str(),
    )
}

// ---------------------------------------------------------------------------------------------
// The contents
// ---------------------------------------------------------------------------------------------

/// Where GitHub keeps a file.
pub open spec fn contents_path(repo: Seq<char>, git_ref: Seq<char>, path: Seq<char>) -> Seq<char> {
    "repos/"@ + repo + "/contents/"@ + path + "?ref="@ + git_ref
}

/// Writes where GitHub keeps a file.
pub fn contents_api_path(repo: &str, git_ref: &str, path: &str) -> (r: String)
    ensures
        r@ == contents_path(repo@, git_ref@, path@),
{
    let mut text = "repos/".to_string();
    text.append(repo);
    text.append("/contents/");
    text.append(path);
    text.append("?ref=");
    text.append(git_ref);
    text
}

/// The media type that is asked for.
pub const GITHUB_JSON: &'static str = "application/vnd.github+json";

/// What comes after the description of a file.
pub enum AfterContents {
    /// The content, or what went wrong.
    Done(Result<String, String>),
    /// The content is to be fetched from `api_path`.
    FetchBlob { api_path: String },
}

/// The view of what comes after the description of a file.
pub enum ContentsStep {
    Done(Result<Seq<char>, Seq<char>>),
    FetchBlob(Seq<char>),
}

impl View for AfterContents {
    type V = ContentsStep;

    open spec fn view(&self) -> ContentsStep {
        match self {
            AfterContents::Done(r) => ContentsStep::Done(text_or_message(*r)),
            AfterContents::FetchBlob { api_path } => ContentsStep::FetchBlob(api_path@),
        }
    }
}

/// The content of a file, or why the file at `path` could not be loaded.
pub open spec fn loaded(
    path: Seq<char>,
    encoding: Option<Seq<char>>,
    content: Option<Seq<char>>,
) -> Result<Seq<char>, Seq<char>> {
    match file_text(encoding, content) {
        Ok(text) => Ok(text),
        Err(e) => Err("Failed to load "@ + path + ": "@ + e),
    }
}

/// What comes after a description with this encoding, hash and content. The description of a
/// large file comes without its content; the blob still has it.
pub open spec fn described(
    repo: Seq<char>,
    path: Seq<char>,
    encoding: Option<Seq<char>>,
    sha: Option<Seq<char>>,
    content: Option<Seq<char>>,
) -> ContentsStep {
    if encoding == Some("none"@) {
        match sha {
            Some(sha) => ContentsStep::FetchBlob("repos/"@ + repo + "/git/blobs/"@ + sha),
            None => ContentsStep::Done(Err("Missing blob SHA for "@ + path)),
        }
    } else {
        ContentsStep::Done(loaded(path, encoding, content))
    }
}

/// What comes after the reply to the request for a file's description.
pub open spec fn contents_step(
    repo: Seq<char>,
    path: Seq<char>,
    reply: Result<Seq<char>, Seq<char>>,
) -> ContentsStep {
    match reply {
        Err(message) => ContentsStep::Done(Err(message)),
        Ok(response) => match json_document(response) {
            Err(e) => ContentsStep::Done(
                Err("Could not parse file metadata for "@ + path + ": "@ + e),
            ),
            Ok(file) => described(
                repo,
                path,
                text_below(file, "encoding"@),
                text_below(file, "sha"@),
                text_below(file, "content"@),
            ),
        },
    }
}

/// Says of which file it is that it could not be loaded.
fn name_path(path: &str, content: Result<String, String>) -> (r: Result<String, String>)
    ensures
        text_or_message(r) == (match content {
            Ok(text) => Ok::<Seq<char>, Seq<char>>(text@),
            Err(e) => Err::<Seq<char>, Seq<char>>("Failed to load "@ + path@ + ": "@ + e@),
        }),
{
    match content {
        Ok(text) => Ok(text),
        Err(e) => {
            let mut message = "Failed to load ".to_string();
            message.append(path);
            message.append(": ");
            message.append(e.as_str());
            Err(message)
        },
    }
}

/// Says what comes after a description with this encoding, hash and content.
pub fn after_description(
    repo: &str,
    path: &str,
    encoding: Option<String>,
    sha: Option<String>,
    content: Option<String>,
) -> (r: AfterContents)
    ensures
        r@ == described(
            repo@,
            path@,
            optional_text(encoding),
            optional_text(sha),
            optional_text(content),
        ),
        r@ matches ContentsStep::Done(done) ==> keeps_text(
            optional_text(encoding),
            optional_text(content),
            done,
        ),
{
    proof {
        reveal_strlit("none");
        reveal_strlit("base64");
        assert("none"@.len() != "base64"@.len());
    }
    let omitted = match &encoding {
        Some(name) => same_text(name.as_str(), "none"),
        None => false,
    };
    if omitted {
        match sha {
            Some(sha) => {
                let mut api_path = "repos/".to_string();
                api_path.append(repo);
                api_path.append("/git/blobs/");
                api_path.append(sha.as_str());
                AfterContents::FetchBlob { api_path }
            },
            None => {
                let mut message = "Missing blob SHA for ".to_string();
                message.append(path);
                AfterContents::Done(Err(message))
            },
        }
    } else {
        AfterContents::Done(name_path(path, decode_content(encoding, content)))
    }
}

/// Reads the description of a file, and says what comes next.
pub fn after_contents(repo: &str, path: &str, reply: Result<String, String>) -> (r: AfterContents)
    ensures
        r@ == contents_step(repo@, path@, text_or_message(reply)),
        reply matches Ok(response) ==> (json_document(response@) matches Ok(file) ==> (
        r@ matches ContentsStep::Done(done) ==> keeps_text(
            text_below(file, "encoding"@),
            text_below(file, "content"@),
            done,
        ))),
{
    match reply {
        Err(message) => AfterContents::Done(Err(message)),
        Ok(response) => match parse_json(response.as_str()) {
            Err(e) => {
                let mut message = "Could not parse file metadata for ".to_string();
                message.append(path);
                message.append(": ");
                message.append(e.as_str());
                AfterContents::Done(Err(message))
            },
            Ok(file) => after_description(
                repo,
                path,
                member_text(&file, "encoding"),
                member_text(&file, "sha"),
                member_text(&file, "content"),
            ),
        },
    }
}

/// What the reply to the request for a blob comes to.
pub open spec fn blob_content(
    path: Seq<char>,
    reply: Result<Seq<char>, Seq<char>>,
) -> Result<Seq<char>, Seq<char>> {
    match reply {
        Err(message) => Err(message),
        Ok(response) => match json_document(response) {
            Err(e) => Err("Could not parse blob for "@ + path + ": "@ + e),
            Ok(blob) => loaded(
                path,
                text_below(blob, "encoding"@),
                text_below(blob, "content"@),
            ),
        },
    }
}

/// Reads the content of a file from its blob.
pub fn after_blob(path: &str, reply: Result<String, String>) -> (r: Result<String, String>)
    ensures
        text_or_message(r) == blob_content(path@, text_or_message(reply)),
        reply matches Ok(response) ==> (json_document(response@) matches Ok(blob) ==> keeps_text(
            text_below(blob, "encoding"@),
            text_below(blob, "content"@),
            text_or_message(r),
        )),
{
    match reply {
        Err(message) => Err(message),
        Ok(response) => match parse_json(response.as_str()) {
            Err(e) => {
                let mut message = "Could not parse blob for ".to_string();
                message.append(path);
                message.append(": ");
                message.append(e.as_str());
                Err(message)
            },
            Ok(blob) => name_path(path, decode_github_content(&blob)),
        },
    }
}

// ---------------------------------------------------------------------------------------------
// The diffs
// ---------------------------------------------------------------------------------------------

/// `diff` is the diff of a changed file with these contents.
pub open spec fn pr_file_diff<H: DiffHost + ?Sized>(
    host: &H,
    file: ChangedFile,
    contents: (Seq<char>, Seq<char>),
    diff: FileDiff,
) -> bool {
    &&& diff.filename@ == file.filename
    &&& diff.old_content@ == contents.0
    &&& diff.new_content@ == contents.1
    &&& diff.status == file.status
    &&& binary_side(host, contents.0, contents.1, diff.is_binary)
}

/// `diffs` are the diffs of the changed files with their contents, one for each file that has some.
pub open spec fn assembled<H: DiffHost + ?Sized>(
    host: &H,
    files: Seq<ChangedFile>,
    contents: Seq<(Seq<char>, Seq<char>)>,
    diffs: Seq<FileDiff>,
) -> bool {
    &&& diffs.len() == if files.len() < contents.len() {
        files.len()
    } else {
        contents.len()
    }
    &&& forall|i: int|
        0 <= i < diffs.len() ==> pr_file_diff(host, files[i], contents[i], #[trigger] diffs[i])
}

/// Puts the changed files and their contents together, and says how many files were fetched.
pub fn assemble_diffs<H: DiffHost + ?Sized>(
    files: &[PrChangedFile],
    contents: &[(String, String)],
    host: &H,
) -> (r: (Vec<FileDiff>, String))
    ensures
        assembled(host, changed(files@), content_pairs(contents@), r.0@),
        r.1@ == "Fetched "@ + decimal(files@.len()) + " files"@,
{
    let mut diffs: Vec<FileDiff> = Vec::new();
    let count = if files.len() < contents.len() {
        files.len()
    } else {
        contents.len()
    };
    for k in 0..count
        invariant
            count <= files@.len(),
            count <= contents@.len(),
            diffs@.len() == k,
            forall|i: int|
                0 <= i < k ==> pr_file_diff(
                    host,
                    changed(files@)[i],
                    content_pairs(contents@)[i],
                    #[trigger] diffs@[i],
                ),
    {
        let old_content = contents[k].0.clone();
        let new_content = contents[k].1.clone();
        let is_binary = either_binary(old_content.as_str(), new_content.as_str(), host);
        diffs.push(
            FileDiff {
                filename: files[k].filename.clone(),
                old_content,
                new_content,
                status: files[k].status,
                is_binary,
            },
        );
        assert(changed(files@)[k as int] == files@[k as int]@);
        assert(content_pairs(contents@)[k as int] == (
            contents@[k as int].0@,
            contents@[k as int].1@,
        ));
    }
    let mut message = "Fetched ".to_string();
    message.append(to_decimal(files.len() as u64).as_str());
    message.append(" files");
    (diffs, message)
}

// ---------------------------------------------------------------------------------------------
// Laws
// ---------------------------------------------------------------------------------------------

/// From the downloads through to the diffs. When every download has ended and none failed, there is
/// one diff for each changed file, in order, under its name and with its status. The old content is
/// the text that the download of the old side brought, and the new content the text that the
/// download of the new side brought; a side that the file does not have is empty.
pub proof fn law_diffs_show_what_was_downloaded<H: DiffHost + ?Sized>(
    files: Seq<PrChangedFile>,
    from: Sources,
    total: nat,
    events: Seq<Event>,
    contents: Seq<(String, String)>,
    host: &H,
    diffs: Seq<FileDiff>,
)
    requires
        all_end(events, tasks_in_order(changed(files), from)),
        fetch_result(fetch_run(fetch_start(files.len(), total), events)) == Ok::<
            Seq<(Seq<char>, Seq<char>)>,
            Seq<char>,
        >(content_pairs(contents)),
        assembled(host, changed(files), content_pairs(contents), diffs),
    ensures
        contents.len() == files.len(),
        diffs.len() == files.len(),
        forall|i: int|
            0 <= i < diffs.len() ==> {
                let diff = #[trigger] diffs[i];
                &&& diff.filename@ == files[i].filename@
                &&& diff.status == files[i].status
                &&& files[i].old_path matches Some(path) ==> exists|j: int|
                    0 <= j < events.len() && #[trigger] events[j] == (Event::Finished {
                        idx: i,
                        side: Side::Old,
                        filename: path@,
                        content: Ok(diff.old_content@),
                    })
                &&& files[i].old_path is None ==> diff.old_content@.len() == 0
                &&& files[i].new_path matches Some(path) ==> exists|j: int|
                    0 <= j < events.len() && #[trigger] events[j] == (Event::Finished {
                        idx: i,
                        side: Side::New,
                        filename: path@,
                        content: Ok(diff.new_content@),
                    })
                &&& files[i].new_path is None ==> diff.new_content@.len() == 0
            },
{
    let list = changed(files);
    let pairs = content_pairs(contents);
    law_downloads_come_together(list, from, total, events);
    assert forall|i: int| 0 <= i < diffs.len() implies ({
        let diff = #[trigger] diffs[i];
        &&& diff.filename@ == files[i].filename@
        &&& diff.status == files[i].status
        &&& files[i].old_path matches Some(path) ==> exists|j: int|
            0 <= j < events.len() && #[trigger] events[j] == (Event::Finished {
                idx: i,
                side: Side::Old,
                filename: path@,
                content: Ok(diff.old_content@),
            })
        &&& files[i].old_path is None ==> diff.old_content@.len() == 0
        &&& files[i].new_path matches Some(path) ==> exists|j: int|
            0 <= j < events.len() && #[trigger] events[j] == (Event::Finished {
                idx: i,
                side: Side::New,
                filename: path@,
                content: Ok(diff.new_content@),
            })
        &&& files[i].new_path is None ==> diff.new_content@.len() == 0
    }) by {
        let diff = diffs[i];
        assert(list[i] == files[i]@);
        let old = side_content(pairs[i], Side::Old);
        let new = side_content(pairs[i], Side::New);
        assert(diff.old_content@ == old);
        assert(diff.new_content@ == new);
        if let Some(path) = files[i].old_path {
            assert(brought(events, i, Side::Old, path@, old));
            let j = choose|j: int|
                0 <= j < events.len() && arrives(#[trigger] events[j], i, Side::Old, old)
                    && events[j]->filename == path@;
            assert(events[j] == (Event::Finished {
                idx: i,
                side: Side::Old,
                filename: path@,
                content: Ok(diff.old_content@),
            }));
        }
        if let Some(path) = files[i].new_path {
            assert(brought(events, i, Side::New, path@, new));
            let j = choose|j: int|
                0 <= j < events.len() && arrives(#[trigger] events[j], i, Side::New, new)
                    && events[j]->filename == path@;
            assert(events[j] == (Event::Finished {
                idx: i,
                side: Side::New,
                filename: path@,
                content: Ok(diff.new_content@),
            }));
        }
    }
}

/// A diff keeps the two contents apart: files with the same name and status have the same diff
/// exactly if both of their contents are the same, side by side.
pub proof fn law_diffs_differ_as_contents_do<H: DiffHost + ?Sized>(
    host: &H,
    file: ChangedFile,
    first: (Seq<char>, Seq<char>),
    second: (Seq<char>, Seq<char>),
    left: FileDiff,
    right: FileDiff,
)
    requires
        pr_file_diff(host, file, first, left),
        pr_file_diff(host, file, second, right),
    ensures
        left.old_content@ == right.old_content@ <==> first.0 == second.0,
        left.new_content@ == right.new_content@ <==> first.1 == second.1,
        left.old_content@ == left.new_content@ <==> first.0 == first.1,
        left.filename@ == right.filename@ && left.status == right.status,
{
}

/// A diff is binary exactly if the host takes one of its two contents for binary.
pub proof fn law_binary_side_makes_binary_diff<H: DiffHost + ?Sized>(
    host: &H,
    tree: Tree,
    file: ChangedFile,
    contents: (Seq<char>, Seq<char>),
    diff: FileDiff,
)
    requires
        shows(host, tree),
        pr_file_diff(host, file, contents, diff),
    ensures
        diff.is_binary <==> (tree.binary)(contents.0) || (tree.binary)(contents.1),
{
}

/// The repositories and the comparison of a pull request. It goes to the repository of the base
/// owner and comes from the head repository, or from the base repository if that was deleted; what
/// is compared are the base commit and the head commit, in the base repository.
pub proof fn law_pull_request_is_compared_in_its_base(pr_info: PrInfo)
    ensures
        base_repository(pr_info) == pr_info.base_repo_owner@ + "/"@ + pr_info.repo_name@,
        pr_info.head_repo matches Some(repo) ==> head_repository(pr_info) == repo@,
        pr_info.head_repo is None ==> head_repository(pr_info) == pr_info.base_repo_owner@ + "/"@
            + pr_info.repo_name@,
        compare_path(pr_info) == ("repos/"@ + (pr_info.base_repo_owner@ + "/"@ + pr_info.repo_name@)
            + "/compare/"@) + pr_info.base_commit@ + "..."@ + pr_info.head_commit@,
        files_path(pr_info) == ("repos/"@ + (pr_info.repo_owner@ + "/"@ + pr_info.repo_name@)
            + "/pulls/"@) + decimal(pr_info.number as nat) + "/files?per_page=100"@,
{
}

/// Every download asks for the path of its side, in the repository and at the commit where that side
/// is kept.
pub proof fn law_download_asks_for_its_side(repo: Seq<char>, git_ref: Seq<char>, path: Seq<char>)
    ensures
        contents_path(repo, git_ref, path) == "repos/"@ + repo + "/contents/"@ + path + "?ref="@
            + git_ref,
{
}

/// The merge base is the text under `merge_base_commit` and `sha` of the comparison; without it, or
/// without a comparison, there is an error.
pub proof fn law_merge_base_is_read_from_comparison(
    response: Seq<char>,
    document: Map<Seq<Seq<char>>, Option<Seq<char>>>,
)
    requires
        json_document(response) == Ok::<Map<Seq<Seq<char>>, Option<Seq<char>>>, Seq<char>>(
            document,
        ),
    ensures
        ({
            let place = seq!["merge_base_commit"@, "sha"@];
            if document.dom().contains(place) && document[place] is Some {
                compared_base(Ok(response)) == Ok::<Seq<char>, Seq<char>>(document[place]->0)
            } else {
                compared_base(Ok(response)) is Err
            }
        }),
        forall|message: Seq<char>| #[trigger]
            compared_base(Err(message)) == Err::<Seq<char>, Seq<char>>(message),
{
    law_text_stands_at_its_path(below(document, "merge_base_commit"@), "sha"@);
    let inner = below(document, "merge_base_commit"@);
    assert(seq!["merge_base_commit"@] + seq!["sha"@] =~= seq!["merge_base_commit"@, "sha"@]);
}

/// The content of a file is read where its description has it as base64. A description without it
/// leads to the blob of its hash, and to an error without a hash. Anything that cannot be read is an
/// error.
pub proof fn law_content_is_read_or_fetched(
    repo: Seq<char>,
    path: Seq<char>,
    encoding: Option<Seq<char>>,
    sha: Option<Seq<char>>,
    content: Option<Seq<char>>,
)
    ensures
        encoding == Some("none"@) && sha is Some ==> described(repo, path, encoding, sha, content)
            == ContentsStep::FetchBlob("repos/"@ + repo + "/git/blobs/"@ + sha->0),
        encoding == Some("none"@) && sha is None ==> described(repo, path, encoding, sha, content)
            matches ContentsStep::Done(Err(_)),
        encoding != Some("none"@) ==> match file_text(encoding, content) {
            Ok(text) => described(repo, path, encoding, sha, content) == ContentsStep::Done(
                Ok(text),
            ),
            Err(_) => described(repo, path, encoding, sha, content) matches ContentsStep::Done(
                Err(_),
            ),
        },
{
}

/// What the replies for a file come to is what their documents hold; a request that failed is an
/// error, with its message.
pub proof fn law_replies_are_read(
    repo: Seq<char>,
    path: Seq<char>,
    response: Seq<char>,
    document: Map<Seq<Seq<char>>, Option<Seq<char>>>,
    message: Seq<char>,
)
    requires
        json_document(response) == Ok::<Map<Seq<Seq<char>>, Option<Seq<char>>>, Seq<char>>(
            document,
        ),
    ensures
        contents_step(repo, path, Ok(response)) == described(
            repo,
            path,
            text_below(document, "encoding"@),
            text_below(document, "sha"@),
            text_below(document, "content"@),
        ),
        match file_text(text_below(document, "encoding"@), text_below(document, "content"@)) {
            Ok(text) => blob_content(path, Ok(response)) == Ok::<Seq<char>, Seq<char>>(text),
            Err(_) => blob_content(path, Ok(response)) is Err,
        },
        contents_step(repo, path, Err(message)) == ContentsStep::Done(Err(message)),
        blob_content(path, Err(message)) == Err::<Seq<char>, Seq<char>>(message),
{
}

/// Every download of a pull request is for a file and a side of it that exists. An old side is
/// fetched at the merge base, not at the tip of the base branch, and a new side at the head commit.
/// Every side that a file has is fetched once, in the order of the list.
pub proof fn law_sides_are_fetched_at_their_commits(
    pr_info: PrInfo,
    merge_base: Seq<char>,
    files: Seq<ChangedFile>,
    k: int,
)
    requires
        0 <= k < tasks_in_order(files, sources(pr_info, merge_base)).len(),
    ensures
        ({
            let task = tasks_in_order(files, sources(pr_info, merge_base))[k];
            &&& 0 <= task.idx < files.len()
            &&& task.side == Side::Old ==> {
                &&& files[task.idx].old_path == Some(task.filename)
                &&& task.git_ref == merge_base
                &&& task.repo == pr_info.base_repo_owner@ + "/"@ + pr_info.repo_name@
            }
            &&& task.side == Side::New ==> {
                &&& files[task.idx].new_path == Some(task.filename)
                &&& task.git_ref == pr_info.head_commit@
                &&& pr_info.head_repo matches Some(repo) ==> task.repo == repo@
                &&& pr_info.head_repo is None ==> task.repo == pr_info.base_repo_owner@ + "/"@
                    + pr_info.repo_name@
            }
        }),
{
    law_tasks_belong(files, sources(pr_info, merge_base), k);
    law_pull_request_is_compared_in_its_base(pr_info);
}

/// The view of a step keeps what it carries.
pub proof fn law_step_view_keeps_what_it_carries(step: AfterContents)
    ensures
        step matches AfterContents::FetchBlob { api_path } ==> step@ == ContentsStep::FetchBlob(
            api_path@,
        ),
        step matches AfterContents::Done(Ok(text)) ==> step@ == ContentsStep::Done(Ok(text@)),
        step matches AfterContents::Done(Err(message)) ==> step@ == ContentsStep::Done(
            Err(message@),
        ),
{
}

} // verus!
