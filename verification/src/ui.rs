//! What the viewer does when it starts: show a pull request, a stack of commits, or a plain diff.

use vstd::prelude::*;

use crate::git::range_start;
use crate::pr_info::{is_url, parse_pr_input, pull_request};
use crate::text::{
    contains_text, decimal, has_text, law_contained_text_has_surroundings, lemma_name_position, lemma_piece_stands,
    lemma_without_trailing, name_position, number, occurs_at, parse_u64, piece_at, pieces,
    to_decimal, without_trailing,
};
use crate::types::{CommitReference, DiffOptions};
use crate::vcs::{answers_commits, answers_merge_base, CommitInfo, VcsBackend};

verus! {

/// Whether the pull request of the current branch is to be detected first.
pub open spec fn wants_detection(options: DiffOptions) -> bool {
    options.detect_pr && options.pr is None
}

/// Says whether the pull request of the current branch is to be detected first.
pub fn needs_detection(options: &DiffOptions) -> (r: bool)
    ensures
        r == wants_detection(*options),
{
    options.detect_pr && options.pr.is_none()
}

/// Takes over the detected pull request, and says which it is; or says what went wrong.
pub fn after_detection(options: &mut DiffOptions, detected: Result<String, String>) -> (r: Result<
    String,
    String,
>)
    ensures
        match detected {
            Ok(number) => {
                &&& r matches Ok(message) && message@ == "Detected PR #"@ + number@
                &&& *final(options) == (DiffOptions { pr: Some(number), ..*old(options) })
            },
            Err(e) => {
                &&& r matches Err(message) && message@ == e@
                &&& *final(options) == *old(options)
            },
        },
{
    match detected {
        Ok(number) => {
            let mut message = "Detected PR #".to_string();
            message.append(number.as_str());
            options.pr = Some(number);
            Ok(message)
        },
        Err(e) => Err(e),
    }
}

/// What is to be done.
pub enum UiAction {
    /// Fetch the pull request that `input` names, and show it.
    FetchPr { message: String, input: String },
    /// Report invalid input.
    Reject(String),
    /// Print an error and end.
    Exit(String),
    /// Show these commits one after the other.
    RunStacked(Vec<CommitInfo>),
    /// Show the diff.
    Run,
}

/// What is said while a pull request is fetched.
pub open spec fn fetch_message(input: Seq<char>) -> Seq<char> {
    match pull_request(input) {
        Some((Some(owner), Some(repo), n)) => "Fetching PR "@ + owner + "/"@ + repo + "#"@
            + decimal(n as nat),
        Some((_, _, n)) => "Fetching PR #"@ + decimal(n as nat),
        None => "Fetching PR"@,
    }
}

/// Writes what is said while a pull request is fetched.
pub fn pr_fetch_message(input: &str) -> (r: String)
    ensures
        r@ == fetch_message(input@),
{
    match parse_pr_input(input) {
        Some((Some(owner), Some(repo), n)) => {
            let mut message = "Fetching PR ".to_string();
            message.append(owner.as_str());
            message.append("/");
            message.append(repo.as_str());
            message.append("#");
            message.append(to_decimal(n).as_str());
            message
        },
        Some((_, _, n)) => {
            let mut message = "Fetching PR #".to_string();
            message.append(to_decimal(n).as_str());
            message
        },
        None => "Fetching PR".to_string(),
    }
}

/// Whether a reference looks like a pull request: an address with `/pull/` in it, or a number.
pub open spec fn looks_like_pr(reference: Seq<char>) -> bool {
    has_text(reference, "/pull/"@) || number(reference) is Some
}

/// The text that names a pull request in the options, if one does.
pub open spec fn pr_in_options(options: DiffOptions) -> Option<Seq<char>> {
    match options.pr {
        Some(input) => Some(input@),
        None => match options.reference {
            Some(CommitReference::Single(input)) => if looks_like_pr(input@) {
                Some(input@)
            } else {
                None
            },
            _ => None,
        },
    }
}

/// The beginning of an error on the terminal.
pub const ERROR_PREFIX: &'static str = "\x1b[91merror:\x1b[0m ";

/// What is to be done with the commits in a range.
pub open spec fn stack_of(
    from: Seq<char>,
    to: Seq<char>,
    reply: Result<Vec<CommitInfo>, String>,
    action: UiAction,
) -> bool {
    match reply {
        Ok(commits) => if commits@.len() == 0 {
            action matches UiAction::Exit(message) && message@ == ERROR_PREFIX@
                + "No commits found in range "@ + from + ".."@ + to
        } else {
            action == UiAction::RunStacked(commits)
        },
        Err(e) => action matches UiAction::Exit(message) && message@ == ERROR_PREFIX@ + e@,
    }
}

/// Says what is to be done with the commits in a range.
pub fn stack_commits(from: &str, to: &str, reply: Result<Vec<CommitInfo>, String>) -> (r: UiAction)
    ensures
        stack_of(from@, to@, reply, r),
{
    match reply {
        Ok(commits) => {
            if commits.len() == 0 {
                let mut message = ERROR_PREFIX.to_string();
                message.append("No commits found in range ");
                message.append(from);
                message.append("..");
                message.append(to);
                UiAction::Exit(message)
            } else {
                UiAction::RunStacked(commits)
            }
        },
        Err(e) => {
            let mut message = ERROR_PREFIX.to_string();
            message.append(e.as_str());
            UiAction::Exit(message)
        },
    }
}

/// `action` is what is to be done to show the commits between two references.
pub open spec fn stacks_range<B: VcsBackend + ?Sized>(
    backend: &B,
    from: Seq<char>,
    to: Seq<char>,
    action: UiAction,
) -> bool {
    exists|reply: Result<Vec<CommitInfo>, String>| #[trigger]
        answers_commits(backend, from, to, reply) && stack_of(from, to, reply, action)
}

/// `action` is what is to be done to show the commits of a three-dot range.
pub open spec fn stacks_triple_dots<B: VcsBackend + ?Sized>(
    backend: &B,
    from: Seq<char>,
    to: Seq<char>,
    action: UiAction,
) -> bool {
    exists|merge_base: Result<String, String>| #[trigger]
        answers_merge_base(backend, from, to, merge_base) && stacks_range(
            backend,
            range_start(from, merge_base),
            to,
            action,
        )
}

/// `action` is what is to be done to show the commits of a reference one after the other.
pub open spec fn stacks<B: VcsBackend + ?Sized>(
    backend: &B,
    reference: Option<CommitReference>,
    action: UiAction,
) -> bool {
    match reference {
        Some(CommitReference::Range { from, to }) => stacks_range(backend, from@, to@, action),
        Some(CommitReference::TripleDots { from, to }) => stacks_triple_dots(
            backend,
            from@,
            to@,
            action,
        ),
        _ => action matches UiAction::Exit(message) && message@ == ERROR_PREFIX@
            + "--stacked requires a range (e.g., main..feature)"@,
    }
}

fn stack_reference<B: VcsBackend + ?Sized>(
    reference: &Option<CommitReference>,
    backend: &B,
) -> (r: UiAction)
    ensures
        stacks(backend, *reference, r),
{
    match reference {
        Some(CommitReference::Range { from, to }) => {
            let reply = backend.get_commits_in_range(from.as_str(), to.as_str());
            assert(answers_commits(backend, from@, to@, reply));
            stack_commits(from.as_str(), to.as_str(), reply)
        },
        Some(CommitReference::TripleDots { from, to }) => {
            let merge_base = backend.get_merge_base(from.as_str(), to.as_str());
            assert(answers_merge_base(backend, from@, to@, merge_base));
            let ghost start_text = range_start(from@, merge_base);
            let start = match merge_base {
                Ok(base) => base,
                Err(_) => from.clone(),
            };
            let reply = backend.get_commits_in_range(start.as_str(), to.as_str());
            assert(answers_commits(backend, start@, to@, reply));
            let action = stack_commits(start.as_str(), to.as_str(), reply);
            assert(stacks_range(backend, start_text, to@, action));
            action
        },
        _ => {
            let mut message = ERROR_PREFIX.to_string();
            message.append("--stacked requires a range (e.g., main..feature)");
            UiAction::Exit(message)
        },
    }
}

/// `action` is what is to be done for the options.
pub open spec fn acts<B: VcsBackend + ?Sized>(
    backend: &B,
    options: DiffOptions,
    action: UiAction,
) -> bool {
    match pr_in_options(options) {
        Some(text) => action matches UiAction::FetchPr { message, input } && input@ == text
            && message@ == fetch_message(text),
        None => if options.worktree_guidance {
            action matches UiAction::Reject(message) && message@
                == "--worktree-guidance requires a pull request (URL, number, --pr, or --detect-pr)"@
        } else if options.stacked {
            stacks(backend, options.reference, action)
        } else {
            action == UiAction::Run
        },
    }
}

/// Says what is to be done. A pull request comes first, named as such or by a reference that
/// looks like one; guidance on worktrees needs one; then come stacked commits, and at last the
/// plain diff.
pub fn choose_action<B: VcsBackend + ?Sized>(options: &DiffOptions, backend: &B) -> (r: UiAction)
    ensures
        acts(backend, *options, r),
{
    if let Some(input) = &options.pr {
        return UiAction::FetchPr {
            message: pr_fetch_message(input.as_str()),
            input: input.clone(),
        };
    }
    if let Some(CommitReference::Single(input)) = &options.reference {
        if contains_text(input.as_str(), "/pull/") || parse_u64(input.as_str()).is_some() {
            return UiAction::FetchPr {
                message: pr_fetch_message(input.as_str()),
                input: input.clone(),
            };
        }
    }
    if options.worktree_guidance {
        return UiAction::Reject(
            "--worktree-guidance requires a pull request (URL, number, --pr, or --detect-pr)".to_string(),
        );
    }
    if options.stacked {
        return stack_reference(&options.reference, backend);
    }
    UiAction::Run
}

/// Every text that names a pull request is taken for one when it is given as a reference.
pub proof fn law_named_pull_request_is_recognized(reference: Seq<char>)
    requires
        pull_request(reference) is Some,
    ensures
        looks_like_pr(reference),
{
    if is_url(reference) {
        let address = without_trailing(reference, '/');
        let parts = pieces(address, '/');
        let pos = name_position(parts, "pull"@, 0)->0;
        lemma_name_position(parts, "pull"@, 0);
        lemma_without_trailing(reference, '/');
        lemma_piece_stands(address, '/', pos);
        let k = choose|k: int| piece_at(address, '/', pos, k);
        reveal_strlit("http://");
        reveal_strlit("https://");
        reveal_strlit("pull");
        reveal_strlit("/pull/");
        let word = address.subrange(k, k + 4);
        assert(word[0] == address[k] && word[1] == address[k + 1] && word[2] == address[k + 2]
            && word[3] == address[k + 3]);
        assert(pos > 0) by {
            if occurs_at(reference, "http://"@, 0) {
                assert(reference.subrange(0, 7)[0] == reference[0]);
            } else {
                assert(reference.subrange(0, 8)[0] == reference[0]);
            }
        }
        assert(reference.subrange(k - 1, k + 5) =~= "/pull/"@);
        assert(occurs_at(reference, "/pull/"@, k - 1));
    }
}

/// A pull request that is given as a reference is fetched just as one that is given as such.
pub proof fn law_reference_is_as_good_as_pr(options: DiffOptions, given: String)
    requires
        pull_request(given@) is Some,
    ensures
        pr_in_options(
            (DiffOptions {
                pr: None,
                reference: Some(CommitReference::Single(given)),
                ..options
            }),
        ) == pr_in_options((DiffOptions { pr: Some(given), ..options })),
{
    law_named_pull_request_is_recognized(given@);
}

/// What is decided, by the options alone. A named pull request is fetched under the name that the
/// user gave; so is a single reference exactly if `/pull/` stands in it or it is a number of 64
/// bits. Everything else is no pull request: then guidance on worktrees is refused, stacked commits
/// come before the plain diff, and what is left is the plain diff.
pub proof fn law_start_is_decided<B: VcsBackend + ?Sized>(
    backend: &B,
    options: DiffOptions,
    action: UiAction,
)
    requires
        acts(backend, options, action),
    ensures
        options.pr matches Some(named) ==> action is FetchPr && action->input@ == named@,
        options.pr is None ==> {
            let is_pr = options.reference matches Some(CommitReference::Single(given)) && (number(
                given@,
            ) is Some || exists|before: Seq<char>, behind: Seq<char>|
                given@ == #[trigger] (before + "/pull/"@ + behind));
            &&& is_pr ==> action is FetchPr && action->input@
                == options.reference->Some_0->Single_0@
            &&& !is_pr && options.worktree_guidance ==> action is Reject
            &&& !is_pr && !options.worktree_guidance && options.stacked ==> action is Exit
                || action is RunStacked
            &&& !is_pr && !options.worktree_guidance && options.stacked ==> stacks(
                backend,
                options.reference,
                action,
            )
            &&& !is_pr && !options.worktree_guidance && !options.stacked ==> action is Run
        },
{
    if let Some(CommitReference::Single(given)) = options.reference {
        law_contained_text_has_surroundings(given@, "/pull/"@);
    }
}

/// A single reference that is no number of 64 bits and in which `/pull/` does not stand is not taken
/// for a pull request: without `--pr`, `--stacked` and guidance on worktrees the plain diff is shown.
pub proof fn law_plain_reference_is_shown<B: VcsBackend + ?Sized>(
    backend: &B,
    options: DiffOptions,
    given: String,
    action: UiAction,
)
    requires
        options.pr is None,
        !options.stacked,
        !options.worktree_guidance,
        options.reference == Some(CommitReference::Single(given)),
        number(given@) is None,
        forall|before: Seq<char>, behind: Seq<char>|
            given@ != #[trigger] (before + "/pull/"@ + behind),
        acts(backend, options, action),
    ensures
        action == UiAction::Run,
{
    law_start_is_decided(backend, options, action);
}

/// What is said while a pull request is fetched names it as far as the user did: with owner and
/// repository, by its number alone, or not at all.
pub proof fn law_message_names_pull_request<B: VcsBackend + ?Sized>(
    backend: &B,
    options: DiffOptions,
    action: UiAction,
)
    requires
        acts(backend, options, action),
        action is FetchPr,
    ensures
        match pull_request(action->FetchPr_input@) {
            Some((Some(owner), Some(repo), n)) => action->FetchPr_message@ == "Fetching PR "@ + (
            owner + "/"@ + repo) + ("#"@ + decimal(n as nat)),
            Some((_, _, n)) => action->FetchPr_message@ == "Fetching PR #"@ + decimal(n as nat),
            None => action->FetchPr_message@ == "Fetching PR"@,
        },
{
}

/// Commits that could not be listed end with an error that tells why, and a list without commits
/// with one that names the range; any other list is shown as it is.
pub proof fn law_stack_error_tells_why(
    from: Seq<char>,
    to: Seq<char>,
    reason: String,
    commits: Vec<CommitInfo>,
    failed: UiAction,
    action: UiAction,
)
    requires
        stack_of(from, to, Err(reason), failed),
        stack_of(from, to, Ok(commits), action),
    ensures
        failed is Exit && has_text(failed->Exit_0@, reason@),
        commits@.len() == 0 ==> action is Exit && has_text(
            action->Exit_0@,
            "No commits found in range "@ + from + ".."@ + to,
        ),
        commits@.len() > 0 ==> action == UiAction::RunStacked(commits),
{
    assert(failed->Exit_0@ =~= ERROR_PREFIX@ + reason@ + Seq::<char>::empty());
    law_contained_text_has_surroundings(failed->Exit_0@, reason@);
    if commits@.len() == 0 {
        let text = "No commits found in range "@ + from + ".."@ + to;
        assert(action->Exit_0@ =~= ERROR_PREFIX@ + text + Seq::<char>::empty());
        law_contained_text_has_surroundings(action->Exit_0@, text);
    }
}

/// Nothing is detected unless the user asked for it, nor where a pull request is named already. Once
/// one has been detected, it is the one that is fetched, and nothing more is to be detected.
pub proof fn law_detected_pull_request_is_fetched<B: VcsBackend + ?Sized>(
    backend: &B,
    options: DiffOptions,
    found: String,
    action: UiAction,
)
    requires
        acts(backend, (DiffOptions { pr: Some(found), ..options }), action),
    ensures
        wants_detection(options) <==> options.detect_pr && options.pr is None,
        !wants_detection((DiffOptions { pr: Some(found), ..options })),
        action is FetchPr && action->input@ == found@,
{
}

} // verus!
