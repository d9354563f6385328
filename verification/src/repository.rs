//! What loading a diff comes to on a repository that stays as it is.
//!
//! A backend may answer anything. Here the answers are those of a repository: every question has
//! one answer, or fails. What is shown is then told in terms of the repository alone.

use vstd::prelude::*;

use crate::git::{
    branch_name, changed_files, commit_file_loaded, commit_lists, commit_loads, content_at,
    file_loaded, law_filter_keeps_named_files, lists, loads, new_side, old_ref, old_side, parent_of, range_lists,
    range_start, requested, resolves, tree_lists, wanted, Refs,
};
use crate::text::{first_occurrences, has_text, law_contained_text_has_surroundings, texts};
use crate::types::{CommitReference, DiffOptions, FileDiff, FileStatus};
use crate::ui::{stack_of, stacks, stacks_range, UiAction, ERROR_PREFIX};
use crate::vcs::{
    answers_commits, answers_current_branch, answers_merge_base, answers_working_parent, CommitInfo,
    DiffHost, VcsBackend,
};

verus! {

/// A repository: for each question its answer. A question without an entry fails.
pub struct Repository {
    pub branch: Option<Seq<char>>,
    pub merge_bases: Map<(Seq<char>, Seq<char>), Seq<char>>,
    pub changed: Map<Seq<char>, Seq<Seq<char>>>,
    pub changed_between: Map<(Seq<char>, Seq<char>), Seq<Seq<char>>>,
    pub changed_in_tree: Option<Seq<Seq<char>>>,
    pub head: Seq<char>,
    pub parents: Map<Seq<char>, Seq<char>>,
    pub contents: Map<(Seq<char>, Seq<char>), Seq<char>>,
    pub commits: Map<(Seq<char>, Seq<char>), Vec<CommitInfo>>,
}

/// Whether all answers of a backend are those of a repository.
pub open spec fn tells<B: VcsBackend + ?Sized>(backend: &B, repo: Repository) -> bool {
    &&& forall|reply: Result<Option<String>, String>| #[trigger]
        call_ensures(B::get_current_branch, (backend,), reply) ==> match repo.branch {
            Some(name) => reply matches Ok(Some(text)) && text@ == name,
            None => reply is Err || reply->Ok_0 is None,
        }
    &&& forall|from: &str, to: &str, reply: Result<String, String>| #[trigger]
        call_ensures(B::get_merge_base, (backend, from, to), reply) ==> if repo.merge_bases.dom().contains((from@, to@)) {
            reply matches Ok(base) && base@ == repo.merge_bases[(from@, to@)]
        } else {
            reply is Err
        }
    &&& forall|commit: &str, reply: Result<Vec<String>, String>| #[trigger]
        call_ensures(B::get_changed_files, (backend, commit), reply) ==> if repo.changed.dom().contains(commit@) {
            reply matches Ok(files) && files@.len() == repo.changed[commit@].len() && forall|i: int|
                0 <= i < files@.len() ==> (#[trigger] files@[i])@ == repo.changed[commit@][i]
        } else {
            reply is Err
        }
    &&& forall|from: &str, to: &str, reply: Result<Vec<String>, String>| #[trigger]
        call_ensures(B::get_range_changed_files, (backend, from, to), reply)
            ==> if repo.changed_between.dom().contains((from@, to@)) {
            reply matches Ok(files) && files@.len() == repo.changed_between[(from@, to@)].len()
                && forall|i: int|
                0 <= i < files@.len() ==> (#[trigger] files@[i])@ == repo.changed_between[(
                    from@,
                    to@,
                )][i]
        } else {
            reply is Err
        }
    &&& forall|reply: Result<Vec<String>, String>| #[trigger]
        call_ensures(B::get_working_tree_changed_files, (backend,), reply)
            ==> match repo.changed_in_tree {
            Some(names) => reply matches Ok(files) && files@.len() == names.len() && forall|i: int|
                0 <= i < files@.len() ==> (#[trigger] files@[i])@ == names[i],
            None => reply is Err,
        }
    &&& forall|reply: &str| #[trigger]
        call_ensures(B::working_copy_parent_ref, (backend,), reply) ==> reply@ == repo.head
    &&& forall|commit: &str, reply: Result<String, String>| #[trigger]
        call_ensures(B::get_parent_ref_or_empty, (backend, commit), reply) ==> if repo.parents.dom().contains(commit@) {
            reply matches Ok(parent) && parent@ == repo.parents[commit@]
        } else {
            reply is Err
        }
    &&& forall|git_ref: &str, path: &str, reply: Result<String, String>| #[trigger]
        call_ensures(B::get_file_content_at_ref, (backend, git_ref, path), reply)
            ==> if repo.contents.dom().contains((git_ref@, path@)) {
            reply matches Ok(text) && text@ == repo.contents[(git_ref@, path@)]
        } else {
            reply is Err
        }
    &&& forall|from: &str, to: &str, reply: Result<Vec<CommitInfo>, String>| #[trigger]
        call_ensures(B::get_commits_in_range, (backend, from, to), reply) ==> if repo.commits.dom().contains((from@, to@)) {
            reply == Ok::<Vec<CommitInfo>, String>(repo.commits[(from@, to@)])
        } else {
            reply is Err
        }
}

/// A working tree: what its files hold, and which contents are shown as binary.
pub struct Tree {
    pub files: Map<Seq<char>, Seq<char>>,
    pub binary: spec_fn(Seq<char>) -> bool,
}

/// Whether all answers of a host are those of a working tree.
pub open spec fn shows<H: DiffHost + ?Sized>(host: &H, tree: Tree) -> bool {
    &&& forall|filename: &str, reply: Result<String, String>| #[trigger]
        call_ensures(H::read_to_string, (host, filename), reply) ==> if tree.files.dom().contains(filename@) {
            reply matches Ok(text) && text@ == tree.files[filename@]
        } else {
            reply is Err
        }
    &&& forall|content: &str, reply: bool| #[trigger]
        call_ensures(H::is_binary_content, (host, content), reply) ==> reply == (tree.binary)(
            content@,
        )
}

/// What a file holds at a reference of a repository; nothing where it is not there, and nothing at
/// the empty reference, which stands for the parent of a root commit.
pub open spec fn held(repo: Repository, git_ref: Seq<char>, filename: Seq<char>) -> Seq<char> {
    if git_ref.len() > 0 && repo.contents.dom().contains((git_ref, filename)) {
        repo.contents[(git_ref, filename)]
    } else {
        Seq::empty()
    }
}

/// What a file of a working tree holds; nothing where it is not there.
pub open spec fn held_in_tree(tree: Tree, filename: Seq<char>) -> Seq<char> {
    if tree.files.dom().contains(filename) {
        tree.files[filename]
    } else {
        Seq::empty()
    }
}

/// The branch is the one that is checked out, or `unknown`.
pub proof fn law_branch_is_checked_out<B: VcsBackend + ?Sized>(
    backend: &B,
    repo: Repository,
    reply: Result<Option<String>, String>,
)
    requires
        tells(backend, repo),
        answers_current_branch(backend, reply),
    ensures
        repo.branch matches Some(name) ==> branch_name(reply) == name,
        repo.branch is None ==> branch_name(reply) == "unknown"@,
{
}

/// A reference is resolved by its kind. A three-dot range begins at the merge base and ends where
/// the user said; if there is no merge base it begins where the user said, and one warning names
/// both ends. Nothing is said otherwise.
pub proof fn law_reference_is_resolved<B: VcsBackend + ?Sized>(
    backend: &B,
    repo: Repository,
    reference: Option<CommitReference>,
    refs: Refs,
    said: Seq<Seq<char>>,
)
    requires
        tells(backend, repo),
        resolves(backend, reference, refs, said),
    ensures
        reference is None ==> refs is WorkingTree && said.len() == 0,
        reference matches Some(CommitReference::Single(sha)) ==> refs == Refs::Single(sha@)
            && said.len() == 0,
        reference matches Some(CommitReference::Range { from, to }) ==> refs == (Refs::Range {
            from: from@,
            to: to@,
        }) && said.len() == 0,
        reference matches Some(CommitReference::RangeToWorkingTree { from }) ==> refs == (
        Refs::RangeToWorkingTree { from: from@ }) && said.len() == 0,
        reference matches Some(CommitReference::TripleDots { from, to }) ==> {
            if repo.merge_bases.dom().contains((from@, to@)) {
                &&& refs == (Refs::Range { from: repo.merge_bases[(from@, to@)], to: to@ })
                &&& said.len() == 0
            } else {
                &&& refs == (Refs::Range { from: from@, to: to@ })
                &&& said.len() == 1
                &&& has_text(said[0], from@ + "..."@ + to@)
                &&& has_text(said[0], "Using '"@ + from@ + "' as base."@)
            }
        },
{
    if let Some(CommitReference::TripleDots { from, to }) = reference {
        let merge_base = choose|merge_base: Result<String, String>|
            {
                &&& #[trigger] answers_merge_base(backend, from@, to@, merge_base)
                &&& resolves_as(from@, to@, merge_base, refs, said)
            };
        if let Err(e) = merge_base {
            reveal_strlit(". Using '");
            reveal_strlit("Using '");
            let start = "Warning: failed to find merge-base for "@;
            let text = said[0];
            assert(text =~= start + (from@ + "..."@ + to@) + (": "@ + e@ + ". Using '"@ + from@
                + "' as base."@));
            law_contained_text_has_surroundings(text, from@ + "..."@ + to@);
            let behind = "Using '"@ + from@ + "' as base."@;
            assert(". Using '"@ =~= ". "@ + "Using '"@) by {
                reveal_strlit(". ");
            }
            assert(text =~= (start + from@ + "..."@ + to@ + ": "@ + e@ + ". "@) + behind + Seq::<
                char,
            >::empty());
            law_contained_text_has_surroundings(text, behind);
        }
    }
}

spec fn resolves_as(
    from: Seq<char>,
    to: Seq<char>,
    merge_base: Result<String, String>,
    refs: Refs,
    said: Seq<Seq<char>>,
) -> bool {
    match merge_base {
        Ok(base) => refs == (Refs::Range { from: base@, to }) && said == Seq::<Seq<char>>::empty(),
        Err(e) => refs == (Refs::Range { from, to }) && said == seq![
            "Warning: failed to find merge-base for "@ + from + "..."@ + to + ": "@ + e@
                + ". Using '"@ + from + "' as base."@,
        ],
    }
}

/// A three-dot range is the two-dot range from the merge base on: it resolves to the same.
pub proof fn law_three_dots_begin_at_merge_base<B: VcsBackend + ?Sized>(
    backend: &B,
    repo: Repository,
    from: String,
    to: String,
    base: String,
    dots: Refs,
    dots_said: Seq<Seq<char>>,
    range: Refs,
    range_said: Seq<Seq<char>>,
)
    requires
        tells(backend, repo),
        repo.merge_bases.dom().contains((from@, to@)),
        base@ == repo.merge_bases[(from@, to@)],
        resolves(backend, Some(CommitReference::TripleDots { from, to }), dots, dots_said),
        resolves(backend, Some(CommitReference::Range { from: base, to }), range, range_said),
    ensures
        dots == range,
        dots_said == range_said,
{
    law_reference_is_resolved(
        backend,
        repo,
        Some(CommitReference::TripleDots { from, to }),
        dots,
        dots_said,
    );
    law_reference_is_resolved(
        backend,
        repo,
        Some(CommitReference::Range { from: base, to }),
        range,
        range_said,
    );
    assert(dots_said =~= range_said);
}

/// The files of a list, or none where there is no list.
pub open spec fn or_none(list: Option<Seq<Seq<char>>>) -> Seq<Seq<char>> {
    match list {
        Some(files) => files,
        None => Seq::empty(),
    }
}

/// The files that changed between two references of a repository.
pub open spec fn between(repo: Repository, from: Seq<char>, to: Seq<char>) -> Seq<Seq<char>> {
    if repo.changed_between.dom().contains((from, to)) {
        repo.changed_between[(from, to)]
    } else {
        Seq::empty()
    }
}

/// The files that a commit of a repository changed.
pub open spec fn changed_by(repo: Repository, commit: Seq<char>) -> Seq<Seq<char>> {
    if repo.changed.dom().contains(commit) {
        repo.changed[commit]
    } else {
        Seq::empty()
    }
}

proof fn lemma_range_lists<B: VcsBackend + ?Sized>(
    backend: &B,
    repo: Repository,
    from: Seq<char>,
    to: Seq<char>,
    files: Seq<Seq<char>>,
)
    requires
        tells(backend, repo),
        range_lists(backend, from, to, files),
    ensures
        files == between(repo, from, to),
{
    assert(files =~= between(repo, from, to));
}

proof fn lemma_tree_lists<B: VcsBackend + ?Sized>(
    backend: &B,
    repo: Repository,
    files: Seq<Seq<char>>,
)
    requires
        tells(backend, repo),
        tree_lists(backend, files),
    ensures
        files == or_none(repo.changed_in_tree),
{
    assert(files =~= or_none(repo.changed_in_tree));
}

/// The files that are listed are those that the repository has for the two sides, in its order.
/// From a reference to the working tree they are those since the reference, up to what the tree is
/// based on, and then those of the tree that are not among them.
pub proof fn law_listed_files_changed<B: VcsBackend + ?Sized>(
    backend: &B,
    repo: Repository,
    refs: Refs,
    files: Seq<Seq<char>>,
)
    requires
        tells(backend, repo),
        lists(backend, refs, files),
    ensures
        refs matches Refs::Single(sha) ==> files == changed_by(repo, sha),
        refs matches Refs::Range { from, to } ==> files == between(repo, from, to),
        refs is WorkingTree ==> files == or_none(repo.changed_in_tree),
        refs matches Refs::RangeToWorkingTree { from } ==> files == first_occurrences(
            between(repo, from, repo.head) + or_none(repo.changed_in_tree),
        ),
{
    match refs {
        Refs::Single(sha) => {
            assert(files =~= changed_by(repo, sha));
        },
        Refs::Range { from, to } => {
            lemma_range_lists(backend, repo, from, to, files);
        },
        Refs::WorkingTree => {
            lemma_tree_lists(backend, repo, files);
        },
        Refs::RangeToWorkingTree { from } => {
            let (head, in_range, in_tree) = choose|
                head: Seq<char>,
                in_range: Seq<Seq<char>>,
                in_tree: Seq<Seq<char>>,
            |
                {
                    &&& answers_working_parent(backend, head)
                    &&& #[trigger] range_lists(backend, from, head, in_range)
                    &&& #[trigger] tree_lists(backend, in_tree)
                    &&& files == first_occurrences(in_range + in_tree)
                };
            lemma_range_lists(backend, repo, from, head, in_range);
            lemma_tree_lists(backend, repo, in_tree);
        },
    }
}

/// The files that are shown are the listed ones that the user asked for: all of them without a
/// filter, and with one those that it names.
pub proof fn law_shown_files_are_asked_for<B: VcsBackend + ?Sized>(
    backend: &B,
    repo: Repository,
    options: DiffOptions,
    files: Seq<Seq<char>>,
    said: Seq<Seq<char>>,
)
    requires
        tells(backend, repo),
        changed_files(backend, options, files, said),
    ensures
        exists|refs: Refs, listed: Seq<Seq<char>>|
            {
                &&& #[trigger] resolves(backend, options.reference, refs, said)
                &&& #[trigger] lists(backend, refs, listed)
                &&& options.file is None ==> files == listed
                &&& options.file matches Some(names) ==> forall|file: Seq<char>| #[trigger]
                    files.contains(file) <==> listed.contains(file) && exists|i: int|
                        0 <= i < names@.len() && (#[trigger] names@[i])@ == file
            },
{
    let (refs, listed) = choose|refs: Refs, listed: Seq<Seq<char>>|
        {
            &&& #[trigger] resolves(backend, options.reference, refs, said)
            &&& #[trigger] lists(backend, refs, listed)
            &&& files == requested(listed, wanted(options.file))
        };
    if let Some(names) = options.file {
        law_filter_keeps_named_files(listed, texts(names@));
        assert forall|file: Seq<char>| #[trigger] files.contains(file) <==> listed.contains(file)
            && exists|i: int| 0 <= i < names@.len() && (#[trigger] names@[i])@ == file by {
            if texts(names@).contains(file) {
                let i = choose|i: int| 0 <= i < texts(names@).len() && texts(names@)[i] == file;
                assert(names@[i]@ == file);
            }
            if exists|i: int| 0 <= i < names@.len() && (#[trigger] names@[i])@ == file {
                let i = choose|i: int| 0 <= i < names@.len() && (#[trigger] names@[i])@ == file;
                assert(texts(names@)[i] == file);
            }
        }
    }
    assert(resolves(backend, options.reference, refs, said) && lists(backend, refs, listed));
}

proof fn lemma_content_at<B: VcsBackend + ?Sized>(
    backend: &B,
    repo: Repository,
    git_ref: Seq<char>,
    filename: Seq<char>,
    content: Seq<char>,
)
    requires
        tells(backend, repo),
        content_at(backend, git_ref, filename, content),
    ensures
        content == held(repo, git_ref, filename),
{
}

proof fn lemma_parent_of<B: VcsBackend + ?Sized>(
    backend: &B,
    repo: Repository,
    commit: Seq<char>,
    parent: Seq<char>,
)
    requires
        tells(backend, repo),
        parent_of(backend, commit, parent),
    ensures
        repo.parents.dom().contains(commit) ==> parent == repo.parents[commit],
        !repo.parents.dom().contains(commit) ==> parent.len() == 0,
{
}

/// What a file holds on the old side, character for character: what it holds in the parent of a
/// single commit, at the start of a range, or at what the working tree is based on.
pub proof fn law_old_side_is_what_the_repository_holds<B: VcsBackend + ?Sized>(
    backend: &B,
    repo: Repository,
    refs: Refs,
    filename: Seq<char>,
    content: Seq<char>,
)
    requires
        tells(backend, repo),
        old_side(backend, refs, filename, content),
    ensures
        refs matches Refs::Single(sha) ==> {
            &&& repo.parents.dom().contains(sha) ==> content == held(
                repo,
                repo.parents[sha],
                filename,
            )
            &&& !repo.parents.dom().contains(sha) ==> content.len() == 0
        },
        refs matches Refs::Range { from, .. } ==> content == held(repo, from, filename),
        refs matches Refs::RangeToWorkingTree { from } ==> content == held(repo, from, filename),
        refs is WorkingTree ==> content == held(repo, repo.head, filename),
{
    let git_ref = choose|git_ref: Seq<char>| #[trigger]
        old_ref(backend, refs, git_ref) && content_at(backend, git_ref, filename, content);
    lemma_content_at(backend, repo, git_ref, filename, content);
    if let Refs::Single(sha) = refs {
        lemma_parent_of(backend, repo, sha, git_ref);
    }
}

/// What a file holds on the new side, character for character: what it holds in a single commit or
/// at the end of a range, or what stands in the working tree.
pub proof fn law_new_side_is_what_the_repository_holds<
    B: VcsBackend + ?Sized,
    H: DiffHost + ?Sized,
>(
    backend: &B,
    repo: Repository,
    host: &H,
    tree: Tree,
    refs: Refs,
    filename: Seq<char>,
    content: Seq<char>,
)
    requires
        tells(backend, repo),
        shows(host, tree),
        new_side(backend, host, refs, filename, content),
    ensures
        refs matches Refs::Single(sha) ==> sha.len() > 0 ==> content == held(repo, sha, filename),
        refs matches Refs::Range { to, .. } ==> to.len() > 0 ==> content == held(
            repo,
            to,
            filename,
        ),
        refs is WorkingTree || refs is RangeToWorkingTree ==> content == held_in_tree(
            tree,
            filename,
        ),
{
}

/// Whether a status, a mark for binary content and two contents belong together: a file was added
/// or deleted exactly if one side alone is empty, and it is binary exactly if one of its sides is.
pub open spec fn consistent(diff: FileDiff, tree: Tree) -> bool {
    &&& diff.status == FileStatus::Added <==> diff.old_content@.len() == 0
        && diff.new_content@.len() > 0
    &&& diff.status == FileStatus::Deleted <==> diff.old_content@.len() > 0
        && diff.new_content@.len() == 0
    &&& diff.is_binary <==> (tree.binary)(diff.old_content@) || (tree.binary)(diff.new_content@)
}

/// The diff of a file shows what the repository holds of that file on both sides, character for
/// character, with the status and the mark for binary content that belong to them.
pub proof fn law_diff_shows_both_sides<B: VcsBackend + ?Sized, H: DiffHost + ?Sized>(
    backend: &B,
    repo: Repository,
    host: &H,
    tree: Tree,
    refs: Refs,
    filename: Seq<char>,
    diff: FileDiff,
)
    requires
        tells(backend, repo),
        shows(host, tree),
        file_loaded(backend, host, refs, filename, diff),
    ensures
        diff.filename@ == filename,
        consistent(diff, tree),
        refs matches Refs::Single(sha) ==> {
            &&& repo.parents.dom().contains(sha) ==> diff.old_content@ == held(
                repo,
                repo.parents[sha],
                filename,
            )
            &&& !repo.parents.dom().contains(sha) ==> diff.old_content@.len() == 0
            &&& sha.len() > 0 ==> diff.new_content@ == held(repo, sha, filename)
        },
        refs matches Refs::Range { from, to } ==> {
            &&& diff.old_content@ == held(repo, from, filename)
            &&& to.len() > 0 ==> diff.new_content@ == held(repo, to, filename)
        },
        refs is WorkingTree ==> {
            &&& diff.old_content@ == held(repo, repo.head, filename)
            &&& diff.new_content@ == held_in_tree(tree, filename)
        },
        refs matches Refs::RangeToWorkingTree { from } ==> {
            &&& diff.old_content@ == held(repo, from, filename)
            &&& diff.new_content@ == held_in_tree(tree, filename)
        },
{
    law_old_side_is_what_the_repository_holds(
        backend,
        repo,
        refs,
        filename,
        diff.old_content@,
    );
    law_new_side_is_what_the_repository_holds(
        backend,
        repo,
        host,
        tree,
        refs,
        filename,
        diff.new_content@,
    );
}

/// The diff of a file in a commit shows what the repository holds of that file in the parent and in
/// the commit.
pub proof fn law_commit_diff_shows_both_sides<B: VcsBackend + ?Sized, H: DiffHost + ?Sized>(
    backend: &B,
    repo: Repository,
    host: &H,
    tree: Tree,
    commit: Seq<char>,
    parent: Seq<char>,
    filename: Seq<char>,
    diff: FileDiff,
)
    requires
        tells(backend, repo),
        shows(host, tree),
        commit.len() > 0,
        parent_of(backend, commit, parent),
        commit_file_loaded(backend, host, commit, parent, filename, diff),
    ensures
        diff.filename@ == filename,
        consistent(diff, tree),
        repo.parents.dom().contains(commit) ==> diff.old_content@ == held(
            repo,
            repo.parents[commit],
            filename,
        ),
        !repo.parents.dom().contains(commit) ==> diff.old_content@.len() == 0,
        diff.new_content@ == held(repo, commit, filename),
{
    lemma_parent_of(backend, repo, commit, parent);
    lemma_content_at(backend, repo, parent, filename, diff.old_content@);
}

/// The files of a commit are those that it changed.
pub proof fn law_commit_lists_its_files<B: VcsBackend + ?Sized>(
    backend: &B,
    repo: Repository,
    commit: Seq<char>,
    files: Seq<Seq<char>>,
)
    requires
        tells(backend, repo),
        commit_lists(backend, commit, files),
    ensures
        files == changed_by(repo, commit),
{
    assert(files =~= changed_by(repo, commit));
}

/// Commits are stacked only for a range, and they are those of the range, from the merge base on for
/// three dots. A range without commits, or one that the repository does not know, ends with an
/// error that names it or says why.
pub proof fn law_stack_is_the_range<B: VcsBackend + ?Sized>(
    backend: &B,
    repo: Repository,
    reference: Option<CommitReference>,
    action: UiAction,
)
    requires
        tells(backend, repo),
        stacks(backend, reference, action),
    ensures
        action is RunStacked || action is Exit,
        !(reference matches Some(CommitReference::Range { .. })) && !(reference matches Some(
            CommitReference::TripleDots { .. },
        )) ==> action is Exit,
        reference matches Some(CommitReference::Range { from, to }) ==> stacked_as(
            repo,
            from@,
            to@,
            action,
        ),
        reference matches Some(CommitReference::TripleDots { from, to }) ==> stacked_as(
            repo,
            if repo.merge_bases.dom().contains((from@, to@)) {
                repo.merge_bases[(from@, to@)]
            } else {
                from@
            },
            to@,
            action,
        ),
{
    match reference {
        Some(CommitReference::Range { from, to }) => {
            lemma_stacked(backend, repo, from@, to@, action);
        },
        Some(CommitReference::TripleDots { from, to }) => {
            let merge_base = choose|merge_base: Result<String, String>| #[trigger]
                answers_merge_base(backend, from@, to@, merge_base) && stacks_range(
                    backend,
                    range_start(from@, merge_base),
                    to@,
                    action,
                );
            lemma_stacked(backend, repo, range_start(from@, merge_base), to@, action);
        },
        _ => {},
    }
}

/// Whether an action shows the commits of a repository between two references: those that it has,
/// or an error.
pub open spec fn stacked_as(
    repo: Repository,
    from: Seq<char>,
    to: Seq<char>,
    action: UiAction,
) -> bool {
    if repo.commits.dom().contains((from, to)) && repo.commits[(from, to)]@.len() > 0 {
        action == UiAction::RunStacked(repo.commits[(from, to)])
    } else {
        &&& action is Exit
        &&& repo.commits.dom().contains((from, to)) ==> has_text(
            action->Exit_0@,
            "No commits found in range "@ + from + ".."@ + to,
        )
    }
}

proof fn lemma_stacked<B: VcsBackend + ?Sized>(
    backend: &B,
    repo: Repository,
    from: Seq<char>,
    to: Seq<char>,
    action: UiAction,
)
    requires
        tells(backend, repo),
        stacks_range(backend, from, to, action),
    ensures
        stacked_as(repo, from, to, action),
        action is RunStacked || action is Exit,
{
    let reply = choose|reply: Result<Vec<CommitInfo>, String>| #[trigger]
        answers_commits(backend, from, to, reply) && stack_of(from, to, reply, action);
    if let Ok(commits) = reply {
        if commits@.len() == 0 {
            let text = "No commits found in range "@ + from + ".."@ + to;
            assert(action->Exit_0@ =~= ERROR_PREFIX@ + text + Seq::<char>::empty());
            law_contained_text_has_surroundings(action->Exit_0@, text);
        }
    }
}

/// From the options through to the diffs. There is one diff for each file that is listed between the
/// resolved sides and asked for, in the order of the list, and each shows both sides of its file.
pub proof fn law_loaded_diffs_show_the_change<B: VcsBackend + ?Sized, H: DiffHost + ?Sized>(
    backend: &B,
    repo: Repository,
    host: &H,
    tree: Tree,
    options: DiffOptions,
    diffs: Seq<FileDiff>,
    said_first: Seq<Seq<char>>,
    said_then: Seq<Seq<char>>,
)
    requires
        tells(backend, repo),
        shows(host, tree),
        loads(backend, host, options, diffs, said_first, said_then),
    ensures
        said_first.len() == said_then.len(),
        exists|refs: Refs, listed: Seq<Seq<char>>|
            {
                &&& #[trigger] resolves(backend, options.reference, refs, said_first)
                &&& #[trigger] lists(backend, refs, listed)
                &&& options.file is None ==> diffs.len() == listed.len() && forall|i: int|
                    0 <= i < diffs.len() ==> (#[trigger] diffs[i]).filename@ == listed[i]
                &&& options.file is Some ==> forall|file: Seq<char>|
                    (exists|i: int|
                        0 <= i < diffs.len() && (#[trigger] diffs[i]).filename@ == file)
                        <==> #[trigger] listed.contains(file) && texts(options.file->0@).contains(
                        file,
                    )
                &&& forall|i: int|
                    0 <= i < diffs.len() ==> file_loaded(
                        backend,
                        host,
                        refs,
                        (#[trigger] diffs[i]).filename@,
                        diffs[i],
                    )
            },
{
    let (refs, files) = choose|refs: Refs, files: Seq<Seq<char>>|
        {
            &&& #[trigger] resolves(backend, options.reference, refs, said_first)
            &&& #[trigger] changed_files(backend, options, files, said_then)
            &&& diffs.len() == files.len()
            &&& forall|i: int|
                0 <= i < files.len() ==> file_loaded(
                    backend,
                    host,
                    refs,
                    files[i],
                    #[trigger] diffs[i],
                )
        };
    let (other, listed) = choose|other: Refs, listed: Seq<Seq<char>>|
        {
            &&& #[trigger] resolves(backend, options.reference, other, said_then)
            &&& #[trigger] lists(backend, other, listed)
            &&& files == requested(listed, wanted(options.file))
        };
    lemma_resolved_once(
        backend,
        repo,
        options.reference,
        refs,
        said_first,
        other,
        said_then,
    );
    assert forall|i: int| 0 <= i < diffs.len() implies (#[trigger] diffs[i]).filename@
        == files[i] by {}
    if let Some(names) = options.file {
        law_filter_keeps_named_files(listed, texts(names@));
        assert forall|file: Seq<char>|
            (exists|i: int| 0 <= i < diffs.len() && (#[trigger] diffs[i]).filename@ == file)
                <==> #[trigger] listed.contains(file) && texts(names@).contains(file) by {
            if exists|i: int| 0 <= i < diffs.len() && (#[trigger] diffs[i]).filename@ == file {
                let i = choose|i: int|
                    0 <= i < diffs.len() && (#[trigger] diffs[i]).filename@ == file;
                assert(files[i] == file);
                assert(files.contains(file));
            }
            if listed.contains(file) && texts(names@).contains(file) {
                assert(files.contains(file));
                let i = choose|i: int| 0 <= i < files.len() && files[i] == file;
                assert(diffs[i].filename@ == file);
            }
        }
    }
    assert(resolves(backend, options.reference, refs, said_first));
    assert(lists(backend, refs, listed));
}

proof fn lemma_resolved_once<B: VcsBackend + ?Sized>(
    backend: &B,
    repo: Repository,
    reference: Option<CommitReference>,
    first: Refs,
    said_first: Seq<Seq<char>>,
    then: Refs,
    said_then: Seq<Seq<char>>,
)
    requires
        tells(backend, repo),
        resolves(backend, reference, first, said_first),
        resolves(backend, reference, then, said_then),
    ensures
        first == then,
        said_first.len() == said_then.len(),
{
    law_reference_is_resolved(backend, repo, reference, first, said_first);
    law_reference_is_resolved(backend, repo, reference, then, said_then);
}

/// The diffs of a commit are those of the files that it changed and that are asked for, in order, and
/// each shows what its file holds in the parent and in the commit.
pub proof fn law_loaded_commit_shows_the_change<B: VcsBackend + ?Sized, H: DiffHost + ?Sized>(
    backend: &B,
    repo: Repository,
    host: &H,
    tree: Tree,
    commit: Seq<char>,
    filter: Option<Seq<Seq<char>>>,
    diffs: Seq<FileDiff>,
)
    requires
        tells(backend, repo),
        shows(host, tree),
        commit.len() > 0,
        commit_loads(backend, host, commit, filter, diffs),
    ensures
        diffs.len() == requested(changed_by(repo, commit), filter).len(),
        forall|i: int|
            0 <= i < diffs.len() ==> {
                let diff = #[trigger] diffs[i];
                &&& diff.filename@ == requested(changed_by(repo, commit), filter)[i]
                &&& consistent(diff, tree)
                &&& diff.new_content@ == held(repo, commit, diff.filename@)
                &&& repo.parents.dom().contains(commit) ==> diff.old_content@ == held(
                    repo,
                    repo.parents[commit],
                    diff.filename@,
                )
                &&& !repo.parents.dom().contains(commit) ==> diff.old_content@.len() == 0
            },
{
    let (listed, parent) = choose|listed: Seq<Seq<char>>, parent: Seq<char>|
        {
            let files = requested(listed, filter);
            &&& #[trigger] commit_lists(backend, commit, listed)
            &&& #[trigger] parent_of(backend, commit, parent)
            &&& diffs.len() == files.len()
            &&& forall|i: int|
                0 <= i < files.len() ==> commit_file_loaded(
                    backend,
                    host,
                    commit,
                    parent,
                    files[i],
                    #[trigger] diffs[i],
                )
        };
    law_commit_lists_its_files(backend, repo, commit, listed);
    assert forall|i: int| 0 <= i < diffs.len() implies ({
        let diff = #[trigger] diffs[i];
        &&& diff.filename@ == requested(changed_by(repo, commit), filter)[i]
        &&& consistent(diff, tree)
        &&& diff.new_content@ == held(repo, commit, diff.filename@)
        &&& repo.parents.dom().contains(commit) ==> diff.old_content@ == held(
            repo,
            repo.parents[commit],
            diff.filename@,
        )
        &&& !repo.parents.dom().contains(commit) ==> diff.old_content@.len() == 0
    }) by {
        law_commit_diff_shows_both_sides(
            backend,
            repo,
            host,
            tree,
            commit,
            parent,
            requested(listed, filter)[i],
            diffs[i],
        );
    }
}

} // verus!
