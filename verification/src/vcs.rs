//! What the library asks of the version control system and of the program around it.
//!
//! Nothing is promised of an answer: a repository can change between two questions. The contracts
//! of the library say what it does with an answer, and which question the answer belongs to.

use vstd::prelude::*;

use crate::text::texts;

verus! {

/// A commit in a range of commits.
pub struct CommitInfo {
    pub commit_id: String,
    pub summary: String,
}

/// A version control system. An error is the system's message.
pub trait VcsBackend {
    /// The branch that is checked out, if one is.
    fn get_current_branch(&self) -> Result<Option<String>, String>;

    /// The merge base of two references.
    fn get_merge_base(&self, from: &str, to: &str) -> Result<String, String>;

    /// The files that a commit changed.
    fn get_changed_files(&self, commit_id: &str) -> Result<Vec<String>, String>;

    /// The files that differ between two references.
    fn get_range_changed_files(&self, from: &str, to: &str) -> Result<Vec<String>, String>;

    /// The files with uncommitted changes.
    fn get_working_tree_changed_files(&self) -> Result<Vec<String>, String>;

    /// The reference that the working tree is based on.
    fn working_copy_parent_ref(&self) -> &str;

    /// The parent of a commit; empty for a root commit.
    fn get_parent_ref_or_empty(&self, commit_id: &str) -> Result<String, String>;

    /// The content of a file at a reference.
    fn get_file_content_at_ref(&self, git_ref: &str, path: &str) -> Result<String, String>;

    /// The commits between two references, oldest first.
    fn get_commits_in_range(&self, from: &str, to: &str) -> Result<Vec<CommitInfo>, String>;
}

/// What the program around the library does while a diff is loaded.
pub trait DiffHost {
    /// Reads a file of the working tree.
    fn read_to_string(&self, filename: &str) -> Result<String, String>;

    /// Whether a content is shown as binary.
    fn is_binary_content(&self, content: &str) -> bool;
}

/// `reply` is an answer to which branch is checked out.
pub open spec fn answers_current_branch<B: VcsBackend + ?Sized>(
    backend: &B,
    reply: Result<Option<String>, String>,
) -> bool {
    call_ensures(B::get_current_branch, (backend,), reply)
}

/// `reply` is an answer to what the merge base of `from` and `to` is.
pub open spec fn answers_merge_base<B: VcsBackend + ?Sized>(
    backend: &B,
    from: Seq<char>,
    to: Seq<char>,
    reply: Result<String, String>,
) -> bool {
    exists|f: &str, t: &str|
        f@ == from && t@ == to && #[trigger] call_ensures(
            B::get_merge_base,
            (backend, f, t),
            reply,
        )
}

/// `reply` is an answer to which files a commit changed.
pub open spec fn answers_changed_files<B: VcsBackend + ?Sized>(
    backend: &B,
    commit: Seq<char>,
    reply: Result<Vec<String>, String>,
) -> bool {
    exists|c: &str|
        c@ == commit && #[trigger] call_ensures(B::get_changed_files, (backend, c), reply)
}

/// `reply` is an answer to which files differ between `from` and `to`.
pub open spec fn answers_range_files<B: VcsBackend + ?Sized>(
    backend: &B,
    from: Seq<char>,
    to: Seq<char>,
    reply: Result<Vec<String>, String>,
) -> bool {
    exists|f: &str, t: &str|
        f@ == from && t@ == to && #[trigger] call_ensures(
            B::get_range_changed_files,
            (backend, f, t),
            reply,
        )
}

/// `reply` is an answer to which files have uncommitted changes.
pub open spec fn answers_working_files<B: VcsBackend + ?Sized>(
    backend: &B,
    reply: Result<Vec<String>, String>,
) -> bool {
    call_ensures(B::get_working_tree_changed_files, (backend,), reply)
}

/// `reply` is an answer to what the working tree is based on.
pub open spec fn answers_working_parent<B: VcsBackend + ?Sized>(
    backend: &B,
    reply: Seq<char>,
) -> bool {
    exists|r: &str|
        r@ == reply && #[trigger] call_ensures(B::working_copy_parent_ref, (backend,), r)
}

/// `reply` is an answer to what the parent of a commit is.
pub open spec fn answers_parent<B: VcsBackend + ?Sized>(
    backend: &B,
    commit: Seq<char>,
    reply: Result<String, String>,
) -> bool {
    exists|c: &str|
        c@ == commit && #[trigger] call_ensures(B::get_parent_ref_or_empty, (backend, c), reply)
}

/// `reply` is an answer to what a file holds at a reference.
pub open spec fn answers_content<B: VcsBackend + ?Sized>(
    backend: &B,
    git_ref: Seq<char>,
    path: Seq<char>,
    reply: Result<String, String>,
) -> bool {
    exists|g: &str, p: &str|
        g@ == git_ref && p@ == path && #[trigger] call_ensures(
            B::get_file_content_at_ref,
            (backend, g, p),
            reply,
        )
}

/// `reply` is an answer to which commits lie between `from` and `to`.
pub open spec fn answers_commits<B: VcsBackend + ?Sized>(
    backend: &B,
    from: Seq<char>,
    to: Seq<char>,
    reply: Result<Vec<CommitInfo>, String>,
) -> bool {
    exists|f: &str, t: &str|
        f@ == from && t@ == to && #[trigger] call_ensures(
            B::get_commits_in_range,
            (backend, f, t),
            reply,
        )
}

/// `reply` is an answer to what a file of the working tree holds.
pub open spec fn answers_read<H: DiffHost + ?Sized>(
    host: &H,
    filename: Seq<char>,
    reply: Result<String, String>,
) -> bool {
    exists|f: &str| f@ == filename && #[trigger] call_ensures(H::read_to_string, (host, f), reply)
}

/// `reply` is an answer to whether a content is shown as binary.
pub open spec fn answers_binary<H: DiffHost + ?Sized>(
    host: &H,
    content: Seq<char>,
    reply: bool,
) -> bool {
    exists|c: &str|
        c@ == content && #[trigger] call_ensures(H::is_binary_content, (host, c), reply)
}

/// The files of an answer; a failure stands for none.
pub open spec fn listing(reply: Result<Vec<String>, String>) -> Seq<Seq<char>> {
    match reply {
        Ok(files) => texts(files@),
        Err(_) => Seq::empty(),
    }
}

/// The text of an answer; a failure stands for the empty text.
pub open spec fn text_or_empty(reply: Result<String, String>) -> Seq<char> {
    match reply {
        Ok(text) => text@,
        Err(_) => Seq::empty(),
    }
}

/// The files of an answer; a failure stands for none.
pub fn files_or_none(reply: Result<Vec<String>, String>) -> (r: Vec<String>)
    ensures
        texts(r@) == listing(reply),
{
    match reply {
        Ok(files) => files,
        Err(_) => {
            let none: Vec<String> = Vec::new();
            assert(texts(none@) =~= Seq::<Seq<char>>::empty());
            none
        },
    }
}

/// The text of an answer; a failure stands for the empty text.
pub fn content_or_empty(reply: Result<String, String>) -> (r: String)
    ensures
        r@ == text_or_empty(reply),
{
    match reply {
        Ok(text) => text,
        Err(_) => String::new(),
    }
}

} // verus!
