//! What a diff is asked for, and what it consists of.

use vstd::prelude::*;

verus! {

/// How a file changed.
#[derive(Clone, Copy, Debug, PartialEq, Eq, Structural)]
pub enum FileStatus {
    Modified,
    Added,
    Deleted,
}

/// The two sides of one changed file.
pub struct FileDiff {
    pub filename: String,
    pub old_content: String,
    pub new_content: String,
    pub status: FileStatus,
    pub is_binary: bool,
}

/// What the user asked to compare.
pub enum CommitReference {
    /// One commit, compared to its parent.
    Single(String),
    /// `from..to`.
    Range { from: String, to: String },
    /// `from...to`: from the merge base of both.
    TripleDots { from: String, to: String },
    /// From a commit to the working tree.
    RangeToWorkingTree { from: String },
}

/// The options of a diff.
pub struct DiffOptions {
    pub reference: Option<CommitReference>,
    pub pr: Option<String>,
    pub detect_pr: bool,
    pub worktree_guidance: bool,
    pub file: Option<Vec<String>>,
    pub watch: bool,
    pub theme: Option<String>,
    pub stacked: bool,
    pub focus: Option<String>,
    pub origin: Option<String>,
    pub wrap: bool,
}

/// What is known of a pull request.
#[derive(Clone)]
pub struct PrInfo {
    pub number: u64,
    pub node_id: String,
    pub repo_owner: String,
    pub repo_name: String,
    pub base_ref: String,
    pub head_ref: String,
    pub base_commit: String,
    pub head_commit: String,
    pub base_repo_owner: String,
    /// `None` if the head repository was deleted.
    pub head_repo_owner: Option<String>,
    /// The head repository with its owner; `None` if it was deleted.
    pub head_repo: Option<String>,
}

} // verus!
