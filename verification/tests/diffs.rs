//! Loading diffs from a version control system that lives in memory.

use lumen_diff::git::{
    change_status, get_changed_files, get_current_branch, get_new_content, get_old_content,
    load_file_diffs, load_single_commit_diffs, union_in_order, DiffRefs,
};
use lumen_diff::types::{CommitReference, DiffOptions, FileDiff, FileStatus};
use lumen_diff::vcs::{CommitInfo, DiffHost, VcsBackend};

/// A commit: its name, its summary, the files that it changed, and all files that it holds.
struct Commit {
    id: &'static str,
    summary: &'static str,
    changed: Vec<&'static str>,
    files: Vec<(&'static str, &'static str)>,
}

/// A line of commits, oldest first, and a working tree.
struct Repository {
    branch: Result<Option<String>, String>,
    commits: Vec<Commit>,
    tree_changed: Result<Vec<String>, String>,
    tree: Vec<(&'static str, &'static str)>,
}

impl Repository {
    fn new(commits: Vec<Commit>) -> Self {
        Repository {
            branch: Ok(Some("main".to_string())),
            commits,
            tree_changed: Ok(vec![]),
            tree: vec![],
        }
    }

    fn index(&self, reference: &str) -> Result<usize, String> {
        if reference == "HEAD" {
            return Ok(self.commits.len() - 1);
        }
        if let Some(back) = reference.strip_prefix("HEAD~") {
            let back: usize = back.parse().map_err(|_| "bad reference".to_string())?;
            return (self.commits.len() - 1)
                .checked_sub(back)
                .ok_or_else(|| "no such commit".to_string());
        }
        self.commits
            .iter()
            .position(|c| c.id == reference)
            .ok_or_else(|| format!("unknown reference {}", reference))
    }
}

impl VcsBackend for Repository {
    fn get_current_branch(&self) -> Result<Option<String>, String> {
        self.branch.clone()
    }

    fn get_merge_base(&self, from: &str, to: &str) -> Result<String, String> {
        let base = self.index(from)?.min(self.index(to)?);
        Ok(self.commits[base].id.to_string())
    }

    fn get_changed_files(&self, commit_id: &str) -> Result<Vec<String>, String> {
        let commit = &self.commits[self.index(commit_id)?];
        Ok(commit.changed.iter().map(|f| f.to_string()).collect())
    }

    fn get_range_changed_files(&self, from: &str, to: &str) -> Result<Vec<String>, String> {
        let mut files: Vec<String> = Vec::new();
        for commit in &self.commits[self.index(from)? + 1..self.index(to)? + 1] {
            for file in &commit.changed {
                if !files.iter().any(|f| f == file) {
                    files.push(file.to_string());
                }
            }
        }
        Ok(files)
    }

    fn get_working_tree_changed_files(&self) -> Result<Vec<String>, String> {
        self.tree_changed.clone()
    }

    fn working_copy_parent_ref(&self) -> &str {
        "HEAD"
    }

    fn get_parent_ref_or_empty(&self, commit_id: &str) -> Result<String, String> {
        Ok(match self.index(commit_id)? {
            0 => String::new(),
            i => self.commits[i - 1].id.to_string(),
        })
    }

    fn get_file_content_at_ref(&self, git_ref: &str, path: &str) -> Result<String, String> {
        let commit = &self.commits[self.index(git_ref)?];
        commit
            .files
            .iter()
            .find(|f| f.0 == path)
            .map(|f| f.1.to_string())
            .ok_or_else(|| format!("no {} at {}", path, git_ref))
    }

    fn get_commits_in_range(&self, from: &str, to: &str) -> Result<Vec<CommitInfo>, String> {
        Ok(self.commits[self.index(from)? + 1..self.index(to)? + 1]
            .iter()
            .map(|c| CommitInfo {
                commit_id: c.id.to_string(),
                summary: c.summary.to_string(),
            })
            .collect())
    }
}

impl DiffHost for Repository {
    fn read_to_string(&self, filename: &str) -> Result<String, String> {
        self.tree
            .iter()
            .find(|f| f.0 == filename)
            .map(|f| f.1.to_string())
            .ok_or_else(|| "No such file".to_string())
    }

    fn is_binary_content(&self, content: &str) -> bool {
        content.contains('\0')
    }
}

fn commit(
    id: &'static str,
    summary: &'static str,
    changed: &[&'static str],
    files: &[(&'static str, &'static str)],
) -> Commit {
    Commit {
        id,
        summary,
        changed: changed.to_vec(),
        files: files.to_vec(),
    }
}

fn options(reference: Option<CommitReference>) -> DiffOptions {
    DiffOptions {
        reference,
        pr: None,
        detect_pr: false,
        worktree_guidance: false,
        file: None,
        watch: false,
        theme: None,
        stacked: false,
        focus: None,
        origin: None,
        wrap: false,
    }
}

fn load(options: &DiffOptions, repository: &Repository) -> Vec<FileDiff> {
    let mut warnings = Vec::new();
    let backend: &dyn VcsBackend = repository;
    let diffs = load_file_diffs(options, backend, repository, &mut warnings);
    assert!(warnings.is_empty());
    diffs
}

fn names(diffs: &[FileDiff]) -> Vec<&str> {
    diffs.iter().map(|d| d.filename.as_str()).collect()
}

#[test]
fn test_load_file_diffs_working_tree_untracked_in_new_dir() {
    let mut repository = Repository::new(vec![commit(
        "1",
        "initial",
        &["existing.txt"],
        &[("existing.txt", "existing content\n")],
    )]);
    repository.tree = vec![
        ("existing.txt", "existing content\n"),
        ("new_dir/file1.txt", "file 1\n"),
        ("new_dir/file2.txt", "file 2\n"),
    ];
    repository.tree_changed = Ok(vec![
        "new_dir/file1.txt".to_string(),
        "new_dir/file2.txt".to_string(),
    ]);

    let diffs = load(&options(None), &repository);
    assert!(diffs.iter().any(|d| d.filename == "new_dir/file1.txt"));
    assert!(diffs.iter().any(|d| d.filename == "new_dir/file2.txt"));
    let file1 = diffs
        .iter()
        .find(|d| d.filename == "new_dir/file1.txt")
        .unwrap();
    assert_eq!(file1.status, FileStatus::Added);
    assert!(file1.old_content.is_empty());
    assert_eq!(file1.new_content, "file 1\n");
}

#[test]
fn test_load_file_diffs_range_to_working_tree() {
    let mut repository = Repository::new(vec![
        commit("1", "base", &["base.txt"], &[("base.txt", "base\n")]),
        commit(
            "2",
            "add committed",
            &["committed.txt"],
            &[("base.txt", "base\n"), ("committed.txt", "committed\n")],
        ),
    ]);
    repository.tree = vec![
        ("base.txt", "base modified\n"),
        ("committed.txt", "committed\n"),
        ("uncommitted.txt", "uncommitted\n"),
    ];
    repository.tree_changed = Ok(vec!["base.txt".to_string(), "uncommitted.txt".to_string()]);

    let diffs = load(
        &options(Some(CommitReference::RangeToWorkingTree {
            from: "HEAD~1".to_string(),
        })),
        &repository,
    );
    let filenames = names(&diffs);
    assert!(filenames.contains(&"committed.txt"));
    assert!(filenames.contains(&"uncommitted.txt"));
    assert!(filenames.contains(&"base.txt"));

    let base = diffs.iter().find(|d| d.filename == "base.txt").unwrap();
    assert_eq!(base.old_content, "base\n");
    assert_eq!(base.new_content, "base modified\n");

    let committed = diffs.iter().find(|d| d.filename == "committed.txt").unwrap();
    assert_eq!(committed.old_content, "");
    assert_eq!(committed.new_content, "committed\n");
}

#[test]
fn test_load_single_commit_diffs_added_file() {
    let repository = Repository::new(vec![commit(
        "1",
        "init",
        &["README.md"],
        &[("README.md", "hello\n")],
    )]);
    let diffs = load_single_commit_diffs("HEAD", &None, &repository, &repository);
    assert_eq!(diffs.len(), 1, "should have 1 file diff");
    assert_eq!(diffs[0].filename, "README.md");
    assert_eq!(diffs[0].status, FileStatus::Added);
    assert!(
        diffs[0].old_content.is_empty(),
        "old content should be empty for added file"
    );
    assert_eq!(diffs[0].new_content.trim(), "hello");
}

#[test]
fn test_load_single_commit_diffs_modified_file() {
    let repository = Repository::new(vec![
        commit("1", "first", &["file.txt"], &[("file.txt", "original content\n")]),
        commit("2", "second", &["file.txt"], &[("file.txt", "modified content\n")]),
    ]);
    let diffs = load_single_commit_diffs("HEAD", &None, &repository, &repository);
    assert_eq!(diffs.len(), 1);
    assert_eq!(diffs[0].filename, "file.txt");
    assert_eq!(diffs[0].status, FileStatus::Modified);
    assert_eq!(diffs[0].old_content, "original content\n");
    assert_eq!(diffs[0].new_content, "modified content\n");
}

#[test]
fn test_load_single_commit_diffs_multiple_files() {
    let repository = Repository::new(vec![commit(
        "1",
        "multi",
        &["a.txt", "b.txt", "c.txt"],
        &[("a.txt", "file a\n"), ("b.txt", "file b\n"), ("c.txt", "file c\n")],
    )]);
    let diffs = load_single_commit_diffs("HEAD", &None, &repository, &repository);
    assert_eq!(diffs.len(), 3, "should have 3 file diffs");
    let filenames = names(&diffs);
    assert!(filenames.contains(&"a.txt"));
    assert!(filenames.contains(&"b.txt"));
    assert!(filenames.contains(&"c.txt"));
}

#[test]
fn test_load_single_commit_diffs_with_filter() {
    let repository = Repository::new(vec![commit(
        "1",
        "filter test",
        &["unwanted.txt", "wanted.txt"],
        &[("wanted.txt", "wanted\n"), ("unwanted.txt", "unwanted\n")],
    )]);
    let filter = Some(vec!["wanted.txt".to_string()]);
    let diffs = load_single_commit_diffs("HEAD", &filter, &repository, &repository);
    assert_eq!(diffs.len(), 1, "filter should limit to 1 file");
    assert_eq!(diffs[0].filename, "wanted.txt");
}

#[test]
fn test_stacked_diff_integration_git() {
    let backend = Repository::new(vec![
        commit("1", "base", &["base.txt"], &[("base.txt", "base\n")]),
        commit(
            "2",
            "commit A",
            &["a.txt"],
            &[("base.txt", "base\n"), ("a.txt", "commit A\n")],
        ),
        commit(
            "3",
            "commit B",
            &["b.txt"],
            &[("base.txt", "base\n"), ("a.txt", "commit A\n"), ("b.txt", "commit B\n")],
        ),
    ]);
    let commits = backend
        .get_commits_in_range("HEAD~2", "HEAD")
        .expect("should get commits");
    assert_eq!(commits.len(), 2, "should have 2 commits");
    assert_eq!(commits[0].summary, "commit A");
    assert_eq!(commits[1].summary, "commit B");

    let diffs_a = load_single_commit_diffs(&commits[0].commit_id, &None, &backend, &backend);
    assert_eq!(diffs_a.len(), 1);
    assert_eq!(diffs_a[0].filename, "a.txt");
    assert_eq!(diffs_a[0].new_content, "commit A\n");

    let diffs_b = load_single_commit_diffs(&commits[1].commit_id, &None, &backend, &backend);
    assert_eq!(diffs_b.len(), 1);
    assert_eq!(diffs_b[0].filename, "b.txt");
    assert_eq!(diffs_b[0].new_content, "commit B\n");
}

fn three_commits() -> Repository {
    Repository::new(vec![
        commit("1", "one", &["a", "b"], &[("a", "a1"), ("b", "b1")]),
        commit("2", "two", &["b", "c"], &[("a", "a1"), ("b", "b\02"), ("c", "c2")]),
        commit("3", "three", &["a"], &[("b", "b\02"), ("c", "c2")]),
    ])
}

#[test]
fn a_single_reference_is_compared_to_its_parent() {
    let repository = three_commits();
    let single = options(Some(CommitReference::Single("2".to_string())));
    let diffs = load(&single, &repository);
    assert_eq!(names(&diffs), ["b", "c"]);
    assert_eq!(diffs[0].status, FileStatus::Modified);
    assert!(diffs[0].is_binary);
    assert_eq!(diffs[1].status, FileStatus::Added);
    assert!(!diffs[1].is_binary);

    let commit_diffs = load_single_commit_diffs("2", &None, &repository, &repository);
    assert_eq!(commit_diffs.len(), diffs.len());
    for (a, b) in commit_diffs.iter().zip(diffs.iter()) {
        assert_eq!(a.filename, b.filename);
        assert_eq!(a.old_content, b.old_content);
        assert_eq!(a.new_content, b.new_content);
        assert_eq!(a.status, b.status);
        assert_eq!(a.is_binary, b.is_binary);
    }

    let deleted = load(
        &options(Some(CommitReference::Single("3".to_string()))),
        &repository,
    );
    assert_eq!(deleted[0].status, FileStatus::Deleted);
    assert_eq!(deleted[0].old_content, "a1");
}

#[test]
fn a_range_is_compared_end_to_end() {
    let repository = three_commits();
    let range = options(Some(CommitReference::Range {
        from: "1".to_string(),
        to: "3".to_string(),
    }));
    let diffs = load(&range, &repository);
    assert_eq!(names(&diffs), ["b", "c", "a"]);
    assert_eq!(diffs[0].old_content, "b1");
    assert_eq!(diffs[0].new_content, "b\02");
}

#[test]
fn a_three_dot_range_begins_at_the_merge_base() {
    let repository = three_commits();
    let dots = options(Some(CommitReference::TripleDots {
        from: "3".to_string(),
        to: "2".to_string(),
    }));
    let mut warnings = Vec::new();
    let refs = DiffRefs::from_options(&dots, &repository, &mut warnings);
    assert!(matches!(refs, DiffRefs::Range { from, to } if from == "2" && to == "2"));
    assert!(warnings.is_empty());

    let lost = options(Some(CommitReference::TripleDots {
        from: "9".to_string(),
        to: "2".to_string(),
    }));
    let refs = DiffRefs::from_options(&lost, &repository, &mut warnings);
    assert!(matches!(refs, DiffRefs::Range { from, to } if from == "9" && to == "2"));
    assert_eq!(
        warnings,
        ["Warning: failed to find merge-base for 9...2: unknown reference 9. Using '9' as base."]
    );

    warnings.clear();
    let diffs = load_file_diffs(&lost, &repository, &repository, &mut warnings);
    assert!(diffs.is_empty());
    assert_eq!(warnings.len(), 2);
}

#[test]
fn a_filter_keeps_the_order_of_the_list() {
    let repository = three_commits();
    let mut range = options(Some(CommitReference::Range {
        from: "1".to_string(),
        to: "3".to_string(),
    }));
    range.file = Some(vec!["a".to_string(), "b".to_string(), "z".to_string()]);
    let mut warnings = Vec::new();
    assert_eq!(
        get_changed_files(&range, &repository, &mut warnings),
        ["b", "a"]
    );
    range.file = Some(vec![]);
    assert!(get_changed_files(&range, &repository, &mut warnings).is_empty());
}

#[test]
fn a_union_lists_each_file_once() {
    let first: Vec<String> = ["b", "a", "b"].iter().map(|s| s.to_string()).collect();
    let second: Vec<String> = ["c", "a"].iter().map(|s| s.to_string()).collect();
    assert_eq!(union_in_order(first, second), ["b", "a", "c"]);
}

#[test]
fn failures_stand_for_nothing() {
    let mut repository = three_commits();
    repository.tree_changed = Err("no tree".to_string());
    assert!(load(&options(None), &repository).is_empty());
    assert!(load_single_commit_diffs("9", &None, &repository, &repository).is_empty());
    let gone = DiffRefs::Single("9".to_string());
    assert_eq!(get_old_content("a", &gone, &repository), "");
    assert_eq!(get_new_content("a", &gone, &repository, &repository), "");
    let tree = DiffRefs::WorkingTree;
    assert_eq!(get_old_content("b", &tree, &repository), "b\02");
    assert_eq!(get_new_content("b", &tree, &repository, &repository), "");
}

#[test]
fn the_branch_may_be_unknown() {
    let mut repository = three_commits();
    assert_eq!(get_current_branch(&repository), "main");
    repository.branch = Ok(None);
    assert_eq!(get_current_branch(&repository), "unknown");
    repository.branch = Err("detached".to_string());
    let backend: &dyn VcsBackend = &repository;
    assert_eq!(get_current_branch(backend), "unknown");
}

#[test]
fn the_status_tells_which_side_is_empty() {
    assert_eq!(change_status("", "x"), FileStatus::Added);
    assert_eq!(change_status("x", ""), FileStatus::Deleted);
    assert_eq!(change_status("x", "y"), FileStatus::Modified);
    assert_eq!(change_status("", ""), FileStatus::Modified);
}
