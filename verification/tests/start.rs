//! What the viewer does when it starts.

use lumen_diff::types::{CommitReference, DiffOptions};
use lumen_diff::ui::{
    after_detection, choose_action, needs_detection, pr_fetch_message, UiAction,
};
use lumen_diff::vcs::{CommitInfo, VcsBackend};

struct Backend {
    merge_base: Result<String, String>,
    commits: Result<Vec<&'static str>, String>,
}

impl VcsBackend for Backend {
    fn get_current_branch(&self) -> Result<Option<String>, String> {
        Ok(None)
    }

    fn get_merge_base(&self, _from: &str, _to: &str) -> Result<String, String> {
        self.merge_base.clone()
    }

    fn get_changed_files(&self, _commit_id: &str) -> Result<Vec<String>, String> {
        Ok(vec![])
    }

    fn get_range_changed_files(&self, _from: &str, _to: &str) -> Result<Vec<String>, String> {
        Ok(vec![])
    }

    fn get_working_tree_changed_files(&self) -> Result<Vec<String>, String> {
        Ok(vec![])
    }

    fn working_copy_parent_ref(&self) -> &str {
        "HEAD"
    }

    fn get_parent_ref_or_empty(&self, _commit_id: &str) -> Result<String, String> {
        Ok(String::new())
    }

    fn get_file_content_at_ref(&self, _git_ref: &str, _path: &str) -> Result<String, String> {
        Ok(String::new())
    }

    fn get_commits_in_range(&self, from: &str, to: &str) -> Result<Vec<CommitInfo>, String> {
        let commits = self.commits.clone()?;
        Ok(commits
            .iter()
            .map(|c| CommitInfo {
                commit_id: c.to_string(),
                summary: format!("{}..{}", from, to),
            })
            .collect())
    }
}

fn backend() -> Backend {
    Backend {
        merge_base: Ok("base".to_string()),
        commits: Ok(vec!["1", "2"]),
    }
}

fn options(reference: Option<CommitReference>) -> DiffOptions {
    DiffOptions {
        reference,
        pr: None,
        detect_pr: false,
        worktree_guidance: false,
        file: None,
        watch: false,
        theme: None,
        stacked: false,
        focus: None,
        origin: None,
        wrap: false,
    }
}

fn range() -> Option<CommitReference> {
    Some(CommitReference::Range {
        from: "a".to_string(),
        to: "b".to_string(),
    })
}

fn dots() -> Option<CommitReference> {
    Some(CommitReference::TripleDots {
        from: "a".to_string(),
        to: "b".to_string(),
    })
}

#[test]
fn a_detected_pull_request_is_taken_over() {
    let mut options = options(None);
    assert!(!needs_detection(&options));
    options.detect_pr = true;
    assert!(needs_detection(&options));
    assert_eq!(
        after_detection(&mut options, Err("none".to_string())).unwrap_err(),
        "none"
    );
    assert_eq!(options.pr, None);
    assert_eq!(
        after_detection(&mut options, Ok("17".to_string())).unwrap(),
        "Detected PR #17"
    );
    assert_eq!(options.pr.as_deref(), Some("17"));
    assert!(!needs_detection(&options));
}

#[test]
fn the_message_names_what_is_fetched() {
    assert_eq!(
        pr_fetch_message("https://github.com/o/r/pull/12/"),
        "Fetching PR o/r#12"
    );
    assert_eq!(pr_fetch_message("12"), "Fetching PR #12");
    assert_eq!(pr_fetch_message("x/pull/12"), "Fetching PR");
}

#[test]
fn a_pull_request_comes_first() {
    let mut named = options(range());
    named.pr = Some("5".to_string());
    named.stacked = true;
    named.worktree_guidance = true;
    assert!(matches!(
        choose_action(&named, &backend()),
        UiAction::FetchPr { message, input } if message == "Fetching PR #5" && input == "5"
    ));
    for reference in ["5", "https://github.com/o/r/pull/5", "x/pull/y"] {
        let given = options(Some(CommitReference::Single(reference.to_string())));
        assert!(matches!(
            choose_action(&given, &backend()),
            UiAction::FetchPr { input, .. } if input == reference
        ));
    }
    let commit = options(Some(CommitReference::Single("deadbeef".to_string())));
    assert!(matches!(choose_action(&commit, &backend()), UiAction::Run));
}

#[test]
fn worktree_guidance_needs_a_pull_request() {
    let mut plain = options(range());
    plain.stacked = true;
    plain.worktree_guidance = true;
    assert!(matches!(
        choose_action(&plain, &backend()),
        UiAction::Reject(e)
            if e == "--worktree-guidance requires a pull request (URL, number, --pr, or --detect-pr)"
    ));
}

#[test]
fn stacked_commits_need_a_range() {
    for reference in [
        None,
        Some(CommitReference::Single("deadbeef".to_string())),
        Some(CommitReference::RangeToWorkingTree {
            from: "a".to_string(),
        }),
    ] {
        let mut stacked = options(reference);
        stacked.stacked = true;
        assert!(matches!(
            choose_action(&stacked, &backend()),
            UiAction::Exit(e)
                if e == "\x1b[91merror:\x1b[0m --stacked requires a range (e.g., main..feature)"
        ));
    }
}

#[test]
fn stacked_commits_are_listed() {
    let mut stacked = options(range());
    stacked.stacked = true;
    match choose_action(&stacked, &backend()) {
        UiAction::RunStacked(commits) => {
            assert_eq!(commits.len(), 2);
            assert_eq!(commits[0].commit_id, "1");
            assert_eq!(commits[0].summary, "a..b");
        }
        _ => panic!("commits were due"),
    }
    let mut dotted = options(dots());
    dotted.stacked = true;
    match choose_action(&dotted, &backend()) {
        UiAction::RunStacked(commits) => assert_eq!(commits[0].summary, "base..b"),
        _ => panic!("commits were due"),
    }
    let lost = Backend {
        merge_base: Err("none".to_string()),
        commits: Ok(vec![]),
    };
    assert!(matches!(
        choose_action(&dotted, &lost),
        UiAction::Exit(e) if e == "\x1b[91merror:\x1b[0m No commits found in range a..b"
    ));
    let broken = Backend {
        merge_base: Ok("base".to_string()),
        commits: Err("bad range".to_string()),
    };
    let trait_object: &dyn VcsBackend = &broken;
    assert!(matches!(
        choose_action(&dotted, trait_object),
        UiAction::Exit(e) if e == "\x1b[91merror:\x1b[0m bad range"
    ));
}
