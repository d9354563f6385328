//! Loading the files of a pull request, step by step.

use base64::Engine;
use lumen_diff::command::{github_api_args, github_api_reply, CommandOutcome};
use lumen_diff::fetch::{
    fetch_tasks, format_fetch_progress, worker_count, FetchEvent, FetchState, Side,
};
use lumen_diff::pr_files::{GithubFile, PrChangedFile};
use lumen_diff::pr_load::{
    after_blob, after_contents, after_listing, assemble_diffs, contents_api_path, download_tasks,
    listing_args, listing_message, listing_reply, merge_base_of_comparison, AfterContents,
    AfterListing, GITHUB_JSON,
};
use lumen_diff::types::{FileStatus, PrInfo};
use lumen_diff::vcs::DiffHost;

struct Host;

impl DiffHost for Host {
    fn read_to_string(&self, _filename: &str) -> Result<String, String> {
        Err("nothing is read".to_string())
    }

    fn is_binary_content(&self, content: &str) -> bool {
        content.contains('\0')
    }
}

fn info(head_repo: Option<&str>) -> PrInfo {
    PrInfo {
        number: 42,
        node_id: "node".to_string(),
        repo_owner: "owner".to_string(),
        repo_name: "repo".to_string(),
        base_ref: "main".to_string(),
        head_ref: "feature".to_string(),
        base_commit: "base".to_string(),
        head_commit: "head".to_string(),
        base_repo_owner: "upstream".to_string(),
        head_repo_owner: None,
        head_repo: head_repo.map(|r| r.to_string()),
    }
}

fn listed(filename: &str, status: &str, previous: Option<&str>) -> GithubFile {
    GithubFile {
        filename: filename.to_string(),
        status: status.to_string(),
        previous_filename: previous.map(|p| p.to_string()),
    }
}

fn changed(name: &str, old: Option<&str>, new: Option<&str>, status: FileStatus) -> PrChangedFile {
    PrChangedFile {
        filename: name.to_string(),
        old_path: old.map(|p| p.to_string()),
        new_path: new.map(|p| p.to_string()),
        status,
    }
}

fn three_files() -> Vec<PrChangedFile> {
    vec![
        changed("new", None, Some("new"), FileStatus::Added),
        changed("moved", Some("was"), Some("moved"), FileStatus::Modified),
        changed("gone", Some("gone"), None, FileStatus::Deleted),
    ]
}

#[test]
fn the_list_of_files_is_asked_for() {
    assert_eq!(
        listing_message(&info(None)),
        "Fetching file list for owner/repo#42"
    );
    assert_eq!(
        listing_args(&info(None)),
        [
            "api",
            "repos/owner/repo/pulls/42/files?per_page=100",
            "--paginate",
            "--slurp"
        ]
    );
    let failed = CommandOutcome::Ended {
        success: false,
        stdout: vec![],
        stderr: b" not found \n".to_vec(),
    };
    assert_eq!(
        listing_reply(failed).unwrap_err(),
        "Failed to fetch PR file list: not found"
    );
    let absent = CommandOutcome::NotRun("no gh".to_string());
    assert_eq!(
        listing_reply(absent).unwrap_err(),
        "Failed to fetch PR file list: no gh"
    );
    let listed = CommandOutcome::Ended {
        success: true,
        stdout: b"[[]]\xff".to_vec(),
        stderr: vec![],
    };
    assert_eq!(listing_reply(listed).unwrap(), "[[]]\u{fffd}");
}

#[test]
fn the_list_leads_to_a_comparison() {
    match after_listing(&info(None), Ok(vec![vec![listed("a", "modified", None)]])) {
        AfterListing::Compare { files, api_path } => {
            assert_eq!(files.len(), 1);
            assert_eq!(files[0].filename, "a");
            assert_eq!(api_path, "repos/upstream/repo/compare/base...head");
        }
        _ => panic!("a comparison was due"),
    }
    assert!(matches!(
        after_listing(&info(None), Ok(vec![vec![], vec![]])),
        AfterListing::NoFiles(m) if m == "PR has no changed files"
    ));
    assert!(matches!(
        after_listing(&info(None), Err("bad".to_string())),
        AfterListing::Failed(m) if m == "Could not parse PR file list: bad"
    ));
}

#[test]
fn the_comparison_tells_the_merge_base() {
    let response = r#"{"merge_base_commit":{"sha":"abc"},"base_commit":{"sha":"base"}}"#;
    assert_eq!(
        merge_base_of_comparison(Ok(response.to_string())).unwrap(),
        "abc"
    );
    assert_eq!(
        merge_base_of_comparison(Ok("{}".to_string())).unwrap_err(),
        "GitHub comparison did not return a merge base"
    );
    assert!(merge_base_of_comparison(Ok("?".to_string()))
        .unwrap_err()
        .starts_with("Could not parse GitHub comparison: "));
    assert_eq!(
        merge_base_of_comparison(Err("offline".to_string())).unwrap_err(),
        "offline"
    );
}

#[test]
fn each_side_is_downloaded_from_its_own_commit() {
    let tasks = download_tasks(&info(Some("fork/repo")), &three_files(), "merge");
    let seen: Vec<(usize, &str, &str, &str, Side)> = tasks
        .iter()
        .rev()
        .map(|t| (t.idx, t.filename.as_str(), t.repo.as_str(), t.git_ref.as_str(), t.side))
        .collect();
    assert_eq!(
        seen,
        [
            (0, "new", "fork/repo", "head", Side::New),
            (1, "was", "upstream/repo", "merge", Side::Old),
            (1, "moved", "fork/repo", "head", Side::New),
            (2, "gone", "upstream/repo", "merge", Side::Old),
        ]
    );
    let orphan = download_tasks(&info(None), &three_files(), "merge");
    assert!(orphan.iter().all(|t| t.repo == "upstream/repo"));
    assert!(fetch_tasks(&[], "a", "b", "c", "d").is_empty());
}

#[test]
fn few_workers_download_at_once() {
    assert_eq!(worker_count(0), 0);
    assert_eq!(worker_count(5), 5);
    assert_eq!(worker_count(8), 8);
    assert_eq!(worker_count(900), 8);
}

#[test]
fn progress_names_the_file_under_way() {
    let flying = ["a".to_string(), "b".to_string()];
    assert_eq!(
        format_fetch_progress(1, 4, &flying, Some("z")),
        "Fetching files [1/4] · b"
    );
    assert_eq!(
        format_fetch_progress(10, 40, &[], Some("z")),
        "Fetching files [10/40] · z"
    );
    assert_eq!(format_fetch_progress(0, 4, &[], None), "Fetching files [0/4]");
    assert_eq!(
        format_fetch_progress(0, 4, &["".to_string()], Some("z")),
        "Fetching files [0/4]"
    );
}

fn finished(idx: usize, side: Side, name: &str, content: Result<&str, &str>) -> FetchEvent {
    FetchEvent::Finished {
        idx,
        side,
        filename: name.to_string(),
        content: match content {
            Ok(text) => Ok(text.to_string()),
            Err(e) => Err(e.to_string()),
        },
    }
}

#[test]
fn downloads_come_together() {
    let mut state = FetchState::new(2, 3);
    assert_eq!(state.progress(), "Fetching files [0/3]");
    state.apply(FetchEvent::Started("a".to_string()));
    state.apply(FetchEvent::Started("b".to_string()));
    state.apply(FetchEvent::Started("c".to_string()));
    assert_eq!(state.progress(), "Fetching files [0/3] · c");
    state.apply(finished(0, Side::Old, "a", Ok("old a")));
    assert_eq!(state.progress(), "Fetching files [1/3] · b");
    state.apply(finished(1, Side::New, "b", Ok("new b")));
    state.apply(finished(0, Side::New, "c", Ok("new a")));
    assert_eq!(state.progress(), "Fetching files [3/3] · c");
    assert_eq!(
        state.finish().unwrap(),
        [
            ("old a".to_string(), "new a".to_string()),
            (String::new(), "new b".to_string())
        ]
    );
}

#[test]
fn a_failed_download_is_never_an_absent_side() {
    let mut state = FetchState::new(1, 3);
    state.apply(finished(0, Side::Old, "a", Err("first")));
    state.apply(finished(0, Side::New, "a", Err("second")));
    state.worker_failed();
    assert_eq!(state.finish().unwrap_err(), "first");
    let mut lost = FetchState::new(1, 1);
    lost.worker_failed();
    assert_eq!(lost.finish().unwrap_err(), "PR file download worker failed");
    assert_eq!(
        FetchState::new(1, 1).finish().unwrap(),
        [(String::new(), String::new())]
    );
}

#[test]
fn a_file_is_asked_for_as_encoded_content() {
    let path = contents_api_path("o/r", "sha", "dir/a b.txt");
    assert_eq!(path, "repos/o/r/contents/dir/a b.txt?ref=sha");
    assert_eq!(
        github_api_args(&path, GITHUB_JSON),
        ["api", path.as_str(), "-H", "Accept: application/vnd.github+json"]
    );
    let failed = CommandOutcome::Ended {
        success: false,
        stdout: b"ignored".to_vec(),
        stderr: b"HTTP 404\n".to_vec(),
    };
    assert_eq!(
        github_api_reply("p", failed).unwrap_err(),
        "Failed to fetch p: HTTP 404"
    );
    assert_eq!(
        github_api_reply("p", CommandOutcome::NotRun("no gh".to_string())).unwrap_err(),
        "Failed to run gh api for p: no gh"
    );
}

fn done(step: AfterContents) -> Result<String, String> {
    match step {
        AfterContents::Done(r) => r,
        AfterContents::FetchBlob { .. } => panic!("the content was there"),
    }
}

#[test]
fn the_content_of_a_file_is_read_or_fetched_as_a_blob() {
    let encoded = base64::engine::general_purpose::STANDARD.encode("\u{1b}[0m \\u0000");
    let small = format!(r#"{{"encoding":"base64","content":"{}","sha":"s"}}"#, encoded);
    assert_eq!(
        done(after_contents("o/r", "a", Ok(small.clone()))).unwrap(),
        "\u{1b}[0m \\u0000"
    );
    assert_eq!(after_blob("a", Ok(small)).unwrap(), "\u{1b}[0m \\u0000");

    let large = r#"{"encoding":"none","content":"","sha":"s1"}"#.to_string();
    assert!(matches!(
        after_contents("o/r", "a", Ok(large.clone())),
        AfterContents::FetchBlob { api_path } if api_path == "repos/o/r/git/blobs/s1"
    ));
    assert_eq!(
        after_blob("a", Ok(large)).unwrap_err(),
        "Failed to load a: GitHub did not return base64 file content"
    );
    let nameless = r#"{"encoding":"none"}"#.to_string();
    assert_eq!(
        done(after_contents("o/r", "a", Ok(nameless))).unwrap_err(),
        "Missing blob SHA for a"
    );
    assert_eq!(
        done(after_contents("o/r", "a", Ok("[]".to_string()))).unwrap_err(),
        "Failed to load a: GitHub did not return base64 file content"
    );
    assert!(done(after_contents("o/r", "a", Ok("".to_string())))
        .unwrap_err()
        .starts_with("Could not parse file metadata for a: "));
    assert!(after_blob("a", Ok("".to_string()))
        .unwrap_err()
        .starts_with("Could not parse blob for a: "));
    assert_eq!(
        done(after_contents("o/r", "a", Err("offline".to_string()))).unwrap_err(),
        "offline"
    );
    assert_eq!(
        after_blob("a", Err("offline".to_string())).unwrap_err(),
        "offline"
    );
}

#[test]
fn files_and_contents_become_diffs() {
    let contents = vec![
        (String::new(), "x".to_string()),
        ("a\0".to_string(), "b".to_string()),
        ("y".to_string(), String::new()),
    ];
    let (diffs, message) = assemble_diffs(&three_files(), &contents, &Host);
    assert_eq!(message, "Fetched 3 files");
    assert_eq!(diffs.len(), 3);
    assert_eq!(diffs[0].filename, "new");
    assert_eq!(diffs[0].status, FileStatus::Added);
    assert_eq!(diffs[0].new_content, "x");
    assert!(diffs[1].is_binary);
    assert_eq!(diffs[1].status, FileStatus::Modified);
    assert_eq!(diffs[2].old_content, "y");
    assert!(!diffs[2].is_binary);
}

#[test]
fn downloads_may_end_in_any_order() {
    let files = three_files();
    let orders = [[0usize, 1, 2, 3], [3, 2, 1, 0], [2, 0, 3, 1]];
    for order in orders {
        for failing in 0..5usize {
            let tasks = fetch_tasks(&files, "base", "b", "head", "h");
            let mut state = FetchState::new(files.len(), tasks.len());
            for k in order {
                let task = &tasks[k];
                let text = format!("{}@{}", task.filename, task.git_ref);
                let content = if k == failing { Err("lost") } else { Ok(text.as_str()) };
                state.apply(finished(task.idx, task.side, &task.filename, content));
            }
            if failing < 4 {
                assert_eq!(state.finish().unwrap_err(), "lost");
            } else {
                let expected = [("", "new@h"), ("was@b", "moved@h"), ("gone@b", "")];
                let contents = state.finish().unwrap();
                let seen: Vec<(&str, &str)> =
                    contents.iter().map(|c| (c.0.as_str(), c.1.as_str())).collect();
                assert_eq!(seen, expected);
            }
        }
    }
}
