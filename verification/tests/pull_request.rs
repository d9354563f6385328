//! Which pull request is meant, and what is known of it.

use lumen_diff::command::CommandOutcome;
use lumen_diff::pr_info::{
    after_input, after_origin, after_query, detect_args, detect_reply, origin_args, origin_reply,
    parse_pr_info_response, parse_pr_input, repo_of_origin, AfterInput, PrQuery,
    WORKTREE_GUIDANCE,
};
use lumen_diff::types::PrInfo;
use serde_json::Value;

fn object(members: &[(&str, Value)]) -> Value {
    let mut map = serde_json::Map::new();
    for (key, value) in members {
        map.insert(key.to_string(), value.clone());
    }
    Value::Object(map)
}

fn text(value: &str) -> Value {
    Value::String(value.to_string())
}

fn owner(login: &str) -> Value {
    object(&[("login", text(login))])
}

fn answer(members: &[(&str, Value)]) -> String {
    object(&[(
        "data",
        object(&[("repository", object(&[("pullRequest", object(members))]))]),
    )])
    .to_string()
}

fn pr_response(head_repository: Value) -> String {
    answer(&[
        ("id", text("PR_test")),
        ("baseRefName", text("main")),
        ("headRefName", text("feature")),
        ("baseRefOid", text("base-sha")),
        ("headRefOid", text("head-sha")),
        ("baseRepository", object(&[("owner", owner("upstream"))])),
        ("headRepository", head_repository),
    ])
}

fn read(response: &str) -> Result<PrInfo, String> {
    parse_pr_info_response(response, 42, "upstream".into(), "project".into())
}

fn message(result: Result<PrInfo, String>) -> String {
    match result {
        Ok(_) => panic!("an error was due"),
        Err(e) => e,
    }
}

#[test]
fn worktree_handoff_identifies_fork_and_requests_reuse() {
    let response = pr_response(object(&[
        ("nameWithOwner", text("contributor/project-fork")),
        ("owner", owner("contributor")),
    ]));
    let info = read(&response).ok().unwrap();
    let ordinary = info.annotation_context(false);
    assert!(ordinary.contains("https://github.com/upstream/project/pull/42"));
    assert!(ordinary.contains("https://github.com/contributor/project-fork.git"));
    assert!(ordinary.contains("Source branch: `feature`"));
    assert!(ordinary.contains("Reviewed head commit: `head-sha`"));
    assert!(!ordinary.contains("Worktree instructions"));
    let worktree = info.annotation_context(true);
    assert!(worktree.contains("Reuse an existing worktree"));
    assert!(worktree.contains("fast-forward"));
    assert!(worktree.contains("Preserve uncommitted edits and local commits"));
    assert!(worktree.contains("Only when no matching worktree exists"));
    assert!(worktree.contains("if the source branch has advanced"));
    assert!(worktree.contains("it has not created, updated, or switched a worktree"));
}

#[test]
fn pr_info_preserves_renamed_fork_repository() {
    let response = pr_response(object(&[
        ("nameWithOwner", text("contributor/project-fork")),
        ("owner", owner("contributor")),
    ]));
    let info = read(&response).ok().unwrap();
    assert_eq!(info.head_repo.as_deref(), Some("contributor/project-fork"));
    assert_eq!(info.head_repo_owner.as_deref(), Some("contributor"));
    assert_eq!(info.repo_name, "project");
    assert_eq!(info.base_repo_owner, "upstream");
    assert_eq!(info.base_ref, "main");
    assert_eq!(info.head_ref, "feature");
    assert_eq!(info.base_commit, "base-sha");
    assert_eq!(info.head_commit, "head-sha");
}

#[test]
fn pr_info_handles_same_repository_and_deleted_fork() {
    let response = pr_response(object(&[
        ("nameWithOwner", text("upstream/project")),
        ("owner", owner("upstream")),
    ]));
    let info = read(&response).ok().unwrap();
    assert_eq!(info.head_repo.as_deref(), Some("upstream/project"));

    let response = pr_response(Value::Null);
    let info = read(&response).ok().unwrap();
    assert!(info.head_repo.is_none());
    assert!(info.head_repo_owner.is_none());
}

#[test]
fn pr_info_rejects_missing_head_repository_name() {
    let response = pr_response(object(&[("owner", owner("contributor"))]));
    let result = read(&response);
    assert!(result.err().unwrap().contains("head repository name"));
}

#[test]
fn the_handoff_is_written_line_by_line() {
    let mut info = read(&pr_response(Value::Null)).ok().unwrap();
    info.base_repo_owner = "base".to_string();
    let expected = "PR: https://github.com/upstream/project/pull/42\n\n\
        Base repository: https://github.com/base/project.git\n\n\
        Source repository: unavailable (the source repository was deleted)\n\n\
        Source branch: `feature`\n\n\
        Reviewed head commit: `head-sha`";
    assert_eq!(info.annotation_context(false), expected);
    assert_eq!(
        info.annotation_context(true),
        format!("{}{}", expected, WORKTREE_GUIDANCE)
    );
    assert!(WORKTREE_GUIDANCE.starts_with("\n\n## Worktree instructions for the coding agent\n\n"));
    assert!(WORKTREE_GUIDANCE.contains("the source or base repository above. Do not assume"));
}

#[test]
fn missing_branches_and_owner_have_defaults() {
    let info = read(&answer(&[
        ("id", text("x")),
        ("baseRefOid", text("b")),
        ("headRefOid", text("h")),
    ]))
    .ok()
    .unwrap();
    assert_eq!(info.node_id, "x");
    assert_eq!(info.base_ref, "base");
    assert_eq!(info.head_ref, "head");
    assert_eq!(info.base_repo_owner, "upstream");
    assert_eq!(info.number, 42);
}

#[test]
fn each_missing_field_is_named() {
    assert_eq!(
        message(read(&answer(&[]))),
        "Could not parse PR node ID from GraphQL response"
    );
    assert_eq!(
        message(read(&answer(&[("id", text("x")), ("headRefOid", text("h"))]))),
        "Could not parse PR base commit"
    );
    assert_eq!(
        message(read(&answer(&[("id", text("x")), ("baseRefOid", text("b"))]))),
        "Could not parse PR head commit"
    );
    assert!(message(read("{")).starts_with("Could not parse PR GraphQL response: "));
}

fn named(owner: &str, repo: &str, number: u64) -> Option<(Option<String>, Option<String>, u64)> {
    Some((Some(owner.to_string()), Some(repo.to_string()), number))
}

#[test]
fn a_pull_request_is_named_by_number_or_address() {
    assert_eq!(parse_pr_input("123"), Some((None, None, 123)));
    assert_eq!(parse_pr_input("+7"), Some((None, None, 7)));
    assert_eq!(
        parse_pr_input("https://github.com/owner/repo/pull/123"),
        named("owner", "repo", 123)
    );
    assert_eq!(
        parse_pr_input("http://github.com/owner/repo/pull/5//"),
        named("owner", "repo", 5)
    );
    assert_eq!(
        parse_pr_input("https://github.com/owner/repo/pull/9/files"),
        named("owner", "repo", 9)
    );
    assert_eq!(parse_pr_input("https://pull/8"), named("https:", "", 8));
    assert_eq!(parse_pr_input("https://github.com/owner/repo/pull/"), None);
    assert_eq!(parse_pr_input("https://github.com/owner/repo/pull/x"), None);
    assert_eq!(parse_pr_input("https://github.com/pull/repo/pull/3"), None);
    assert_eq!(parse_pr_input("https://github.com/owner/repo"), None);
    assert_eq!(parse_pr_input("github.com/owner/repo/pull/1"), None);
    assert_eq!(parse_pr_input(""), None);
    assert_eq!(parse_pr_input("18446744073709551615"), Some((None, None, u64::MAX)));
    assert_eq!(parse_pr_input("18446744073709551616"), None);
}

#[test]
fn the_origin_names_its_repository() {
    for address in [
        "https://github.com/o/r.git",
        "https://github.com/o/r",
        "git@github.com:o/r.git",
        "git@github.com:o/r",
        "ssh://git@github.com/o/r.git",
        "ssh://git@github.com/o/r",
        "https://github.com//o/r/tree",
    ] {
        assert_eq!(repo_of_origin(address).unwrap(), "o/r");
    }
    assert_eq!(
        repo_of_origin("https://example.com/o/r.git").unwrap_err(),
        "Origin URL is not a GitHub URL: https://example.com/o/r"
    );
    assert_eq!(
        repo_of_origin("https://github.com/o.git").unwrap_err(),
        "Could not parse owner/repo from origin URL: https://github.com/o"
    );
}

fn ended(success: bool, stdout: &[u8], stderr: &[u8]) -> CommandOutcome {
    CommandOutcome::Ended {
        success,
        stdout: stdout.to_vec(),
        stderr: stderr.to_vec(),
    }
}

#[test]
fn the_answer_of_git_is_read() {
    assert_eq!(origin_args(), ["remote", "get-url", "origin"]);
    assert_eq!(
        origin_reply(ended(true, b" git@github.com:o/r.git\n", b"")).unwrap(),
        "o/r"
    );
    assert_eq!(
        origin_reply(ended(false, b"", b"error: No such remote")).unwrap_err(),
        "Could not determine repository. Set origin remote or use --origin owner/repo"
    );
    assert_eq!(
        origin_reply(CommandOutcome::NotRun("gone".to_string())).unwrap_err(),
        "Failed to run git: gone"
    );
}

#[test]
fn the_pull_request_of_the_branch_is_detected() {
    assert_eq!(detect_args(), ["pr", "view", "--json", "number", "-q", ".number"]);
    assert_eq!(detect_reply(ended(true, b"17\n", b"")).unwrap(), "17");
    assert_eq!(
        detect_reply(ended(true, b" \n", b"")).unwrap_err(),
        "No PR found for the current branch"
    );
    assert_eq!(
        detect_reply(ended(false, b"17", b"\n")).unwrap_err(),
        "No PR found for the current branch"
    );
    assert_eq!(
        detect_reply(ended(false, b"17", b" no auth\xff\n")).unwrap_err(),
        "no auth\u{fffd}"
    );
    assert_eq!(
        detect_reply(CommandOutcome::NotRun("gone".to_string())).unwrap_err(),
        "Failed to run gh: gone"
    );
}

#[test]
fn an_address_is_asked_for_in_its_own_repository() {
    for chosen in [None, Some("other/repo"), Some("nonsense")] {
        match after_input("https://github.com/o/r/pull/3", chosen) {
            AfterInput::Ask(query) => {
                assert_eq!(query.repo_owner, "o");
                assert_eq!(query.repo_name, "r");
                assert_eq!(query.number, 3);
            }
            _ => panic!("GitHub is to be asked"),
        }
    }
}

#[test]
fn a_number_is_asked_for_in_the_chosen_repository_or_the_origin() {
    match after_input("3", Some("o/r")) {
        AfterInput::Ask(query) => {
            assert_eq!((query.repo_owner, query.repo_name, query.number), (
                "o".to_string(),
                "r".to_string(),
                3
            ));
        }
        _ => panic!("GitHub is to be asked"),
    }
    assert!(matches!(after_input("3", None), AfterInput::AskOrigin { number: 3 }));
    assert!(matches!(
        after_input("3", Some("o/r/x")),
        AfterInput::Failed(e) if e == "Invalid repo format: o/r/x"
    ));
    assert!(matches!(
        after_input("main", None),
        AfterInput::Failed(e) if e == "Invalid PR reference: main. Use a PR number or URL."
    ));
    let query = after_origin(3, Ok("a/b".to_string())).ok().unwrap();
    assert_eq!((query.repo_owner.as_str(), query.repo_name.as_str()), ("a", "b"));
    assert_eq!(
        after_origin(3, Err("no origin".to_string())).err().unwrap(),
        "no origin"
    );
}

#[test]
fn the_query_and_its_answer() {
    let query = PrQuery {
        repo_owner: "upstream".to_string(),
        repo_name: "project".to_string(),
        number: 42,
    };
    assert_eq!(
        query.args(),
        [
            "api",
            "graphql",
            "-f",
            r#"query=query { repository(owner: "upstream", name: "project") { pullRequest(number: 42) { id url baseRefName headRefName baseRefOid headRefOid baseRepository { owner { login } } headRepository { nameWithOwner owner { login } } } } }"#,
        ]
    );
    let response = pr_response(Value::Null);
    let info = after_query(query, ended(true, response.as_bytes(), b""))
        .ok()
        .unwrap();
    assert_eq!(info.node_id, "PR_test");
    assert_eq!(info.repo_owner, "upstream");
    let again = PrQuery {
        repo_owner: String::new(),
        repo_name: String::new(),
        number: 1,
    };
    assert_eq!(
        message(after_query(again, ended(false, b"", b"bad\n"))),
        "gh api graphql failed: bad"
    );
}
