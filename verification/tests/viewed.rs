//! Which files are marked as viewed.

use lumen_diff::command::{mutation_reply, CommandOutcome};
use lumen_diff::types::PrInfo;
use lumen_diff::viewed::{
    mark_viewed_args, unmark_viewed_args, viewed_args, viewed_files_in, viewed_reply,
};

fn ended(success: bool, stdout: &[u8], stderr: &[u8]) -> CommandOutcome {
    CommandOutcome::Ended {
        success,
        stdout: stdout.to_vec(),
        stderr: stderr.to_vec(),
    }
}

#[test]
fn the_viewed_state_is_asked_for() {
    let info = PrInfo {
        number: 7,
        node_id: "node".to_string(),
        repo_owner: "o".to_string(),
        repo_name: "r".to_string(),
        base_ref: String::new(),
        head_ref: String::new(),
        base_commit: String::new(),
        head_commit: String::new(),
        base_repo_owner: String::new(),
        head_repo_owner: None,
        head_repo: None,
    };
    assert_eq!(
        viewed_args(&info),
        [
            "api",
            "graphql",
            "--paginate",
            "-f",
            r#"query=query($endCursor: String) { repository(owner: "o", name: "r") { pullRequest(number: 7) { files(first: 100, after: $endCursor) { pageInfo { hasNextPage endCursor } nodes { path viewerViewedState } } } } }"#
        ]
    );
}

#[test]
fn the_viewed_files_of_an_answer_are_found() {
    let answer = r#"{"data":{"repository":{"pullRequest":{"files":{"nodes":[{"path":"a.rs","viewerViewedState":"VIEWED"},{"path":"b.rs","viewerViewedState":"UNVIEWED"},{"path":"path","viewerViewedState":"DISMISSED"},{"path":"c/d.rs","viewerViewedState":"VIEWED"}]}}}}}"#;
    assert_eq!(viewed_files_in(answer), ["a.rs", "c/d.rs"]);
    assert!(viewed_files_in("").is_empty());
    assert!(viewed_files_in(
        r#"{"data":{"repository":{"pullRequest":{"files":{"nodes":[]}}}}}"#
    )
    .is_empty());
}

fn page(from: usize, to: usize, more: bool) -> String {
    let nodes: Vec<String> = (from..to)
        .map(|i| {
            let state = ["VIEWED", "UNVIEWED", "DISMISSED"][i % 3];
            format!(r#"{{"path":"dir/{}.rs","viewerViewedState":"{}"}}"#, i, state)
        })
        .collect();
    format!(
        r#"{{"data":{{"repository":{{"pullRequest":{{"files":{{"pageInfo":{{"hasNextPage":{},"endCursor":"path"}},"nodes":[{}]}}}}}}}}}}"#,
        more,
        nodes.join(",")
    )
}

#[test]
fn the_viewed_files_of_all_pages_are_found() {
    let expected: Vec<String> = (0..250)
        .filter(|i| i % 3 == 0)
        .map(|i| format!("dir/{}.rs", i))
        .collect();
    for joint in ["", "\n"] {
        let answers = [
            page(0, 100, true),
            page(100, 200, true),
            page(200, 250, false),
        ]
        .join(joint);
        assert_eq!(viewed_files_in(&answers), expected);
        assert_eq!(
            viewed_reply(ended(true, answers.as_bytes(), b"")).unwrap(),
            expected
        );
    }
    let none = r#"{"data":{"repository":{"pullRequest":{"files":{"pageInfo":{"hasNextPage":false,"endCursor":null},"nodes":[]}}}}}"#;
    assert!(viewed_files_in(none).is_empty());
}

#[test]
fn a_path_takes_the_next_state_that_is_told() {
    let early = r#""path":"a","path":"b","viewerViewedState":"VIEWED","path":"a","viewerViewedState":"VIEWED""#;
    assert_eq!(viewed_files_in(early), ["a", "b"]);
    assert!(viewed_files_in(r#""path":"a","viewerViewedState":"VIEWED"#).is_empty());
    assert!(viewed_files_in(r#""path":"a"#).is_empty());
    assert!(viewed_files_in(r#""path": "a","viewerViewedState":"VIEWED""#).is_empty());
}

#[test]
fn the_outcome_of_the_query_is_read() {
    let answer = br#"{"path":"a","viewerViewedState":"VIEWED"}"#;
    assert_eq!(viewed_reply(ended(true, answer, b"")).unwrap(), ["a"]);
    assert_eq!(
        viewed_reply(ended(false, answer, b"denied\n")).unwrap_err(),
        "gh api graphql failed: denied"
    );
    assert_eq!(
        viewed_reply(CommandOutcome::NotRun("no gh".to_string())).unwrap_err(),
        "Failed to run gh api graphql: no gh"
    );
}

#[test]
fn a_file_is_marked_and_unmarked() {
    assert_eq!(
        mark_viewed_args("N1", "src/a.rs"),
        [
            "api",
            "graphql",
            "-f",
            r#"query=mutation { markFileAsViewed(input: { pullRequestId: "N1", path: "src/a.rs" }) { clientMutationId } }"#
        ]
    );
    assert_eq!(
        unmark_viewed_args("N1", "src/a.rs")[3],
        r#"query=mutation { unmarkFileAsViewed(input: { pullRequestId: "N1", path: "src/a.rs" }) { clientMutationId } }"#
    );
    assert!(mutation_reply(ended(true, b"", b"noise")).is_ok());
    assert_eq!(
        mutation_reply(ended(false, b"", b" refused\n")).unwrap_err(),
        "refused"
    );
    assert_eq!(
        mutation_reply(CommandOutcome::NotRun("no gh".to_string())).unwrap_err(),
        "Failed to run gh api graphql: no gh"
    );
}

#[test]
fn a_path_is_read_to_its_unescaped_end() {
    let answer = r#"{"path":"a\"path\":\"b\\","viewerViewedState":"VIEWED"},{"path":"t\u00e4\ud83d\ude00\/\n","viewerViewedState":"VIEWED"},{"path":"\\","viewerViewedState":"UNVIEWED"}"#;
    assert_eq!(
        viewed_files_in(answer),
        ["a\"path\":\"b\\", "tä😀/\n"]
    );
    assert!(viewed_files_in(r#""path":"a\","viewerViewedState":\"VIEWED\""#).is_empty());
}

#[test]
fn every_path_that_json_writes_is_found() {
    for path in ["a\"b", "a\\b", "\\", "\"", "a\tb\u{1}", "x\\\"y", "ü/日本", "\u{7f}\u{2028}"] {
        let quoted = serde_json::Value::String(path.to_string()).to_string();
        let answer = format!(
            r#"{{"path":{},"viewerViewedState":"VIEWED"}},{{"path":"z","viewerViewedState":"VIEWED"}}"#,
            quoted
        );
        assert_eq!(viewed_files_in(&answer), [path, "z"]);
    }
}

#[test]
fn a_path_is_escaped_in_a_mutation() {
    assert_eq!(
        mark_viewed_args("N\"1", "a\\b\"c\n")[3],
        r#"query=mutation { markFileAsViewed(input: { pullRequestId: "N\"1", path: "a\\b\"c\u000a" }) { clientMutationId } }"#
    );
    assert_eq!(
        unmark_viewed_args("N", "\\")[3],
        r#"query=mutation { unmarkFileAsViewed(input: { pullRequestId: "N", path: "\\" }) { clientMutationId } }"#
    );
}
