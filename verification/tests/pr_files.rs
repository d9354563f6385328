//! The list of changed files of a pull request.

use lumen_diff::pr_files::{parse_pr_changed_files, GithubFile, PrChangedFile};
use lumen_diff::types::FileStatus;
use serde_json::Value;

fn member(file: &Value, key: &str) -> Option<String> {
    file[key].as_str().map(|s| s.to_string())
}

fn parse(response: &str) -> Result<Vec<PrChangedFile>, String> {
    let pages = serde_json::from_str::<Vec<Vec<Value>>>(response)
        .map_err(|e| e.to_string())
        .map(|pages| {
            pages
                .iter()
                .map(|page| {
                    page.iter()
                        .map(|file| GithubFile {
                            filename: member(file, "filename").unwrap(),
                            status: member(file, "status").unwrap(),
                            previous_filename: member(file, "previous_filename"),
                        })
                        .collect()
                })
                .collect()
        });
    parse_pr_changed_files(pages)
}

#[test]
fn pr_diff_distinguishes_missing_sides_from_empty_files() {
    let response = r#"[
            [{"filename":"empty.txt","status":"added"},
             {"filename":"deleted.txt","status":"removed"}],
            [{"filename":"modified.txt","status":"modified"}]
        ]"#;
    let files = parse(response).unwrap();
    assert_eq!(files.len(), 3);
    assert_eq!(files[0].status, FileStatus::Added);
    assert_eq!(files[0].old_path, None);
    assert_eq!(files[0].new_path.as_deref(), Some("empty.txt"));
    assert_eq!(files[1].status, FileStatus::Deleted);
    assert_eq!(files[1].old_path.as_deref(), Some("deleted.txt"));
    assert_eq!(files[1].new_path, None);
    assert_eq!(files[2].status, FileStatus::Modified);
    assert_eq!(files[2].old_path.as_deref(), Some("modified.txt"));
    assert_eq!(files[2].new_path.as_deref(), Some("modified.txt"));
}

#[test]
fn pr_diff_fetches_renamed_files_from_their_original_path() {
    let response = r#"[[{
            "filename":"new.txt","status":"renamed","previous_filename":"old.txt"
        }]]"#;
    let files = parse(response).unwrap();
    assert_eq!(files.len(), 1);
    assert_eq!(files[0].filename, "new.txt");
    assert_eq!(files[0].old_path.as_deref(), Some("old.txt"));
    assert_eq!(files[0].new_path.as_deref(), Some("new.txt"));
    assert_eq!(files[0].status, FileStatus::Modified);
}

#[test]
fn every_status_is_known_or_refused() {
    let response = r#"[[
        {"filename":"a","status":"copied","previous_filename":"z"},
        {"filename":"b","status":"changed"}
    ],[],[{"filename":"c","status":"modified","previous_filename":"y"}]]"#;
    let files = parse(response).unwrap();
    let names: Vec<&str> = files.iter().map(|f| f.filename.as_str()).collect();
    assert_eq!(names, ["a", "b", "c"]);
    assert_eq!(files[0].status, FileStatus::Added);
    assert_eq!(files[0].old_path, None);
    assert_eq!(files[1].status, FileStatus::Modified);
    assert_eq!(files[2].old_path.as_deref(), Some("c"));
    let unknown = r#"[[{"filename":"a","status":"unchanged"}]]"#;
    assert_eq!(
        parse(unknown).unwrap_err(),
        "Unsupported PR file status: unchanged"
    );
}

#[test]
fn the_first_file_that_is_wrong_is_reported() {
    let response = r#"[[{"filename":"a","status":"added"}],[
        {"filename":"b","status":"renamed"},
        {"filename":"c","status":"odd"}
    ]]"#;
    assert_eq!(
        parse(response).unwrap_err(),
        "Renamed PR file has no previous path: b"
    );
    assert!(parse("[]").unwrap().is_empty());
    let message = parse("no list").unwrap_err();
    assert!(message.starts_with("Could not parse PR file list: expected"));
}
