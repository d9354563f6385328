//! The decision logic behind a terminal diff viewer: which rows a reader jumps between, which
//! references and files a diff compares, how a pull request is resolved, fetched and described.
//!
//! Everything here computes on plain values. Running commands, reading files and drawing belong
//! to the program around the library, which hands in what came back.

pub mod change_nav;
pub mod command;
pub mod content;
pub mod fetch;
pub mod git;
pub mod json;
pub mod literal;
pub mod pr_files;
pub mod pr_info;
pub mod pr_load;
pub mod repository;
pub mod text;
pub mod types;
pub mod ui;
pub mod vcs;
pub mod viewed;
