//! Commands that the surrounding program runs, and what their outcome means.

use vstd::prelude::*;
use vstd::utf8::{decode_utf8, valid_utf8};

use crate::content::{lossy_text, text_or_message, utf8_lossy};
use crate::text::{has_text, law_contained_text_has_surroundings, texts, trim, trimmed};

verus! {

/// How a command ended.
pub enum CommandOutcome {
    /// It could not be run; the text is the system's message.
    NotRun(String),
    /// It ran to its end.
    Ended {
        /// Whether it reported success.
        success: bool,
        /// What it wrote to its standard output.
        stdout: Vec<u8>,
        /// What it wrote to its standard error.
        stderr: Vec<u8>,
    },
}

/// What a command wrote, or a message that begins with `not_run` or `failed`.
pub open spec fn command_output(
    outcome: CommandOutcome,
    not_run: Seq<char>,
    failed: Seq<char>,
) -> Result<Seq<char>, Seq<char>> {
    match outcome {
        CommandOutcome::NotRun(message) => Err(not_run + message@),
        CommandOutcome::Ended { success, stdout, stderr } => if success {
            Ok(lossy_text(stdout@))
        } else {
            Err(failed + trimmed(lossy_text(stderr@)))
        },
    }
}

/// What a command that succeeded wrote, if that is UTF-8.
pub open spec fn plain_output(outcome: CommandOutcome) -> Option<Seq<char>> {
    match outcome {
        CommandOutcome::Ended { success, stdout, .. } => if success && valid_utf8(stdout@) {
            Some(decode_utf8(stdout@))
        } else {
            None
        },
        CommandOutcome::NotRun(_) => None,
    }
}

/// What a command that failed wrote to its standard error, if that is UTF-8.
pub open spec fn plain_error(outcome: CommandOutcome) -> Option<Seq<char>> {
    match outcome {
        CommandOutcome::Ended { success, stderr, .. } => if !success && valid_utf8(stderr@) {
            Some(decode_utf8(stderr@))
        } else {
            None
        },
        CommandOutcome::NotRun(_) => None,
    }
}

/// The output of a command as text, or what went wrong.
pub fn output_text(outcome: CommandOutcome, not_run: &str, failed: &str) -> (r: Result<
    String,
    String,
>)
    ensures
        text_or_message(r) == command_output(outcome, not_run@, failed@),
        plain_output(outcome) matches Some(text) ==> text_or_message(r) == Ok::<
            Seq<char>,
            Seq<char>,
        >(text),
        plain_error(outcome) matches Some(text) ==> text_or_message(r) == Err::<
            Seq<char>,
            Seq<char>,
        >(failed@ + trimmed(text)),
{
    match outcome {
        CommandOutcome::NotRun(message) => {
            let mut text = not_run.to_string();
            text.append(message.as_str());
            Err(text)
        },
        CommandOutcome::Ended { success, stdout, stderr } => {
            if success {
                Ok(utf8_lossy(&stdout))
            } else {
                let mut text = failed.to_string();
                text.append(trim(utf8_lossy(&stderr).as_str()).as_str());
                Err(text)
            }
        },
    }
}

/// The arguments with which `gh` asks the REST API.
pub fn github_api_args(api_path: &str, accept: &str) -> (r: Vec<String>)
    ensures
        texts(r@) == seq!["api"@, api_path@, "-H"@, "Accept: "@ + accept@],
{
    let mut header = "Accept: ".to_string();
    header.append(accept);
    let args = vec!["api".to_string(), api_path.to_string(), "-H".to_string(), header];
    assert(texts(args@) =~= seq!["api"@, api_path@, "-H"@, "Accept: "@ + accept@]);
    args
}

/// What the REST API answered, or what went wrong.
pub fn github_api_reply(api_path: &str, outcome: CommandOutcome) -> (r: Result<String, String>)
    ensures
        text_or_message(r) == command_output(
            outcome,
            "Failed to run gh api for "@ + api_path@ + ": "@,
            "Failed to fetch "@ + api_path@ + ": "@,
        ),
        plain_output(outcome) matches Some(text) ==> text_or_message(r) == Ok::<
            Seq<char>,
            Seq<char>,
        >(text),
        plain_error(outcome) matches Some(text) ==> text_or_message(r) == Err::<
            Seq<char>,
            Seq<char>,
        >("Failed to fetch "@ + api_path@ + ": "@ + trimmed(text)),
{
    let mut not_run = "Failed to run gh api for ".to_string();
    not_run.append(api_path);
    not_run.append(": ");
    let mut failed = "Failed to fetch ".to_string();
    failed.append(api_path);
    failed.append(": ");
    output_text(outcome, not_run.as_str(), failed.as_str())
}

/// The arguments with which `gh` sends a GraphQL query or mutation.
pub fn graphql_args(query: &str) -> (r: Vec<String>)
    ensures
        texts(r@) == seq!["api"@, "graphql"@, "-f"@, "query="@ + query@],
{
    let mut field = "query=".to_string();
    field.append(query);
    let args = vec!["api".to_string(), "graphql".to_string(), "-f".to_string(), field];
    assert(texts(args@) =~= seq!["api"@, "graphql"@, "-f"@, "query="@ + query@]);
    args
}

/// What a GraphQL query answered, or what went wrong.
pub fn graphql_reply(outcome: CommandOutcome) -> (r: Result<String, String>)
    ensures
        text_or_message(r) == command_output(
            outcome,
            "Failed to run gh api graphql: "@,
            "gh api graphql failed: "@,
        ),
        plain_output(outcome) matches Some(text) ==> text_or_message(r) == Ok::<
            Seq<char>,
            Seq<char>,
        >(text),
        plain_error(outcome) matches Some(text) ==> text_or_message(r) == Err::<
            Seq<char>,
            Seq<char>,
        >("gh api graphql failed: "@ + trimmed(text)),
{
    output_text(outcome, "Failed to run gh api graphql: ", "gh api graphql failed: ")
}

/// Whether a GraphQL mutation went through, or what went wrong.
pub open spec fn mutation_result(outcome: CommandOutcome) -> Result<(), Seq<char>> {
    match command_output(outcome, "Failed to run gh api graphql: "@, Seq::empty()) {
        Ok(_) => Ok(()),
        Err(message) => Err(message),
    }
}

/// Whether a GraphQL mutation went through, or what went wrong.
pub fn mutation_reply(outcome: CommandOutcome) -> (r: Result<(), String>)
    ensures
        match r {
            Ok(_) => mutation_result(outcome) == Ok::<(), Seq<char>>(()),
            Err(message) => mutation_result(outcome) == Err::<(), Seq<char>>(message@),
        },
        plain_error(outcome) matches Some(text) ==> r matches Err(message) && message@ == trimmed(
            text,
        ),
{
    proof {
        reveal_strlit("");
        assert(""@ =~= Seq::<char>::empty());
        assert forall|text: Seq<char>| ""@ + text == text by {
            assert(""@ + text =~= text);
        }
    }
    match output_text(outcome, "Failed to run gh api graphql: ", "") {
        Ok(_) => Ok(()),
        Err(message) => Err(message),
    }
}

/// What a command comes to: if it succeeded, all that it wrote; if it failed, an error that ends
/// with what it wrote to its standard error, without the white space around that; and if it did not
/// run, an error that ends with why.
pub proof fn law_output_is_what_was_written(
    not_run: Seq<char>,
    failed: Seq<char>,
    message: String,
    stdout: Vec<u8>,
    stderr: Vec<u8>,
)
    ensures
        command_output(
            CommandOutcome::Ended { success: true, stdout, stderr },
            not_run,
            failed,
        ) == Ok::<Seq<char>, Seq<char>>(lossy_text(stdout@)),
        command_output(
            CommandOutcome::Ended { success: false, stdout, stderr },
            not_run,
            failed,
        ) == Err::<Seq<char>, Seq<char>>(failed + trimmed(lossy_text(stderr@))),
        command_output(CommandOutcome::NotRun(message), not_run, failed) == Err::<
            Seq<char>,
            Seq<char>,
        >(not_run + message@),
        has_text(failed + trimmed(lossy_text(stderr@)), trimmed(lossy_text(stderr@))),
        has_text(not_run + message@, message@),
        mutation_result(CommandOutcome::Ended { success: true, stdout, stderr }) is Ok,
        mutation_result(CommandOutcome::Ended { success: false, stdout, stderr }) == Err::<
            (),
            Seq<char>,
        >(trimmed(lossy_text(stderr@))),
        mutation_result(CommandOutcome::NotRun(message)) is Err,
{
    let told = trimmed(lossy_text(stderr@));
    assert(failed + told =~= failed + told + Seq::<char>::empty());
    law_contained_text_has_surroundings(failed + told, told);
    assert(not_run + message@ =~= not_run + message@ + Seq::<char>::empty());
    law_contained_text_has_surroundings(not_run + message@, message@);
    assert(Seq::<char>::empty() + told =~= told);
}

/// What is read plainly is what the bytes encode.
pub proof fn law_plain_text_is_decoded(stdout: Vec<u8>, stderr: Vec<u8>)
    ensures
        valid_utf8(stdout@) ==> plain_output(
            CommandOutcome::Ended { success: true, stdout, stderr },
        ) == Some(decode_utf8(stdout@)),
        valid_utf8(stderr@) ==> plain_error(
            CommandOutcome::Ended { success: false, stdout, stderr },
        ) == Some(decode_utf8(stderr@)),
{
}

} // verus!
