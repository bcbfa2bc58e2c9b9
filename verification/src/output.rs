//! What came of running `tc`.

use vstd::prelude::*;
use vstd::string::StringExecFns;
use vstd::utf8::{decode_utf8, valid_utf8};
use crate::digits::{int_string, int_text};

verus! {

/// The result of one run of `tc`.
#[derive(Debug, PartialEq, Eq)]
pub enum Output {
    /// The program ran and reported no failure.
    Success,
    /// They are not, and `description` says why.
    Error { description: String },
}

/// What a result holds.
pub enum OutputView {
    Success,
    Error { description: Seq<char> },
}

impl View for Output {
    type V = OutputView;

    open spec fn view(&self) -> OutputView {
        match self {
            Output::Success => OutputView::Success,
            Output::Error { description } => OutputView::Error { description: description@ },
        }
    }
}

impl Clone for Output {
    fn clone(&self) -> (output: Output)
        ensures
            output@ == self@,
    {
        match self {
            Output::Success => Output::Success,
            Output::Error { description } => Output::Error { description: description.clone() },
        }
    }
}

/// How a run of `tc` ended.
#[derive(Debug, PartialEq, Eq)]
pub enum Completion {
    /// The program could not be started; `reason` says why.
    NotStarted { reason: String },
    /// The program ran and left with `code`, having written `stderr` to its
    /// error stream.
    Exited { code: i32, stderr: Vec<u8> },
    /// A signal ended the program, so that it left no code.
    Killed,
}

/// The description of a run that left with `code`: the code and, where the
/// bytes `stderr` are valid UTF-8, the text that they encode.
pub open spec fn exit_description(code: int, stderr: Seq<u8>) -> Seq<char> {
    if valid_utf8(stderr) {
        "Exit with status code: "@ + int_text(code) + ", stderr: "@ + decode_utf8(stderr)
    } else {
        "Exit with status code: "@ + int_text(code)
    }
}

/// The result that a run which ended as `c` gives.
pub open spec fn outcome(c: Completion) -> OutputView {
    match c {
        Completion::NotStarted { reason } => OutputView::Error {
            description: "Command Error: "@ + reason@,
        },
        Completion::Exited { code, stderr } => if code == 0 {
            OutputView::Success
        } else {
            OutputView::Error { description: exit_description(code as int, stderr@) }
        },
        Completion::Killed => OutputView::Error { description: "Process killed by signal"@ },
    }
}

/// Decodes `bytes` with `String::from_utf8` of the standard library: the
/// text that the bytes encode where they are valid UTF-8, and nothing where
/// they are not.
#[verifier::external_body]
fn text_of_bytes(bytes: Vec<u8>) -> (r: Option<String>)
    ensures
        r is Some <==> valid_utf8(bytes@),
        r is Some ==> r.unwrap()@ == decode_utf8(bytes@),
{
    String::from_utf8(bytes).ok()
}

impl Output {
    /// The failure that `description` describes.
    pub fn err(description: String) -> (output: Self)
        ensures
            output == (Output::Error { description }),
    {
        Output::Error { description }
    }

    /// The result of a run of `tc` that ended as `completion`: success for
    /// the exit code 0 alone, and else a failure that says what happened.
    pub fn from_completion(completion: Completion) -> (output: Self)
        ensures
            output@ == outcome(completion),
    {
        match completion {
            Completion::NotStarted { reason } => {
                let mut description = String::from_str("Command Error: ");
                description.append(reason.as_str());
                Output::err(description)
            },
            Completion::Exited { code, stderr } => {
                if code == 0 {
                    Output::Success
                } else {
                    let mut description = String::from_str("Exit with status code: ");
                    description.append(int_string(code).as_str());
                    if let Some(text) = text_of_bytes(stderr) {
                        description.append(", stderr: ");
                        description.append(text.as_str());
                    }
                    Output::err(description)
                }
            },
            Completion::Killed => Output::err(String::from_str("Process killed by signal")),
        }
    }
}

} // verus!
