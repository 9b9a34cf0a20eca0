//! What goes into an execution and what comes out of it: the request, the
//! command line of a one-shot subprocess, what the subprocess left behind,
//! and the result that the caller owns.

use vstd::prelude::*;
use vstd::utf8::{decode_utf8, valid_utf8};
use crate::kernel::KernelEvent;
use crate::text::{chars_of, matches_at, texts};

verus! {

/// Why an execution gave no result.
#[derive(Clone, Copy, Debug, PartialEq, Eq, Structural)]
pub enum ExecutionError {
    /// The child process could not be created.
    SpawnError,
    /// A pipe failed, or output was not UTF-8.
    IoError,
    /// The kernel sent what the protocol does not allow.
    ProtocolViolation,
    /// An image payload could not be decoded.
    DecodeError,
}

/// The languages that a request can name.
#[derive(Clone, Copy, Debug, PartialEq, Eq, Structural)]
pub enum Language {
    Python,
    R,
    Shell,
    AppleScript,
    JavaScript,
    Html,
    PowerShell,
}

/// The language that a selector names. The selectors are `python`, `R`,
/// `shell`, `applescript`, `javascript`, `html` and `powershell`, written
/// exactly so.
pub open spec fn language_named(selector: Seq<char>) -> Option<Language> {
    if selector == "python"@ {
        Some(Language::Python)
    } else if selector == "R"@ {
        Some(Language::R)
    } else if selector == "shell"@ {
        Some(Language::Shell)
    } else if selector == "applescript"@ {
        Some(Language::AppleScript)
    } else if selector == "javascript"@ {
        Some(Language::JavaScript)
    } else if selector == "html"@ {
        Some(Language::Html)
    } else if selector == "powershell"@ {
        Some(Language::PowerShell)
    } else {
        None
    }
}

/// Whether two texts hold the same characters.
pub fn same_text(left: &str, right: &str) -> (same: bool)
    ensures
        same == (left@ == right@),
{
    let a = chars_of(left);
    let b = chars_of(right);
    if a.len() != b.len() {
        return false;
    }
    let same = matches_at(&a, &b, 0);
    proof {
        assert(a@.subrange(0, a@.len() as int) =~= a@);
    }
    same
}

impl Language {
    /// The language that `selector` names.
    pub fn from_selector(selector: &str) -> (language: Option<Language>)
        ensures
            language == language_named(selector@),
    {
        if same_text(selector, "python") {
            Some(Language::Python)
        } else if same_text(selector, "R") {
            Some(Language::R)
        } else if same_text(selector, "shell") {
            Some(Language::Shell)
        } else if same_text(selector, "applescript") {
            Some(Language::AppleScript)
        } else if same_text(selector, "javascript") {
            Some(Language::JavaScript)
        } else if same_text(selector, "html") {
            Some(Language::Html)
        } else if same_text(selector, "powershell") {
            Some(Language::PowerShell)
        } else {
            None
        }
    }
}

/// A snippet to run, in a named language.
#[derive(Debug, PartialEq, Eq)]
pub struct CodeRequest {
    pub language: Language,
    pub source: String,
}

impl CodeRequest {
    /// The request for `code` in the language that `language` names, where it
    /// names one.
    pub fn new(language: &str, code: &str) -> (request: Option<CodeRequest>)
        ensures
            match request {
                Some(r) => language_named(language@) == Some(r.language) && r.source@ == code@,
                None => language_named(language@) is None,
            },
    {
        match Language::from_selector(language) {
            Some(language) => Some(CodeRequest { language, source: code.to_owned() }),
            None => None,
        }
    }
}

/// The command line of a one-shot subprocess, and the payload that is
/// written to its standard input before that is closed.
#[derive(Debug, PartialEq, Eq)]
pub struct Invocation {
    pub program: String,
    pub arguments: Vec<String>,
    pub payload: String,
}

/// A command line over plain values.
pub struct InvocationView {
    pub program: Seq<char>,
    pub arguments: Seq<Seq<char>>,
    pub payload: Seq<char>,
}

impl View for Invocation {
    type V = InvocationView;

    open spec fn view(&self) -> InvocationView {
        InvocationView {
            program: self.program@,
            arguments: texts(self.arguments@),
            payload: self.payload@,
        }
    }
}

/// What a finished subprocess left behind.
#[derive(Debug, PartialEq, Eq)]
pub struct ProcessOutput {
    pub exit_success: bool,
    pub stdout: Vec<u8>,
    pub stderr: Vec<u8>,
}

/// What the runner reports of one subprocess.
#[derive(Debug, PartialEq, Eq)]
pub enum RunReport {
    /// The child process could not be created.
    SpawnFailed,
    /// The child process was created, but a pipe to or from it failed.
    PipeFailed,
    /// The child process ran and exited.
    Exited(ProcessOutput),
}

/// The stream that holds the result text: standard output after a clean
/// exit, standard error after any other.
pub open spec fn result_bytes(output: ProcessOutput) -> Seq<u8> {
    if output.exit_success {
        output.stdout@
    } else {
        output.stderr@
    }
}

/// What an execution gave. After a one-shot subprocess `events` is empty.
#[derive(Debug, PartialEq, Eq)]
pub struct ExecutionResult {
    pub succeeded: bool,
    pub text: String,
    pub events: Vec<KernelEvent>,
}

/// `String::from_utf8`: the text that a vector of bytes encodes in UTF-8, or
/// nothing where the bytes are no UTF-8.
#[verifier::external_body]
pub(crate) fn text_of_bytes(bytes: Vec<u8>) -> (text: Option<String>)
    ensures
        text is Some <==> valid_utf8(bytes@),
        text matches Some(t) ==> t@ == decode_utf8(bytes@),
{
    match String::from_utf8(bytes) {
        Ok(text) => Some(text),
        Err(_) => None,
    }
}

/// Why a report gives no result, if it gives none: the process was not
/// spawned, a pipe failed, or the stream that holds the result text is no
/// UTF-8.
pub open spec fn report_failure(report: RunReport) -> Option<ExecutionError> {
    match report {
        RunReport::SpawnFailed => Some(ExecutionError::SpawnError),
        RunReport::PipeFailed => Some(ExecutionError::IoError),
        RunReport::Exited(output) => if valid_utf8(result_bytes(output)) {
            None
        } else {
            Some(ExecutionError::IoError)
        },
    }
}

impl ExecutionResult {
    /// The result of a one-shot subprocess. The text comes from standard
    /// output after a clean exit and from standard error after any other,
    /// never from both; bytes that are no UTF-8 are an error.
    pub fn one_shot(output: ProcessOutput) -> (result: Result<ExecutionResult, ExecutionError>)
        ensures
            match result {
                Ok(r) => {
                    &&& valid_utf8(result_bytes(output))
                    &&& r.succeeded == output.exit_success
                    &&& r.text@ == decode_utf8(result_bytes(output))
                    &&& r.events@.len() == 0
                },
                Err(e) => e == ExecutionError::IoError && !valid_utf8(result_bytes(output)),
            },
    {
        let succeeded = output.exit_success;
        let bytes = if succeeded {
            output.stdout
        } else {
            output.stderr
        };
        match text_of_bytes(bytes) {
            Some(text) => Ok(ExecutionResult { succeeded, text, events: Vec::new() }),
            None => Err(ExecutionError::IoError),
        }
    }

    /// The result of what the runner reports. A process that was not
    /// spawned and a pipe that failed are errors of their own kind; a process
    /// that exited gives the result of its output.
    pub fn of_report(report: RunReport) -> (result: Result<ExecutionResult, ExecutionError>)
        ensures
            match result {
                Ok(r) => {
                    &&& report_failure(report) is None
                    &&& report matches RunReport::Exited(output)
                    &&& r.succeeded == output.exit_success
                    &&& r.text@ == decode_utf8(result_bytes(output))
                    &&& r.events@.len() == 0
                },
                Err(e) => report_failure(report) == Some(e),
            },
    {
        match report {
            RunReport::SpawnFailed => Err(ExecutionError::SpawnError),
            RunReport::PipeFailed => Err(ExecutionError::IoError),
            RunReport::Exited(output) => ExecutionResult::one_shot(output),
        }
    }
}

} // verus!
