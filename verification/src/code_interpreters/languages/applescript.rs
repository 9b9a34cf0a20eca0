//! The adapter for AppleScript snippets, which run through `osascript` in
//! the user's shell.

use vstd::prelude::*;
use vstd::utf8::{decode_utf8, valid_utf8};
use crate::execution::{
    ExecutionError, ExecutionResult, Invocation, InvocationView, ProcessOutput,
};
use crate::protocol::{active_line, announce_lines, end_sentinel, with_active_line_prints};
use crate::text::{chars_of, contains, push_all, replace, replace_all, string_of, texts};

pub use super::SubprocessCodeInterpreter;

verus! {

/// How the AppleScript adapter is set up. Nothing is read from the
/// environment later on: what the environment said goes in here once.
#[derive(Debug, PartialEq, Eq)]
pub struct Config {
    /// Whether the platform is Windows.
    pub windows: bool,
    /// The shell that the user prefers, if the environment names one.
    pub shell: Option<String>,
}

/// The program that runs the command text: `cmd.exe` on Windows, else the
/// shell that the user prefers, else `bash`.
pub open spec fn start_command(config: Config) -> Seq<char> {
    if config.windows {
        "cmd.exe"@
    } else {
        match config.shell {
            Some(shell) => shell@,
            None => "bash"@,
        }
    }
}

/// The host command that takes the snippet as one argument.
pub open spec fn host_command() -> Seq<char> {
    "osascript -e "@
}

/// A double quote.
pub open spec fn quote() -> Seq<char> {
    "\""@
}

/// A double quote with a backslash before it.
pub open spec fn escaped_quote() -> Seq<char> {
    "\\\""@
}

/// The command text for an AppleScript snippet: the host command, then the
/// snippet between double quotes, each double quote of the snippet with a
/// backslash before it.
pub open spec fn applescript_text(code: Seq<char>) -> Seq<char> {
    host_command() + quote() + replace(code, quote(), escaped_quote()) + quote()
}

/// What a clean run's output is headed with.
pub open spec fn success_heading() -> Seq<char> {
    "Successfully, Code output:"@
}

/// The adapter for AppleScript snippets.
#[derive(Debug, PartialEq, Eq)]
pub struct AppleScript {
    config: Config,
    start_cmd: String,
}

impl AppleScript {
    /// The setup that the adapter was made with.
    pub closed spec fn config(&self) -> Config {
        self.config
    }

    /// The program that runs the command text.
    pub closed spec fn start_cmd(&self) -> Seq<char> {
        self.start_cmd@
    }

    /// The adapter for `config`.
    pub fn new(config: Config) -> (adapter: AppleScript)
        ensures
            adapter.config() == config,
            adapter.start_cmd() == start_command(config),
    {
        let start_cmd = if config.windows {
            "cmd.exe".to_owned()
        } else {
            match &config.shell {
                Some(shell) => shell.clone(),
                None => "bash".to_owned(),
            }
        };
        AppleScript { config, start_cmd }
    }

    /// The program that runs the command text.
    pub fn program(&self) -> (program: &String)
        ensures
            program@ == self.start_cmd(),
    {
        &self.start_cmd
    }

    /// The command text for `code`.
    pub fn preprocess_code(&self, code: &str) -> (out: String)
        ensures
            out@ == applescript_text(code@),
    {
        preprocess_code(code)
    }

    /// An output line as it is shown: unchanged.
    pub fn line_postprocessor(&self, line: &str) -> (out: String)
        ensures
            out@ == line@,
    {
        line.to_owned()
    }

    /// The source line that an output line announces as running.
    pub fn detect_active_line(&self, line: &str) -> (n: Option<usize>)
        ensures
            n == active_line(line@),
    {
        crate::protocol::detect_active_line(line)
    }

    /// Whether an output line holds the end-of-execution sentinel.
    pub fn detect_end_of_execution(&self, line: &str) -> (ended: bool)
        ensures
            ended == contains(line@, end_sentinel()),
    {
        crate::protocol::detect_end_of_execution(line)
    }

    /// The subprocess for `code`: the start command with `-c` and the command
    /// text as its two arguments, and an empty payload.
    pub open spec fn command(&self, code: Seq<char>) -> InvocationView {
        InvocationView {
            program: self.start_cmd(),
            arguments: seq!["-c"@, applescript_text(code)],
            payload: Seq::empty(),
        }
    }

    /// The subprocess that runs `code`.
    pub fn invocation(&self, code: &str) -> (invocation: Invocation)
        ensures
            invocation@ == self.command(code@),
    {
        let mut arguments: Vec<String> = Vec::new();
        arguments.push("-c".to_owned());
        arguments.push(self.preprocess_code(code));
        assert(texts(arguments@) =~= self.command(code@).arguments);
        Invocation { program: self.start_cmd.clone(), arguments, payload: String::new() }
    }

    /// The result of a run. After a clean exit the text is the heading
    /// followed by standard output; after any other it is standard error.
    /// Bytes that are no UTF-8 are an error.
    pub fn result(&self, output: ProcessOutput) -> (result: Result<
        ExecutionResult,
        ExecutionError,
    >)
        ensures
            match result {
                Ok(r) => {
                    &&& r.succeeded == output.exit_success
                    &&& r.events@.len() == 0
                    &&& output.exit_success ==> valid_utf8(output.stdout@) && r.text@
                        == success_heading() + decode_utf8(output.stdout@)
                    &&& !output.exit_success ==> valid_utf8(output.stderr@) && r.text@
                        == decode_utf8(output.stderr@)
                },
                Err(e) => {
                    &&& e == ExecutionError::IoError
                    &&& output.exit_success ==> !valid_utf8(output.stdout@)
                    &&& !output.exit_success ==> !valid_utf8(output.stderr@)
                },
            },
    {
        match ExecutionResult::one_shot(output) {
            Ok(plain) => {
                if plain.succeeded {
                    let mut text = chars_of("Successfully, Code output:");
                    push_all(&mut text, &chars_of(plain.text.as_str()));
                    Ok(
                        ExecutionResult {
                            succeeded: true,
                            text: string_of(&text),
                            events: plain.events,
                        },
                    )
                } else {
                    Ok(plain)
                }
            },
            Err(e) => Err(e),
        }
    }
}

impl SubprocessCodeInterpreter for AppleScript {
    open spec fn command_text(&self, code: Seq<char>) -> Seq<char> {
        applescript_text(code)
    }

    open spec fn shown_line(&self, line: Seq<char>) -> Seq<char> {
        line
    }

    fn preprocess_code(&self, code: &str) -> (out: String) {
        AppleScript::preprocess_code(self, code)
    }

    fn line_postprocessor(&self, line: &str) -> (out: String) {
        AppleScript::line_postprocessor(self, line)
    }

    fn detect_active_line(&self, line: &str) -> (n: Option<usize>) {
        AppleScript::detect_active_line(self, line)
    }

    fn detect_end_of_execution(&self, line: &str) -> (ended: bool) {
        AppleScript::detect_end_of_execution(self, line)
    }
}

/// The command text for an AppleScript snippet.
pub fn preprocess_code(code: &str) -> (out: String)
    ensures
        out@ == applescript_text(code@),
{
    let quote = chars_of("\"");
    let escaped = chars_of("\\\"");
    proof {
        reveal_strlit("\"");
    }
    let body = replace_all(&chars_of(code), &quote, &escaped);
    let mut text = chars_of("osascript -e ");
    push_all(&mut text, &quote);
    push_all(&mut text, &body);
    push_all(&mut text, &quote);
    string_of(&text)
}

/// `code` with one progress marker before each of its lines.
pub fn add_active_line_prints(code: &str) -> (out: String)
    ensures
        out@ == with_active_line_prints(code@),
{
    string_of(&announce_lines(&chars_of(code)))
}

} // verus!
