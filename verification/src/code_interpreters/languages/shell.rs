//! The adapter for shell snippets.

use vstd::prelude::*;
use crate::execution::{Invocation, InvocationView};
use crate::protocol::{
    active_line, announce_lines, append_end_sentinel, end_sentinel, with_active_line_prints,
    with_end_sentinel,
};
use crate::text::{chars_of, contains, string_of, texts};

pub use super::SubprocessCodeInterpreter;

verus! {

/// How the shell adapter is set up. Nothing is read from the environment
/// later on: what the environment said goes in here once.
#[derive(Debug, PartialEq, Eq)]
pub struct Config {
    /// Whether the platform is Windows.
    pub windows: bool,
    /// The shell that the user prefers, if the environment names one.
    pub shell: Option<String>,
    /// Whether a snippet is rewritten to print progress markers and the
    /// end-of-execution sentinel.
    pub active_line_markers: bool,
}

/// The program that runs a snippet: `cmd.exe` on Windows, else the shell
/// that the user prefers, else `bash`.
pub open spec fn start_command(config: Config) -> Seq<char> {
    if config.windows {
        "cmd.exe"@
    } else {
        match config.shell {
            Some(shell) => shell@,
            None => "bash"@,
        }
    }
}

/// The command text for a shell snippet: the snippet itself, or, with
/// markers, the snippet with one marker before each of its lines and the
/// sentinel as the last line.
pub open spec fn shell_text(code: Seq<char>, active_line_markers: bool) -> Seq<char> {
    if active_line_markers {
        with_end_sentinel(with_active_line_prints(code))
    } else {
        code
    }
}

/// The adapter for shell snippets.
#[derive(Debug, PartialEq, Eq)]
pub struct Shell {
    config: Config,
    start_cmd: String,
}

impl Shell {
    /// The extension of a file that holds a snippet.
    pub const FILE_EXTENSION: &'static str = "sh";

    /// The name of the language as it is shown.
    pub const PROPER_NAME: &'static str = "Shell";

    /// The setup that the adapter was made with.
    pub closed spec fn config(&self) -> Config {
        self.config
    }

    /// The program that runs a snippet.
    pub closed spec fn start_cmd(&self) -> Seq<char> {
        self.start_cmd@
    }

    /// The adapter for `config`.
    pub fn new(config: Config) -> (shell: Shell)
        ensures
            shell.config() == config,
            shell.start_cmd() == start_command(config),
    {
        let start_cmd = if config.windows {
            "cmd.exe".to_owned()
        } else {
            match &config.shell {
                Some(shell) => shell.clone(),
                None => "bash".to_owned(),
            }
        };
        Shell { config, start_cmd }
    }

    /// The program that runs a snippet.
    pub fn program(&self) -> (program: &String)
        ensures
            program@ == self.start_cmd(),
    {
        &self.start_cmd
    }

    /// The command text for `code`.
    pub fn preprocess_code(&self, code: &str) -> (out: String)
        ensures
            out@ == shell_text(code@, self.config().active_line_markers),
    {
        preprocess_shell(code, self.config.active_line_markers)
    }

    /// An output line as it is shown: unchanged.
    pub fn line_postprocessor(&self, line: &str) -> (out: String)
        ensures
            out@ == line@,
    {
        line.to_owned()
    }

    /// The source line that an output line announces as running.
    pub fn detect_active_line(&self, line: &str) -> (n: Option<usize>)
        ensures
            n == active_line(line@),
    {
        crate::protocol::detect_active_line(line)
    }

    /// Whether an output line holds the end-of-execution sentinel.
    pub fn detect_end_of_execution(&self, line: &str) -> (ended: bool)
        ensures
            ended == contains(line@, end_sentinel()),
    {
        crate::protocol::detect_end_of_execution(line)
    }

    /// The subprocess for `code`: the start command with `-c` and the command
    /// text as its two arguments, and an empty payload.
    pub open spec fn command(&self, code: Seq<char>) -> InvocationView {
        InvocationView {
            program: self.start_cmd(),
            arguments: seq!["-c"@, shell_text(code, self.config().active_line_markers)],
            payload: Seq::empty(),
        }
    }

    /// The subprocess that runs `code`.
    pub fn invocation(&self, code: &str) -> (invocation: Invocation)
        ensures
            invocation@ == self.command(code@),
    {
        let mut arguments: Vec<String> = Vec::new();
        arguments.push("-c".to_owned());
        arguments.push(self.preprocess_code(code));
        assert(texts(arguments@) =~= self.command(code@).arguments);
        Invocation { program: self.start_cmd.clone(), arguments, payload: String::new() }
    }
}

impl SubprocessCodeInterpreter for Shell {
    open spec fn command_text(&self, code: Seq<char>) -> Seq<char> {
        shell_text(code, self.config().active_line_markers)
    }

    open spec fn shown_line(&self, line: Seq<char>) -> Seq<char> {
        line
    }

    fn preprocess_code(&self, code: &str) -> (out: String) {
        Shell::preprocess_code(self, code)
    }

    fn line_postprocessor(&self, line: &str) -> (out: String) {
        Shell::line_postprocessor(self, line)
    }

    fn detect_active_line(&self, line: &str) -> (n: Option<usize>) {
        Shell::detect_active_line(self, line)
    }

    fn detect_end_of_execution(&self, line: &str) -> (ended: bool) {
        Shell::detect_end_of_execution(self, line)
    }
}

/// The command text for a shell snippet.
///
/// With markers, a snippet of N lines comes out with exactly N markers
/// inserted, each directly followed by the line it announces, and with the
/// sentinel as its last line. Without markers the snippet comes out as it is.
pub fn preprocess_shell(code: &str, active_line_markers: bool) -> (out: String)
    ensures
        out@ == shell_text(code@, active_line_markers),
{
    if active_line_markers {
        let mut text = announce_lines(&chars_of(code));
        append_end_sentinel(&mut text);
        string_of(&text)
    } else {
        code.to_owned()
    }
}

/// `code` with one progress marker before each of its lines.
pub fn add_active_line_prints(code: &str) -> (out: String)
    ensures
        out@ == with_active_line_prints(code@),
{
    string_of(&announce_lines(&chars_of(code)))
}

} // verus!
