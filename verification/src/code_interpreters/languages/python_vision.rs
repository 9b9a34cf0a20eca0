//! Python snippets in a stateful kernel: the request that submits a snippet
//! and the reading of the kernel's reply to it. The events that the kernel
//! publishes meanwhile are the session's to collect.

use vstd::prelude::*;
use crate::execution::ExecutionError;
use crate::text::{chars_of, push_all, string_of, texts};

verus! {

/// A request to the kernel to execute code.
#[derive(Debug, PartialEq, Eq)]
pub struct ExecuteRequest {
    /// The code to run.
    pub code: String,
    /// Whether the kernel keeps the output to itself.
    pub silent: bool,
    /// Whether the kernel records the code in its history.
    pub store_history: bool,
    /// Expressions to evaluate after the code, by name.
    pub user_expressions: Vec<(String, String)>,
    /// Whether the code may ask the user for input.
    pub allow_stdin: bool,
    /// Whether an error makes the kernel drop what is queued behind.
    pub stop_on_error: bool,
}

/// A request over plain values.
pub struct ExecuteRequestView {
    pub code: Seq<char>,
    pub silent: bool,
    pub store_history: bool,
    pub user_expressions: Seq<(Seq<char>, Seq<char>)>,
    pub allow_stdin: bool,
    pub stop_on_error: bool,
}

impl View for ExecuteRequest {
    type V = ExecuteRequestView;

    open spec fn view(&self) -> ExecuteRequestView {
        ExecuteRequestView {
            code: self.code@,
            silent: self.silent,
            store_history: self.store_history,
            user_expressions: Seq::new(
                self.user_expressions@.len(),
                |i: int| (self.user_expressions@[i].0@, self.user_expressions@[i].1@),
            ),
            allow_stdin: self.allow_stdin,
            stop_on_error: self.stop_on_error,
        }
    }
}

/// The request that submits `code`: execute it as it is, do not suppress
/// output, record it in the history, evaluate nothing besides, allow it to
/// ask for input, and do not stop on an error.
pub open spec fn submission(code: Seq<char>) -> ExecuteRequestView {
    ExecuteRequestView {
        code,
        silent: false,
        store_history: true,
        user_expressions: Seq::empty(),
        allow_stdin: true,
        stop_on_error: false,
    }
}

/// The request that submits `code`.
pub fn execute_request(code: &str) -> (request: ExecuteRequest)
    ensures
        request@ == submission(code@),
{
    let request = ExecuteRequest {
        code: code.to_owned(),
        silent: false,
        store_history: true,
        user_expressions: Vec::new(),
        allow_stdin: true,
        stop_on_error: false,
    };
    assert(request@.user_expressions =~= Seq::<(Seq<char>, Seq<char>)>::empty());
    request
}

/// How the kernel says a request went.
#[derive(Clone, Copy, Debug, PartialEq, Eq, Structural)]
pub enum ReplyStatus {
    /// The code ran.
    Done,
    /// The code raised an exception.
    Error,
    /// The request was dropped.
    Abort,
}

/// What came back on the submission path.
#[derive(Debug, PartialEq, Eq)]
pub enum ShellReply {
    /// The reply to a request to execute code. The value and the traceback
    /// of the exception belong to the status `Error`.
    Execute { status: ReplyStatus, evalue: Option<String>, traceback: Option<Vec<String>> },
    /// Any other reply.
    Other,
}

/// The line that reports the value of an exception.
pub open spec fn error_line(evalue: Seq<char>) -> Seq<char> {
    "Error: "@ + evalue
}

/// What a reply gives the user to read: nothing after `Done` or `Abort`, the
/// value and the traceback of the exception after `Error`. A reply that is
/// none to an execute request, or an `Error` without value or traceback, is
/// a protocol violation.
pub open spec fn reply_lines(reply: ShellReply) -> Result<Seq<Seq<char>>, ExecutionError> {
    match reply {
        ShellReply::Other => Err(ExecutionError::ProtocolViolation),
        ShellReply::Execute { status, evalue, traceback } => match status {
            ReplyStatus::Error => match (evalue, traceback) {
                (Some(value), Some(frames)) => Ok(seq![error_line(value@)] + texts(frames@)),
                _ => Err(ExecutionError::ProtocolViolation),
            },
            _ => Ok(Seq::empty()),
        },
    }
}

/// The lines that a reply gives the user to read.
pub fn reply_report(reply: ShellReply) -> (report: Result<Vec<String>, ExecutionError>)
    ensures
        match report {
            Ok(lines) => reply_lines(reply) == Ok::<Seq<Seq<char>>, ExecutionError>(texts(lines@)),
            Err(e) => reply_lines(reply) == Err::<Seq<Seq<char>>, ExecutionError>(e),
        },
{
    match reply {
        ShellReply::Other => Err(ExecutionError::ProtocolViolation),
        ShellReply::Execute { status, evalue, traceback } => match status {
            ReplyStatus::Error => match (evalue, traceback) {
                (Some(value), Some(frames)) => {
                    let mut first = chars_of("Error: ");
                    push_all(&mut first, &chars_of(value.as_str()));
                    let mut lines: Vec<String> = Vec::new();
                    lines.push(string_of(&first));
                    let ghost head = texts(lines@);
                    assert(head =~= seq![error_line(value@)]);
                    let total = frames.len();
                    let mut taken: usize = 0;
                    assert(texts(frames@).take(0) =~= Seq::<Seq<char>>::empty());
                    for frame in it: frames
                        invariant
                            it.seq() == frames@,
                            total == frames@.len(),
                            taken == it.index(),
                            texts(lines@) == head + texts(frames@).take(taken as int),
                    {
                        assert(taken < total);
                        proof {
                            let all = texts(frames@);
                            assert(frame == frames@[taken as int]);
                            assert(texts(lines@.push(frame)) =~= texts(lines@).push(frame@));
                            assert(all.take(taken + 1) =~= all.take(taken as int).push(
                                all[taken as int],
                            ));
                        }
                        lines.push(frame);
                        taken += 1;
                    }
                    assert(texts(frames@).take(total as int) =~= texts(frames@));
                    Ok(lines)
                },
                _ => Err(ExecutionError::ProtocolViolation),
            },
            _ => {
                let lines: Vec<String> = Vec::new();
                assert(texts(lines@) =~= Seq::<Seq<char>>::empty());
                Ok(lines)
            },
        },
    }
}

} // verus!
