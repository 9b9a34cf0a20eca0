//! The entry point of an execution, in two halves with the outside work
//! between them: the plan for a request, and the result of what the backend
//! gave back.

use vstd::prelude::*;
use vstd::utf8::decode_utf8;
use crate::code_interpreters::languages::applescript::{success_heading, AppleScript};
use crate::code_interpreters::languages::python::{python_command, python_invocation};
use crate::code_interpreters::languages::python_vision::{
    execute_request, submission, ExecuteRequest, ExecuteRequestView,
};
use crate::code_interpreters::languages::shell::Shell;
use crate::execution::{
    report_failure, result_bytes, CodeRequest, ExecutionError, ExecutionResult, Invocation,
    InvocationView, Language, RunReport,
};

verus! {

/// The adapters that requests are handed to.
#[derive(Debug, PartialEq, Eq)]
pub struct Interpreters {
    /// The adapter for shell snippets.
    pub shell: Shell,
    /// The adapter for AppleScript snippets.
    pub applescript: AppleScript,
    /// Whether Python snippets go to the stateful kernel.
    pub python_kernel: bool,
}

/// What is to be done for a request.
#[derive(Debug, PartialEq, Eq)]
pub enum Plan {
    /// Run a one-shot subprocess.
    Run(Invocation),
    /// Submit the code to the stateful kernel.
    Submit(ExecuteRequest),
    /// Nothing: no adapter takes the language.
    Unsupported,
}

/// A plan over plain values.
pub enum PlanModel {
    Run(InvocationView),
    Submit(ExecuteRequestView),
    Unsupported,
}

impl View for Plan {
    type V = PlanModel;

    open spec fn view(&self) -> PlanModel {
        match *self {
            Plan::Run(invocation) => PlanModel::Run(invocation@),
            Plan::Submit(request) => PlanModel::Submit(request@),
            Plan::Unsupported => PlanModel::Unsupported,
        }
    }
}

impl Interpreters {
    /// The plan for a request, picked by its language: Python goes to the
    /// kernel or to a subprocess, shell and AppleScript go to their
    /// adapters, and no other language is taken.
    pub open spec fn planned(&self, request: CodeRequest) -> PlanModel {
        match request.language {
            Language::Python => if self.python_kernel {
                PlanModel::Submit(submission(request.source@))
            } else {
                PlanModel::Run(python_command(request.source@))
            },
            Language::Shell => PlanModel::Run(self.shell.command(request.source@)),
            Language::AppleScript => PlanModel::Run(self.applescript.command(request.source@)),
            _ => PlanModel::Unsupported,
        }
    }

    /// The plan for `request`.
    pub fn plan(&self, request: &CodeRequest) -> (plan: Plan)
        ensures
            plan@ == self.planned(*request),
    {
        let code = request.source.as_str();
        match request.language {
            Language::Python => if self.python_kernel {
                Plan::Submit(execute_request(code))
            } else {
                Plan::Run(python_invocation(code))
            },
            Language::Shell => Plan::Run(self.shell.invocation(code)),
            Language::AppleScript => Plan::Run(self.applescript.invocation(code)),
            _ => Plan::Unsupported,
        }
    }

    /// The result of the subprocess that ran a request in `language`, from
    /// what the runner reports of it. The text is the output of the process;
    /// the AppleScript adapter heads the output of a clean run.
    pub fn subprocess_result(&self, language: Language, report: RunReport) -> (result: Result<
        ExecutionResult,
        ExecutionError,
    >)
        ensures
            match result {
                Ok(r) => {
                    &&& report_failure(report) is None
                    &&& report matches RunReport::Exited(output)
                    &&& r.succeeded == output.exit_success
                    &&& r.events@.len() == 0
                    &&& r.text@ == if language == Language::AppleScript && output.exit_success {
                        success_heading() + decode_utf8(output.stdout@)
                    } else {
                        decode_utf8(result_bytes(output))
                    }
                },
                Err(e) => report_failure(report) == Some(e),
            },
    {
        match report {
            RunReport::SpawnFailed => Err(ExecutionError::SpawnError),
            RunReport::PipeFailed => Err(ExecutionError::IoError),
            RunReport::Exited(output) => match language {
                Language::AppleScript => self.applescript.result(output),
                _ => ExecutionResult::one_shot(output),
            },
        }
    }
}

} // verus!
