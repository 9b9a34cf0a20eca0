use code_interpreter::code_interpreters::languages::applescript;
use code_interpreter::code_interpreters::languages::applescript::AppleScript;
use code_interpreter::code_interpreters::languages::shell;
use code_interpreter::code_interpreters::languages::shell::Shell;
use code_interpreter::execution::{
    same_text, CodeRequest, ExecutionError, ExecutionResult, Language, ProcessOutput, RunReport,
};
use code_interpreter::interpreter::{Interpreters, Plan};
use code_interpreter::rag::get_relevant_procedures_string::get_relevant_procedures_string;
use code_interpreter::utils::check_env::check_environments;
use code_interpreter::utils::get_user_info_string::get_user_info_string;

fn interpreters(python_kernel: bool) -> Interpreters {
    Interpreters {
        shell: Shell::new(shell::Config { windows: false, shell: None, active_line_markers: true }),
        applescript: AppleScript::new(applescript::Config { windows: false, shell: None }),
        python_kernel,
    }
}

#[test]
fn selectors_name_languages() {
    assert_eq!(Language::from_selector("python"), Some(Language::Python));
    assert_eq!(Language::from_selector("R"), Some(Language::R));
    assert_eq!(Language::from_selector("shell"), Some(Language::Shell));
    assert_eq!(Language::from_selector("applescript"), Some(Language::AppleScript));
    assert_eq!(Language::from_selector("javascript"), Some(Language::JavaScript));
    assert_eq!(Language::from_selector("html"), Some(Language::Html));
    assert_eq!(Language::from_selector("powershell"), Some(Language::PowerShell));
}

#[test]
fn other_selectors_name_nothing() {
    for selector in ["", "Python", "r", "bash", "shell ", " python", "pythonx", "py"] {
        assert_eq!(Language::from_selector(selector), None);
        assert!(CodeRequest::new(selector, "1").is_none());
    }
}

#[test]
fn texts_are_compared_by_their_characters() {
    assert!(same_text("", ""));
    assert!(same_text("abc", "abc"));
    assert!(!same_text("abc", "abd"));
    assert!(!same_text("abc", "ab"));
    assert!(!same_text("ab", "abc"));
}

#[test]
fn a_request_keeps_its_source() {
    let request = CodeRequest::new("shell", "ls -la").unwrap();
    assert_eq!(request.language, Language::Shell);
    assert_eq!(request.source, "ls -la");
}

#[test]
fn a_clean_exit_takes_standard_output() {
    let output = ProcessOutput { exit_success: true, stdout: b"out".to_vec(), stderr: b"err".to_vec() };
    let result = ExecutionResult::one_shot(output).unwrap();
    assert!(result.succeeded);
    assert_eq!(result.text, "out");
    assert!(result.events.is_empty());
}

#[test]
fn any_other_exit_takes_standard_error() {
    let output = ProcessOutput { exit_success: false, stdout: b"out".to_vec(), stderr: b"err".to_vec() };
    let result = ExecutionResult::one_shot(output).unwrap();
    assert!(!result.succeeded);
    assert_eq!(result.text, "err");
    assert!(result.events.is_empty());
}

#[test]
fn output_that_is_no_text_is_an_error() {
    let output = ProcessOutput { exit_success: true, stdout: vec![b'a', 0xc3], stderr: b"err".to_vec() };
    assert_eq!(ExecutionResult::one_shot(output).err(), Some(ExecutionError::IoError));
    let output = ProcessOutput { exit_success: false, stdout: b"out".to_vec(), stderr: vec![0xed, 0xa0, 0x80] };
    assert_eq!(ExecutionResult::one_shot(output).err(), Some(ExecutionError::IoError));
}

#[test]
fn the_stream_that_is_not_used_may_hold_anything() {
    let output = ProcessOutput { exit_success: true, stdout: "häuser €".as_bytes().to_vec(), stderr: vec![0xff] };
    assert_eq!(ExecutionResult::one_shot(output).unwrap().text, "häuser €");
    let output = ProcessOutput { exit_success: false, stdout: vec![0xff], stderr: Vec::new() };
    assert_eq!(ExecutionResult::one_shot(output).unwrap().text, "");
}

#[test]
fn shell_requests_run_through_the_shell_adapter() {
    let request = CodeRequest::new("shell", "ls").unwrap();
    match interpreters(false).plan(&request) {
        Plan::Run(invocation) => {
            assert_eq!(invocation.program, "bash");
            assert_eq!(
                invocation.arguments,
                vec!["-c", "echo \"##active_line1##\"\nls\necho \"##end_of_execution##\""]
            );
            assert_eq!(invocation.payload, "");
        },
        _ => panic!("a shell request runs a subprocess"),
    }
}

#[test]
fn applescript_requests_run_through_osascript() {
    let request = CodeRequest::new("applescript", "beep").unwrap();
    match interpreters(true).plan(&request) {
        Plan::Run(invocation) => {
            assert_eq!(invocation.arguments, vec!["-c", "osascript -e \"beep\""]);
        },
        _ => panic!("an AppleScript request runs a subprocess"),
    }
}

#[test]
fn python_requests_go_to_the_kernel_or_to_a_subprocess() {
    let request = CodeRequest::new("python", "1+1").unwrap();
    match interpreters(true).plan(&request) {
        Plan::Submit(submission) => {
            assert_eq!(submission.code, "1+1");
            assert!(!submission.silent);
            assert!(submission.store_history);
            assert!(submission.user_expressions.is_empty());
            assert!(submission.allow_stdin);
            assert!(!submission.stop_on_error);
        },
        _ => panic!("with a kernel, Python is submitted"),
    }
    match interpreters(false).plan(&request) {
        Plan::Run(invocation) => {
            assert_eq!(invocation.program, "python3");
            assert_eq!(invocation.payload, "1+1");
        },
        _ => panic!("without a kernel, Python runs a subprocess"),
    }
}

#[test]
fn other_languages_are_not_taken() {
    for selector in ["R", "javascript", "html", "powershell"] {
        let request = CodeRequest::new(selector, "x").unwrap();
        assert!(matches!(interpreters(true).plan(&request), Plan::Unsupported));
        assert!(matches!(interpreters(false).plan(&request), Plan::Unsupported));
    }
}

#[test]
fn subprocess_results_follow_the_language() {
    let all = interpreters(false);
    let report = || {
        RunReport::Exited(ProcessOutput { exit_success: true, stdout: b"42\n".to_vec(), stderr: Vec::new() })
    };
    assert_eq!(all.subprocess_result(Language::Shell, report()).unwrap().text, "42\n");
    assert_eq!(all.subprocess_result(Language::Python, report()).unwrap().text, "42\n");
    assert_eq!(
        all.subprocess_result(Language::AppleScript, report()).unwrap().text,
        "Successfully, Code output:42\n"
    );
    let failed = ProcessOutput { exit_success: false, stdout: Vec::new(), stderr: b"no".to_vec() };
    let result = all.subprocess_result(Language::AppleScript, RunReport::Exited(failed)).unwrap();
    assert!(!result.succeeded);
    assert_eq!(result.text, "no");
    let broken = ProcessOutput { exit_success: false, stdout: Vec::new(), stderr: vec![0x80] };
    assert_eq!(
        all.subprocess_result(Language::Shell, RunReport::Exited(broken)).err(),
        Some(ExecutionError::IoError)
    );
}

#[test]
fn a_process_that_was_not_spawned_is_a_spawn_error() {
    assert_eq!(ExecutionResult::of_report(RunReport::SpawnFailed).err(), Some(ExecutionError::SpawnError));
    for language in [Language::Shell, Language::Python, Language::AppleScript] {
        assert_eq!(
            interpreters(false).subprocess_result(language, RunReport::SpawnFailed).err(),
            Some(ExecutionError::SpawnError)
        );
    }
}

#[test]
fn a_pipe_that_failed_is_an_io_error() {
    assert_eq!(ExecutionResult::of_report(RunReport::PipeFailed).err(), Some(ExecutionError::IoError));
    assert_eq!(
        interpreters(false).subprocess_result(Language::AppleScript, RunReport::PipeFailed).err(),
        Some(ExecutionError::IoError)
    );
}

#[test]
fn a_process_that_exited_gives_the_result_of_its_output() {
    let output = ProcessOutput { exit_success: true, stdout: b"out".to_vec(), stderr: b"err".to_vec() };
    let result = ExecutionResult::of_report(RunReport::Exited(output)).unwrap();
    assert!(result.succeeded);
    assert_eq!(result.text, "out");
    let output = ProcessOutput { exit_success: false, stdout: b"out".to_vec(), stderr: vec![0xff] };
    assert_eq!(ExecutionResult::of_report(RunReport::Exited(output)).err(), Some(ExecutionError::IoError));
}

#[test]
fn the_environment_is_fit_with_a_key() {
    assert!(check_environments(Some("k")));
    assert!(check_environments(Some("")));
    assert!(!check_environments(None));
}

#[test]
fn the_user_paragraph_is_exact() {
    assert_eq!(
        get_user_info_string("ada", "/home/ada", "/bin/zsh", "Linux"),
        "[User Info]\nName: ada\nCWD: /home/ada\nSHELL: /bin/zsh\nOS: Linux"
    );
    assert_eq!(get_user_info_string("", "", "", ""), "[User Info]\nName: \nCWD: \nSHELL: \nOS: ");
}

#[test]
fn the_procedures_paragraph_is_exact() {
    let advice = "\nIn your plan, include steps and, for relevant deprecation notices, **EXACT CODE SNIPPETS** -- these notices will VANISH once you execute your first line of code, so WRITE THEM DOWN NOW if you need them.";
    let two = vec!["first".to_string(), "second".to_string()];
    assert_eq!(
        get_relevant_procedures_string(&two),
        format!("[Recommended Procedures]\nfirst\n---\nsecond{}", advice)
    );
    assert_eq!(
        get_relevant_procedures_string(&Vec::new()),
        format!("[Recommended Procedures]\n{}", advice)
    );
    assert_eq!(
        get_relevant_procedures_string(&vec!["only".to_string()]),
        format!("[Recommended Procedures]\nonly{}", advice)
    );
}
