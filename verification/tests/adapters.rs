use code_interpreter::code_interpreters::languages::applescript;
use code_interpreter::code_interpreters::languages::applescript::AppleScript;
use code_interpreter::code_interpreters::languages::python::python_invocation;
use code_interpreter::code_interpreters::languages::shell;
use code_interpreter::code_interpreters::languages::shell::Shell;
use code_interpreter::code_interpreters::languages::{
    any_flagged, continuation_pattern_list, has_multiline_commands, read_output,
    SubprocessCodeInterpreter,
};
use code_interpreter::execution::{ExecutionError, ProcessOutput};

fn plain_shell() -> Shell {
    Shell::new(shell::Config { windows: false, shell: None, active_line_markers: false })
}

fn marking_shell() -> Shell {
    Shell::new(shell::Config {
        windows: false,
        shell: Some("/bin/zsh".to_string()),
        active_line_markers: true,
    })
}

fn apple() -> AppleScript {
    AppleScript::new(applescript::Config { windows: false, shell: None })
}

/// The announcements as a chain of calls into the standard library.
fn announce_by_formatting(code: &str) -> String {
    let lines: Vec<String> = code
        .lines()
        .enumerate()
        .map(|(index, line)| format!("echo \"##active_line{}##\"\n{}", index + 1, line))
        .collect();
    lines.join("\n")
}

fn through_the_interface<A: SubprocessCodeInterpreter>(adapter: &A, code: &str) -> String {
    adapter.preprocess_code(code)
}

const SNIPPETS: [&str; 10] = [
    "",
    "ls",
    "ls\n",
    "cd src\nls",
    "cd src \\\n&&ls",
    "echo \"hi\"\r\necho 'there'\r\n",
    "\n\n",
    "for f in *; do\n  echo $f\ndone",
    "echo ##active_line1##",
    "a\rb",
];

#[test]
fn shell_test_shell_ls() {
    let code = "ls";
    let shell = plain_shell();
    let invocation = shell.invocation(code);
    assert_eq!(invocation.program, "bash");
    assert_eq!(invocation.arguments, vec!["-c".to_string(), "ls".to_string()]);
    assert_eq!(invocation.payload, "");
}

#[test]
fn applescript_test_shell_ls() {
    let code = "ls";
    let adapter = apple();
    let invocation = adapter.invocation(code);
    assert_eq!(invocation.program, "bash");
    assert_eq!(invocation.arguments, vec!["-c".to_string(), "osascript -e \"ls\"".to_string()]);
    assert_eq!(invocation.payload, "");
}

#[test]
fn the_start_command_comes_from_the_setup() {
    assert_eq!(plain_shell().program(), "bash");
    assert_eq!(marking_shell().program(), "/bin/zsh");
    let on_windows = Shell::new(shell::Config {
        windows: true,
        shell: Some("/bin/zsh".to_string()),
        active_line_markers: false,
    });
    assert_eq!(on_windows.program(), "cmd.exe");
    assert_eq!(apple().program(), "bash");
    let fish = AppleScript::new(applescript::Config {
        windows: false,
        shell: Some("/usr/bin/fish".to_string()),
    });
    assert_eq!(fish.program(), "/usr/bin/fish");
    let apple_on_windows = AppleScript::new(applescript::Config {
        windows: true,
        shell: Some("/usr/bin/fish".to_string()),
    });
    assert_eq!(apple_on_windows.program(), "cmd.exe");
}

#[test]
fn without_markers_a_shell_snippet_stays_as_it_is() {
    let shell = plain_shell();
    for code in SNIPPETS {
        assert_eq!(shell.preprocess_code(code), code);
        assert_eq!(shell::preprocess_shell(code, false), code);
    }
}

#[test]
fn with_markers_ls_is_announced_and_closed() {
    let shell = marking_shell();
    assert_eq!(
        shell.preprocess_code("ls"),
        "echo \"##active_line1##\"\nls\necho \"##end_of_execution##\""
    );
}

#[test]
fn with_markers_every_line_gets_one_marker_and_the_sentinel_is_last() {
    for code in SNIPPETS {
        let out = shell::preprocess_shell(code, true);
        let lines: Vec<&str> = code.lines().collect();
        let mut expected = String::new();
        for (index, line) in lines.iter().enumerate() {
            if index > 0 {
                expected.push('\n');
            }
            expected.push_str(&format!("echo \"##active_line{}##\"\n", index + 1));
            expected.push_str(line);
        }
        expected.push_str("\necho \"##end_of_execution##\"");
        assert_eq!(out, expected);
        assert!(out.ends_with("\necho \"##end_of_execution##\""));
        let inserted = out.matches("echo \"##active_line").count()
            - code.matches("echo \"##active_line").count();
        assert_eq!(inserted, lines.len());
    }
}

#[test]
fn announcements_agree_with_formatting() {
    for code in SNIPPETS {
        assert_eq!(shell::add_active_line_prints(code), announce_by_formatting(code));
        assert_eq!(applescript::add_active_line_prints(code), announce_by_formatting(code));
    }
}

#[test]
fn output_lines_pass_unchanged() {
    assert_eq!(plain_shell().line_postprocessor("  out \t"), "  out \t");
    assert_eq!(apple().line_postprocessor(""), "");
}

#[test]
fn adapters_detect_markers_and_the_sentinel() {
    let shell = marking_shell();
    assert_eq!(shell.detect_active_line("##active_line8##"), Some(8));
    assert_eq!(shell.detect_active_line("##active_line##"), None);
    assert_eq!(shell.detect_active_line("total 8"), None);
    assert!(shell.detect_end_of_execution("##end_of_execution##"));
    assert!(!shell.detect_end_of_execution("##active_line8##"));
    let adapter = apple();
    assert_eq!(adapter.detect_active_line("x##active_line21##"), Some(21));
    assert!(adapter.detect_end_of_execution("a##end_of_execution##b"));
    assert!(!adapter.detect_end_of_execution("end_of_execution"));
}

#[test]
fn adapters_share_one_interface() {
    assert_eq!(through_the_interface(&plain_shell(), "ls"), "ls");
    assert_eq!(through_the_interface(&apple(), "ls"), "osascript -e \"ls\"");
    let shell = marking_shell();
    assert_eq!(SubprocessCodeInterpreter::detect_active_line(&shell, "##active_line2##"), Some(2));
    assert!(SubprocessCodeInterpreter::detect_end_of_execution(&shell, "##end_of_execution##"));
    assert_eq!(SubprocessCodeInterpreter::line_postprocessor(&shell, "x"), "x");
}

#[test]
fn applescript_escapes_quotes_and_wraps() {
    assert_eq!(applescript::preprocess_code("ls"), "osascript -e \"ls\"");
    assert_eq!(
        applescript::preprocess_code("display dialog \"Hi\""),
        "osascript -e \"display dialog \\\"Hi\\\"\""
    );
    assert_eq!(applescript::preprocess_code(""), "osascript -e \"\"");
    assert_eq!(applescript::preprocess_code("\"\""), "osascript -e \"\\\"\\\"\"");
    for code in SNIPPETS {
        let expected = format!("osascript -e {}", format!("\"{}\"", code.replace("\"", "\\\"")));
        assert_eq!(apple().preprocess_code(code), expected);
    }
}

#[test]
fn applescript_heads_clean_output() {
    let adapter = apple();
    let clean = ProcessOutput { exit_success: true, stdout: b"done\n".to_vec(), stderr: b"warn".to_vec() };
    let result = adapter.result(clean).unwrap();
    assert!(result.succeeded);
    assert_eq!(result.text, "Successfully, Code output:done\n");
    assert!(result.events.is_empty());
    let failed = ProcessOutput { exit_success: false, stdout: b"done\n".to_vec(), stderr: b"oops".to_vec() };
    let result = adapter.result(failed).unwrap();
    assert!(!result.succeeded);
    assert_eq!(result.text, "oops");
    let broken = ProcessOutput { exit_success: true, stdout: vec![0xff, 0xfe], stderr: b"fine".to_vec() };
    assert_eq!(adapter.result(broken).err(), Some(ExecutionError::IoError));
}

#[test]
fn python_code_goes_to_the_interpreter_on_standard_input() {
    let invocation = python_invocation("print(1)\n");
    assert_eq!(invocation.program, "python3");
    assert_eq!(invocation.arguments, vec!["-i", "-q", "-u", ""]);
    assert_eq!(invocation.payload, "print(1)\n");
    let empty = python_invocation("");
    assert_eq!(empty.program, "python3");
    assert_eq!(empty.payload, "");
}

#[test]
fn package_commands_go_to_the_installer() {
    let invocation = python_invocation("!pip install numpy pandas");
    assert_eq!(invocation.program, "pip3");
    assert_eq!(invocation.arguments, vec!["install", "numpy", "pandas"]);
    assert_eq!(invocation.payload, "");
    let odd = python_invocation("!ls  -l");
    assert_eq!(odd.program, "pip3");
    assert_eq!(odd.arguments, vec!["!ls", "", "-l"]);
    let twice = python_invocation("!pip install a !pip b");
    assert_eq!(twice.arguments, vec!["install", "a", "b"]);
}

#[test]
fn the_continuation_patterns_are_twelve() {
    let patterns = continuation_pattern_list();
    assert_eq!(patterns.len(), 12);
    assert_eq!(patterns[0], "\\\\$");
    assert_eq!(patterns[6], "\\{\\s*$");
    assert_eq!(patterns[11], "then\\s*$");
    for pattern in patterns {
        assert!(regex::Regex::new(pattern).is_ok(), "pattern {:?}", pattern);
    }
}

#[test]
fn any_flagged_wants_one_match() {
    assert!(!any_flagged(&vec![]));
    assert!(!any_flagged(&vec![Some(false), None, Some(false)]));
    assert!(any_flagged(&vec![Some(false), None, Some(true)]));
    assert!(any_flagged(&vec![Some(true)]));
    assert!(!any_flagged(&vec![None]));
}

#[test]
fn single_commands_do_not_span_lines() {
    for script in ["", "ls", "echo hi", "ls -la\npwd", "cat file | grep x", "a && b", "notify", "forty", "x=(1 2)"] {
        assert!(!has_multiline_commands(script), "script {:?}", script);
    }
}

#[test]
fn constructs_that_go_on_span_lines() {
    for script in [
        "ls \\",
        "ls |",
        "ls |   ",
        "make &&",
        "make && \t",
        "make ||",
        "diff <(",
        "f(",
        "f() {",
        "f() {   ",
        "if true; then",
        "while read x",
        "for f in *",
        "do",
        "x; then  ",
        "echo start\nfor f in *; do\n echo $f\ndone",
    ] {
        assert!(has_multiline_commands(script), "script {:?}", script);
    }
}

#[test]
fn the_heuristic_looks_at_lines_without_trailing_space() {
    assert!(has_multiline_commands("ls \\  "));
    assert!(has_multiline_commands("diff <(\t"));
    assert!(!has_multiline_commands("ls \\ x"));
    assert!(has_multiline_commands("pwd\r\nls |\r\n"));
}

#[test]
fn reading_stops_at_the_sentinel() {
    let raw: Vec<String> = ["##active_line1##", "file.txt", "##end_of_execution##", "late"]
        .iter()
        .map(|line| line.to_string())
        .collect();
    let transcript = read_output(&plain_shell(), &raw);
    assert_eq!(transcript.output, vec!["file.txt"]);
    assert!(transcript.ended);
}

#[test]
fn reading_without_a_sentinel_takes_everything() {
    let raw: Vec<String> = ["a", "##active_line2##", "b", ""].iter().map(|line| line.to_string()).collect();
    let transcript = read_output(&plain_shell(), &raw);
    assert_eq!(transcript.output, vec!["a", "b", ""]);
    assert!(!transcript.ended);
    let nothing = read_output(&apple(), &Vec::new());
    assert!(nothing.output.is_empty());
    assert!(!nothing.ended);
}

#[test]
fn raw_output_of_an_unmarked_snippet_is_kept_unchanged() {
    let raw: Vec<String> = vec!["Cargo.toml".to_string(), "src".to_string()];
    let transcript = read_output(&plain_shell(), &raw);
    assert_eq!(transcript.output, raw);
    assert!(!transcript.ended);
}

#[test]
fn the_shell_adapter_names_its_language() {
    assert_eq!(Shell::FILE_EXTENSION, "sh");
    assert_eq!(Shell::PROPER_NAME, "Shell");
}

fn marked<A: code_interpreter::code_interpreters::languages::shell::SubprocessCodeInterpreter>(
    adapter: &A,
    line: &str,
) -> Option<usize> {
    adapter.detect_active_line(line)
}

fn ended<A: code_interpreter::code_interpreters::languages::applescript::SubprocessCodeInterpreter>(
    adapter: &A,
    line: &str,
) -> bool {
    adapter.detect_end_of_execution(line)
}

#[test]
fn the_interface_is_reached_through_each_adapter_module() {
    assert_eq!(marked(&apple(), "##active_line3##"), Some(3));
    assert!(ended(&plain_shell(), "##end_of_execution##"));
}
