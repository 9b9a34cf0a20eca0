use code_interpreter::code_interpreters::languages::python_vision::{
    execute_request, reply_report, ReplyStatus, ShellReply,
};
use code_interpreter::execution::ExecutionError;
use code_interpreter::kernel::{ExecutionState, Incoming, KernelEvent, MimeBundle};
use code_interpreter::session::{Reaction, Session};

fn status(state: ExecutionState) -> Incoming {
    Incoming::Event(KernelEvent::Status { parent: "r1".to_string(), state })
}

fn stream(text: &str) -> Incoming {
    Incoming::Event(KernelEvent::Stream { parent: "r1".to_string(), text: text.to_string() })
}

fn input(code: &str) -> Incoming {
    Incoming::Event(KernelEvent::ExecuteInput { parent: "r1".to_string(), code: code.to_string() })
}

fn error(message: &str, traceback: &[&str]) -> Incoming {
    Incoming::Event(KernelEvent::Error {
        parent: "r1".to_string(),
        message: message.to_string(),
        traceback: traceback.iter().map(|line| line.to_string()).collect(),
    })
}

fn bundle(entries: &[(&str, &str)]) -> MimeBundle {
    let mut bundle = MimeBundle::new();
    for (mime, body) in entries {
        bundle.insert(mime.to_string(), body.to_string());
    }
    bundle
}

fn result(entries: &[(&str, &str)]) -> Incoming {
    Incoming::Event(KernelEvent::ExecuteResult { parent: "r1".to_string(), data: bundle(entries) })
}

fn display(entries: &[(&str, &str)]) -> Incoming {
    Incoming::Event(KernelEvent::DisplayData { parent: "r1".to_string(), data: bundle(entries) })
}

fn clear() -> Incoming {
    Incoming::Event(KernelEvent::ClearOutput { parent: "r1".to_string() })
}

fn kinds(events: &[KernelEvent]) -> Vec<&'static str> {
    events
        .iter()
        .map(|event| match event {
            KernelEvent::Status { .. } => "status",
            KernelEvent::ExecuteInput { .. } => "input",
            KernelEvent::Stream { .. } => "stream",
            KernelEvent::ExecuteResult { .. } => "result",
            KernelEvent::Error { .. } => "error",
            KernelEvent::ClearOutput { .. } => "clear",
            KernelEvent::DisplayData { .. } => "display",
        })
        .collect()
}

#[test]
fn a_new_session_is_idle_and_empty() {
    let session = Session::new();
    assert_eq!(session.execution_state(), ExecutionState::Idle);
    assert!(session.buffered().is_empty());
    assert!(!session.is_complete());
    assert!(!session.is_broken());
}

#[test]
fn busy_stream_idle_buffers_one_event_and_completes_once() {
    let mut session = Session::new();
    let mut completions = 0;
    let messages = vec![status(ExecutionState::Busy), stream("x"), status(ExecutionState::Idle)];
    for message in messages {
        if session.observe(message) == Ok(Reaction::Complete) {
            completions += 1;
        }
    }
    assert_eq!(completions, 1);
    assert!(session.is_complete());
    assert_eq!(session.buffered().len(), 1);
    match &session.buffered()[0] {
        KernelEvent::Stream { text, .. } => assert_eq!(text, "x"),
        _ => panic!("the buffered event is the stream"),
    }
}

#[test]
fn draining_the_same_sequence_gives_the_same() {
    let mut session = Session::new();
    let messages = vec![status(ExecutionState::Busy), stream("x"), status(ExecutionState::Idle)];
    let drained = session.drain(messages).unwrap();
    assert_eq!(drained.taken, 3);
    assert!(drained.surfaced.is_empty());
    assert!(session.is_complete());
    assert_eq!(kinds(session.buffered()), vec!["stream"]);
    assert_eq!(session.execution_state(), ExecutionState::Idle);
}

#[test]
fn draining_stops_at_the_first_completion() {
    let mut session = Session::new();
    let messages = vec![
        status(ExecutionState::Busy),
        stream("a"),
        status(ExecutionState::Idle),
        status(ExecutionState::Busy),
        stream("b"),
        status(ExecutionState::Idle),
    ];
    let drained = session.drain(messages).unwrap();
    assert_eq!(drained.taken, 3);
    assert_eq!(session.buffered().len(), 1);
    assert!(session.is_complete());
}

#[test]
fn idle_without_busy_before_it_completes_nothing() {
    let mut session = Session::new();
    assert_eq!(session.observe(status(ExecutionState::Idle)), Ok(Reaction::Continue));
    assert!(!session.is_complete());
    assert_eq!(session.observe(stream("x")), Ok(Reaction::Continue));
    assert_eq!(session.observe(status(ExecutionState::Busy)), Ok(Reaction::Continue));
    assert_eq!(session.execution_state(), ExecutionState::Busy);
    assert_eq!(session.observe(status(ExecutionState::Busy)), Ok(Reaction::Continue));
    assert!(!session.is_complete());
    assert_eq!(session.observe(status(ExecutionState::Idle)), Ok(Reaction::Complete));
    assert!(session.is_complete());
    assert_eq!(session.execution_state(), ExecutionState::Idle);
}

#[test]
fn every_event_but_a_status_is_buffered_in_arrival_order() {
    let mut session = Session::new();
    let messages = vec![
        status(ExecutionState::Busy),
        input("1+1"),
        stream("out"),
        clear(),
        display(&[("text/plain", "<fig>")]),
        result(&[("text/plain", "2")]),
        error("boom", &["frame"]),
        status(ExecutionState::Busy),
    ];
    let drained = session.drain(messages).unwrap();
    assert_eq!(drained.taken, 8);
    assert!(!session.is_complete());
    assert_eq!(
        kinds(session.buffered()),
        vec!["input", "stream", "clear", "display", "result", "error"]
    );
    assert_eq!(drained.surfaced, vec![5]);
}

#[test]
fn an_error_is_surfaced_even_if_idle_follows() {
    let mut session = Session::new();
    assert_eq!(session.observe(status(ExecutionState::Busy)), Ok(Reaction::Continue));
    assert_eq!(session.observe(error("ZeroDivisionError", &["line 1"])), Ok(Reaction::SurfaceError));
    match session.buffered().last() {
        Some(KernelEvent::Error { message, traceback, .. }) => {
            assert_eq!(message, "ZeroDivisionError");
            assert_eq!(traceback, &vec!["line 1".to_string()]);
        },
        _ => panic!("the error stands last in the buffer"),
    }
    assert_eq!(session.observe(status(ExecutionState::Idle)), Ok(Reaction::Complete));
    assert_eq!(kinds(session.buffered()), vec!["error"]);
}

#[test]
fn draining_lists_every_error() {
    let mut session = Session::new();
    let messages = vec![
        error("before busy", &[]),
        status(ExecutionState::Busy),
        stream("x"),
        error("first", &[]),
        error("second", &["a", "b"]),
        status(ExecutionState::Idle),
        error("late", &[]),
    ];
    let drained = session.drain(messages).unwrap();
    assert_eq!(drained.taken, 6);
    assert_eq!(drained.surfaced, vec![0, 2, 3]);
    assert!(session.is_complete());
    assert_eq!(kinds(session.buffered()), vec!["error", "stream", "error", "error"]);
}

#[test]
fn an_unexpected_message_is_a_protocol_violation() {
    let mut session = Session::new();
    assert_eq!(session.observe(status(ExecutionState::Busy)), Ok(Reaction::Continue));
    assert_eq!(session.observe(stream("x")), Ok(Reaction::Continue));
    assert!(!session.is_broken());
    assert_eq!(session.observe(Incoming::Unexpected), Err(ExecutionError::ProtocolViolation));
    assert!(session.is_broken());
    assert_eq!(session.execution_state(), ExecutionState::Busy);
    assert_eq!(session.buffered().len(), 1);
    assert!(!session.is_complete());
}

#[test]
fn draining_ends_at_an_unexpected_message() {
    let mut session = Session::new();
    let messages = vec![
        status(ExecutionState::Busy),
        stream("x"),
        Incoming::Unexpected,
        status(ExecutionState::Idle),
    ];
    assert_eq!(session.drain(messages).err(), Some(ExecutionError::ProtocolViolation));
    assert!(session.is_broken());
    assert!(!session.is_complete());
    assert_eq!(session.buffered().len(), 1);
    assert_eq!(session.execution_state(), ExecutionState::Busy);
}

#[test]
fn draining_nothing_changes_nothing() {
    let mut session = Session::new();
    let drained = session.drain(Vec::new()).unwrap();
    assert_eq!(drained.taken, 0);
    assert!(drained.surfaced.is_empty());
    assert!(!session.is_complete());
    assert!(session.buffered().is_empty());
}

#[test]
fn draining_appends_to_what_is_buffered() {
    let mut session = Session::new();
    session.drain(vec![status(ExecutionState::Busy), stream("a"), error("e", &[])]).unwrap();
    let drained = session.drain(vec![stream("b"), error("f", &[]), status(ExecutionState::Idle)]).unwrap();
    assert_eq!(drained.taken, 3);
    assert_eq!(drained.surfaced, vec![3]);
    assert_eq!(kinds(session.buffered()), vec!["stream", "error", "stream", "error"]);
    assert!(session.is_complete());
}

#[test]
fn a_new_submission_clears_the_buffer_and_keeps_the_state() {
    let mut session = Session::new();
    session.drain(vec![status(ExecutionState::Busy), stream("a"), status(ExecutionState::Idle)]).unwrap();
    assert!(session.is_complete());
    session.begin_submission(None);
    assert!(!session.is_complete());
    assert!(session.buffered().is_empty());
    assert_eq!(session.execution_state(), ExecutionState::Idle);
    let mut busy = Session::new();
    busy.drain(vec![status(ExecutionState::Busy), stream("a")]).unwrap();
    busy.begin_submission(None);
    assert_eq!(busy.execution_state(), ExecutionState::Busy);
    assert_eq!(busy.observe(status(ExecutionState::Idle)), Ok(Reaction::Complete));
}

#[test]
fn one_plus_one_gives_two_and_succeeds() {
    let request = execute_request("1+1");
    assert_eq!(request.code, "1+1");
    let mut session = Session::new();
    session.begin_submission(None);
    let messages = vec![
        status(ExecutionState::Busy),
        input("1+1"),
        result(&[("text/plain", "2")]),
        status(ExecutionState::Idle),
    ];
    let drained = session.drain(messages).unwrap();
    assert_eq!(drained.taken, 4);
    let outcome = session.finish().ok().expect("the submission is complete");
    assert!(outcome.succeeded);
    assert_eq!(outcome.text, "2");
    assert_eq!(outcome.events.len(), 2);
    match &outcome.events[1] {
        KernelEvent::ExecuteResult { data, .. } => {
            assert_eq!(data.get(&"text/plain".to_string()), Some(&"2".to_string()));
        },
        _ => panic!("the last event is the result"),
    }
}

#[test]
fn an_incomplete_session_gives_no_result() {
    let mut session = Session::new();
    session.drain(vec![status(ExecutionState::Busy), stream("a")]).unwrap();
    match session.finish() {
        Ok(_) => panic!("nothing completed the submission"),
        Err(back) => {
            assert_eq!(back.buffered().len(), 1);
            assert_eq!(back.execution_state(), ExecutionState::Busy);
            assert!(!back.is_complete());
        },
    }
}

#[test]
fn a_result_with_an_error_did_not_succeed() {
    let mut session = Session::new();
    session
        .drain(vec![
            status(ExecutionState::Busy),
            stream("partial\n"),
            error("NameError: x", &["Traceback", "  line 1"]),
            status(ExecutionState::Idle),
        ])
        .unwrap();
    let outcome = session.finish().ok().unwrap();
    assert!(!outcome.succeeded);
    assert_eq!(outcome.text, "partial\nNameError: x\nTraceback\n  line 1\n");
}

#[test]
fn the_result_text_is_what_the_events_show() {
    let mut session = Session::new();
    session
        .drain(vec![
            status(ExecutionState::Busy),
            input("print('a'); display(fig); 2"),
            stream("a\n"),
            clear(),
            display(&[("text/plain", "<Figure>"), ("image/png", "AAAA")]),
            display(&[("text/html", "<b>x</b>")]),
            display(&[("text/html", "<b>x</b>"), ("text/plain", "x")]),
            result(&[("text/plain", "2")]),
            status(ExecutionState::Idle),
        ])
        .unwrap();
    let outcome = session.finish().ok().unwrap();
    assert!(outcome.succeeded);
    assert_eq!(outcome.text, "a\nx2");
    assert_eq!(outcome.events.len(), 7);
}

#[test]
fn a_submission_executes_the_code_as_it_is() {
    let request = execute_request("import time\ntime.sleep(2)");
    assert_eq!(request.code, "import time\ntime.sleep(2)");
    assert!(!request.silent);
    assert!(request.store_history);
    assert!(request.user_expressions.is_empty());
    assert!(request.allow_stdin);
    assert!(!request.stop_on_error);
}

#[test]
fn test_python_vision_interpreter() {
    let code = String::from(
        "import pandas as pd\n\
            import numpy as np\n\
            df = pd.DataFrame(np.random.rand(10, 5))\n\
            # For HTML output\n\
            display(df)\n\
            # For image output using matplotlib\n\
            import matplotlib.pyplot as plt\n\
            plt.figure()\n\
            plt.plot(df)\n\
            plt.savefig('plot.png')  # Save the plot as a .png file\n\
            plt.show()",
    );
    let request = execute_request(&code);
    assert_eq!(request.code, code);
}

#[test]
fn replies_report_errors_only() {
    let fine = ShellReply::Execute { status: ReplyStatus::Done, evalue: None, traceback: None };
    assert_eq!(reply_report(fine), Ok(Vec::new()));
    let aborted = ShellReply::Execute {
        status: ReplyStatus::Abort,
        evalue: Some("ignored".to_string()),
        traceback: None,
    };
    assert_eq!(reply_report(aborted), Ok(Vec::new()));
    let failed = ShellReply::Execute {
        status: ReplyStatus::Error,
        evalue: Some("division by zero".to_string()),
        traceback: Some(vec!["Traceback".to_string(), "  1/0".to_string()]),
    };
    assert_eq!(
        reply_report(failed),
        Ok(vec!["Error: division by zero".to_string(), "Traceback".to_string(), "  1/0".to_string()])
    );
}

#[test]
fn malformed_replies_are_protocol_violations() {
    assert_eq!(reply_report(ShellReply::Other), Err(ExecutionError::ProtocolViolation));
    let no_value = ShellReply::Execute {
        status: ReplyStatus::Error,
        evalue: None,
        traceback: Some(Vec::new()),
    };
    assert_eq!(reply_report(no_value), Err(ExecutionError::ProtocolViolation));
    let no_traceback = ShellReply::Execute {
        status: ReplyStatus::Error,
        evalue: Some("x".to_string()),
        traceback: None,
    };
    assert_eq!(reply_report(no_traceback), Err(ExecutionError::ProtocolViolation));
}

#[test]
fn events_name_their_parent() {
    for message in [status(ExecutionState::Busy), stream("x"), input("c"), clear(), error("e", &[]), result(&[]), display(&[])] {
        match message {
            Incoming::Event(event) => assert_eq!(event.parent(), "r1"),
            Incoming::Unexpected => panic!("every message here is an event"),
        }
    }
}

fn status_of(parent: &str, state: ExecutionState) -> Incoming {
    Incoming::Event(KernelEvent::Status { parent: parent.to_string(), state })
}

#[test]
fn a_status_of_another_request_does_not_complete_the_submission() {
    let mut session = Session::new();
    session.begin_submission(Some("mine".to_string()));
    assert_eq!(session.observe(status_of("other", ExecutionState::Busy)), Ok(Reaction::Continue));
    assert_eq!(session.observe(status_of("other", ExecutionState::Idle)), Ok(Reaction::Continue));
    assert!(!session.is_complete());
    assert_eq!(session.execution_state(), ExecutionState::Idle);
    assert_eq!(session.observe(status_of("mine", ExecutionState::Busy)), Ok(Reaction::Continue));
    assert_eq!(session.observe(stream("x")), Ok(Reaction::Continue));
    assert_eq!(session.observe(status_of("mine", ExecutionState::Idle)), Ok(Reaction::Complete));
    assert!(session.is_complete());
    assert_eq!(session.buffered().len(), 1);
}

#[test]
fn without_a_known_request_any_idle_after_busy_completes() {
    let mut session = Session::new();
    session.begin_submission(None);
    assert_eq!(session.observe(status_of("other", ExecutionState::Busy)), Ok(Reaction::Continue));
    assert_eq!(session.observe(status_of("another", ExecutionState::Idle)), Ok(Reaction::Complete));
}

#[test]
fn draining_honours_the_request() {
    let mut session = Session::new();
    session.begin_submission(Some("r2".to_string()));
    let messages = vec![
        status_of("r1", ExecutionState::Busy),
        stream("theirs"),
        status_of("r1", ExecutionState::Idle),
        status_of("r2", ExecutionState::Busy),
        stream("ours"),
        status_of("r2", ExecutionState::Idle),
        stream("late"),
    ];
    let drained = session.drain(messages).unwrap();
    assert_eq!(drained.taken, 6);
    assert!(session.is_complete());
    assert_eq!(kinds(session.buffered()), vec!["stream", "stream"]);
}
