use synthia::pty::{
    command_line, close_event_name, injection_plan, output_event_name, plan_spawn, reader_step,
    termination_plan, InjectStep, PtyError, PtyState, ReadOutcome, ReaderAction, TermSignal,
    TermStep,
};

#[test]
fn test_spawn_write_read_kill() {
    let mut state = PtyState::default();

    let (id, exists) = state.resolve_session_id(Some(String::from("S1")));
    assert_eq!(id, "S1");
    assert!(!exists);
    assert!(state.register(id, Some(1000)));

    let listed = state.list();
    assert_eq!(listed.len(), 1);
    assert_eq!(listed[0].session_id, "S1");
    assert!(listed[0].is_alive);

    assert!(state.check_session("S1").is_ok());
    assert_eq!(command_line("echo hello"), "echo hello\n");

    match reader_step("S1", ReadOutcome::Data(b"hello\r\n".to_vec())) {
        ReaderAction::Emit(raw, record) => {
            assert!(raw.contains("hello"));
            assert_eq!(record.session_id, "S1");
            assert_eq!(record.data, raw);
        }
        ReaderAction::Close => panic!("expected output, not close"),
    }

    let removed = state.remove("S1").unwrap();
    assert_eq!(removed.session_id, "S1");
    assert_eq!(removed.pid, Some(1000));
    assert!(state.list().is_empty());
}

#[test]
fn test_idempotent_spawn() {
    let mut state = PtyState::default();
    assert!(state.register(String::from("S2"), Some(4242)));

    let (id, exists) = state.resolve_session_id(Some(String::from("S2")));
    assert_eq!(id, "S2");
    assert!(exists);

    assert!(!state.register(String::from("S2"), Some(9999)));
    assert_eq!(state.sessions.len(), 1);
    assert_eq!(state.sessions[0].pid, Some(4242));
}

#[test]
fn test_inject_many() {
    let commands = vec![
        String::from("echo a"),
        String::from("echo b"),
        String::from("echo c"),
    ];
    let plan = injection_plan(&commands);
    assert_eq!(plan.len(), 5);

    let mut pause_total = 0u64;
    let mut writes: Vec<&str> = Vec::new();
    for step in &plan {
        match step {
            InjectStep::WriteLine(w) => writes.push(w.as_str()),
            InjectStep::PauseMs(p) => pause_total += p,
        }
    }
    assert_eq!(writes, vec!["echo a\n", "echo b\n", "echo c\n"]);
    assert_eq!(pause_total, 200);
    assert!(matches!(plan[0], InjectStep::WriteLine(_)));
    assert!(matches!(plan[1], InjectStep::PauseMs(100)));
    assert!(matches!(plan[4], InjectStep::WriteLine(_)));
}

#[test]
fn test_injection_plan_empty_and_single() {
    assert!(injection_plan(&Vec::new()).is_empty());
    let plan = injection_plan(&vec![String::from("ls")]);
    assert_eq!(plan.len(), 1);
    match &plan[0] {
        InjectStep::WriteLine(w) => assert_eq!(w, "ls\n"),
        InjectStep::PauseMs(_) => panic!("single command needs no pause"),
    }
}

#[test]
fn test_termination_plan_with_pid() {
    let plan = termination_plan(Some(777));
    assert_eq!(
        plan,
        vec![
            TermStep::SignalGroup(777, TermSignal::Hangup),
            TermStep::PauseMs(100),
            TermStep::SignalGroup(777, TermSignal::Kill),
            TermStep::Reap,
        ]
    );
}

#[test]
fn test_termination_plan_without_pid() {
    let plan = termination_plan(None);
    assert_eq!(plan, vec![TermStep::KillChild, TermStep::Reap]);
    assert_eq!(plan.last(), Some(&TermStep::Reap));
}

#[test]
fn test_not_found_reported() {
    let mut state = PtyState::default();
    let err = state.check_session("nope").unwrap_err();
    match err {
        PtyError::NotFound(id) => assert_eq!(id, "nope"),
    }
    let err = state.remove("gone").unwrap_err();
    assert_eq!(err.message(), "Session not found: gone");
    assert!(state.check_session("x").unwrap_err().message().starts_with("Session not found: "));
}

#[test]
fn test_resolve_generates_identifier() {
    let state = PtyState::default();
    let (id, exists) = state.resolve_session_id(None);
    assert_eq!(id.len(), 36);
    assert!(!exists);
}

#[test]
fn test_event_names() {
    assert_eq!(output_event_name("abc"), "pty-output-abc");
    assert_eq!(close_event_name("abc"), "pty-close-abc");
}

#[test]
fn test_command_line_appends_newline() {
    assert_eq!(command_line("ls -la"), "ls -la\n");
    assert_eq!(command_line(""), "\n");
}

#[test]
fn test_plan_spawn_defaults() {
    let launch = plan_spawn(None, None);
    assert_eq!(launch.shell, "/bin/bash");
    assert_eq!(launch.rows, 24);
    assert_eq!(launch.cols, 80);
    assert_eq!(launch.term_value, "xterm-256color");
    assert!(launch.cwd.is_none());

    let launch = plan_spawn(Some(String::from("/bin/zsh")), Some(String::from("/home/me")));
    assert_eq!(launch.shell, "/bin/zsh");
    assert_eq!(launch.cwd.as_deref(), Some("/home/me"));
}

#[test]
fn test_reader_step_close_paths() {
    assert!(matches!(reader_step("s", ReadOutcome::Eof), ReaderAction::Close));
    assert!(matches!(reader_step("s", ReadOutcome::Failed), ReaderAction::Close));
}

#[test]
fn test_reader_step_lossy_decoding() {
    match reader_step("s", ReadOutcome::Data(vec![0xff, 0xfe])) {
        ReaderAction::Emit(raw, record) => {
            assert_eq!(raw, "\u{FFFD}\u{FFFD}");
            assert_eq!(record.data, "\u{FFFD}\u{FFFD}");
        }
        ReaderAction::Close => panic!("data must be emitted"),
    }
}

#[test]
fn test_drain_empties_registry() {
    let mut state = PtyState::default();
    state.register(String::from("a"), Some(1));
    state.register(String::from("b"), None);
    let drained = state.drain();
    assert_eq!(drained.len(), 2);
    assert_eq!(drained[0].session_id, "a");
    assert_eq!(drained[1].session_id, "b");
    assert!(state.list().is_empty());
}
