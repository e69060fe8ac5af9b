use hermes_os::sidecar::{
    agent_line, agent_terminated, begin_graceful_shutdown, begin_spawn, choose_agent_start, clamp_line_bytes,
    error_line, graceful_shutdown_step, kill_sidecar_child, kill_step, on_stderr, on_stdout, on_terminated,
    packaged_sidecar_exe_name, packaged_sidecar_ready, push_stderr_tail, python_environment,
    python_start, request_sidecar_shutdown, resolve_sidecar_spawn, send_agent_query,
    should_prefer_packaged_sidecar, start_error, stderr_tail_snapshot, take_sidecar_child, KillStep,
    Reaction, ShutdownStep, SidecarFatalPayload, SidecarIoState, SidecarSpawnMode, SidecarState,
    MAX_SIDECAR_LINE_BYTES, MIN_PACKAGED_SIDECAR_BYTES, SHUTDOWN_CONTROL_JSON,
    STDERR_TAIL_MAX_LINES,
};
use hermes_os::value::{integer, text, Fields, Number, Value};

fn state(running: bool) -> SidecarState {
    SidecarState {
        running,
        protocol_version: 1,
        hermes_version: "old".to_string(),
        io: SidecarIoState::new(),
    }
}

#[test]
fn short_lines_are_taken_as_they_are() {
    assert_eq!(clamp_line_bytes("aé".as_bytes()), "aé");
    assert_eq!(clamp_line_bytes(b"a\xffb"), "a\u{fffd}b");
    assert_eq!(agent_line(b"a\xffb"), "a\u{fffd}b");
    assert_eq!(agent_line("é".as_bytes()), "é");
    let full = vec![b'x'; MAX_SIDECAR_LINE_BYTES];
    assert_eq!(clamp_line_bytes(&full).len(), MAX_SIDECAR_LINE_BYTES);
}

#[test]
fn long_lines_are_cut_between_characters() {
    let long = vec![b'x'; MAX_SIDECAR_LINE_BYTES + 1];
    let cut = clamp_line_bytes(&long);
    let head = MAX_SIDECAR_LINE_BYTES - 80;
    assert_eq!(cut, format!("{} … [truncated, 262145 bytes total]", "x".repeat(head)));
    assert!(cut.len() < MAX_SIDECAR_LINE_BYTES);
    let mut shifted = vec![b'x'; head - 1];
    shifted.extend("é".repeat(100).as_bytes());
    let cut = clamp_line_bytes(&shifted);
    assert_eq!(cut, format!("{} … [truncated, {} bytes total]", "x".repeat(head - 1), shifted.len()));
    assert!(cut.len() <= MAX_SIDECAR_LINE_BYTES);
}

#[test]
fn the_last_lines_of_the_error_output_are_kept() {
    let mut io = SidecarIoState::new();
    assert!(stderr_tail_snapshot(&io.stderr_tail).is_empty());
    for i in 0..45 {
        push_stderr_tail(&mut io.stderr_tail, format!("line {i}"));
    }
    let kept = stderr_tail_snapshot(&io.stderr_tail);
    assert_eq!(kept.len(), STDERR_TAIL_MAX_LINES);
    assert_eq!(kept[0], "line 5");
    assert_eq!(kept[39], "line 44");
}

#[test]
fn the_packaged_sidecar_must_be_a_real_one() {
    assert_eq!(packaged_sidecar_exe_name(true), "hermes_agent-x86_64-pc-windows-msvc.exe");
    assert_eq!(packaged_sidecar_exe_name(false), "hermes_agent-x86_64-unknown-linux-gnu");
    assert!(packaged_sidecar_ready(Some(MIN_PACKAGED_SIDECAR_BYTES)));
    assert!(!packaged_sidecar_ready(Some(MIN_PACKAGED_SIDECAR_BYTES - 1)));
    assert!(!packaged_sidecar_ready(None));
    let real = Some(MIN_PACKAGED_SIDECAR_BYTES);
    assert!(should_prefer_packaged_sidecar(false, real, None));
    assert!(!should_prefer_packaged_sidecar(true, real, None));
    for yes in ["1", "true", "TRUE", "yes", "YES"] {
        assert!(should_prefer_packaged_sidecar(true, real, Some(yes)));
    }
    assert!(!should_prefer_packaged_sidecar(true, real, Some("True")));
    assert!(!should_prefer_packaged_sidecar(true, Some(5), Some("1")));
}

#[test]
fn the_way_to_start_is_chosen() {
    let real = Some(MIN_PACKAGED_SIDECAR_BYTES);
    let choose = |debug, len, script| resolve_sidecar_spawn(debug, len, None, script, "e", "s");
    assert_eq!(choose(false, real, true), Ok(SidecarSpawnMode::Packaged));
    assert_eq!(choose(true, real, true), Ok(SidecarSpawnMode::PythonDev));
    assert_eq!(choose(true, real, false), Ok(SidecarSpawnMode::Packaged));
    assert_eq!(choose(false, None, true), Ok(SidecarSpawnMode::PythonDev));
    assert_eq!(
        choose(false, Some(1), false),
        Err("Sidecar binary missing or too small (e) and entry script missing (s)".to_string())
    );
    assert_eq!(choose_agent_start(Some(10_000_001), true, "s"), Ok(SidecarSpawnMode::Packaged));
    assert_eq!(choose_agent_start(Some(10_000_000), true, "s"), Ok(SidecarSpawnMode::PythonDev));
    assert_eq!(
        choose_agent_start(None, false, "\"s\""),
        Err("Sidecar binary not found and entry script missing: \"s\"".to_string())
    );
    let start = python_start("s.py", true, false);
    assert_eq!(start.args, vec!["-u", "s.py"]);
    assert!(start.env.is_empty());
    assert_eq!(python_start("s.py", false, true).args, vec!["s.py"]);
    assert_eq!(python_environment(true).len(), 2);
    assert_eq!(start_error(SidecarSpawnMode::Packaged, "x"), "Could not start sidecar binary: x");
    assert_eq!(start_error(SidecarSpawnMode::PythonDev, "x"), "Could not start sidecar (python): x");
}

#[test]
fn a_greeting_tells_the_versions() {
    let data = || {
        Fields::new()
            .with("protocol_version", Value::Number(Number::PosInt((1 << 32) + 7)))
            .with("hermes_version", text("1.2"))
            .table()
    };
    let hello = Fields::new().with("method", text("sidecar_hello")).with("params", data()).table();
    let mut s = state(true);
    let done = on_stdout(&mut s, "line".to_string(), Some(hello.copy()));
    assert_eq!(done, vec![Reaction::Ready(hello.copy()), Reaction::Data(hello)]);
    assert_eq!(s.protocol_version, 7);
    assert_eq!(s.hermes_version, "1.2");
    let legacy = Fields::new().with("type", text("sidecar_hello")).with("data", Fields::new().table()).table();
    let done = on_stdout(&mut s, "line".to_string(), Some(legacy));
    assert_eq!(done.len(), 2);
    assert_eq!(s.protocol_version, 0);
    assert_eq!(s.hermes_version, "1.2");
}

#[test]
fn messages_and_other_lines_are_passed_on() {
    let mut s = state(true);
    let msg = Fields::new().with("method", text("x")).with("params", integer(1)).table();
    assert_eq!(on_stdout(&mut s, "l".to_string(), Some(msg.copy())), vec![Reaction::Data(msg)]);
    let bare = Fields::new().with("method", text("sidecar_hello")).table();
    assert_eq!(on_stdout(&mut s, "l".to_string(), Some(bare.copy())), vec![Reaction::Data(bare)]);
    assert_eq!(on_stdout(&mut s, "l".to_string(), None), vec![Reaction::Raw("l".to_string())]);
    assert_eq!(s.protocol_version, 1);
    let both = vec![Reaction::Log("e".to_string()), Reaction::Error("e".to_string())];
    assert_eq!(on_stderr(&mut s, "e".to_string()), both);
    assert_eq!(stderr_tail_snapshot(&s.io.stderr_tail), vec!["e"]);
    assert_eq!(error_line("e".to_string()), both);
}

#[test]
fn an_end_that_nobody_asked_for_is_a_failure() {
    let mut s = state(true);
    on_stderr(&mut s, "boom".to_string());
    let done = on_terminated(&mut s, Some(-3), None);
    let told = Fields::new().with("code", integer(-3)).with("signal", Value::Null).table();
    assert_eq!(
        done,
        vec![
            Reaction::Terminated(told),
            Reaction::Fatal(SidecarFatalPayload {
                exit_code: Some(0),
                signal: None,
                last_stderr_lines: vec!["boom".to_string()],
                reason: "sidecar_exited_unexpectedly".to_string(),
            }),
        ]
    );
    assert!(!s.running);
    let mut s = state(true);
    request_sidecar_shutdown(&mut s.io);
    assert_eq!(on_terminated(&mut s, Some(1), Some(9)).len(), 1);
    let mut s = state(true);
    assert_eq!(agent_terminated(&mut s, None, Some(9)).len(), 1);
    assert!(!s.running);
}

#[test]
fn the_sidecar_is_started_once() {
    let mut s = state(false);
    s.io.shutdown_requested = true;
    assert!(begin_spawn(&mut s));
    assert!(!s.io.shutdown_requested);
    s.running = true;
    s.io.shutdown_requested = true;
    assert!(!begin_spawn(&mut s));
    assert!(s.io.shutdown_requested);
}

#[test]
fn the_sidecar_is_stopped_in_good_order() {
    let mut s = state(true);
    assert_eq!(begin_graceful_shutdown(&mut s), Some(format!("{SHUTDOWN_CONTROL_JSON}\n")));
    assert!(s.io.shutdown_requested);
    assert_eq!(begin_graceful_shutdown(&mut state(false)), None);
    assert_eq!(SHUTDOWN_CONTROL_JSON, r#"{"type":"control","command":"shutdown"}"#);
    assert_eq!(graceful_shutdown_step(true, 0), ShutdownStep::Wait(50));
    assert_eq!(graceful_shutdown_step(true, 4999), ShutdownStep::Wait(50));
    assert_eq!(graceful_shutdown_step(true, 5000), ShutdownStep::Kill);
    assert_eq!(graceful_shutdown_step(false, 5000), ShutdownStep::Done);
    assert!(kill_sidecar_child(&mut s));
    assert!(!s.running);
    assert!(!kill_sidecar_child(&mut s));
    let mut s = state(true);
    assert!(take_sidecar_child(&mut s));
    assert!(!take_sidecar_child(&mut s));
    assert!(!s.io.shutdown_requested);
}

#[test]
fn a_sidecar_that_stays_is_killed_once_more() {
    assert_eq!(kill_step(true, 0, 0), KillStep::Kill);
    assert_eq!(kill_step(false, 0, 0), KillStep::Done);
    assert_eq!(kill_step(true, 1, 0), KillStep::Wait(50));
    assert_eq!(kill_step(true, 1, 499), KillStep::Wait(50));
    assert_eq!(kill_step(false, 1, 499), KillStep::Done);
    assert_eq!(kill_step(true, 1, 500), KillStep::Kill);
    assert_eq!(kill_step(true, 2, 10000), KillStep::Done);
    let kills = |gone_at: u64| {
        let (mut tries, mut waited) = (0, 0);
        loop {
            match kill_step(waited < gone_at, tries, waited) {
                KillStep::Kill => tries += 1,
                KillStep::Wait(ms) => waited += ms,
                KillStep::Done => return tries,
            }
        }
    };
    assert_eq!(kills(0), 0);
    assert_eq!(kills(200), 1);
    assert_eq!(kills(500), 1);
    assert_eq!(kills(10000), 2);
}

#[test]
fn questions_get_an_identifier() {
    let q = send_agent_query(true, "hi", None, 1234).unwrap();
    assert_eq!(q.member_text("jsonrpc"), Some("2.0"));
    assert_eq!(q.member_text("method"), Some("chat"));
    assert_eq!(q.member("params").unwrap().member_text("query"), Some("hi"));
    assert_eq!(q.member_text("id"), Some("q_1234"));
    let q = send_agent_query(true, "hi", Some("x".to_string()), 0).unwrap();
    assert_eq!(q.member_text("id"), Some("x"));
    assert_eq!(
        send_agent_query(false, "hi", None, 0),
        Err("Sidecar agent is not started".to_string())
    );
}
