use hermes_os::ipc::{
    create_cron_job, delete_cron_job, get_cron_jobs, helper_payload, missing_helper, output_text,
    pause_cron_job, python_attempts, read_reply, resume_cron_job, trigger_cron_job, HelperCall,
    IpcEvent, CRON_HELPER,
};
use hermes_os::value::{integer, text, Fields, Value};

#[test]
fn interpreters_are_tried_in_turn() {
    let programs = |named, windows| -> Vec<String> {
        python_attempts("s.py", named, windows).into_iter().map(|a| a.program).collect()
    };
    assert_eq!(programs(None, false), vec!["python", "python3"]);
    assert_eq!(programs(Some(" py3 "), true), vec!["py3", "python", "py", "python3"]);
    assert_eq!(programs(Some("  "), false), vec!["python", "python3"]);
    let windows = python_attempts("s.py", None, true);
    assert_eq!(windows[0].args, vec!["-u", "s.py"]);
    assert_eq!(windows[1].args, vec!["-3", "-u", "s.py"]);
}

#[test]
fn the_home_goes_into_the_payload() {
    let payload = || Fields::new().with("op", text("list")).table();
    let sent = helper_payload(payload(), Some("/h")).unwrap();
    assert_eq!(sent.member_text("hermes_home"), Some("/h"));
    assert_eq!(sent.member_text("op"), Some("list"));
    assert_eq!(helper_payload(payload(), None), Ok(payload()));
    assert_eq!(
        helper_payload(integer(1), Some("/h")),
        Err("ipc payload moet een JSON-object zijn".to_string())
    );
    assert_eq!(
        missing_helper("/x.py"),
        "Python-helper ontbreekt (/x.py). Vereist hermes-agent checkout met HermesOS/scripts."
    );
}

#[test]
fn replies_are_read() {
    let ok = Fields::new().with("ok", Value::Bool(true)).with("data", integer(1)).table();
    assert_eq!(read_reply(&ok), Ok(integer(1)));
    let bare = Fields::new().with("ok", Value::Bool(true)).table();
    assert_eq!(read_reply(&bare), Ok(Value::Null));
    let bad = Fields::new().with("ok", Value::Bool(false)).with("error", text("no")).table();
    assert_eq!(read_reply(&bad), Err("no".to_string()));
    assert_eq!(read_reply(&Value::Null), Err("ipc mislukt".to_string()));
    let odd = Fields::new().with("ok", integer(1)).table();
    assert_eq!(read_reply(&odd), Err("ipc mislukt".to_string()));
    assert_eq!(output_text(b"  {\"a\":1}\r\n"), "{\"a\":1}");
    assert_eq!(output_text(b"\xff "), "\u{fffd}");
}

#[test]
fn the_first_interpreter_that_answers_decides() {
    let mut call = HelperCall::new("h.py", python_attempts("/h.py", None, false));
    assert_eq!(call.attempt().program, "python");
    assert_eq!(call.advance(IpcEvent::NotStarted("nope".to_string())), None);
    assert_eq!(call.attempt().program, "python3");
    let reply = Fields::new().with("ok", Value::Bool(true)).with("data", integer(3)).table();
    let ended = IpcEvent::Ended("{}".to_string(), String::new(), Ok(reply));
    assert_eq!(call.advance(ended), Some(Ok(integer(3))));
}

#[test]
fn the_last_complaint_is_told() {
    let mut call = HelperCall::new("h.py", python_attempts("/h.py", None, false));
    assert_eq!(call.advance(IpcEvent::NotAwaited("gone".to_string())), None);
    assert_eq!(
        call.advance(IpcEvent::NotStarted("nope".to_string())),
        Some(Err("python3: nope".to_string()))
    );
    let mut call = HelperCall::new("h.py", python_attempts("/h.py", None, false));
    assert_eq!(
        call.advance(IpcEvent::NotSent("pipe".to_string())),
        Some(Err("pipe".to_string()))
    );
    let mut call = HelperCall::new("h.py", python_attempts("/h.py", None, false));
    let ended = IpcEvent::Ended("out".to_string(), "err".to_string(), Err("eof".to_string()));
    assert_eq!(
        call.advance(ended),
        Some(Err("h.py: ongeldige JSON (eof). stderr=err stdout=out".to_string()))
    );
    let mut call = HelperCall::new("h.py", python_attempts("/h.py", None, false));
    assert_eq!(call.advance(IpcEvent::NotStarted("a".to_string())), None);
    assert_eq!(
        call.advance(IpcEvent::NotAwaited("b".to_string())),
        Some(Err("b".to_string()))
    );
}

#[test]
fn jobs_are_asked_for() {
    assert_eq!(CRON_HELPER, "cron_ipc_helper.py");
    assert_eq!(get_cron_jobs().member_text("op"), Some("list"));
    assert_eq!(get_cron_jobs().member("include_disabled"), Some(&Value::Bool(true)));
    let job = create_cron_job(
        &Fields::new().with("prompt", text(" p ")).with("name", text("")).table(),
    );
    assert_eq!(job.member_text("op"), Some("create"));
    assert_eq!(job.member_text("prompt"), Some(" p "));
    assert_eq!(job.member_text("schedule"), Some(""));
    assert_eq!(job.member("name"), Some(&Value::Null));
    assert_eq!(job.member_text("deliver"), Some("local"));
    let body = Fields::new().with("name", text("n")).with("deliver", text("d")).table();
    let job = create_cron_job(&Fields::new().with("body", body).table());
    assert_eq!(job.member_text("name"), Some("n"));
    assert_eq!(job.member_text("deliver"), Some("d"));
    for (request, op) in [
        (pause_cron_job(" j "), "pause"),
        (resume_cron_job(" j "), "resume"),
        (trigger_cron_job(" j "), "trigger"),
        (delete_cron_job(" j "), "delete"),
    ] {
        assert_eq!(request.member_text("op"), Some(op));
        assert_eq!(request.member_text("job_id"), Some("j"));
    }
}
