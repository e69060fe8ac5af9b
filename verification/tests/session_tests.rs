use hermes_os::analytics::float;
use hermes_os::sessions::{
    delete_session, get_session_messages, get_sessions, needs_substring_search, page_bounds,
    plan_search, search_sessions, session_to_delete, tool_calls_of, DeleteStep, SearchRow,
    SessionMessage, SessionRow,
};
use hermes_os::value::{integer, text, Value};

fn row(id: &str, ended_at: Option<f64>) -> SessionRow {
    SessionRow {
        id: id.to_string(),
        source: "cli".to_string(),
        model: Some("m".to_string()),
        title: None,
        started_at: 1.5f64.to_bits(),
        ended_at: ended_at.map(|f| f.to_bits()),
        message_count: 1,
        tool_call_count: 2,
        input_tokens: 3,
        output_tokens: 4,
        estimated_cost_usd: None,
        parent_session_id: Some("p".to_string()),
        last_active: 2.5f64.to_bits(),
        preview: Some("hi".to_string()),
    }
}

fn found(id: &str) -> SearchRow {
    SearchRow { id: id.to_string(), title: None, model: Some("m".to_string()), started_at: 2.0f64.to_bits() }
}

#[test]
fn sessions_come_in_pages() {
    assert_eq!(page_bounds(None, None), (20, 0));
    let page = get_sessions(Some(2), Some(4), Some((9, vec![row("a", None), row("b", Some(3.0))])));
    assert_eq!((page.total, page.limit, page.offset), (9, 2, 4));
    assert_eq!(page.sessions[0].id, "a");
    assert!(page.sessions[0].is_active);
    assert!(!page.sessions[1].is_active);
    assert_eq!(page.sessions[1].ended_at, Some(3.0f64.to_bits()));
    assert_eq!(page.sessions[0].preview, Some("hi".to_string()));
    assert_eq!(page.sessions[0].parent_session_id, Some("p".to_string()));
    assert_eq!(page.sessions[0].output_tokens, 4);
    let none = get_sessions(None, None, None);
    assert_eq!((none.total, none.limit, none.offset, none.sessions.len()), (0, 20, 0, 0));
}

#[test]
fn messages_keep_their_order() {
    let message = |role: &str| SessionMessage {
        role: role.to_string(),
        content: None,
        tool_calls: None,
        tool_name: None,
        tool_call_id: None,
        timestamp: None,
        reasoning: None,
    };
    let r = get_session_messages("s".to_string(), Some(vec![message("a"), message("b")]));
    assert_eq!(r.session_id, "s");
    assert_eq!(r.messages[1].role, "b");
    assert!(get_session_messages("s".to_string(), None).messages.is_empty());
    assert_eq!(tool_calls_of(Some(Ok(integer(1)))), Some(integer(1)));
    assert_eq!(tool_calls_of(Some(Err("bad".to_string()))), None);
    assert_eq!(tool_calls_of(None), None);
}

#[test]
fn searches_are_planned() {
    assert_eq!(plan_search("  "), None);
    let plan = plan_search(" hello AND ").unwrap();
    assert_eq!(plan.needle, "hello AND");
    assert_eq!(plan.fts, Some("hello".to_string()));
    let plan = plan_search("***").unwrap();
    assert_eq!(plan.needle, "***");
    assert_eq!(plan.fts, None);
}

#[test]
fn the_substring_search_stands_in_for_the_index() {
    let results = |v: &Value| v.member("results").unwrap().as_list().unwrap().len();
    let none = Vec::new();
    let two = vec![found("a"), found("b")];
    let one = vec![found("c")];
    assert!(needs_substring_search(&none));
    assert!(!needs_substring_search(&one));
    assert_eq!(results(&search_sessions(&none, &two)), 2);
    assert_eq!(results(&search_sessions(&one, &two)), 1);
    assert_eq!(results(&search_sessions(&none, &none)), 0);
    let r = search_sessions(&one, &none);
    let first = &r.member("results").unwrap().as_list().unwrap()[0];
    assert_eq!(first.member_text("id"), Some("c"));
    assert_eq!(first.member("title"), Some(&Value::Null));
    assert_eq!(first.member("model"), Some(&text("m")));
    assert_eq!(first.member("started_at"), Some(&float(2.0f64.to_bits())));
}

#[test]
fn sessions_are_deleted_after_all_messages() {
    assert_eq!(session_to_delete(" s "), Ok("s".to_string()));
    assert_eq!(session_to_delete(" "), Err("session id required".to_string()));
    let steps = delete_session(&vec!["child".to_string(), "parent".to_string()]);
    assert_eq!(
        steps,
        vec![
            DeleteStep::Messages("child".to_string()),
            DeleteStep::Messages("parent".to_string()),
            DeleteStep::Session("child".to_string()),
            DeleteStep::Session("parent".to_string()),
        ]
    );
    assert!(delete_session(&Vec::new()).is_empty());
}
