use hermes_os::models::{
    assign_model, aux_task_slots, get_auxiliary_models, get_model_info, get_model_options,
    main_model_of, model_info_from_yaml_fallback, save_plugin_providers_yaml, set_model_assignment,
    CONTEXT_NOT_A_TABLE, MEMORY_NOT_A_TABLE,
};
use hermes_os::value::{integer, text, Fields, Number, Value};

fn request(scope: &str, provider: &str, model: &str, task: &str) -> Value {
    Fields::new()
        .with("scope", text(scope))
        .with("provider", text(provider))
        .with("model", text(model))
        .with("task", text(task))
        .table()
}

fn slot<'a>(listed: &'a Value, task: &str) -> &'a Value {
    listed
        .member("tasks")
        .unwrap()
        .as_list()
        .unwrap()
        .iter()
        .find(|t| t.member_text("task") == Some(task))
        .unwrap()
}

#[test]
fn the_main_model_is_assigned_and_read_back() {
    let cfg = Fields::new()
        .with("other", integer(1))
        .with(
            "model",
            Fields::new()
                .with("base_url", text("u"))
                .with("context_length", integer(5))
                .with("extra", integer(2))
                .table(),
        )
        .table();
    let out = set_model_assignment(&request(" MAIN ", " p ", "m", ""), Ok(cfg)).unwrap();
    assert_eq!(main_model_of(&out), ("p".to_string(), "m".to_string()));
    let m = out.member("model").unwrap();
    assert_eq!(m.member("base_url"), None);
    assert_eq!(m.member("context_length"), None);
    assert_eq!(m.member("extra"), Some(&integer(2)));
    assert_eq!(out.member("other"), Some(&integer(1)));
}

#[test]
fn the_request_may_stand_in_a_body() {
    let payload = Fields::new().with("body", request("main", "p", "m", "")).table();
    let out = set_model_assignment(&payload, Ok(Fields::new().table())).unwrap();
    assert_eq!(main_model_of(&out), ("p".to_string(), "m".to_string()));
}

#[test]
fn auxiliary_models_are_assigned_and_read_back() {
    let one = set_model_assignment(&request("auxiliary", "p", "m", "Vision"), Ok(Fields::new().table()))
        .unwrap();
    let listed = get_auxiliary_models(&one);
    assert_eq!(slot(&listed, "vision").member_text("provider"), Some("p"));
    assert_eq!(slot(&listed, "vision").member_text("model"), Some("m"));
    assert_eq!(slot(&listed, "mcp").member_text("provider"), Some("auto"));
    let all = set_model_assignment(&request("auxiliary", "q", "", ""), Ok(one)).unwrap();
    let listed = get_auxiliary_models(&all);
    for task in aux_task_slots() {
        assert_eq!(slot(&listed, &task).member_text("provider"), Some("q"));
        assert_eq!(slot(&listed, &task).member_text("model"), Some(""));
    }
    let reset = set_model_assignment(&request("auxiliary", "", "", "__reset__"), Ok(all)).unwrap();
    let listed = get_auxiliary_models(&reset);
    for task in aux_task_slots() {
        assert_eq!(slot(&listed, &task).member_text("provider"), Some("auto"));
    }
    assert_eq!(aux_task_slots().len(), 9);
}

#[test]
fn requests_that_cannot_be_carried_out_are_refused() {
    let none = || Ok(Fields::new().table());
    let e = |r: Result<Value, String>| r.unwrap_err();
    assert_eq!(
        e(set_model_assignment(&request("other", "p", "m", ""), none())),
        "scope must be 'main' or 'auxiliary'"
    );
    assert_eq!(
        e(set_model_assignment(&request("other", "p", "m", ""), Err("io".to_string()))),
        "scope must be 'main' or 'auxiliary'"
    );
    assert_eq!(e(set_model_assignment(&request("main", "p", "m", ""), Err("io".to_string()))), "io");
    assert_eq!(
        e(set_model_assignment(&request("main", "p", "m", ""), Ok(text("x")))),
        "config root must be a mapping"
    );
    assert_eq!(
        e(set_model_assignment(&request("main", "p", "", ""), none())),
        "provider and model required for main"
    );
    assert_eq!(
        e(set_model_assignment(&request("auxiliary", " ", "m", "vision"), none())),
        "provider required for auxiliary"
    );
    assert_eq!(
        e(assign_model("auxiliary", "p", "m", "nope", none())),
        "unknown auxiliary task: nope"
    );
}

#[test]
fn the_main_model_is_a_text_or_a_table() {
    let cfg = Fields::new().with("model", text("a/b")).table();
    assert_eq!(main_model_of(&cfg), (String::new(), "a/b".to_string()));
    let cfg = Fields::new()
        .with("model", Fields::new().with("name", text("n")).with("provider", text("p")).table())
        .table();
    assert_eq!(main_model_of(&cfg), ("p".to_string(), "n".to_string()));
    let cfg = Fields::new()
        .with("model", Fields::new().with("default", integer(1)).with("name", text("n")).table())
        .table();
    assert_eq!(main_model_of(&cfg), (String::new(), String::new()));
    assert_eq!(main_model_of(&Value::Null), (String::new(), String::new()));
    let options = get_model_options(&cfg);
    assert_eq!(options.member("providers"), Some(&Value::List(Vec::new())));
    assert_eq!(options.member_text("model"), Some(""));
}

#[test]
fn the_configuration_stands_in_for_the_helper() {
    let cfg = Fields::new()
        .with(
            "model",
            Fields::new()
                .with("default", text("d"))
                .with("provider", text("p"))
                .with("context_length", integer(4096))
                .table(),
        )
        .table();
    let info = model_info_from_yaml_fallback(&cfg);
    assert_eq!(info.member_text("model"), Some("d"));
    assert_eq!(info.member("auto_context_length"), Some(&integer(0)));
    assert_eq!(info.member("config_context_length"), Some(&integer(4096)));
    assert_eq!(info.member("effective_context_length"), Some(&integer(4096)));
    assert_eq!(info.member_text("resolution_source"), Some("yaml_fallback"));
    let negative = Fields::new()
        .with("model", Fields::new().with("context_length", integer(-1)).table())
        .table();
    assert_eq!(
        model_info_from_yaml_fallback(&negative).member("config_context_length"),
        Some(&integer(0))
    );
    // A length of 2^31 loses its upper bits and becomes negative.
    let large = Fields::new()
        .with("model", Fields::new().with("context_length", integer(1 << 31)).table())
        .table();
    let info = model_info_from_yaml_fallback(&large);
    assert_eq!(info.member("config_context_length"), Some(&integer(-(1 << 31))));
    assert_eq!(info.member("effective_context_length"), Some(&integer(0)));
    assert_eq!(get_model_info(Ok(cfg.copy()), Ok(integer(1))), Ok(integer(1)));
    assert_eq!(
        get_model_info(Ok(cfg.copy()), Err("x".to_string())),
        Ok(model_info_from_yaml_fallback(&cfg))
    );
    assert_eq!(get_model_info(Err("e".to_string()), Ok(integer(1))), Err("e".to_string()));
}

#[test]
fn providers_are_saved_and_read_back() {
    let cfg = || Fields::new().with("memory", Fields::new().with("x", integer(1)).table()).table();
    let out = save_plugin_providers_yaml(Some("m".to_string()), Some("c".to_string()), Ok(cfg()))
        .unwrap()
        .unwrap();
    assert_eq!(out.member("memory").unwrap().member_text("provider"), Some("m"));
    assert_eq!(out.member("memory").unwrap().member("x"), Some(&integer(1)));
    assert_eq!(out.member("context").unwrap().member_text("engine"), Some("c"));
    assert_eq!(save_plugin_providers_yaml(None, None, Err("e".to_string())), Ok(None));
    let out = save_plugin_providers_yaml(Some(String::new()), None, Ok(Value::Null)).unwrap().unwrap();
    assert_eq!(out.member("memory").unwrap().member_text("provider"), Some(""));
    assert_eq!(out.member("context"), None);
    let bad = Fields::new().with("memory", text("x")).with("context", integer(1)).table();
    assert_eq!(
        save_plugin_providers_yaml(Some("m".to_string()), None, Ok(bad.copy())),
        Err(MEMORY_NOT_A_TABLE.to_string())
    );
    assert_eq!(
        save_plugin_providers_yaml(None, Some("c".to_string()), Ok(bad)),
        Err(CONTEXT_NOT_A_TABLE.to_string())
    );
    assert_eq!(
        save_plugin_providers_yaml(None, Some("c".to_string()), Err("e".to_string())),
        Err("e".to_string())
    );
}

#[test]
fn tags_before_values_are_seen_through() {
    let tagged = |v: Value| Value::Tagged("!t".to_string(), Box::new(v));
    assert_eq!(tagged(text("a")).as_text(), Some("a"));
    assert_eq!(tagged(tagged(integer(3))).as_i64(), Some(3));
    assert_eq!(tagged(Fields::new().with("k", Value::Bool(true)).table()).flag_or("k", false), true);
    assert_eq!(Value::Number(Number::PosInt(u64::MAX)).as_i64(), None);
    assert_eq!(integer(-1).as_u64(), None);
    // The text of the main model is taken only where it stands without a tag.
    let cfg = Fields::new().with("model", tagged(text("a"))).table();
    assert_eq!(main_model_of(&cfg), (String::new(), String::new()));
}
