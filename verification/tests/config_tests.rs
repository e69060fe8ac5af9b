use hermes_os::config::{
    answer_yaml, config_text, denormalize_config_from_web, get_config, get_config_raw, get_defaults,
    get_schema, json_integer_nonneg, normalize_config_for_web, save_config_raw,
    strip_internal_config_keys,
};
use hermes_os::value::{integer, text, Fields, Number, Value};

fn from_yaml(v: &serde_yaml::Value) -> Value {
    match v {
        serde_yaml::Value::Null => Value::Null,
        serde_yaml::Value::Bool(b) => Value::Bool(*b),
        serde_yaml::Value::Number(n) => {
            if let Some(u) = n.as_u64() {
                Value::Number(Number::PosInt(u))
            } else if let Some(i) = n.as_i64() {
                Value::Number(Number::NegInt(i))
            } else {
                Value::Number(Number::Float(n.as_f64().unwrap().to_bits()))
            }
        }
        serde_yaml::Value::String(s) => text(s),
        serde_yaml::Value::Sequence(v) => Value::List(v.iter().map(from_yaml).collect()),
        serde_yaml::Value::Mapping(m) => {
            Value::Table(m.iter().map(|(k, v)| (from_yaml(k), from_yaml(v))).collect())
        }
        serde_yaml::Value::Tagged(t) => {
            Value::Tagged(t.tag.to_string(), Box::new(from_yaml(&t.value)))
        }
    }
}

#[test]
fn normalize_config_for_web_flattens_model_dict_with_context_length() {
    let model = Fields::new()
        .with("default", text("anthropic/opus-4.6"))
        .with("provider", text("openrouter"))
        .with("context_length", integer(200000))
        .table();
    let cfg = Fields::new().with("model", model).table();
    let out = normalize_config_for_web(cfg);
    assert_eq!(out.member("model"), Some(&text("anthropic/opus-4.6")));
    assert_eq!(out.member("model_context_length"), Some(&integer(200000)));
}

#[test]
fn normalize_config_for_web_string_model_has_zero_context_length() {
    let cfg = Fields::new().with("model", text("anthropic/sonnet-4")).table();
    let out = normalize_config_for_web(cfg);
    assert_eq!(out.member("model"), Some(&text("anthropic/sonnet-4")));
    assert_eq!(out.member("model_context_length"), Some(&integer(0)));
}

#[test]
fn denormalize_preserves_provider_from_disk() {
    let cfg_yaml = r#"model:
  default: old/model
  provider: openrouter
"#;
    let disk = from_yaml(&serde_yaml::from_str::<serde_yaml::Value>(cfg_yaml).unwrap());
    let incoming = Fields::new()
        .with("model", text("new/model"))
        .with("model_context_length", integer(100000))
        .table();
    let out = denormalize_config_from_web(incoming, &disk);
    let m = out.member("model").expect("model");
    assert!(m.as_table().is_some());
    assert_eq!(m.member("default"), Some(&text("new/model")));
    assert_eq!(m.member("provider"), Some(&text("openrouter")));
    assert_eq!(m.member("context_length"), Some(&integer(100000)));
}

#[test]
fn normalize_config_for_web_noninteger_context_length_becomes_zero() {
    let model = Fields::new()
        .with("default", text("x/y"))
        .with("context_length", text("invalid"))
        .table();
    let cfg = Fields::new().with("model", model).table();
    let out = normalize_config_for_web(cfg);
    assert_eq!(out.member("model_context_length"), Some(&integer(0)));
}

#[test]
fn normalize_without_a_model_only_adds_the_length() {
    let cfg = Fields::new().with("a", integer(1)).table();
    let out = normalize_config_for_web(cfg);
    assert_eq!(out.member("model"), None);
    assert_eq!(out.member("model_context_length"), Some(&integer(0)));
    assert_eq!(normalize_config_for_web(text("x")), text("x"));
}

#[test]
fn normalize_takes_the_name_where_there_is_no_default() {
    let model = Fields::new().with("name", text("n/m")).with("context_length", integer(-5)).table();
    let out = normalize_config_for_web(Fields::new().with("model", model).table());
    assert_eq!(out.member("model"), Some(&text("n/m")));
    assert_eq!(out.member("model_context_length"), Some(&integer(0)));
}

#[test]
fn integers_below_zero_count_as_zero() {
    assert_eq!(json_integer_nonneg(&integer(7)), 7);
    assert_eq!(json_integer_nonneg(&integer(-7)), 0);
    assert_eq!(json_integer_nonneg(&Value::Number(Number::PosInt(u64::MAX))), i64::MAX);
    assert_eq!(json_integer_nonneg(&Value::Number(Number::Float(4.5f64.to_bits()))), 0);
    assert_eq!(json_integer_nonneg(&text("7")), 0);
}

#[test]
fn internal_keys_are_not_shown() {
    let raw = Fields::new()
        .with("_config_version", integer(3))
        .with("model", text("a/b"))
        .with("agent", integer(1))
        .table();
    let form = get_config(raw);
    assert_eq!(form.member("_config_version"), None);
    assert_eq!(form.member("agent"), Some(&integer(1)));
    assert_eq!(form.member("model_context_length"), Some(&integer(0)));
    let mut entries = vec![(text("_x"), integer(1)), (text("y"), integer(2)), (text(""), integer(3))];
    strip_internal_config_keys(&mut entries);
    assert_eq!(entries, vec![(text("y"), integer(2)), (text(""), integer(3))]);
}

#[test]
fn the_form_goes_back_to_the_same_configuration() {
    let disk = Fields::new()
        .with(
            "model",
            Fields::new()
                .with("default", text("a/b"))
                .with("provider", text("p"))
                .with("context_length", integer(10))
                .table(),
        )
        .with("agent", integer(1))
        .table();
    let back = denormalize_config_from_web(get_config(disk.copy()), &disk);
    assert_eq!(back.member("agent"), disk.member("agent"));
    let m = back.member("model").unwrap();
    assert_eq!(m.member("default"), Some(&text("a/b")));
    assert_eq!(m.member("provider"), Some(&text("p")));
    assert_eq!(m.member("context_length"), Some(&integer(10)));
    assert_eq!(back.member("model_context_length"), None);
}

#[test]
fn a_length_of_zero_takes_the_length_away() {
    let disk = Fields::new()
        .with(
            "model",
            Fields::new().with("default", text("a/b")).with("context_length", integer(10)).table(),
        )
        .table();
    let form = Fields::new()
        .with("model", text("c/d"))
        .with("model_context_length", integer(0))
        .with("_model_meta", integer(1))
        .table();
    let out = denormalize_config_from_web(form, &disk);
    assert_eq!(out.member("_model_meta"), None);
    assert_eq!(out.member("model").unwrap().member("context_length"), None);
    assert_eq!(out.member("model").unwrap().member("default"), Some(&text("c/d")));
}

#[test]
fn without_a_model_table_on_disk_a_length_makes_one() {
    let disk = Fields::new().table();
    let with = Fields::new()
        .with("model", text("c/d"))
        .with("model_context_length", integer(9))
        .table();
    let out = denormalize_config_from_web(with, &disk);
    assert_eq!(out.member("model").unwrap().member("default"), Some(&text("c/d")));
    assert_eq!(out.member("model").unwrap().member("context_length"), Some(&integer(9)));
    let without = Fields::new().with("model", text("c/d")).table();
    assert_eq!(denormalize_config_from_web(without, &disk).member("model"), Some(&text("c/d")));
    let empty = Fields::new().with("model", text("")).with("model_context_length", integer(9)).table();
    assert_eq!(denormalize_config_from_web(empty, &disk).member("model"), Some(&text("")));
}

#[test]
fn raw_yaml_is_checked_before_it_is_saved() {
    for yaml in ["  model: x # note\n\n", "   \n", ""] {
        let written = save_config_raw(yaml.to_string()).unwrap();
        assert_eq!(written, yaml);
        assert_eq!(get_config_raw(Some(Ok(written))), Ok(yaml.to_string()));
    }
    assert_eq!(get_config_raw(None), Ok(String::new()));
    assert_eq!(
        get_config_raw(Some(Err("io".to_string()))),
        Err("Could not read config: io".to_string())
    );
    let e = save_config_raw("a: [1, 2".to_string()).unwrap_err();
    assert!(e.starts_with("Invalid YAML: "));
    assert!(e.len() > "Invalid YAML: ".len());
    assert_eq!(answer_yaml(None), Ok(()));
    assert_eq!(answer_yaml(Some("bad".to_string())), Err("Invalid YAML: bad".to_string()));
}

#[test]
fn a_blank_configuration_file_holds_nothing() {
    assert_eq!(config_text(None), None);
    assert_eq!(config_text(Some(" \n\t")), None);
    assert_eq!(config_text(Some("  a: 1\n")), Some("a: 1"));
}

#[test]
fn metadata_has_defaults_and_a_schema() {
    let root = Fields::new().with("defaults", integer(1)).with("schema", integer(2)).table();
    assert_eq!(get_defaults(&root), Ok(integer(1)));
    assert_eq!(get_schema(&root), Ok(integer(2)));
    let none = Fields::new().table();
    assert_eq!(
        get_defaults(&none),
        Err("config-metadata.json ontbreekt 'defaults'".to_string())
    );
    assert_eq!(get_schema(&none), Err("config-metadata.json ontbreekt 'schema'".to_string()));
}
