use hermes_os::env_vars::{
    delete_env_var, get_env_vars, load_dotenv_simple, mask_secret_display, reveal_env_var,
    set_env_var, strip_utf8_bom, EnvVars,
};
use hermes_os::value::{integer, text, Fields, Value};

fn value(file: &str, key: &str) -> Option<String> {
    load_dotenv_simple(file).get(key).cloned()
}

#[test]
fn assignments_are_read() {
    let file = "\u{feff}A=1\n# B=2\n  C = \"x y\" \nD='q'\nE=\nF=\"\nG\nA=3\r\nH=a=b\n";
    assert_eq!(value(file, "A"), Some("3".to_string()));
    assert_eq!(value(file, "B"), None);
    assert_eq!(value(file, "C"), Some("x y".to_string()));
    assert_eq!(value(file, "D"), Some("q".to_string()));
    assert_eq!(value(file, "E"), Some("".to_string()));
    assert_eq!(value(file, "F"), Some("\"".to_string()));
    assert_eq!(value(file, "G"), None);
    assert_eq!(value(file, "H"), Some("a=b".to_string()));
    assert_eq!(strip_utf8_bom("\u{feff}\u{feff}a"), "\u{feff}a");
}

#[test]
fn a_variable_that_is_set_is_read_back() {
    let file = "# note\nA=1\nB=2\nA = 9\n";
    let after = set_env_var(file, "A", " 'new value' ");
    assert_eq!(after, "# note\nB=2\nA= 'new value' \n");
    assert_eq!(value(&after, "A"), Some("new value".to_string()));
    assert_eq!(value(&after, "B"), Some("2".to_string()));
    assert_eq!(set_env_var("", "X", "1"), "X=1\n");
}

#[test]
fn a_value_may_end_in_line_feeds() {
    let after = set_env_var("A=1\nB=2\n", "A", "x\n \n");
    assert_eq!(after, "B=2\nA=x\n \n\n");
    assert_eq!(value(&after, "A"), Some("x".to_string()));
    assert_eq!(value(&after, "B"), Some("2".to_string()));
    let broken = set_env_var("", "A", "x\nB=3");
    assert_eq!(value(&broken, "A"), Some("x".to_string()));
    assert_eq!(value(&broken, "B"), Some("3".to_string()));
}

#[test]
fn the_empty_name_is_a_name() {
    let after = set_env_var("=1\nA=2\n", "", "3");
    assert_eq!(after, "A=2\n=3\n");
    assert_eq!(value(&after, ""), Some("3".to_string()));
}

#[test]
fn a_variable_that_is_deleted_is_gone() {
    let file = "A=1\nB=2\n #A=3\nA=4\n";
    let after = delete_env_var(file, " A ");
    assert_eq!(after, "B=2\n #A=3\n");
    assert_eq!(value(&after, "A"), None);
    assert_eq!(value(&after, "B"), Some("2".to_string()));
    assert_eq!(delete_env_var("A=1", "A"), "\n");
}

#[test]
fn the_mark_of_a_text_belongs_to_its_first_line_when_a_variable_is_deleted() {
    let file = "\u{feff}A=1\nB=2\n";
    let after = delete_env_var(file, "A");
    assert_eq!(after, "\u{feff}A=1\nB=2\n");
    assert_eq!(value(&after, "A"), Some("1".to_string()));
}

#[test]
fn secrets_are_masked() {
    assert_eq!(mask_secret_display(""), "");
    assert_eq!(mask_secret_display("short"), "***");
    assert_eq!(mask_secret_display("12345678901"), "***");
    assert_eq!(mask_secret_display("123456789012"), "1234...9012");
    assert_eq!(mask_secret_display("ééééabcdéééé"), "éééé...éééé");
}

#[test]
fn variables_are_listed_with_what_is_known_of_them() {
    let meta = Fields::new()
        .with("description", text("d"))
        .with("url", text("u"))
        .with("category", text("c"))
        .with("password", Value::Bool(true))
        .with("tools", Value::List(vec![text("t"), integer(1), text("v")]))
        .table();
    let vars = vec![(text("KEY"), meta), (text("NONE"), Value::Null)];
    let disk: EnvVars = load_dotenv_simple("KEY=abcdefghijklmnop\n");
    let listed = get_env_vars(&vars, &disk);
    let key = listed.member("KEY").unwrap();
    assert_eq!(key.member("is_set"), Some(&Value::Bool(true)));
    assert_eq!(key.member_text("redacted_value"), Some("abcd...mnop"));
    assert_eq!(key.member_text("description"), Some("d"));
    assert_eq!(key.member_text("url"), Some("u"));
    assert_eq!(key.member("is_password"), Some(&Value::Bool(true)));
    assert_eq!(key.member("tools"), Some(&Value::List(vec![text("t"), text("v")])));
    assert_eq!(key.member("advanced"), Some(&Value::Bool(false)));
    let none = listed.member("NONE").unwrap();
    assert_eq!(none.member("is_set"), Some(&Value::Bool(false)));
    assert_eq!(none.member("redacted_value"), Some(&Value::Null));
    assert_eq!(none.member("url"), Some(&Value::Null));
    let empty = get_env_vars(&vars, &load_dotenv_simple("KEY=\n"));
    assert_eq!(empty.member("KEY").unwrap().member("is_set"), Some(&Value::Bool(false)));
}

#[test]
fn raw_values_are_never_revealed() {
    assert_eq!(
        reveal_env_var("KEY"),
        Err("Het tonen van ruwe waarden voor 'KEY' is niet ingeschakeld in HermesOS desktop (veiligheid)."
            .to_string())
    );
}
