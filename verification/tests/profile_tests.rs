use hermes_os::profiles::{
    checked_profile_name, count_profile_skills, create_profile, delete_profile,
    get_profile_setup_command, get_profile_soul, get_profiles, is_valid_profile_id, judge_name,
    normalize_profile_name, read_profile_model_provider, rename_profile, skips_directory,
    update_profile_soul, validate_profile_name_normalized, DirEntry, ProfileDir,
};
use hermes_os::value::{text, Fields, Value};

fn file(name: &str) -> DirEntry {
    DirEntry { name: Some(name.to_string()), children: None }
}

fn dir(name: &str, children: Vec<DirEntry>) -> DirEntry {
    DirEntry { name: Some(name.to_string()), children: Some(children) }
}

fn profile(name: &str) -> ProfileDir {
    ProfileDir {
        name: name.to_string(),
        path: format!("/r/profiles/{name}"),
        config: None,
        has_env: false,
        skills: None,
    }
}

#[test]
fn names_are_normalized() {
    assert_eq!(normalize_profile_name("  Work  "), Ok("work".to_string()));
    assert_eq!(normalize_profile_name("DeFault"), Ok("default".to_string()));
    assert_eq!(normalize_profile_name("ÀB"), Ok("àb".to_string()));
    assert_eq!(normalize_profile_name("a-b_1"), Ok("a-b_1".to_string()));
    for name in [" DEFAULT\t", "\u{3000}A b ", "X_Y"] {
        let once = normalize_profile_name(name).unwrap();
        assert_eq!(once.trim(), once);
        assert_eq!(normalize_profile_name(&once), Ok(once));
    }
    assert_eq!(
        normalize_profile_name(" "),
        Err("profielnaam mag niet leeg zijn".to_string())
    );
}

#[test]
fn names_are_short_and_plain() {
    assert!(is_valid_profile_id("a"));
    assert!(is_valid_profile_id("0_-z"));
    assert!(is_valid_profile_id(&"a".repeat(64)));
    for bad in ["", "_a", "-a", "A", "aB", "a.b", "a/b", "é", "aé", "a b"] {
        assert!(!is_valid_profile_id(bad));
    }
    assert!(!is_valid_profile_id(&"a".repeat(65)));
}

#[test]
fn names_are_judged() {
    assert_eq!(validate_profile_name_normalized("default"), Ok(()));
    assert_eq!(validate_profile_name_normalized("work"), Ok(()));
    assert_eq!(
        validate_profile_name_normalized("a\"b"),
        Err("Ongeldige profielnaam \"a\\\"b\". Moet voldoen aan [a-z0-9][a-z0-9_-]{0,63}".to_string())
    );
    assert_eq!(
        validate_profile_name_normalized("root"),
        Err("Profielnaam \"root\" is gereserveerd.".to_string())
    );
    assert_eq!(
        judge_name("x y", "<x y>"),
        Err("Ongeldige profielnaam <x y>. Moet voldoen aan [a-z0-9][a-z0-9_-]{0,63}".to_string())
    );
    assert_eq!(judge_name("tmp", "t"), Err("Profielnaam t is gereserveerd.".to_string()));
    assert_eq!(checked_profile_name(" Work "), Ok("work".to_string()));
    assert!(checked_profile_name("../x").is_err());
}

#[test]
fn the_model_of_a_profile_is_read() {
    let model = |v: Value| read_profile_model_provider(Some(&Fields::new().with("model", v).table()));
    assert_eq!(model(text("m")), (Some("m".to_string()), None));
    let table = Fields::new()
        .with("name", text("n"))
        .with("model", text("mm"))
        .with("provider", text("p"))
        .table();
    assert_eq!(model(table), (Some("mm".to_string()), Some("p".to_string())));
    assert_eq!(model(Fields::new().with("name", text("n")).table()), (Some("n".to_string()), None));
    assert_eq!(
        model(Fields::new().with("default", Value::Null).with("name", text("n")).table()),
        (None, None)
    );
    assert_eq!(model(Value::Bool(true)), (None, None));
    assert_eq!(read_profile_model_provider(None), (None, None));
}

#[test]
fn skills_are_counted_at_any_depth() {
    let tree = vec![
        file("SKILL.md"),
        file("other.md"),
        dir("a", vec![file("SKILL.md"), dir("b", vec![file("SKILL.md")])]),
        dir(".git", vec![file("SKILL.md")]),
        dir(".hub", vec![file("SKILL.md")]),
        dir("SKILL.md", vec![]),
        DirEntry { name: None, children: Some(vec![file("SKILL.md")]) },
        DirEntry { name: None, children: None },
    ];
    assert_eq!(count_profile_skills(&Some(tree)), 4);
    assert_eq!(count_profile_skills(&None), 0);
    assert!(skips_directory(&Some(".git".to_string())));
    assert!(!skips_directory(&Some("git".to_string())));
    assert!(!skips_directory(&None));
}

#[test]
fn profiles_are_listed_in_the_order_of_their_names() {
    let mut root = profile("ignored");
    root.path = "/r".to_string();
    root.has_env = true;
    root.config = Some(Fields::new().with("model", text("m")).table());
    root.skills = Some(vec![file("SKILL.md")]);
    let dirs = vec![profile("b"), profile("Bad"), profile("a2"), profile("a"), profile("root")];
    let listed = get_profiles(Some(&root), &dirs).profiles;
    let names: Vec<&str> = listed.iter().map(|p| p.name.as_str()).collect();
    assert_eq!(names, vec!["default", "a", "a2", "b", "root"]);
    assert!(listed[0].is_default);
    assert_eq!(listed[0].path, "/r");
    assert_eq!(listed[0].model, Some("m".to_string()));
    assert_eq!(listed[0].skill_count, 1);
    assert!(listed[0].has_env);
    assert!(!listed[1].is_default);
    assert_eq!(listed[1].path, "/r/profiles/a");
    assert!(get_profiles(None, &Vec::new()).profiles.is_empty());
}

#[test]
fn requests_to_change_profiles_are_checked() {
    let payload = Fields::new().with("name", text(" New ")).table();
    let made = create_profile(&payload).unwrap();
    assert_eq!(made.member_text("op"), Some("create"));
    assert_eq!(made.member_text("name"), Some("new"));
    assert_eq!(made.member("clone_from_default"), Some(&Value::Bool(true)));
    assert_eq!(made.member("no_skills"), Some(&Value::Bool(false)));
    let body = Fields::new()
        .with("name", text("x"))
        .with("clone_from_default", Value::Bool(false))
        .with("no_skills", Value::Bool(true))
        .table();
    let made = create_profile(&Fields::new().with("body", body).table()).unwrap();
    assert_eq!(made.member("clone_from_default"), Some(&Value::Bool(false)));
    assert_eq!(made.member("no_skills"), Some(&Value::Bool(true)));
    assert_eq!(
        create_profile(&Fields::new().with("name", text("DEFAULT")).table()),
        Err("Kan geen profiel 'default' aanmaken.".to_string())
    );
    assert_eq!(
        create_profile(&Fields::new().table()),
        Err("profielnaam mag niet leeg zijn".to_string())
    );
    let renamed = rename_profile("A", "b").unwrap();
    assert_eq!(renamed.member_text("old_name"), Some("a"));
    assert_eq!(renamed.member_text("new_name"), Some("b"));
    assert_eq!(
        rename_profile("default", "b"),
        Err("Het standaardprofiel kan niet hernoemd worden.".to_string())
    );
    assert_eq!(rename_profile("a b", ""), Err("profielnaam mag niet leeg zijn".to_string()));
    assert!(rename_profile("a b", "tmp").unwrap_err().starts_with("Ongeldige profielnaam \"a b\""));
    assert_eq!(
        rename_profile("a", "tmp"),
        Err("Profielnaam \"tmp\" is gereserveerd.".to_string())
    );
    assert_eq!(delete_profile("X").unwrap().member_text("name"), Some("x"));
    assert_eq!(
        delete_profile("default"),
        Err("Het standaardprofiel (~/.hermes) kan niet worden verwijderd. Gebruik `hermes uninstall`."
            .to_string())
    );
}

#[test]
fn profiles_that_are_missing_are_told() {
    assert_eq!(get_profile_setup_command("default", false).unwrap().command, "hermes setup");
    assert_eq!(get_profile_setup_command("Work", true).unwrap().command, "work setup");
    assert_eq!(
        get_profile_setup_command("work", false),
        Err("Profiel 'work' bestaat niet.".to_string())
    );
    let soul = get_profile_soul("work", true, Some(Ok("s".to_string()))).unwrap();
    assert!(soul.exists);
    assert_eq!(soul.content, "s");
    let none = get_profile_soul("work", true, None).unwrap();
    assert!(!none.exists);
    assert_eq!(none.content, "");
    assert_eq!(get_profile_soul("work", true, Some(Err("io".to_string()))), Err("io".to_string()));
    assert_eq!(update_profile_soul("work", true), Ok(()));
    assert_eq!(update_profile_soul("work", false), Err("Profiel 'work' bestaat niet.".to_string()));
}
