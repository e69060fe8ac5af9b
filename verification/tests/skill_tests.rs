use hermes_os::skills::{
    get_skills, get_skills_fallback_scan, skill_description, skills_disabled_set, toggle_skill,
    toggle_skill_via_yaml, SkillDir,
};
use hermes_os::value::{integer, text, Fields, Value};

fn config(disabled: Vec<Value>) -> Value {
    Fields::new()
        .with("other", integer(1))
        .with(
            "skills",
            Fields::new().with("x", integer(2)).with("disabled", Value::List(disabled)).table(),
        )
        .table()
}

#[test]
fn switched_off_skills_are_in_order_and_each_once() {
    let cfg = config(vec![text("b"), integer(1), text("a"), text("b")]);
    assert_eq!(skills_disabled_set(&cfg), vec!["a", "b"]);
    assert!(skills_disabled_set(&Value::Null).is_empty());
    assert!(skills_disabled_set(&Fields::new().with("skills", integer(1)).table()).is_empty());
}

#[test]
fn a_skill_that_is_switched_is_read_back() {
    let cfg = config(vec![text("c"), text("a")]);
    let off = toggle_skill_via_yaml("b", false, Ok(cfg.copy())).unwrap();
    assert_eq!(skills_disabled_set(&off), vec!["a", "b", "c"]);
    assert_eq!(off.member("other"), Some(&integer(1)));
    assert_eq!(off.member("skills").unwrap().member("x"), Some(&integer(2)));
    assert_eq!(toggle_skill_via_yaml("b", false, Ok(off.copy())).unwrap(), off);
    let on = toggle_skill_via_yaml("a", true, Ok(off)).unwrap();
    assert_eq!(toggle_skill_via_yaml("a", true, Ok(on.copy())).unwrap(), on);
    assert_eq!(skills_disabled_set(&on), vec!["b", "c"]);
    let same = toggle_skill_via_yaml("c", false, Ok(cfg)).unwrap();
    assert_eq!(skills_disabled_set(&same), vec!["a", "c"]);
    let fresh = toggle_skill_via_yaml("z", false, Ok(Value::Null)).unwrap();
    assert_eq!(skills_disabled_set(&fresh), vec!["z"]);
}

#[test]
fn tags_of_the_list_stay() {
    let tagged = Value::Tagged("!t".to_string(), Box::new(Value::List(vec![text("b")])));
    let cfg = Fields::new().with("skills", Fields::new().with("disabled", tagged).table()).table();
    let out = toggle_skill_via_yaml("a", false, Ok(cfg)).unwrap();
    assert_eq!(
        out.member("skills").unwrap().member("disabled"),
        Some(&Value::Tagged(
            "!t".to_string(),
            Box::new(Value::List(vec![text("a"), text("b")]))
        ))
    );
}

#[test]
fn configurations_of_another_shape_are_refused() {
    let bad = Fields::new().with("skills", text("x")).table();
    assert_eq!(
        toggle_skill_via_yaml("a", true, Ok(bad)),
        Err("skills moet een mapping zijn".to_string())
    );
    let bad = Fields::new()
        .with("skills", Fields::new().with("disabled", text("x")).table())
        .table();
    assert_eq!(
        toggle_skill_via_yaml("a", true, Ok(bad)),
        Err("skills.disabled moet een lijst zijn".to_string())
    );
    assert_eq!(
        toggle_skill_via_yaml("a", true, Err("io".to_string())),
        Err("io".to_string())
    );
}

#[test]
fn skills_are_described_by_their_first_line() {
    let describe = |s: &str| skill_description("#n", &Some(s.to_string()));
    assert_eq!(describe("## A skill \nmore"), "A skill");
    assert_eq!(describe("\nmore"), "");
    assert_eq!(describe(""), "n");
    assert_eq!(skill_description("#n", &None), "#n");
    let dirs = vec![
        SkillDir { name: "a".to_string(), readme: Some("# T".to_string()) },
        SkillDir { name: "b".to_string(), readme: None },
    ];
    let cfg = config(vec![text("b")]);
    let listed = get_skills_fallback_scan(Ok(&cfg), &dirs).unwrap();
    assert_eq!(listed[0].description, "T");
    assert!(listed[0].enabled);
    assert_eq!(listed[1].description, "b");
    assert!(!listed[1].enabled);
    assert_eq!(listed[1].category, "user");
    assert_eq!(get_skills_fallback_scan(Err("e".to_string()), &dirs), Err("e".to_string()));
}

#[test]
fn requests_for_skills() {
    assert_eq!(get_skills().member_text("op"), Some("list"));
    let r = toggle_skill(" s ", true).unwrap();
    assert_eq!(r.member_text("op"), Some("toggle"));
    assert_eq!(r.member_text("name"), Some("s"));
    assert_eq!(r.member("enabled"), Some(&Value::Bool(true)));
    assert_eq!(toggle_skill("  ", true), Err("skill naam leeg".to_string()));
}
