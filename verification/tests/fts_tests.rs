use hermes_os::fts::{mask_phrases, query_terms, restore_phrases, sanitize_fts5_query};

#[test]
fn fts_sanitize_matches_python_reference_cases() {
    assert_eq!(sanitize_fts5_query("hello AND"), "hello");
    assert_eq!(sanitize_fts5_query("a+b"), "a b");
    assert_eq!(sanitize_fts5_query("P2.2"), "\"P2.2\"");
    assert_eq!(sanitize_fts5_query("chat-send"), "\"chat-send\"");
    assert_eq!(sanitize_fts5_query("sp_new"), "\"sp_new\"");
}

#[test]
fn phrases_in_quotes_stay_as_they_are() {
    assert_eq!(sanitize_fts5_query("\"a+b AND (c)\""), "\"a+b AND (c)\"");
    assert_eq!(sanitize_fts5_query("\"\""), "\"\"");
    assert_eq!(sanitize_fts5_query("x \"a.b\" y.z \"c*\""), "x \"a.b\" \"y.z\" \"c*\"");
    assert_eq!(sanitize_fts5_query("lone \" quote"), "lone   quote");
}

#[test]
fn all_phrases_are_kept_and_all_that_is_special_stands_in_quotes() {
    let query = "or (\"a+b\") x.y^ \"\" *z \"c.d AND\" {\"e\" and \"";
    let r = sanitize_fts5_query(query);
    assert_eq!(r, "\"a+b\"  \"x.y\"  \"\" z \"c.d AND\"  \"e\"");
    for phrase in ["\"a+b\"", "\"\"", "\"c.d AND\"", "\"e\""] {
        assert!(r.contains(phrase));
    }
    assert_eq!(r.matches('"').count() % 2, 0);
    assert!(r.split('"').step_by(2).all(|gap| !gap.contains(['+', '{', '}', '(', ')', '^'])));
}

#[test]
fn a_text_between_phrases_can_be_taken_for_a_placeholder() {
    assert_eq!(sanitize_fts5_query("\"a\"Q0\"b\""), "\"a\"Q0\"b\"");
    assert_eq!(sanitize_fts5_query("\"a\"x\"b\"Q0\"c\""), "\"a\"x\0Q1\"a\"Q2\0");
}

#[test]
fn special_characters_and_asterisks_go() {
    assert_eq!(sanitize_fts5_query("{a}(b)^c"), "a  b  c");
    assert_eq!(sanitize_fts5_query("***"), "");
    assert_eq!(sanitize_fts5_query("foo***"), "foo*");
    assert_eq!(sanitize_fts5_query("*foo **bar baz*"), "foo bar baz*");
    assert_eq!(sanitize_fts5_query("a** \"b**\" c(**d"), "a* \"b**\" c d");
    assert_eq!(sanitize_fts5_query(""), "");
}

#[test]
fn operators_at_the_ends_go() {
    assert_eq!(sanitize_fts5_query("AND hello"), "hello");
    assert_eq!(sanitize_fts5_query("not  hello"), "hello");
    assert_eq!(sanitize_fts5_query("Or"), "");
    assert_eq!(sanitize_fts5_query("android"), "android");
    assert_eq!(sanitize_fts5_query("orange"), "orange");
    assert_eq!(sanitize_fts5_query("oré"), "oré");
    assert_eq!(sanitize_fts5_query("a OR b"), "a OR b");
    assert_eq!(sanitize_fts5_query("a b  Not  "), "a b");
    assert_eq!(sanitize_fts5_query("a AND OR"), "a AND");
    assert_eq!(sanitize_fts5_query("land"), "land");
}

#[test]
fn joined_terms_are_quoted_as_a_whole() {
    assert_eq!(sanitize_fts5_query("a.b.c d"), "\"a.b.c\" d");
    assert_eq!(sanitize_fts5_query("é-à"), "\"é-à\"");
    assert_eq!(sanitize_fts5_query("a..b"), "a..b");
    assert_eq!(sanitize_fts5_query("-a"), "-a");
}

#[test]
fn the_steps_work_on_given_phrases() {
    let ps = vec!["\"x\"".to_string(), "\"y\"".to_string()];
    assert_eq!(mask_phrases("a \"x\" b \"y\"", &ps), "a \0Q0\0 b \0Q1\0");
    assert_eq!(mask_phrases("a \"x\" b", &ps), "a \0Q0\0 b");
    assert_eq!(query_terms(" +a \"x\" *b", &ps), "a \0Q0\0 b");
    assert_eq!(restore_phrases(" \0Q1\0 and \0Q0\0 ", &ps), "\"y\" and \"x\"");
    assert_eq!(restore_phrases("plain", &Vec::new()), "plain");
}
