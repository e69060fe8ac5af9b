use hermes_os::value::{
    body_of, copy_subtable, find_key, integer, retable, table_cut, table_get, table_put,
    table_swap_cut, table_text_or, text, text_or_null, Fields, Value,
};

fn table() -> Vec<(Value, Value)> {
    vec![
        (text("a"), integer(1)),
        (integer(5), integer(2)),
        (text("b"), text("x")),
        (text("c"), integer(3)),
    ]
}

#[test]
fn what_is_put_is_found() {
    let mut t = table();
    table_put(&mut t, "b", integer(9));
    assert_eq!(table_get(&t, "b"), Some(&integer(9)));
    assert_eq!(find_key(&t, "b"), 2);
    table_put(&mut t, "d", integer(4));
    assert_eq!(find_key(&t, "d"), 4);
    assert_eq!(table_get(&t, "a"), Some(&integer(1)));
    assert_eq!(table_get(&t, "z"), None);
}

#[test]
fn what_is_cut_is_gone() {
    let mut t = table();
    assert_eq!(table_cut(&mut t, "a"), Some(integer(1)));
    assert_eq!(t[0].0, integer(5));
    assert_eq!(table_cut(&mut t, "a"), None);
    let mut t = table();
    table_swap_cut(&mut t, "a");
    assert_eq!(t[0].0, text("c"));
    assert_eq!(t.len(), 3);
    assert_eq!(table_get(&t, "a"), None);
    assert_eq!(table_get(&t, "b"), Some(&text("x")));
}

#[test]
fn parts_of_documents_are_read() {
    let t = table();
    assert_eq!(table_text_or(&t, "b", "o"), "x");
    assert_eq!(table_text_or(&t, "a", "o"), "o");
    assert!(copy_subtable(&t, "a").is_empty());
    let outer = vec![(text("t"), Value::Table(table()))];
    assert_eq!(copy_subtable(&outer, "t"), table());
    let v = Fields::new().with("body", integer(1)).table();
    assert_eq!(body_of(&v), &integer(1));
    assert_eq!(body_of(&integer(2)), &integer(2));
    assert_eq!(text_or_null(None), Value::Null);
    assert_eq!(text_or_null(Some("s".to_string())), text("s"));
    let tagged = Value::Tagged("!t".to_string(), Box::new(Value::Null));
    assert_eq!(
        retable(tagged, table()),
        Value::Tagged("!t".to_string(), Box::new(Value::Table(table())))
    );
    assert_eq!(Value::List(vec![v.copy()]).copy(), Value::List(vec![v]));
}
