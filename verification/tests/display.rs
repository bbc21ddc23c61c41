use jql::{clone_value, InnerInstruction, Selector, Value};

#[test]
fn key_selector_name_is_quoted() {
    let sel = Selector::Key("foo".to_string());
    assert_eq!("Node \"foo\"", sel.as_str(true));
    assert_eq!("node \"foo\"", sel.as_str(false));
}

#[test]
fn index_set_selector_name_lists_positions() {
    let sel = Selector::IndexSet(vec![1, 2, 30]);
    assert_eq!("index [1,2,30]", sel.as_str(false));
    assert_eq!("Index [1,2,30]", sel.as_str(true));
}

#[test]
fn range_selector_name_shows_missing_bounds_as_empty() {
    assert_eq!("range [1:]", Selector::Range(Some(1), None).as_str(false));
    assert_eq!("Range [0:27]", Selector::Range(Some(0), Some(27)).as_str(true));
    assert_eq!("range [:]", Selector::Range(None, None).as_str(false));
}

#[test]
fn whole_array_and_projection_names() {
    assert_eq!("array", Selector::WholeArray.as_str(false));
    assert_eq!("Array", Selector::WholeArray.as_str(true));
    assert_eq!(
        "object projection",
        Selector::ObjectProjection(vec![InnerInstruction::PassThroughArray]).as_str(false)
    );
}

#[test]
fn clone_value_is_deep() {
    let v = Value::Object(vec![
        (
            "a".to_string(),
            Value::Array(vec![Value::Num(1), Value::Bool(true), Value::Null]),
        ),
        ("b".to_string(), Value::Text("x".to_string())),
    ]);
    assert_eq!(v, clone_value(&v));
}
