use jql::{array_walker, Selector, Value};

fn text(s: &str) -> Value {
    Value::Text(s.to_string())
}

#[test]
fn valid_array_walker() {
    assert_eq!(
        Ok(text("bar")),
        array_walker(
            &vec![1],
            &Value::Array(vec![text("foo"), text("bar")]),
            1,
            &vec![Selector::Key("foo".to_string())],
        )
    );
    assert_eq!(
        Ok(Value::Array(vec![text("foo"), text("bar")])),
        array_walker(
            &vec![0, 1],
            &Value::Array(vec![text("foo"), text("bar")]),
            1,
            &vec![Selector::Key("foo".to_string())],
        )
    );
}

#[test]
fn invalid_array_walker() {
    assert_eq!(
        Err(String::from(
            "Index [1] is out of bound, root element has a length of 0"
        )),
        array_walker(
            &vec![1],
            &Value::Array(vec![]),
            1,
            &vec![Selector::Key("foo".to_string())],
        )
    );
    assert_eq!(
        Err(String::from(
            "Index [1] is out of bound, node \"foo\" has a length of 0"
        )),
        array_walker(
            &vec![1],
            &Value::Array(vec![]),
            1,
            &vec![
                Selector::Key("foo".to_string()),
                Selector::IndexSet(vec![0]),
            ],
        )
    );
    assert_eq!(
        Err(String::from("Root element is not an array")),
        array_walker(
            &vec![1],
            &text("foo"),
            1,
            &vec![Selector::Key("foo".to_string())],
        )
    );
    assert_eq!(
        Err(String::from("Node \"foo\" is not an array")),
        array_walker(
            &vec![1],
            &text("foo"),
            1,
            &vec![
                Selector::Key("foo".to_string()),
                Selector::IndexSet(vec![0]),
            ],
        )
    );
}

#[test]
fn duplicate_positions_are_preserved() {
    assert_eq!(
        Ok(Value::Array(vec![text("b"), text("b")])),
        array_walker(
            &vec![1, 1],
            &Value::Array(vec![text("a"), text("b")]),
            0,
            &vec![Selector::IndexSet(vec![1, 1])],
        )
    );
}

#[test]
fn single_position_is_unwrapped() {
    assert_eq!(
        Ok(text("a")),
        array_walker(
            &vec![0],
            &Value::Array(vec![text("a"), text("b")]),
            0,
            &vec![Selector::IndexSet(vec![0])],
        )
    );
}

#[test]
fn first_out_of_bound_position_decides() {
    assert_eq!(
        Err(String::from(
            "Index [12] is out of bound, root element has a length of 2"
        )),
        array_walker(
            &vec![0, 12, 44],
            &Value::Array(vec![text("a"), text("b")]),
            0,
            &vec![Selector::IndexSet(vec![0, 12, 44])],
        )
    );
}

#[test]
fn empty_position_set_yields_empty_array() {
    assert_eq!(
        Ok(Value::Array(vec![])),
        array_walker(
            &vec![],
            &Value::Array(vec![text("a")]),
            0,
            &vec![Selector::IndexSet(vec![])],
        )
    );
}
