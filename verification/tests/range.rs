use jql::{range_selector, Selector, Value};

fn text(s: &str) -> Value {
    Value::Text(s.to_string())
}

fn abc() -> Value {
    Value::Array(vec![text("a"), text("b"), text("c")])
}

#[test]
fn forward_range() {
    assert_eq!(
        Ok(Value::Array(vec![text("a"), text("b")])),
        range_selector(Some(0), Some(1), &abc(), None)
    );
}

#[test]
fn reversed_range_selects_backwards() {
    assert_eq!(
        Ok(Value::Array(vec![text("b"), text("a")])),
        range_selector(Some(1), Some(0), &abc(), None)
    );
}

#[test]
fn equal_bounds_yield_one_element() {
    assert_eq!(Ok(text("b")), range_selector(Some(1), Some(1), &abc(), None));
}

#[test]
fn missing_bounds_default_to_first_and_last() {
    assert_eq!(
        Ok(Value::Array(vec![text("a"), text("b"), text("c")])),
        range_selector(None, None, &abc(), None)
    );
    assert_eq!(
        Ok(Value::Array(vec![text("b"), text("c")])),
        range_selector(Some(1), None, &abc(), None)
    );
}

#[test]
fn out_of_bound_range_fails() {
    assert_eq!(
        Err(String::from(
            "Range [0:5] is out of bound, root element has a length of 3"
        )),
        range_selector(Some(0), Some(5), &abc(), None)
    );
}

#[test]
fn range_on_empty_array_fails() {
    assert_eq!(
        Err(String::from(
            "Range [0:0] is out of bound, root element has a length of 0"
        )),
        range_selector(None, None, &Value::Array(vec![]), None)
    );
}

#[test]
fn range_on_non_array_fails() {
    assert_eq!(
        Err(String::from("Root element is not an array")),
        range_selector(Some(0), Some(1), &text("foo"), None)
    );
    let previous = Selector::Key("foo".to_string());
    assert_eq!(
        Err(String::from("Node \"foo\" is not an array")),
        range_selector(Some(0), Some(1), &text("foo"), Some(&previous))
    );
}

#[test]
fn out_of_bound_range_names_previous_selector() {
    let previous = Selector::Key("foo".to_string());
    assert_eq!(
        Err(String::from(
            "Range [2:7] is out of bound, node \"foo\" has a length of 3"
        )),
        range_selector(Some(2), Some(7), &abc(), Some(&previous))
    );
}
