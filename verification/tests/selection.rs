use jql::{get_selection, object_projection, InnerInstruction, Selector, Value};

fn text(s: &str) -> Value {
    Value::Text(s.to_string())
}

fn key(s: &str) -> Selector {
    Selector::Key(s.to_string())
}

fn doc() -> Value {
    Value::Object(vec![
        ("a".to_string(), Value::Num(1)),
        ("b".to_string(), Value::Num(2)),
    ])
}

#[test]
fn pipeline_threads_the_current_value() {
    let root = Value::Object(vec![(
        "a".to_string(),
        Value::Array(vec![text("x"), text("y")]),
    )]);
    let selectors = vec![key("a"), Selector::IndexSet(vec![1])];
    assert_eq!(
        Ok(vec![Value::Array(vec![text("x"), text("y")]), text("y")]),
        get_selection(&selectors, &root)
    );
}

#[test]
fn empty_query_yields_no_steps() {
    assert_eq!(Ok(vec![]), get_selection(&vec![], &doc()));
}

#[test]
fn missing_key_fails_on_the_root_step() {
    assert_eq!(
        Err(String::from(
            "Node \"nope\" not found on the parent element"
        )),
        get_selection(&vec![key("nope")], &doc())
    );
}

#[test]
fn missing_key_names_the_previous_selector() {
    let root = Value::Object(vec![("a".to_string(), doc())]);
    assert_eq!(
        Err(String::from(
            "Node \"nope\" not found on parent node \"a\""
        )),
        get_selection(&vec![key("a"), key("nope")], &root)
    );
}

#[test]
fn failing_step_short_circuits_later_steps() {
    // The second selector would fail in its own way on any value; it is
    // never evaluated, so only the first step's diagnostic surfaces.
    let selectors = vec![key("nope"), Selector::IndexSet(vec![99])];
    assert_eq!(
        Err(String::from(
            "Node \"nope\" not found on the parent element"
        )),
        get_selection(&selectors, &doc())
    );
}

#[test]
fn whole_array_selects_first_to_last() {
    let root = Value::Array(vec![text("a"), text("b")]);
    assert_eq!(
        Ok(vec![Value::Array(vec![text("a"), text("b")])]),
        get_selection(&vec![Selector::WholeArray], &root)
    );
}

#[test]
fn range_selector_in_a_pipeline() {
    let root = Value::Array(vec![text("a"), text("b"), text("c")]);
    assert_eq!(
        Ok(vec![Value::Array(vec![text("c"), text("b")])]),
        get_selection(&vec![Selector::Range(Some(2), Some(1))], &root)
    );
}

#[test]
fn rerunning_a_query_is_idempotent() {
    let root = Value::Object(vec![(
        "a".to_string(),
        Value::Array(vec![text("x"), text("y")]),
    )]);
    let selectors = vec![key("a"), Selector::Range(Some(1), Some(0))];
    let first = get_selection(&selectors, &root);
    let second = get_selection(&selectors, &root);
    assert_eq!(first, second);
    assert_eq!(
        Ok(vec![
            Value::Array(vec![text("x"), text("y")]),
            Value::Array(vec![text("y"), text("x")]),
        ]),
        first
    );
}

#[test]
fn projection_merges_key_and_index_set() {
    let instructions = vec![
        InnerInstruction::Key("a".to_string()),
        InnerInstruction::IndexSet(vec![0, 1]),
    ];
    assert_eq!(
        Ok(Value::Object(vec![
            ("a".to_string(), Value::Num(1)),
            ("0".to_string(), Value::Num(1)),
            ("1".to_string(), Value::Num(2)),
        ])),
        object_projection(&instructions, &doc(), 0, &vec![])
    );
}

#[test]
fn projection_pass_through_returns_the_object() {
    let instructions = vec![InnerInstruction::PassThroughArray];
    assert_eq!(Ok(doc()), object_projection(&instructions, &doc(), 0, &vec![]));
}

#[test]
fn projection_missing_key_fails() {
    let instructions = vec![InnerInstruction::Key("nope".to_string())];
    assert_eq!(
        Err(String::from(
            "Node \"nope\" not found on the parent element"
        )),
        object_projection(&instructions, &doc(), 0, &vec![])
    );
}

#[test]
fn projection_range_keys_by_position() {
    let instructions = vec![InnerInstruction::Range(Some(1), Some(0))];
    assert_eq!(
        Ok(Value::Object(vec![
            ("1".to_string(), Value::Num(2)),
            ("0".to_string(), Value::Num(1)),
        ])),
        object_projection(&instructions, &doc(), 0, &vec![])
    );
}

#[test]
fn projection_index_message_is_singular_for_one_property() {
    let one = Value::Object(vec![("a".to_string(), Value::Num(1))]);
    let instructions = vec![InnerInstruction::Range(None, Some(5))];
    assert_eq!(
        Err(String::from(
            "Range [0:5] is out of bound, object contains 1 property"
        )),
        object_projection(&instructions, &one, 0, &vec![])
    );
}

#[test]
fn projection_index_message_is_plural_for_two_properties() {
    let instructions = vec![InnerInstruction::Range(None, Some(5))];
    assert_eq!(
        Err(String::from(
            "Range [0:5] is out of bound, object contains 2 properties"
        )),
        object_projection(&instructions, &doc(), 0, &vec![])
    );
}

#[test]
fn projection_index_set_out_of_bound_uses_last_offender() {
    let instructions = vec![InnerInstruction::IndexSet(vec![7, 0, 9])];
    assert_eq!(
        Err(String::from(
            "Index [9] is out of bound, object contains 2 properties"
        )),
        object_projection(&instructions, &doc(), 0, &vec![])
    );
}

#[test]
fn projection_in_a_pipeline_becomes_the_current_value() {
    let root = Value::Object(vec![("inner".to_string(), doc())]);
    let selectors = vec![
        key("inner"),
        Selector::ObjectProjection(vec![InnerInstruction::Key("b".to_string())]),
    ];
    assert_eq!(
        Ok(vec![
            doc(),
            Value::Object(vec![("b".to_string(), Value::Num(2))]),
        ]),
        get_selection(&selectors, &root)
    );
}
