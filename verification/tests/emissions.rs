use boon::emissions::{
    column_name, coordinate_name, generic_source_label, source_state_key, unique_paths,
    validate_value_shape, value_fits_shape,
};
use boon::runtime::{SourceEmission, SourceValue};
use boon::shape::Shape;

#[test]
fn tag_in_its_tag_set_fits() {
    let shape = Shape::tag_false_true();
    assert!(validate_value_shape(&SourceValue::Tag("True".to_string()), &shape, "p").is_ok());
}

#[test]
fn tag_outside_its_tag_set_is_refused_with_a_message() {
    let shape = Shape::tag_false_true();
    let err = validate_value_shape(&SourceValue::Tag("Maybe".to_string()), &shape, "store.sources.box.checked")
        .expect_err("Maybe is no boolean tag");
    assert_eq!(
        err.to_string(),
        "SOURCE `store.sources.box.checked` expected TagSet but received Tag(\"Maybe\")"
    );
}

#[test]
fn number_for_a_text_source_is_refused() {
    let err = validate_value_shape(&SourceValue::Number(-5), &Shape::Text, "x")
        .expect_err("a number is no text");
    assert_eq!(err.to_string(), "SOURCE `x` expected Text but received Number(-5)");
    assert_eq!(err.expected, "Text");
    assert_eq!(err.path, "x");
}

#[test]
fn text_debug_escapes_quotes() {
    let err = validate_value_shape(&SourceValue::Text("say \"hi\"".to_string()), &Shape::Number, "n")
        .expect_err("text is no number");
    assert_eq!(err.received, "Text(\"say \\\"hi\\\"\")");
}

#[test]
fn union_accepts_any_alternative() {
    let shape = Shape::Union(vec![Shape::Text, Shape::Number]);
    assert!(value_fits_shape(&SourceValue::Number(3), &shape));
    assert!(value_fits_shape(&SourceValue::Text("a".to_string()), &shape));
    assert!(!value_fits_shape(&SourceValue::EmptyRecord, &shape));
    let err = validate_value_shape(&SourceValue::EmptyRecord, &shape, "u").expect_err("no alternative");
    assert_eq!(err.to_string(), "SOURCE `u` expected Union but received EmptyRecord");
}

#[test]
fn empty_record_fits_only_the_empty_record() {
    assert!(value_fits_shape(&SourceValue::EmptyRecord, &Shape::EmptyRecord));
    assert!(!value_fits_shape(&SourceValue::EmptyRecord, &Shape::Text));
    assert!(!value_fits_shape(&SourceValue::Text(String::new()), &Shape::Unknown));
}

#[test]
fn state_key_appends_the_owner() {
    let owned = SourceEmission {
        path: "cells[*].sources.editor.text".to_string(),
        value: SourceValue::Text("1".to_string()),
        owner_id: Some("A1".to_string()),
        owner_generation: Some(0),
    };
    assert_eq!(source_state_key(&owned), "cells[*].sources.editor.text#A1");
    let plain = SourceEmission {
        path: "store.sources.input.text".to_string(),
        value: SourceValue::Text(String::new()),
        owner_id: None,
        owner_generation: None,
    };
    assert_eq!(source_state_key(&plain), "store.sources.input.text");
}

#[test]
fn unique_paths_keeps_first_occurrences_in_order() {
    let paths = vec!["a", "b", "a", "c", "b"].into_iter().map(String::from).collect();
    assert_eq!(unique_paths(paths), vec!["a".to_string(), "b".to_string(), "c".to_string()]);
    assert!(unique_paths(Vec::new()).is_empty());
}

#[test]
fn source_label_skips_leaf_words() {
    assert_eq!(
        generic_source_label("store.sources.increment_button.event.press"),
        "increment button"
    );
    assert_eq!(generic_source_label("store.sources.text"), "store");
    assert_eq!(generic_source_label("todo_list.new_todo.text"), "new todo");
    assert_eq!(generic_source_label("sources.event"), "sources.event");
    assert_eq!(generic_source_label("press"), "press");
    assert_eq!(generic_source_label("a_b"), "a b");
}

#[test]
fn column_and_coordinate_names() {
    assert_eq!(column_name(1), 'A');
    assert_eq!(column_name(0), 'A');
    assert_eq!(column_name(3), 'C');
    assert_eq!(column_name(26), 'Z');
    assert_eq!(coordinate_name(3, 2), "B3");
    assert_eq!(coordinate_name(1, 1), "A1");
    assert_eq!(coordinate_name(100, 26), "Z100");
}
