use echo_operator::document::{Document, Field, Value};

fn doc(fields: &[(&str, i64)]) -> Document {
    let mut d = Document::new();
    for (name, n) in fields {
        d.set(name, Value::Number(*n));
    }
    d
}

#[test]
fn merge_patch_changes_only_the_named_field() {
    let mut status = doc(&[("a", 1), ("b", 2)]);
    status.merge(&doc(&[("b", 3)]));
    assert_eq!(status.get("a"), Some(Value::Number(1)));
    assert_eq!(status.get("b"), Some(Value::Number(3)));
    assert_eq!(status.entries().len(), 2);
    assert_eq!(status, doc(&[("a", 1), ("b", 3)]));
}

#[test]
fn merge_patch_adds_a_field_that_was_missing() {
    let mut status = doc(&[("a", 1)]);
    status.merge(&doc(&[("c", 7)]));
    assert_eq!(status.get("a"), Some(Value::Number(1)));
    assert_eq!(status.get("c"), Some(Value::Number(7)));
    assert_eq!(status.get("b"), None);
}

#[test]
fn merge_of_an_empty_patch_changes_nothing() {
    let mut status = doc(&[("a", 1), ("b", 2)]);
    status.merge(&Document::new());
    assert_eq!(status, doc(&[("a", 1), ("b", 2)]));
}

#[test]
fn merge_into_an_empty_document_gives_the_patch() {
    let mut status = Document::new();
    status.merge(&doc(&[("a", 1), ("b", 2)]));
    assert_eq!(status, doc(&[("a", 1), ("b", 2)]));
}

#[test]
fn merging_twice_is_merging_once() {
    let mut once = doc(&[("a", 1), ("b", 2)]);
    once.merge(&doc(&[("b", 3), ("c", 4)]));
    let mut twice = doc(&[("a", 1), ("b", 2)]);
    twice.merge(&doc(&[("b", 3), ("c", 4)]));
    twice.merge(&doc(&[("b", 3), ("c", 4)]));
    assert_eq!(once, twice);
}

#[test]
fn merge_may_change_the_type_of_a_field() {
    let mut status = doc(&[("a", 1)]);
    let mut patch = Document::new();
    patch.set("a", Value::Text("one".to_string()));
    status.merge(&patch);
    assert_eq!(status.get("a"), Some(Value::Text("one".to_string())));
}

#[test]
fn set_replaces_in_place_and_keeps_one_entry() {
    let mut d = doc(&[("a", 1), ("b", 2)]);
    d.set("a", Value::Bool(true));
    assert_eq!(d.get("a"), Some(Value::Bool(true)));
    assert_eq!(
        d.entries(),
        vec![
            Field { name: "a".to_string(), value: Value::Bool(true) },
            Field { name: "b".to_string(), value: Value::Number(2) },
        ]
    );
}

#[test]
fn empty_document_has_no_field() {
    let d = Document::new();
    assert_eq!(d.get("a"), None);
    assert_eq!(d.get(""), None);
    assert!(d.entries().is_empty());
}

#[test]
fn value_duplicates_are_equal() {
    for v in [Value::Bool(false), Value::Number(-4), Value::Text("x".to_string())] {
        assert_eq!(v.duplicate(), v);
    }
}
