use highwater::document::{field_value, get, JsonNumber, JsonValue};

fn object(members: Vec<(&str, JsonValue)>) -> JsonValue {
    JsonValue::Object(
        members
            .into_iter()
            .map(|(name, value)| (name.to_owned(), value))
            .collect(),
    )
}

#[test]
fn dotted_paths_descend_through_objects() {
    let row = object(vec![
        ("a", object(vec![("b", JsonValue::Bool(true))])),
        ("", JsonValue::Null),
        ("n", JsonValue::Number(JsonNumber { float_bits: Some(0), integer_magnitude: Some(0) })),
    ]);
    assert!(matches!(field_value(&row, "a.b"), Some(JsonValue::Bool(true))));
    assert!(matches!(field_value(&row, "a"), Some(JsonValue::Object(_))));
    assert!(matches!(field_value(&row, ""), Some(JsonValue::Null)));
    assert!(field_value(&row, "a.c").is_none());
    assert!(field_value(&row, "a.b.c").is_none());
    assert!(field_value(&row, "n.x").is_none());
    assert!(matches!(get(&row, "n"), Some(JsonValue::Number(_))));
    assert!(get(&JsonValue::Array(vec![JsonValue::Null]), "0").is_none());
}
