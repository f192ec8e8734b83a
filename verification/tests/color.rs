use dotbim::{Color, Json, JsonNumber, SchemaError};

fn to_value(json: &Json) -> serde_json::Value {
    match json {
        Json::Null => serde_json::Value::Null,
        Json::Bool(b) => serde_json::Value::Bool(*b),
        Json::Number(JsonNumber::PosInt(u)) => serde_json::Value::from(*u),
        Json::Number(JsonNumber::NegInt(i)) => serde_json::Value::from(*i),
        Json::Number(JsonNumber::Float(x)) => serde_json::Value::from(f64::from_bits(x.to_bits())),
        Json::String(s) => serde_json::Value::String(s.clone()),
        Json::Array(items) => serde_json::Value::Array(items.iter().map(to_value).collect()),
        Json::Object(entries) => serde_json::Value::Object(
            entries.iter().map(|(k, v)| (k.clone(), to_value(v))).collect(),
        ),
    }
}

fn to_text(json: &Json) -> String {
    serde_json::to_string(&to_value(json)).unwrap()
}

#[test]
fn test_new_color() {
    let result = Color::new(11, 22, 33, 44);
    assert_eq!(result.r, 11);
    assert_eq!(result.g, 22);
    assert_eq!(result.b, 33);
    assert_eq!(result.a, 44);
}

#[test]
fn test_partialeq_color_true() {
    let a = Color::new(11, 22, 33, 44);
    let b = Color::new(11, 22, 33, 44);
    assert_eq!(a.eq(&b), true);
    assert_eq!(b.eq(&a), true);
}

#[test]
fn test_partialeq_color_first_different_false() {
    let a = Color::new(11, 22, 33, 44);
    let b = Color::new(10, 22, 33, 44);
    assert_eq!(a.eq(&b), false);
    assert_eq!(b.eq(&a), false);
}

#[test]
fn test_partialeq_color_second_different_false() {
    let a = Color::new(11, 22, 33, 44);
    let b = Color::new(11, 9, 33, 44);
    assert_eq!(a.eq(&b), false);
    assert_eq!(b.eq(&a), false);
}

#[test]
fn test_partialeq_color_third_different_false() {
    let a = Color::new(11, 22, 33, 44);
    let b = Color::new(11, 22, 5, 44);
    assert_eq!(a.eq(&b), false);
    assert_eq!(b.eq(&a), false);
}

#[test]
fn test_partialeq_color_fourth_different_false() {
    let a = Color::new(11, 22, 33, 44);
    let b = Color::new(11, 22, 33, 43);
    assert_eq!(a.eq(&b), false);
    assert_eq!(b.eq(&a), false);
}

#[test]
fn test_partialeq_color_all_different_false() {
    let a = Color::new(11, 22, 33, 44);
    let b = Color::new(10, 201, 35, 43);
    assert_eq!(a.eq(&b), false);
    assert_eq!(b.eq(&a), false);
}

#[test]
fn color_is_not_range_checked() {
    let c = Color::new(-1, 256, i32::MAX, i32::MIN);
    assert_eq!(c.r, -1);
    assert_eq!(c.g, 256);
    assert_eq!(c.b, i32::MAX);
    assert_eq!(c.a, i32::MIN);
    assert!(c == c);
}

#[test]
fn color_test_to_json() {
    let input = Color::new(11, 22, 33, 44);
    let input_serialized_string = to_text(&input.to_json());
    assert_eq!(input_serialized_string, "{\"r\":11,\"g\":22,\"b\":33,\"a\":44}");
}

#[test]
fn color_from_json_reads_what_to_json_wrote() {
    for color in [Color::new(11, 22, 33, 44), Color::new(-1, 0, i32::MAX, i32::MIN)] {
        let back = Color::from_json(&color.to_json());
        assert_eq!(back.ok(), Some(color));
        let parsed = Json::parse(&to_text(&color.to_json())).unwrap();
        assert_eq!(Color::from_json(&parsed).ok(), Some(color));
    }
}

#[test]
fn color_from_json_passes_over_other_keys_and_any_order() {
    let json = Json::parse("{\"a\":44,\"name\":\"teal\",\"b\":33,\"g\":22,\"r\":11}").unwrap();
    assert_eq!(Color::from_json(&json).ok(), Some(Color::new(11, 22, 33, 44)));
}

#[test]
fn color_from_json_reports_the_first_key_that_fails() {
    let missing = Json::parse("{\"r\":11,\"b\":33,\"a\":44}").unwrap();
    assert_eq!(Color::from_json(&missing).err(), Some(SchemaError::Missing));

    let text = Json::parse("{\"r\":11,\"g\":\"22\",\"b\":33,\"a\":44}").unwrap();
    assert_eq!(Color::from_json(&text).err(), Some(SchemaError::Mistyped));

    let fraction = Json::parse("{\"r\":11.0,\"g\":22,\"b\":33,\"a\":44}").unwrap();
    assert_eq!(Color::from_json(&fraction).err(), Some(SchemaError::Mistyped));

    let large = Json::parse("{\"r\":2147483648,\"g\":22,\"b\":33,\"a\":44}").unwrap();
    assert_eq!(Color::from_json(&large).err(), Some(SchemaError::OutOfRange));

    let small = Json::parse("{\"r\":-2147483649,\"g\":22,\"b\":33,\"a\":44}").unwrap();
    assert_eq!(Color::from_json(&small).err(), Some(SchemaError::OutOfRange));

    let edge = Json::parse("{\"r\":2147483647,\"g\":-2147483648,\"b\":0,\"a\":-0}").unwrap();
    assert_eq!(Color::from_json(&edge).err(), Some(SchemaError::Mistyped));

    let edge = Json::parse("{\"r\":2147483647,\"g\":-2147483648,\"b\":0,\"a\":-1}").unwrap();
    assert_eq!(Color::from_json(&edge).ok(), Some(Color::new(i32::MAX, i32::MIN, 0, -1)));

    // The order of the keys of the format decides, not that of the document.
    let two = Json::parse("{\"a\":\"x\",\"g\":22,\"b\":33}").unwrap();
    assert_eq!(Color::from_json(&two).err(), Some(SchemaError::Missing));

    let array = Json::parse("[11,22,33,44]").unwrap();
    assert_eq!(Color::from_json(&array).err(), Some(SchemaError::Mistyped));
    assert_eq!(Color::from_json(&Json::Null).err(), Some(SchemaError::Mistyped));
}
