use path_rpc::json::{decimal_text, JsonValue};

fn object(members: Vec<(&str, JsonValue)>) -> JsonValue {
    JsonValue::Object(members.into_iter().map(|(k, v)| (k.to_string(), v)).collect())
}

#[test]
fn decimal_text_writes_plain_decimals() {
    assert_eq!(decimal_text(0), "0");
    assert_eq!(decimal_text(7), "7");
    assert_eq!(decimal_text(31), "31");
    assert_eq!(decimal_text(1000), "1000");
    assert_eq!(decimal_text(u64::MAX), "18446744073709551615");
}

#[test]
fn get_finds_object_members() {
    let v = object(vec![
        ("end", JsonValue::String("Boston".to_string())),
        ("start", JsonValue::Null),
    ]);
    assert!(v.is_object());
    match v.get("end") {
        Some(JsonValue::String(s)) => assert_eq!(s, "Boston"),
        other => panic!("unexpected {:?}", other),
    }
    assert!(matches!(v.get("start"), Some(JsonValue::Null)));
    assert!(v.get("middle").is_none());
}

#[test]
fn get_takes_the_first_of_repeated_members() {
    let v = object(vec![
        ("a", JsonValue::Bool(true)),
        ("a", JsonValue::Bool(false)),
    ]);
    assert!(matches!(v.get("a"), Some(JsonValue::Bool(true))));
}

#[test]
fn get_on_non_objects_finds_nothing() {
    let arr = JsonValue::Array(vec![JsonValue::String("start".to_string())]);
    assert!(!arr.is_object());
    assert!(arr.get("start").is_none());
    assert!(JsonValue::String("x".to_string()).get("x").is_none());
    assert!(JsonValue::Number("1".to_string()).get("1").is_none());
}

#[test]
fn as_text_reads_strings_only() {
    assert_eq!(JsonValue::String("hi".to_string()).as_text().map(|s| s.as_str()), Some("hi"));
    assert!(JsonValue::Number("3".to_string()).as_text().is_none());
    assert!(JsonValue::Null.as_text().is_none());
}
