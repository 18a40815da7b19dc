use antigravity_sdk::json::JsonValue;

fn member<'a>(v: &'a JsonValue, key: &str) -> Option<&'a JsonValue> {
    v.get(key)
}

#[test]
fn insert_then_get_reads_back() {
    let mut v = JsonValue::Object(vec![
        ("a".to_string(), JsonValue::Bool(true)),
        ("b".to_string(), JsonValue::Null),
    ]);
    v.insert_member("b", JsonValue::String("x".to_string()));
    v.insert_member("c", JsonValue::Number("7".to_string()));
    assert!(matches!(member(&v, "a"), Some(JsonValue::Bool(true))));
    assert!(matches!(member(&v, "b"), Some(JsonValue::String(s)) if s == "x"));
    assert!(matches!(member(&v, "c"), Some(JsonValue::Number(n)) if n == "7"));
    match &v {
        JsonValue::Object(ms) => assert_eq!(ms.len(), 3),
        _ => panic!("object"),
    }
}

#[test]
fn accessors() {
    let v = JsonValue::Object(vec![
        ("n".to_string(), JsonValue::Number("42".to_string())),
        ("neg".to_string(), JsonValue::Number("-1".to_string())),
        ("frac".to_string(), JsonValue::Number("1.5".to_string())),
        ("big".to_string(), JsonValue::Number("18446744073709551616".to_string())),
        ("s".to_string(), JsonValue::String("t".to_string())),
        ("arr".to_string(), JsonValue::Array(vec![JsonValue::Null])),
    ]);
    assert_eq!(v.get("n").unwrap().as_u64(), Some(42));
    assert_eq!(v.get("neg").unwrap().as_u64(), None);
    assert_eq!(v.get("frac").unwrap().as_u64(), None);
    assert_eq!(v.get("big").unwrap().as_u64(), None);
    assert_eq!(v.get("s").unwrap().as_str().map(|s| s.as_str()), Some("t"));
    assert_eq!(v.get("arr").unwrap().as_array().unwrap().len(), 1);
    assert!(v.get("missing").is_none());
    assert!(JsonValue::Null.get("x").is_none());
    assert!(v.is_object());
    assert_eq!(JsonValue::Bool(false).as_bool(), Some(false));
}

#[test]
fn numbers_render_as_decimal() {
    assert!(matches!(JsonValue::from_u64(0), JsonValue::Number(n) if n == "0"));
    assert!(matches!(JsonValue::from_u64(1234567), JsonValue::Number(n) if n == "1234567"));
    assert!(matches!(JsonValue::from_u64(u64::MAX), JsonValue::Number(n) if n == "18446744073709551615"));
}

#[test]
fn deep_clone_copies() {
    let v = JsonValue::Object(vec![(
        "k".to_string(),
        JsonValue::Array(vec![JsonValue::String("x".to_string()), JsonValue::Bool(true)]),
    )]);
    let c = v.deep_clone();
    match (c.get("k"), v.get("k")) {
        (Some(JsonValue::Array(a)), Some(JsonValue::Array(b))) => assert_eq!(a.len(), b.len()),
        _ => panic!("arrays"),
    }
}
