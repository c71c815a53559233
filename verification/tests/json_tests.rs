use route_core::json_optimizer::{
    create_json_object, estimate_json_complexity, is_valid_json, minify_json, parse_json_from_str,
    serialize_owned_value, simd_to_serde_value,
};

#[test]
fn test_simd_json_parsing() {
    let json_str = r#"{"name": "test", "value": 42, "array": [1, 2, 3]}"#;
    let result = parse_json_from_str(json_str);
    assert!(result.is_ok());
}

#[test]
fn test_json_validation() {
    assert!(is_valid_json(br#"{"valid": true}"#));
    assert!(!is_valid_json(br#"{"invalid": }"#));
}

#[test]
fn test_complexity_estimation() {
    let simple_json = br#"{"a": 1}"#;
    let complex_json = br#"{"a": [1, 2, {"b": 3}], "c": {"d": 4}}"#;

    assert!(estimate_json_complexity(complex_json) > estimate_json_complexity(simple_json));
}

#[test]
fn test_serialization() {
    let value = create_json_object();
    let result = serialize_owned_value(&value);
    assert!(result.is_ok());
}

#[test]
fn test_complexity_exact() {
    assert_eq!(estimate_json_complexity(br#"{"a": 1}"#), 2);
    assert_eq!(estimate_json_complexity(br#"[1,2,3]"#), 4);
    assert_eq!(estimate_json_complexity(b"plain"), 0);
}

#[test]
fn test_minify() {
    let m = minify_json("{ \"a\" : 1 }").unwrap();
    assert_eq!(m, "{\"a\":1}");
    assert!(minify_json("{nope").is_err());
}

#[test]
fn test_simd_to_serde_roundtrip() {
    let v = parse_json_from_str(r#"{"k":"v"}"#).unwrap();
    let s = simd_to_serde_value(v);
    assert_eq!(s, serde_json::from_str::<serde_json::Value>(r#"{"k":"v"}"#).unwrap());
}
