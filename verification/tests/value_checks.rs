use tunglang::Value;
use tunglang::is_truthy;
use tunglang::render::render_value;
use tunglang::text::i64_to_string;
use tunglang::text::parse_i64;
use tunglang::text::str_eq;
use tunglang::value::values_equal;

fn s(text: &str) -> Value {
    Value::Str(text.to_string())
}

#[test]
fn scalar_equality() {
    assert!(values_equal(&Value::Integer(3), &Value::Integer(3)));
    assert!(!values_equal(&Value::Integer(3), &Value::Integer(4)));
    assert!(values_equal(&s("ab"), &s("ab")));
    assert!(!values_equal(&s("ab"), &s("ac")));
    assert!(values_equal(&Value::Undefined, &Value::Undefined));
    assert!(!values_equal(&Value::Integer(0), &Value::Boolean(false)));
}

#[test]
fn array_equality_is_ordered() {
    let a = Value::Array(vec![Value::Integer(1), Value::Integer(2)]);
    let b = Value::Array(vec![Value::Integer(1), Value::Integer(2)]);
    let c = Value::Array(vec![Value::Integer(2), Value::Integer(1)]);
    assert!(values_equal(&a, &b));
    assert!(!values_equal(&a, &c));
}

#[test]
fn dict_equality_ignores_entry_order() {
    let a = Value::Dict(vec![
        ("x".to_string(), Value::Integer(1)),
        ("y".to_string(), Value::Integer(2)),
    ]);
    let b = Value::Dict(vec![
        ("y".to_string(), Value::Integer(2)),
        ("x".to_string(), Value::Integer(1)),
    ]);
    let c = Value::Dict(vec![
        ("x".to_string(), Value::Integer(1)),
        ("y".to_string(), Value::Integer(9)),
    ]);
    let d = Value::Dict(vec![("x".to_string(), Value::Integer(1))]);
    assert!(values_equal(&a, &b));
    assert!(!values_equal(&a, &c));
    assert!(!values_equal(&a, &d));
    assert!(!values_equal(&d, &a));
}

#[test]
fn clone_preserves_values() {
    let v = Value::Dict(vec![(
        "k".to_string(),
        Value::Array(vec![Value::Integer(1), s("x")]),
    )]);
    let w = v.clone();
    assert!(values_equal(&v, &w));
}

#[test]
fn truthiness() {
    assert!(is_truthy(&Value::Integer(1)));
    assert!(!is_truthy(&Value::Integer(0)));
    assert!(is_truthy(&s("a")));
    assert!(!is_truthy(&s("")));
    assert!(is_truthy(&Value::Array(vec![Value::Integer(1)])));
    assert!(!is_truthy(&Value::Array(vec![])));
    assert!(!is_truthy(&Value::Undefined));
    assert!(is_truthy(&Value::Boolean(true)));
}

#[test]
fn rendering() {
    assert_eq!(render_value(&Value::Integer(0)), "0");
    assert_eq!(render_value(&Value::Integer(-120)), "-120");
    assert_eq!(render_value(&s("hi")), "hi");
    assert_eq!(render_value(&Value::Boolean(false)), "false");
    let arr = Value::Array(vec![Value::Integer(1), s("x"), Value::Array(vec![])]);
    assert_eq!(render_value(&arr), "[1, \"x\", []]");
    let d = Value::Dict(vec![
        ("a".to_string(), Value::Integer(1)),
        ("b".to_string(), s("y")),
    ]);
    assert_eq!(render_value(&d), "{\"a\": 1, \"b\": \"y\"}");
    assert_eq!(render_value(&Value::Undefined), "undefined");
}

#[test]
fn integer_text_round_trip() {
    assert_eq!(i64_to_string(i64::MIN), "-9223372036854775808");
    assert_eq!(i64_to_string(i64::MAX), "9223372036854775807");
    assert_eq!(parse_i64("9223372036854775807"), Some(i64::MAX));
    assert_eq!(parse_i64("-9223372036854775808"), Some(i64::MIN));
    assert_eq!(parse_i64("9223372036854775808"), None);
    assert_eq!(parse_i64("+17"), Some(17));
    assert_eq!(parse_i64(""), None);
    assert_eq!(parse_i64("-"), None);
    assert_eq!(parse_i64("1x"), None);
    assert_eq!(parse_i64("007"), Some(7));
}

#[test]
fn string_equality_helper() {
    assert!(str_eq("abc", "abc"));
    assert!(!str_eq("abc", "abd"));
    assert!(!str_eq("ab", "abc"));
    assert!(str_eq("", ""));
}
