use tunglang::Value;
use tunglang::error::TungError;
use tunglang::operators::apply_operator;
use tunglang::value::values_equal;

fn s(text: &str) -> Value {
    Value::Str(text.to_string())
}

#[test]
fn integer_addition() {
    let r = apply_operator(Value::Integer(2), Value::Integer(3), "+").unwrap();
    assert!(matches!(r, Value::Integer(5)));
    let r = apply_operator(Value::Integer(-7), Value::Integer(3), "+").unwrap();
    assert!(matches!(r, Value::Integer(-4)));
}

#[test]
fn integer_addition_wraps() {
    let r = apply_operator(Value::Integer(i64::MAX), Value::Integer(1), "+").unwrap();
    assert!(matches!(r, Value::Integer(i64::MIN)));
}

#[test]
fn integer_subtraction_and_multiplication() {
    let r = apply_operator(Value::Integer(10), Value::Integer(4), "-").unwrap();
    assert!(matches!(r, Value::Integer(6)));
    let r = apply_operator(Value::Integer(6), Value::Integer(7), "*").unwrap();
    assert!(matches!(r, Value::Integer(42)));
}

#[test]
fn division_truncates_toward_zero() {
    let r = apply_operator(Value::Integer(7), Value::Integer(2), "/").unwrap();
    assert!(matches!(r, Value::Integer(3)));
    let r = apply_operator(Value::Integer(-7), Value::Integer(2), "/").unwrap();
    assert!(matches!(r, Value::Integer(-3)));
}

#[test]
fn floor_division_rounds_down() {
    let r = apply_operator(Value::Integer(7), Value::Integer(2), "//").unwrap();
    assert!(matches!(r, Value::Integer(3)));
    let r = apply_operator(Value::Integer(-7), Value::Integer(2), "//").unwrap();
    assert!(matches!(r, Value::Integer(-4)));
}

#[test]
fn remainder_is_native() {
    let r = apply_operator(Value::Integer(7), Value::Integer(3), "%").unwrap();
    assert!(matches!(r, Value::Integer(1)));
    let r = apply_operator(Value::Integer(-7), Value::Integer(3), "%").unwrap();
    assert!(matches!(r, Value::Integer(-1)));
}

#[test]
fn division_by_zero_fails() {
    let e = apply_operator(Value::Integer(5), Value::Integer(0), "/").unwrap_err();
    assert!(matches!(e, TungError::DivisionByZero));
    let e = apply_operator(Value::Integer(5), Value::Integer(0), "//").unwrap_err();
    assert!(matches!(e, TungError::DivisionByZero));
    let e = apply_operator(Value::Integer(5), Value::Integer(0), "%").unwrap_err();
    assert!(matches!(e, TungError::DivisionByZero));
}

#[test]
fn string_concatenation() {
    let r = apply_operator(s("foo"), s("bar"), "+").unwrap();
    assert!(values_equal(&r, &s("foobar")));
}

#[test]
fn string_concatenation_stringifies_other_operand() {
    let r = apply_operator(Value::Integer(1), s("a"), "+").unwrap();
    assert!(values_equal(&r, &s("1a")));
    let r = apply_operator(s("a"), Value::Integer(1), "+").unwrap();
    assert!(values_equal(&r, &s("a1")));
    let r = apply_operator(s("x"), Value::Undefined, "+").unwrap();
    assert!(values_equal(&r, &s("xundefined")));
    let r = apply_operator(s("n="), Value::Boolean(true), "+").unwrap();
    assert!(values_equal(&r, &s("n=true")));
}

#[test]
fn string_repetition() {
    let r = apply_operator(s("ab"), Value::Integer(3), "*").unwrap();
    assert!(values_equal(&r, &s("ababab")));
    let r = apply_operator(s("ab"), Value::Integer(0), "*").unwrap();
    assert!(values_equal(&r, &s("")));
    let r = apply_operator(Value::Integer(2), s("xy"), "*").unwrap();
    assert!(values_equal(&r, &s("xyxy")));
    let r = apply_operator(s("ab"), Value::Integer(-4), "*").unwrap();
    assert!(values_equal(&r, &s("")));
}

#[test]
fn array_concatenation_is_associative() {
    let a = Value::Array(vec![Value::Integer(1)]);
    let b = Value::Array(vec![Value::Integer(2)]);
    let c = Value::Array(vec![Value::Integer(3)]);
    let ab = apply_operator(a, b, "+").unwrap();
    let ab_c = apply_operator(ab, c, "+").unwrap();
    let a2 = Value::Array(vec![Value::Integer(1)]);
    let b2 = Value::Array(vec![Value::Integer(2)]);
    let c2 = Value::Array(vec![Value::Integer(3)]);
    let bc = apply_operator(b2, c2, "+").unwrap();
    let a_bc = apply_operator(a2, bc, "+").unwrap();
    assert!(values_equal(&ab_c, &a_bc));
    let expected = Value::Array(vec![Value::Integer(1), Value::Integer(2), Value::Integer(3)]);
    assert!(values_equal(&a_bc, &expected));
}

#[test]
fn array_element_insertion() {
    let a = Value::Array(vec![Value::Integer(1)]);
    let r = apply_operator(a, Value::Integer(2), "+").unwrap();
    let expected = Value::Array(vec![Value::Integer(1), Value::Integer(2)]);
    assert!(values_equal(&r, &expected));
    let a = Value::Array(vec![Value::Integer(2)]);
    let r = apply_operator(Value::Integer(1), a, "+").unwrap();
    let expected = Value::Array(vec![Value::Integer(1), Value::Integer(2)]);
    assert!(values_equal(&r, &expected));
}

#[test]
fn array_repetition() {
    let a = Value::Array(vec![Value::Integer(1), Value::Integer(2)]);
    let r = apply_operator(a, Value::Integer(2), "*").unwrap();
    let expected = Value::Array(vec![
        Value::Integer(1),
        Value::Integer(2),
        Value::Integer(1),
        Value::Integer(2),
    ]);
    assert!(values_equal(&r, &expected));
    let a = Value::Array(vec![Value::Integer(1)]);
    let r = apply_operator(a, Value::Integer(-1), "*").unwrap();
    assert!(values_equal(&r, &Value::Array(vec![])));
}

#[test]
fn comparisons() {
    let r = apply_operator(Value::Integer(2), Value::Integer(3), "<").unwrap();
    assert!(matches!(r, Value::Boolean(true)));
    let r = apply_operator(Value::Integer(2), Value::Integer(3), ">=").unwrap();
    assert!(matches!(r, Value::Boolean(false)));
    let r = apply_operator(s("abc"), s("abd"), "<").unwrap();
    assert!(matches!(r, Value::Boolean(true)));
    let r = apply_operator(s("ab"), s("ab"), "<=").unwrap();
    assert!(matches!(r, Value::Boolean(true)));
    let r = apply_operator(Value::Integer(2), Value::Integer(2), "==").unwrap();
    assert!(matches!(r, Value::Boolean(true)));
    let r = apply_operator(s("a"), s("b"), "!=").unwrap();
    assert!(matches!(r, Value::Boolean(true)));
}

#[test]
fn logical_connectives() {
    let r = apply_operator(Value::Boolean(true), Value::Boolean(false), "&&").unwrap();
    assert!(matches!(r, Value::Boolean(false)));
    let r = apply_operator(Value::Boolean(true), Value::Boolean(false), "||").unwrap();
    assert!(matches!(r, Value::Boolean(true)));
}

#[test]
fn unary_operators() {
    let r = apply_operator(Value::Boolean(true), Value::Undefined, "!").unwrap();
    assert!(matches!(r, Value::Boolean(false)));
    let r = apply_operator(Value::Integer(5), Value::Undefined, "-").unwrap();
    assert!(matches!(r, Value::Integer(-5)));
}

#[test]
fn membership() {
    let arr = Value::Array(vec![Value::Integer(1), Value::Integer(2), s("x")]);
    let r = apply_operator(s("x"), arr, "in").unwrap();
    assert!(matches!(r, Value::Boolean(true)));
    let arr = Value::Array(vec![Value::Integer(1)]);
    let r = apply_operator(Value::Integer(2), arr, "!in").unwrap();
    assert!(matches!(r, Value::Boolean(true)));
    let d = Value::Dict(vec![("k".to_string(), Value::Integer(1))]);
    let r = apply_operator(s("k"), d, "in").unwrap();
    assert!(matches!(r, Value::Boolean(true)));
    let d = Value::Dict(vec![("k".to_string(), Value::Integer(1))]);
    let r = apply_operator(s("z"), d, "in").unwrap();
    assert!(matches!(r, Value::Boolean(false)));
}

#[test]
fn unsupported_operation_names_types() {
    let e = apply_operator(Value::Boolean(true), Value::Integer(1), "+").unwrap_err();
    match e {
        TungError::UnsupportedOperation(op, l, r) => {
            assert_eq!(op, "+");
            assert_eq!(l, "Boolean");
            assert_eq!(r, "Integer");
        },
        other => panic!("unexpected error: {:?}", other),
    }
    let e = apply_operator(Value::Integer(1), Value::Integer(2), "**").unwrap_err();
    assert!(matches!(e, TungError::UnsupportedOperation(_, _, _)));
}
