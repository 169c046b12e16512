use tunglang::Value;
use tunglang::builtins::std_abs;
use tunglang::builtins::std_append;
use tunglang::builtins::std_bool;
use tunglang::builtins::std_float;
use tunglang::builtins::std_index;
use tunglang::builtins::std_insert;
use tunglang::builtins::std_int;
use tunglang::builtins::std_len;
use tunglang::builtins::std_max;
use tunglang::builtins::std_min;
use tunglang::builtins::std_pop;
use tunglang::builtins::std_range;
use tunglang::builtins::std_round;
use tunglang::builtins::std_sort;
use tunglang::builtins::std_str;
use tunglang::builtins::std_sum;
use tunglang::builtins::Builtin;
use tunglang::builtins::StdLib;
use tunglang::value::values_equal;

fn s(text: &str) -> Value {
    Value::Str(text.to_string())
}

fn ints(ns: &[i64]) -> Value {
    Value::Array(ns.iter().map(|n| Value::Integer(*n)).collect())
}

#[test]
fn registry_lookup() {
    let lib = StdLib::new();
    assert!(matches!(lib.get("print"), Some(Builtin::Print)));
    assert!(matches!(lib.get("sort"), Some(Builtin::Sort)));
    assert!(lib.get("nope").is_none());
}

#[test]
fn abs_of_values() {
    assert!(matches!(std_abs(&Value::Integer(-4)), Value::Integer(4)));
    assert!(matches!(std_abs(&Value::Integer(4)), Value::Integer(4)));
    assert!(matches!(std_abs(&s("x")), Value::Undefined));
}

#[test]
fn len_of_values() {
    assert!(matches!(std_len(&s("abc")), Value::Integer(3)));
    assert!(matches!(std_len(&ints(&[1, 2])), Value::Integer(2)));
    let d = Value::Dict(vec![("a".to_string(), Value::Integer(1))]);
    assert!(matches!(std_len(&d), Value::Integer(1)));
    assert!(matches!(std_len(&Value::Integer(9)), Value::Undefined));
}

#[test]
fn range_builds_arrays() {
    let r = std_range(&vec![Value::Integer(3)]);
    assert!(values_equal(&r, &ints(&[0, 1, 2])));
    let r = std_range(&vec![Value::Integer(2), Value::Integer(5)]);
    assert!(values_equal(&r, &ints(&[2, 3, 4])));
    let r = std_range(&vec![s("x")]);
    assert!(values_equal(&r, &Value::Array(vec![])));
}

#[test]
fn int_cast() {
    assert!(matches!(std_int(&s("42")), Value::Integer(42)));
    assert!(matches!(std_int(&s("-7")), Value::Integer(-7)));
    assert!(matches!(std_int(&s("4.5")), Value::Undefined));
    assert!(matches!(std_int(&s("x")), Value::Undefined));
    assert!(matches!(std_int(&Value::Boolean(true)), Value::Integer(1)));
    assert!(matches!(std_int(&Value::Integer(3)), Value::Integer(3)));
}

#[test]
fn str_cast_renders() {
    assert!(values_equal(&std_str(&Value::Integer(-12)), &s("-12")));
    assert!(values_equal(&std_str(&s("x")), &s("x")));
    let arr = Value::Array(vec![Value::Integer(1), s("x")]);
    assert!(values_equal(&std_str(&arr), &s("[1, \"x\"]")));
    let d = Value::Dict(vec![
        ("a".to_string(), Value::Integer(1)),
        ("b".to_string(), s("y")),
    ]);
    assert!(values_equal(&std_str(&d), &s("{\"a\": 1, \"b\": \"y\"}")));
    assert!(values_equal(&std_str(&Value::Undefined), &s("undefined")));
}

#[test]
fn float_cast_has_no_float_values() {
    assert!(matches!(std_float(&Value::Integer(1)), Value::Undefined));
}

#[test]
fn bool_cast_is_truthiness() {
    assert!(matches!(std_bool(&Value::Integer(0)), Value::Boolean(false)));
    assert!(matches!(std_bool(&s("")), Value::Boolean(false)));
    assert!(matches!(std_bool(&s("x")), Value::Boolean(true)));
    assert!(matches!(std_bool(&Value::Undefined), Value::Boolean(false)));
}

#[test]
fn min_and_max() {
    let r = std_min(&vec![ints(&[3, 1, 2])]);
    assert!(matches!(r, Value::Integer(1)));
    let r = std_max(&vec![ints(&[3, 1, 2])]);
    assert!(matches!(r, Value::Integer(3)));
    let r = std_min(&vec![Value::Integer(5), Value::Integer(2)]);
    assert!(matches!(r, Value::Integer(2)));
    let r = std_max(&vec![s("a"), s("c"), s("b")]);
    assert!(values_equal(&r, &s("c")));
    assert!(matches!(std_min(&vec![]), Value::Undefined));
    assert!(matches!(std_min(&vec![Value::Array(vec![])]), Value::Undefined));
}

#[test]
fn sum_of_integers() {
    let r = std_sum(&vec![ints(&[1, 2, 3])]);
    assert!(matches!(r, Value::Integer(6)));
    assert!(matches!(std_sum(&vec![]), Value::Integer(0)));
    assert!(matches!(std_sum(&vec![Value::Array(vec![])]), Value::Integer(0)));
    let r = std_sum(&vec![Value::Array(vec![Value::Integer(1), s("x")])]);
    assert!(matches!(r, Value::Undefined));
}

#[test]
fn round_keeps_integers() {
    assert!(matches!(std_round(&vec![Value::Integer(4)]), Value::Integer(4)));
    assert!(matches!(std_round(&vec![s("x")]), Value::Undefined));
}

#[test]
fn append_returns_new_array() {
    let r = std_append(&vec![ints(&[1]), Value::Integer(2)]);
    assert!(values_equal(&r, &ints(&[1, 2])));
    assert!(matches!(std_append(&vec![ints(&[1])]), Value::Undefined));
}

#[test]
fn insert_clamps_indices() {
    let r = std_insert(&vec![ints(&[1, 3]), Value::Integer(1), Value::Integer(2)]);
    assert!(values_equal(&r, &ints(&[1, 2, 3])));
    let r = std_insert(&vec![ints(&[1, 2]), Value::Integer(-1), Value::Integer(9)]);
    assert!(values_equal(&r, &ints(&[1, 9, 2])));
    let r = std_insert(&vec![ints(&[1]), Value::Integer(99), Value::Integer(2)]);
    assert!(values_equal(&r, &ints(&[1, 2])));
}

#[test]
fn pop_returns_element() {
    let r = std_pop(&vec![ints(&[1, 2, 3])]);
    assert!(matches!(r, Value::Integer(3)));
    let r = std_pop(&vec![ints(&[1, 2, 3]), Value::Integer(0)]);
    assert!(matches!(r, Value::Integer(1)));
    let r = std_pop(&vec![ints(&[1, 2, 3]), Value::Integer(-2)]);
    assert!(matches!(r, Value::Integer(2)));
    let r = std_pop(&vec![ints(&[1]), Value::Integer(5)]);
    assert!(matches!(r, Value::Undefined));
    assert!(matches!(std_pop(&vec![Value::Array(vec![])]), Value::Undefined));
}

#[test]
fn index_finds_first_occurrence() {
    let arr = Value::Array(vec![Value::Integer(7), s("x"), Value::Integer(7)]);
    let r = std_index(&vec![arr, Value::Integer(7)]);
    assert!(matches!(r, Value::Integer(0)));
    let arr = ints(&[1, 2]);
    let r = std_index(&vec![arr, Value::Integer(9)]);
    assert!(matches!(r, Value::Integer(-1)));
    let r = std_index(&vec![s("hello"), s("ll")]);
    assert!(matches!(r, Value::Integer(2)));
    let r = std_index(&vec![s("hello"), s("zz")]);
    assert!(matches!(r, Value::Integer(-1)));
}

#[test]
fn sort_orders_comparable_values() {
    let r = std_sort(&vec![ints(&[3, 1, 2])]);
    assert!(values_equal(&r, &ints(&[1, 2, 3])));
    let r = std_sort(&vec![Value::Array(vec![s("b"), s("a")])]);
    assert!(values_equal(&r, &Value::Array(vec![s("a"), s("b")])));
    assert!(matches!(std_sort(&vec![Value::Integer(1)]), Value::Undefined));
}
