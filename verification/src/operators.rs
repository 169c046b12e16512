//! The binary/unary operator algebra of the language: arithmetic on
//! integers (wrapping at the 64-bit boundary), string concatenation,
//! stringifying concatenation, string and array repetition, array
//! concatenation and element insertion, comparisons, logical connectives,
//! membership tests, and the unary negations. A unary operator is applied
//! by passing `Undefined` as the right operand.
//!
//! The whole algebra is pinned down by the spec function [`apply_op`];
//! the executable [`apply_operator`] is proved to realise it.

use vstd::arithmetic::div_mod::lemma_div_basics;
use vstd::arithmetic::div_mod::lemma_div_is_ordered_by_denominator;
use vstd::arithmetic::div_mod::lemma_fundamental_div_mod;
use vstd::arithmetic::div_mod::lemma_div_nonincreasing;
use vstd::arithmetic::div_mod::lemma_div_pos_is_pos;
use vstd::prelude::*;

use crate::error::ErrorModel;
use crate::error::TungError;
use crate::render::render;
use crate::render::render_value;
use crate::text::str_eq;
use crate::value::Value;
use crate::value::ValueModel;
use crate::value::entries_find;
use crate::value::lemma_seq_models;
use crate::value::lemma_seq_models_push;
use crate::value::seq_models;
use crate::value::val_eq;
use crate::value::values_equal;
use crate::value::values_wf;

verus! {

/// Wraps an integer no further than one 64-bit range away into the signed
/// 64-bit range.
pub open spec fn wrap64(x: int) -> int {
    if x > i64::MAX {
        x - 0x1_0000_0000_0000_0000
    } else if x < i64::MIN {
        x + 0x1_0000_0000_0000_0000
    } else {
        x
    }
}

/// Wraps an arbitrary integer into the signed 64-bit range.
pub open spec fn wrap64_wide(x: int) -> int {
    let m = x % 0x1_0000_0000_0000_0000;
    if m > i64::MAX {
        m - 0x1_0000_0000_0000_0000
    } else {
        m
    }
}

/// Truncating division (rounding toward zero), as native division does.
pub open spec fn div_trunc(x: int, y: int) -> int {
    if x == 0 {
        0
    } else if x > 0 && y > 0 {
        x / y
    } else if x < 0 && y < 0 {
        (x * -1) / (y * -1)
    } else if x < 0 {
        ((x * -1) / y) * -1
    } else {
        (x / (y * -1)) * -1
    }
}

/// Truncating remainder, as the native `%` computes it.
pub open spec fn rem_trunc(x: int, y: int) -> int {
    if x == 0 {
        0
    } else if x > 0 && y > 0 {
        x % y
    } else if x < 0 && y < 0 {
        ((x * -1) % (y * -1)) * -1
    } else if x < 0 {
        ((x * -1) % y) * -1
    } else {
        x % (y * -1)
    }
}

/// Floor division: truncating division, corrected downward when the
/// operands' signs differ and the division is inexact.
pub open spec fn floor_div(x: int, y: int) -> int {
    if rem_trunc(x, y) != 0 && ((x < 0) != (y < 0)) {
        div_trunc(x, y) - 1
    } else {
        div_trunc(x, y)
    }
}

/// Lexicographic order on character sequences, by code point.
pub open spec fn text_lt(a: Seq<char>, b: Seq<char>) -> bool
    decreases a.len(),
{
    if b.len() == 0 {
        false
    } else if a.len() == 0 {
        true
    } else if a[0] == b[0] {
        text_lt(a.drop_first(), b.drop_first())
    } else {
        (a[0] as u32) < (b[0] as u32)
    }
}

/// `s` repeated `n` times (empty for `n <= 0`).
pub open spec fn repeat_text(s: Seq<char>, n: int) -> Seq<char>
    decreases n,
{
    if n <= 0 {
        Seq::empty()
    } else {
        repeat_text(s, n - 1) + s
    }
}

/// `vs` repeated `n` times (empty for `n <= 0`).
pub open spec fn repeat_seq(vs: Seq<ValueModel>, n: int) -> Seq<ValueModel>
    decreases n,
{
    if n <= 0 {
        Seq::empty()
    } else {
        repeat_seq(vs, n - 1) + vs
    }
}

/// Membership of a value in an array, by structural equality.
pub open spec fn contains_val(x: ValueModel, vs: Seq<ValueModel>) -> bool {
    exists|i: int| 0 <= i < vs.len() && val_eq(x, #[trigger] vs[i])
}

/// Whether a dictionary carries an entry with key `k`.
pub open spec fn dict_has_key(k: Seq<char>, es: Seq<(Seq<char>, ValueModel)>) -> bool {
    exists|i: int| 0 <= i < es.len() && (#[trigger] es[i]).0 == k
}

/// The name of a value's runtime type, as reported in faults.
pub open spec fn type_text(v: ValueModel) -> Seq<char> {
    match v {
        ValueModel::Int(_) => "Integer"@,
        ValueModel::Text(_) => "String"@,
        ValueModel::Bool(_) => "Boolean"@,
        ValueModel::Arr(_) => "Array"@,
        ValueModel::Dict(_) => "Dict"@,
        ValueModel::Undef => "Undefined"@,
    }
}

/// The unsupported-operation fault for `op` on `a` and `b`.
pub open spec fn unsupported(a: ValueModel, b: ValueModel, op: Seq<char>) -> ErrorModel {
    ErrorModel::UnsupportedOperation(op, type_text(a), type_text(b))
}

/// The operator algebra on two integers.
pub open spec fn int_ops(x: int, y: int, op: Seq<char>) -> Result<ValueModel, ErrorModel> {
    if op == "+"@ {
        Ok(ValueModel::Int(wrap64(x + y)))
    } else if op == "-"@ {
        Ok(ValueModel::Int(wrap64(x - y)))
    } else if op == "*"@ {
        Ok(ValueModel::Int(wrap64_wide(x * y)))
    } else if op == "/"@ {
        if y == 0 {
            Err(ErrorModel::DivisionByZero)
        } else {
            Ok(ValueModel::Int(wrap64(div_trunc(x, y))))
        }
    } else if op == "//"@ {
        if y == 0 {
            Err(ErrorModel::DivisionByZero)
        } else {
            Ok(ValueModel::Int(wrap64(floor_div(x, y))))
        }
    } else if op == "%"@ {
        if y == 0 {
            Err(ErrorModel::DivisionByZero)
        } else {
            Ok(ValueModel::Int(rem_trunc(x, y)))
        }
    } else if op == "=="@ {
        Ok(ValueModel::Bool(x == y))
    } else if op == "!="@ {
        Ok(ValueModel::Bool(x != y))
    } else if op == "<"@ {
        Ok(ValueModel::Bool(x < y))
    } else if op == ">"@ {
        Ok(ValueModel::Bool(x > y))
    } else if op == "<="@ {
        Ok(ValueModel::Bool(x <= y))
    } else if op == ">="@ {
        Ok(ValueModel::Bool(x >= y))
    } else {
        Err(unsupported(ValueModel::Int(x), ValueModel::Int(y), op))
    }
}

/// The operator algebra on two strings.
pub open spec fn text_ops(s: Seq<char>, t: Seq<char>, op: Seq<char>) -> Result<
    ValueModel,
    ErrorModel,
> {
    if op == "+"@ {
        Ok(ValueModel::Text(s + t))
    } else if op == "=="@ {
        Ok(ValueModel::Bool(s == t))
    } else if op == "!="@ {
        Ok(ValueModel::Bool(s != t))
    } else if op == "<"@ {
        Ok(ValueModel::Bool(text_lt(s, t)))
    } else if op == ">"@ {
        Ok(ValueModel::Bool(text_lt(t, s)))
    } else if op == "<="@ {
        Ok(ValueModel::Bool(!text_lt(t, s)))
    } else if op == ">="@ {
        Ok(ValueModel::Bool(!text_lt(s, t)))
    } else {
        Err(unsupported(ValueModel::Text(s), ValueModel::Text(t), op))
    }
}

/// The operator algebra on every remaining pair of operand kinds.
pub open spec fn mixed_ops(a: ValueModel, b: ValueModel, op: Seq<char>) -> Result<
    ValueModel,
    ErrorModel,
> {
    if op == "+"@ {
        match (a, b) {
            (ValueModel::Text(s), _) => Ok(ValueModel::Text(s + render(b))),
            (_, ValueModel::Text(t)) => Ok(ValueModel::Text(render(a) + t)),
            (ValueModel::Arr(xs), ValueModel::Arr(ys)) => Ok(ValueModel::Arr(xs + ys)),
            (ValueModel::Arr(xs), _) => Ok(ValueModel::Arr(xs.push(b))),
            (_, ValueModel::Arr(ys)) => Ok(ValueModel::Arr(seq![a] + ys)),
            _ => Err(unsupported(a, b, op)),
        }
    } else if op == "*"@ {
        match (a, b) {
            (ValueModel::Text(s), ValueModel::Int(n)) => Ok(ValueModel::Text(repeat_text(s, n))),
            (ValueModel::Int(n), ValueModel::Text(s)) => Ok(ValueModel::Text(repeat_text(s, n))),
            (ValueModel::Arr(xs), ValueModel::Int(n)) => Ok(ValueModel::Arr(repeat_seq(xs, n))),
            (ValueModel::Int(n), ValueModel::Arr(xs)) => Ok(ValueModel::Arr(repeat_seq(xs, n))),
            _ => Err(unsupported(a, b, op)),
        }
    } else if op == "=="@ {
        match (a, b) {
            (ValueModel::Bool(x), ValueModel::Bool(y)) => Ok(ValueModel::Bool(x == y)),
            _ => Err(unsupported(a, b, op)),
        }
    } else if op == "!="@ {
        match (a, b) {
            (ValueModel::Bool(x), ValueModel::Bool(y)) => Ok(ValueModel::Bool(x != y)),
            _ => Err(unsupported(a, b, op)),
        }
    } else if op == "&&"@ {
        match (a, b) {
            (ValueModel::Bool(x), ValueModel::Bool(y)) => Ok(ValueModel::Bool(x && y)),
            _ => Err(unsupported(a, b, op)),
        }
    } else if op == "||"@ {
        match (a, b) {
            (ValueModel::Bool(x), ValueModel::Bool(y)) => Ok(ValueModel::Bool(x || y)),
            _ => Err(unsupported(a, b, op)),
        }
    } else if op == "!"@ {
        match (a, b) {
            (ValueModel::Bool(x), ValueModel::Undef) => Ok(ValueModel::Bool(!x)),
            _ => Err(unsupported(a, b, op)),
        }
    } else if op == "-"@ {
        match (a, b) {
            (ValueModel::Int(x), ValueModel::Undef) => Ok(ValueModel::Int(wrap64(-x))),
            _ => Err(unsupported(a, b, op)),
        }
    } else if op == "in"@ {
        match (a, b) {
            (_, ValueModel::Arr(ys)) => Ok(ValueModel::Bool(contains_val(a, ys))),
            (ValueModel::Text(s), ValueModel::Dict(es)) => Ok(
                ValueModel::Bool(dict_has_key(s, es)),
            ),
            _ => Err(unsupported(a, b, op)),
        }
    } else if op == "!in"@ {
        match (a, b) {
            (_, ValueModel::Arr(ys)) => Ok(ValueModel::Bool(!contains_val(a, ys))),
            (ValueModel::Text(s), ValueModel::Dict(es)) => Ok(
                ValueModel::Bool(!dict_has_key(s, es)),
            ),
            _ => Err(unsupported(a, b, op)),
        }
    } else {
        Err(unsupported(a, b, op))
    }
}

/// What applying `op` to `a` and `b` yields. Two integers and two strings
/// have their own algebras; every other pairing is handled by
/// [`mixed_ops`].
pub open spec fn apply_op(a: ValueModel, b: ValueModel, op: Seq<char>) -> Result<
    ValueModel,
    ErrorModel,
> {
    match (a, b) {
        (ValueModel::Int(x), ValueModel::Int(y)) => int_ops(x, y, op),
        (ValueModel::Text(s), ValueModel::Text(t)) => text_ops(s, t, op),
        _ => mixed_ops(a, b, op),
    }
}

/// An executable result realises a specified one when the payloads'
/// abstractions agree and a successful value is well-formed.
pub open spec fn result_models(
    r: Result<Value, TungError>,
    s: Result<ValueModel, ErrorModel>,
) -> bool {
    match (r, s) {
        (Ok(v), Ok(m)) => v.model() == m && v.wf(),
        (Err(e), Err(m)) => e.model() == m,
        _ => false,
    }
}

/// The runtime type name of a value, as used in fault reports.
pub fn kind_name(v: &Value) -> (r: String)
    ensures
        r@ == type_text(v.model()),
{
    match v {
        Value::Integer(_) => String::from_str("Integer"),
        Value::Str(_) => String::from_str("String"),
        Value::Boolean(_) => String::from_str("Boolean"),
        Value::Array(_) => String::from_str("Array"),
        Value::Dict(_) => String::from_str("Dict"),
        Value::Undefined => String::from_str("Undefined"),
    }
}

/// Builds the unsupported-operation fault for `op` on `l` and `r`.
fn unsupported_err(l: &Value, r: &Value, op: &str) -> (e: TungError)
    ensures
        e.model() == unsupported(l.model(), r.model(), op@),
{
    TungError::UnsupportedOperation(String::from_str(op), kind_name(l), kind_name(r))
}

/// Applies an integer operator, realising [`int_ops`].
#[verifier::rlimit(60)]
fn apply_int_op(x: i64, y: i64, op: &str) -> (res: Result<Value, TungError>)
    ensures
        result_models(res, int_ops(x as int, y as int, op@)),
{
    if str_eq(op, "+") {
        Ok(Value::Integer(x.wrapping_add(y)))
    } else if str_eq(op, "-") {
        Ok(Value::Integer(x.wrapping_sub(y)))
    } else if str_eq(op, "*") {
        Ok(Value::Integer(x.wrapping_mul(y)))
    } else if str_eq(op, "/") {
        if y == 0 {
            Err(TungError::DivisionByZero)
        } else if x == i64::MIN && y == -1 {
            proof {
                lemma_div_trunc_min(x as int, y as int);
            }
            Ok(Value::Integer(i64::MIN))
        } else {
            match x.checked_div(y) {
                Some(q) => Ok(Value::Integer(q)),
                None => {
                    proof {
                        lemma_div_trunc_bounds(x as int, y as int);
                        assert(false);
                    }
                    Err(TungError::DivisionByZero)
                },
            }
        }
    } else if str_eq(op, "//") {
        if y == 0 {
            Err(TungError::DivisionByZero)
        } else if x == i64::MIN && y == -1 {
            proof {
                lemma_div_trunc_min(x as int, y as int);
            }
            Ok(Value::Integer(i64::MIN))
        } else {
            let q = match x.checked_div(y) {
                Some(q) => q,
                None => {
                    proof {
                        lemma_div_trunc_bounds(x as int, y as int);
                        assert(false);
                    }
                    return Err(TungError::DivisionByZero);
                },
            };
            let r = match x.checked_rem(y) {
                Some(r) => r,
                None => {
                    proof {
                        assert(false);
                    }
                    return Err(TungError::DivisionByZero);
                },
            };
            if r != 0 && ((x < 0) != (y < 0)) {
                proof {
                    lemma_div_trunc_bounds(x as int, y as int);
                }
                Ok(Value::Integer(q - 1))
            } else {
                Ok(Value::Integer(q))
            }
        }
    } else if str_eq(op, "%") {
        if y == 0 {
            Err(TungError::DivisionByZero)
        } else if x == i64::MIN && y == -1 {
            Ok(Value::Integer(0))
        } else {
            match x.checked_rem(y) {
                Some(r) => Ok(Value::Integer(r)),
                None => {
                    proof {
                        assert(false);
                    }
                    Err(TungError::DivisionByZero)
                },
            }
        }
    } else if str_eq(op, "==") {
        Ok(Value::Boolean(x == y))
    } else if str_eq(op, "!=") {
        Ok(Value::Boolean(x != y))
    } else if str_eq(op, "<") {
        Ok(Value::Boolean(x < y))
    } else if str_eq(op, ">") {
        Ok(Value::Boolean(x > y))
    } else if str_eq(op, "<=") {
        Ok(Value::Boolean(x <= y))
    } else if str_eq(op, ">=") {
        Ok(Value::Boolean(x >= y))
    } else {
        Err(unsupported_err(&Value::Integer(x), &Value::Integer(y), op))
    }
}

/// Truncating division of signed 64-bit values stays within one step of
/// the 64-bit range, and exceeds it only for the minimum value divided by
/// minus one.
proof fn lemma_div_trunc_bounds(x: int, y: int)
    requires
        i64::MIN <= x <= i64::MAX,
        i64::MIN <= y <= i64::MAX,
        y != 0,
        !(x == i64::MIN && y == -1),
    ensures
        i64::MIN <= div_trunc(x, y) <= i64::MAX,
        i64::MIN <= div_trunc(x, y) - 1 || !(rem_trunc(x, y) != 0 && ((x < 0) != (y < 0))),
{
    if x == 0 {
    } else if x > 0 && y > 0 {
        lemma_div_pos_is_pos(x, y);
        lemma_div_nonincreasing(x, y);
    } else if x < 0 && y < 0 {
        lemma_div_pos_is_pos(x * -1, y * -1);
        lemma_div_nonincreasing(x * -1, y * -1);
        if y * -1 >= 2 {
            lemma_div_is_ordered_by_denominator(x * -1, 2, y * -1);
            assert((x * -1) / 2 <= (i64::MAX as int)) by {
                assert(x * -1 <= 0x8000_0000_0000_0000);
            }
        } else {
            assert(y == -1);
            assert(x != i64::MIN);
            lemma_div_basics(x * -1);
        }
    } else if x < 0 {
        lemma_div_pos_is_pos(x * -1, y);
        lemma_div_nonincreasing(x * -1, y);
        if rem_trunc(x, y) != 0 {
            assert((x * -1) % y != 0);
            if y >= 2 {
                lemma_div_is_ordered_by_denominator(x * -1, 2, y);
                assert((x * -1) / 2 <= 0x4000_0000_0000_0000) by {
                    assert(x * -1 <= 0x8000_0000_0000_0000);
                }
            } else {
                assert(y == 1);
                lemma_div_basics(x * -1);
                lemma_fundamental_div_mod(x * -1, 1);
            }
        }
    } else {
        lemma_div_pos_is_pos(x, y * -1);
        lemma_div_nonincreasing(x, y * -1);
    }
}

/// Dividing the minimum 64-bit value by minus one wraps back to itself,
/// with a zero remainder.
proof fn lemma_div_trunc_min(x: int, y: int)
    requires
        x == i64::MIN,
        y == -1,
    ensures
        wrap64(div_trunc(x, y)) == i64::MIN as int,
        rem_trunc(x, y) == 0,
        floor_div(x, y) == div_trunc(x, y),
{
    lemma_div_basics(x * -1);
    lemma_fundamental_div_mod(x * -1, 1);
    assert((x * -1) / (y * -1) == x * -1);
    assert((x * -1) % (y * -1) == 0);
}

/// Applies a string operator, realising [`text_ops`].
fn apply_text_op(s: String, t: String, op: &str) -> (res: Result<Value, TungError>)
    ensures
        result_models(res, text_ops(s@, t@, op@)),
{
    if str_eq(op, "+") {
        let mut out = s;
        out.append(t.as_str());
        Ok(Value::Str(out))
    } else if str_eq(op, "==") {
        Ok(Value::Boolean(str_eq(s.as_str(), t.as_str())))
    } else if str_eq(op, "!=") {
        Ok(Value::Boolean(!str_eq(s.as_str(), t.as_str())))
    } else if str_eq(op, "<") {
        Ok(Value::Boolean(str_lt(s.as_str(), t.as_str())))
    } else if str_eq(op, ">") {
        Ok(Value::Boolean(str_lt(t.as_str(), s.as_str())))
    } else if str_eq(op, "<=") {
        Ok(Value::Boolean(!str_lt(t.as_str(), s.as_str())))
    } else if str_eq(op, ">=") {
        Ok(Value::Boolean(!str_lt(s.as_str(), t.as_str())))
    } else {
        Err(unsupported_err(&Value::Str(s), &Value::Str(t), op))
    }
}

/// Decides the lexicographic order [`text_lt`] on two string slices.
#[verifier::loop_isolation(false)]
pub fn str_lt(a: &str, b: &str) -> (r: bool)
    ensures
        r == text_lt(a@, b@),
{
    let alen = a.unicode_len();
    let blen = b.unicode_len();
    let mut i: usize = 0;
    proof {
        assert(a@.skip(0) =~= a@);
        assert(b@.skip(0) =~= b@);
    }
    while i < alen && i < blen
        invariant
            i <= alen,
            i <= blen,
            text_lt(a@, b@) == text_lt(a@.skip(i as int), b@.skip(i as int)),
        decreases alen - i,
    {
        let ca = a.get_char(i);
        let cb = b.get_char(i);
        proof {
            assert(a@.skip(i as int)[0] == a@[i as int]);
            assert(b@.skip(i as int)[0] == b@[i as int]);
            assert(a@.skip(i as int).drop_first() =~= a@.skip(i + 1));
            assert(b@.skip(i as int).drop_first() =~= b@.skip(i + 1));
        }
        if ca != cb {
            return (ca as u32) < (cb as u32);
        }
        i += 1;
    }
    proof {
        assert(a@.skip(i as int).len() == alen - i);
        assert(b@.skip(i as int).len() == blen - i);
    }
    alen < blen
}

/// Repeats a string `n` times, realising [`repeat_text`].
#[verifier::loop_isolation(false)]
fn repeat_string(s: &String, n: i64) -> (r: String)
    ensures
        r@ == repeat_text(s@, n as int),
{
    let mut out = String::new();
    if n <= 0 {
        return out;
    }
    let mut k: i64 = 0;
    while k < n
        invariant
            0 <= k <= n,
            out@ == repeat_text(s@, k as int),
        decreases n - k,
    {
        out.append(s.as_str());
        k += 1;
    }
    out
}

/// Repeats an array `n` times, realising [`repeat_seq`].
#[verifier::loop_isolation(false)]
fn repeat_values(vs: &Vec<Value>, n: i64) -> (r: Vec<Value>)
    requires
        values_wf(vs@),
    ensures
        seq_models(r@) == repeat_seq(seq_models(vs@), n as int),
        values_wf(r@),
    decreases n,
{
    proof {
        lemma_seq_models(vs@);
    }
    let ghost ms = seq_models(vs@);
    let mut out: Vec<Value> = Vec::new();
    if n <= 0 {
        proof {
            assert(seq_models(out@) =~= repeat_seq(ms, n as int));
        }
        return out;
    }
    let mut k: i64 = 0;
    while k < n
        invariant
            0 <= k <= n,
            seq_models(out@) == repeat_seq(ms, k as int),
            values_wf(out@),
        decreases n - k,
    {
        let mut i: usize = 0;
        while i < vs.len()
            invariant
                i <= vs@.len(),
                seq_models(out@) == repeat_seq(ms, k as int) + ms.take(i as int),
                values_wf(out@),
            decreases vs@.len() - i,
        {
            let ghost before = out@;
            out.push(vs[i].clone());
            proof {
                lemma_seq_models_push(before, out@.last());
                assert(out@.drop_last() =~= before);
                assert(ms.take(i + 1).drop_last() =~= ms.take(i as int));
                assert(ms.take(i + 1).last() == ms[i as int]);
                assert(seq_models(out@) =~= repeat_seq(ms, k as int) + ms.take(i + 1));
                assert forall|j: int| 0 <= j < out@.len() implies (#[trigger] out@[j]).wf() by {
                    if j < before.len() {
                        assert(before[j].wf());
                    }
                }
            }
            i += 1;
        }
        proof {
            assert(ms.take(vs@.len() as int) =~= ms);
        }
        k += 1;
    }
    out
}

/// Decides array membership by structural equality, realising
/// [`contains_val`].
#[verifier::loop_isolation(false)]
fn contains_value(x: &Value, vs: &Vec<Value>) -> (r: bool)
    requires
        x.wf(),
        values_wf(vs@),
    ensures
        r == contains_val(x.model(), seq_models(vs@)),
{
    proof {
        lemma_seq_models(vs@);
    }
    let ghost ms = seq_models(vs@);
    let mut i: usize = 0;
    while i < vs.len()
        invariant
            i <= vs@.len(),
            forall|j: int| 0 <= j < i ==> !val_eq(x.model(), #[trigger] ms[j]),
        decreases vs@.len() - i,
    {
        if values_equal(x, &vs[i]) {
            proof {
                assert(val_eq(x.model(), ms[i as int]));
            }
            return true;
        }
        i += 1;
    }
    false
}

/// Applies an operator to every remaining pairing of operand kinds,
/// realising [`mixed_ops`].
#[verifier::loop_isolation(false)]
#[verifier::rlimit(60)]
fn apply_mixed_op(left: Value, right: Value, op: &str) -> (res: Result<Value, TungError>)
    requires
        left.wf(),
        right.wf(),
    ensures
        result_models(res, mixed_ops(left.model(), right.model(), op@)),
{
    let ghost am = left.model();
    let ghost bm = right.model();
    if str_eq(op, "+") {
        match (left, right) {
            (Value::Str(s), other) => {
                let tail = render_value(&other);
                let mut out = s;
                out.append(tail.as_str());
                Ok(Value::Str(out))
            },
            (other, Value::Str(t)) => {
                let mut out = render_value(&other);
                out.append(t.as_str());
                Ok(Value::Str(out))
            },
            (Value::Array(xs), Value::Array(ys)) => {
                proof {
                    lemma_seq_models(xs@);
                    lemma_seq_models(ys@);
                }
                let ghost mxs = seq_models(xs@);
                let ghost mys = seq_models(ys@);
                let mut out = xs;
                let mut i: usize = 0;
                while i < ys.len()
                    invariant
                        i <= ys@.len(),
                        seq_models(out@) == mxs + mys.take(i as int),
                        values_wf(out@),
                    decreases ys@.len() - i,
                {
                    let ghost before = out@;
                    out.push(ys[i].clone());
                    proof {
                        lemma_seq_models_push(before, out@.last());
                        assert(out@.drop_last() =~= before);
                        assert(mys.take(i + 1).drop_last() =~= mys.take(i as int));
                        assert(mys.take(i + 1).last() == mys[i as int]);
                        assert(seq_models(out@) =~= mxs + mys.take(i + 1));
                        assert forall|j: int| 0 <= j < out@.len()
                            implies (#[trigger] out@[j]).wf() by {
                            if j < before.len() {
                                assert(before[j].wf());
                            }
                        }
                    }
                    i += 1;
                }
                proof {
                    assert(mys.take(ys@.len() as int) =~= mys);
                }
                Ok(Value::Array(out))
            },
            (Value::Array(xs), other) => {
                let ghost before = xs@;
                let mut out = xs;
                out.push(other);
                proof {
                    lemma_seq_models_push(before, out@.last());
                    assert(out@.drop_last() =~= before);
                    assert forall|j: int| 0 <= j < out@.len()
                        implies (#[trigger] out@[j]).wf() by {
                        if j < before.len() {
                            assert(before[j].wf());
                        }
                    }
                }
                Ok(Value::Array(out))
            },
            (other, Value::Array(ys)) => {
                proof {
                    lemma_seq_models(ys@);
                }
                let ghost mys = seq_models(ys@);
                let ghost om = other.model();
                let ghost owf = other.wf();
                let mut out = ys;
                out.insert(0, other);
                proof {
                    lemma_seq_models(out@);
                    assert forall|j: int| 0 <= j < out@.len()
                        implies seq_models(out@)[j] == (seq![om] + mys)[j] by {
                        if j > 0 {
                            assert(out@[j] == ys@[j - 1]);
                        }
                    }
                    assert(seq_models(out@) =~= seq![om] + mys);
                    assert forall|j: int| 0 <= j < out@.len()
                        implies (#[trigger] out@[j]).wf() by {
                        if j > 0 {
                            assert(ys@[j - 1].wf());
                        }
                    }
                }
                Ok(Value::Array(out))
            },
            (l, r) => Err(unsupported_err(&l, &r, op)),
        }
    } else if str_eq(op, "*") {
        match (left, right) {
            (Value::Str(s), Value::Integer(n)) => Ok(Value::Str(repeat_string(&s, n))),
            (Value::Integer(n), Value::Str(s)) => Ok(Value::Str(repeat_string(&s, n))),
            (Value::Array(xs), Value::Integer(n)) => Ok(Value::Array(repeat_values(&xs, n))),
            (Value::Integer(n), Value::Array(xs)) => Ok(Value::Array(repeat_values(&xs, n))),
            (l, r) => Err(unsupported_err(&l, &r, op)),
        }
    } else if str_eq(op, "==") {
        match (left, right) {
            (Value::Boolean(x), Value::Boolean(y)) => Ok(Value::Boolean(x == y)),
            (l, r) => Err(unsupported_err(&l, &r, op)),
        }
    } else if str_eq(op, "!=") {
        match (left, right) {
            (Value::Boolean(x), Value::Boolean(y)) => Ok(Value::Boolean(x != y)),
            (l, r) => Err(unsupported_err(&l, &r, op)),
        }
    } else if str_eq(op, "&&") {
        match (left, right) {
            (Value::Boolean(x), Value::Boolean(y)) => Ok(Value::Boolean(x && y)),
            (l, r) => Err(unsupported_err(&l, &r, op)),
        }
    } else if str_eq(op, "||") {
        match (left, right) {
            (Value::Boolean(x), Value::Boolean(y)) => Ok(Value::Boolean(x || y)),
            (l, r) => Err(unsupported_err(&l, &r, op)),
        }
    } else if str_eq(op, "!") {
        match (left, right) {
            (Value::Boolean(x), Value::Undefined) => Ok(Value::Boolean(!x)),
            (l, r) => Err(unsupported_err(&l, &r, op)),
        }
    } else if str_eq(op, "-") {
        match (left, right) {
            (Value::Integer(x), Value::Undefined) => Ok(Value::Integer(0i64.wrapping_sub(x))),
            (l, r) => Err(unsupported_err(&l, &r, op)),
        }
    } else if str_eq(op, "in") {
        match (&left, &right) {
            (_, Value::Array(ys)) => Ok(Value::Boolean(contains_value(&left, ys))),
            (Value::Str(s), Value::Dict(es)) => {
                proof {
                    crate::value::lemma_entry_models(es@);
                }
                match entries_find(es, s) {
                    Some(i) => {
                        proof {
                            assert(crate::value::entry_models(es@)[i as int].0 == s@);
                        }
                        Ok(Value::Boolean(true))
                    },
                    None => {
                        proof {
                            assert forall|j: int|
                                0 <= j < crate::value::entry_models(es@).len()
                                implies (#[trigger] crate::value::entry_models(es@)[j]).0 != s@ by {
                                assert(es@[j].0@ != s@);
                            }
                        }
                        Ok(Value::Boolean(false))
                    },
                }
            },
            _ => Err(unsupported_err(&left, &right, op)),
        }
    } else if str_eq(op, "!in") {
        match (&left, &right) {
            (_, Value::Array(ys)) => Ok(Value::Boolean(!contains_value(&left, ys))),
            (Value::Str(s), Value::Dict(es)) => {
                proof {
                    crate::value::lemma_entry_models(es@);
                }
                match entries_find(es, s) {
                    Some(i) => {
                        proof {
                            assert(crate::value::entry_models(es@)[i as int].0 == s@);
                        }
                        Ok(Value::Boolean(false))
                    },
                    None => {
                        proof {
                            assert forall|j: int|
                                0 <= j < crate::value::entry_models(es@).len()
                                implies (#[trigger] crate::value::entry_models(es@)[j]).0 != s@ by {
                                assert(es@[j].0@ != s@);
                            }
                        }
                        Ok(Value::Boolean(true))
                    },
                }
            },
            _ => Err(unsupported_err(&left, &right, op)),
        }
    } else {
        Err(unsupported_err(&left, &right, op))
    }
}

/// Applies a binary (or, with `Undefined` as the right operand, unary)
/// operator to two values, realising [`apply_op`].
pub fn apply_operator(left: Value, right: Value, op: &str) -> (res: Result<Value, TungError>)
    requires
        left.wf(),
        right.wf(),
    ensures
        result_models(res, apply_op(left.model(), right.model(), op@)),
{
    match (left, right) {
        (Value::Integer(x), Value::Integer(y)) => apply_int_op(x, y, op),
        (Value::Str(s), Value::Str(t)) => apply_text_op(s, t, op),
        (l, r) => apply_mixed_op(l, r, op),
    }
}

} // verus!
