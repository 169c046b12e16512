//! The builtin-function registry and the native functions behind it:
//! `print`, `input`, `abs`, `len`, `range`, the `int`/`str`/`float`/`bool`
//! casts, `min`, `max`, `sum`, `round`, and the list helpers `append`,
//! `insert`, `pop`, `index` and `sort`. Each native function checks its
//! own arity and argument types and yields `Undefined` on misuse instead
//! of failing the run. Composite arguments are copied on write: `append`
//! and kin return new values.

use vstd::prelude::*;

use crate::error::TungError;
use crate::host::Host;
use crate::operators::text_lt;
use crate::operators::wrap64;
use crate::operators::wrap64_wide;
use crate::render::render;
use crate::render::render_value;
use crate::text::parse_i64;
use crate::text::parse_int_text;
use crate::text::str_eq;
use crate::value::Value;
use crate::value::ValueModel;
use crate::value::is_truthy;
use crate::value::lemma_seq_models;
use crate::value::lemma_seq_models_push;
use crate::value::seq_models;
use crate::value::truthy;
use crate::value::val_eq;
use crate::value::values_equal;
use crate::value::values_wf;

verus! {

/// One of the interpreter's native functions.
#[derive(Debug, Clone, Copy, PartialEq, Eq, Structural)]
pub enum Builtin {
    Print,
    Input,
    Abs,
    Len,
    Range,
    IntCast,
    StrCast,
    FloatCast,
    BoolCast,
    Min,
    Max,
    Sum,
    Round,
    Append,
    Insert,
    Pop,
    Index,
    Sort,
}

/// Which builtin a function name denotes, if any.
pub open spec fn builtin_of(name: Seq<char>) -> Option<Builtin> {
    if name == "print"@ { Some(Builtin::Print) }
    else if name == "input"@ { Some(Builtin::Input) }
    else if name == "abs"@ { Some(Builtin::Abs) }
    else if name == "len"@ { Some(Builtin::Len) }
    else if name == "range"@ { Some(Builtin::Range) }
    else if name == "int"@ { Some(Builtin::IntCast) }
    else if name == "str"@ { Some(Builtin::StrCast) }
    else if name == "float"@ { Some(Builtin::FloatCast) }
    else if name == "bool"@ { Some(Builtin::BoolCast) }
    else if name == "min"@ { Some(Builtin::Min) }
    else if name == "max"@ { Some(Builtin::Max) }
    else if name == "sum"@ { Some(Builtin::Sum) }
    else if name == "round"@ { Some(Builtin::Round) }
    else if name == "append"@ { Some(Builtin::Append) }
    else if name == "insert"@ { Some(Builtin::Insert) }
    else if name == "pop"@ { Some(Builtin::Pop) }
    else if name == "index"@ { Some(Builtin::Index) }
    else if name == "sort"@ { Some(Builtin::Sort) }
    else { None }
}

/// The registry of native functions, fixed for a whole run.
pub struct StdLib {}

impl StdLib {
    /// Builds the registry.
    pub fn new() -> (r: StdLib)
    {
        StdLib {}
    }

    /// Looks a function name up, realising [`builtin_of`].
    pub fn get(&self, name: &str) -> (r: Option<Builtin>)
        ensures
            r == builtin_of(name@),
    {
        if str_eq(name, "print") { Some(Builtin::Print) }
        else if str_eq(name, "input") { Some(Builtin::Input) }
        else if str_eq(name, "abs") { Some(Builtin::Abs) }
        else if str_eq(name, "len") { Some(Builtin::Len) }
        else if str_eq(name, "range") { Some(Builtin::Range) }
        else if str_eq(name, "int") { Some(Builtin::IntCast) }
        else if str_eq(name, "str") { Some(Builtin::StrCast) }
        else if str_eq(name, "float") { Some(Builtin::FloatCast) }
        else if str_eq(name, "bool") { Some(Builtin::BoolCast) }
        else if str_eq(name, "min") { Some(Builtin::Min) }
        else if str_eq(name, "max") { Some(Builtin::Max) }
        else if str_eq(name, "sum") { Some(Builtin::Sum) }
        else if str_eq(name, "round") { Some(Builtin::Round) }
        else if str_eq(name, "append") { Some(Builtin::Append) }
        else if str_eq(name, "insert") { Some(Builtin::Insert) }
        else if str_eq(name, "pop") { Some(Builtin::Pop) }
        else if str_eq(name, "index") { Some(Builtin::Index) }
        else if str_eq(name, "sort") { Some(Builtin::Sort) }
        else { None }
    }
}

/// The first argument, or `d` when none was passed.
pub open spec fn arg0_or(args: Seq<ValueModel>, d: ValueModel) -> ValueModel {
    if args.len() > 0 {
        args[0]
    } else {
        d
    }
}

/// What `abs` yields: the absolute value of an integer (wrapping at the
/// 64-bit boundary), `Undefined` otherwise.
pub open spec fn abs_model(v: ValueModel) -> ValueModel {
    match v {
        ValueModel::Int(i) => ValueModel::Int(if i < 0 { wrap64(-i) } else { i }),
        _ => ValueModel::Undef,
    }
}

/// What `len` yields: the length of a string (in characters), array or
/// dictionary, `Undefined` otherwise.
pub open spec fn len_model(v: ValueModel) -> ValueModel {
    match v {
        ValueModel::Text(s) => ValueModel::Int(wrap64_wide(s.len() as int)),
        ValueModel::Arr(vs) => ValueModel::Int(wrap64_wide(vs.len() as int)),
        ValueModel::Dict(es) => ValueModel::Int(wrap64_wide(es.len() as int)),
        _ => ValueModel::Undef,
    }
}

/// The integers from `s` up to but excluding `e`.
pub open spec fn range_models(s: int, e: int) -> Seq<ValueModel> {
    Seq::new(if e > s { (e - s) as nat } else { 0 }, |i: int| ValueModel::Int(s + i))
}

/// What `range` yields: `range(e)` counts from zero, `range(s, e)` from
/// `s`; anything else gives an empty array.
pub open spec fn range_model(args: Seq<ValueModel>) -> ValueModel {
    if args.len() >= 2 && args[0] is Int && args[1] is Int {
        ValueModel::Arr(range_models(args[0]->Int_0, args[1]->Int_0))
    } else if args.len() == 1 && args[0] is Int {
        ValueModel::Arr(range_models(0, args[0]->Int_0))
    } else {
        ValueModel::Arr(Seq::empty())
    }
}

/// What the `int` cast yields: integers unchanged, strings parsed as
/// decimal text, booleans as zero or one, everything else `Undefined`.
pub open spec fn int_cast_model(v: ValueModel) -> ValueModel {
    match v {
        ValueModel::Int(i) => ValueModel::Int(i),
        ValueModel::Text(s) => match parse_int_text(s) {
            Some(v) => ValueModel::Int(v),
            None => ValueModel::Undef,
        },
        ValueModel::Bool(b) => ValueModel::Int(if b { 1 } else { 0 }),
        _ => ValueModel::Undef,
    }
}

/// What the `str` cast yields: the display text of the argument.
pub open spec fn str_cast_model(v: ValueModel) -> ValueModel {
    ValueModel::Text(render(v))
}

/// What the `bool` cast yields: the argument's truthiness.
pub open spec fn bool_cast_model(v: ValueModel) -> ValueModel {
    ValueModel::Bool(truthy(v))
}

/// Whether `v` sorts strictly before `acc`: integers by value, strings
/// lexicographically; any other pairing is not comparable.
pub open spec fn lt_val(v: ValueModel, acc: ValueModel) -> bool {
    match (v, acc) {
        (ValueModel::Int(a), ValueModel::Int(b)) => a < b,
        (ValueModel::Text(a), ValueModel::Text(b)) => text_lt(a, b),
        _ => false,
    }
}

/// Whether `v` sorts strictly after `acc`.
pub open spec fn gt_val(v: ValueModel, acc: ValueModel) -> bool {
    match (v, acc) {
        (ValueModel::Int(a), ValueModel::Int(b)) => a > b,
        (ValueModel::Text(a), ValueModel::Text(b)) => text_lt(b, a),
        _ => false,
    }
}

/// The running minimum of the first `i + 1` elements: each element
/// replaces the accumulator only when strictly smaller and comparable.
pub open spec fn min_upto(s: Seq<ValueModel>, i: int) -> ValueModel
    decreases i,
{
    if i <= 0 {
        s[0]
    } else {
        let prev = min_upto(s, i - 1);
        if lt_val(s[i], prev) {
            s[i]
        } else {
            prev
        }
    }
}

/// The running maximum of the first `i + 1` elements.
pub open spec fn max_upto(s: Seq<ValueModel>, i: int) -> ValueModel
    decreases i,
{
    if i <= 0 {
        s[0]
    } else {
        let prev = max_upto(s, i - 1);
        if gt_val(s[i], prev) {
            s[i]
        } else {
            prev
        }
    }
}

/// What `min` yields: the running minimum of an array argument, or of the
/// argument list itself; empty input gives `Undefined`.
pub open spec fn min_model(args: Seq<ValueModel>) -> ValueModel {
    if args.len() == 0 {
        ValueModel::Undef
    } else if args[0] is Arr {
        let a = args[0]->Arr_0;
        if a.len() == 0 {
            ValueModel::Undef
        } else {
            min_upto(a, a.len() - 1)
        }
    } else {
        min_upto(args, args.len() - 1)
    }
}

/// What `max` yields, dually to [`min_model`].
pub open spec fn max_model(args: Seq<ValueModel>) -> ValueModel {
    if args.len() == 0 {
        ValueModel::Undef
    } else if args[0] is Arr {
        let a = args[0]->Arr_0;
        if a.len() == 0 {
            ValueModel::Undef
        } else {
            max_upto(a, a.len() - 1)
        }
    } else {
        max_upto(args, args.len() - 1)
    }
}

/// The wrapping sum of the first `n` elements, if they are all integers.
pub open spec fn sum_upto(s: Seq<ValueModel>, n: int) -> Option<int>
    decreases n,
{
    if n <= 0 {
        Some(0)
    } else {
        match sum_upto(s, n - 1) {
            None => None,
            Some(acc) => match s[n - 1] {
                ValueModel::Int(v) => Some(wrap64(acc + v)),
                _ => None,
            },
        }
    }
}

/// What `sum` yields: the wrapping sum of an all-integer array,
/// `Undefined` when any element is not numeric, zero for no input.
pub open spec fn sum_model(args: Seq<ValueModel>) -> ValueModel {
    if args.len() == 0 {
        ValueModel::Int(0)
    } else if args[0] is Arr {
        let a = args[0]->Arr_0;
        if a.len() == 0 {
            ValueModel::Int(0)
        } else {
            match sum_upto(a, a.len() as int) {
                Some(t) => ValueModel::Int(t),
                None => ValueModel::Undef,
            }
        }
    } else {
        ValueModel::Undef
    }
}

/// What `round` yields: an integer unchanged, `Undefined` otherwise.
pub open spec fn round_model(args: Seq<ValueModel>) -> ValueModel {
    if args.len() == 0 {
        ValueModel::Undef
    } else {
        match args[0] {
            ValueModel::Int(i) => ValueModel::Int(i),
            _ => ValueModel::Undef,
        }
    }
}

/// What `append` yields: a new array with the element added at the end.
pub open spec fn append_model(args: Seq<ValueModel>) -> ValueModel {
    if args.len() < 2 {
        ValueModel::Undef
    } else {
        match args[0] {
            ValueModel::Arr(a) => ValueModel::Arr(a.push(args[1])),
            _ => ValueModel::Undef,
        }
    }
}

/// The position `insert` uses for index `idx` on a sequence of length
/// `len`: negative indices count back from the end and clamp at zero,
/// positive ones clamp at the length.
pub open spec fn insert_pos(idx: int, len: int) -> int {
    if idx < 0 {
        if len + idx >= 0 {
            len + idx
        } else {
            0
        }
    } else if idx < len {
        idx
    } else {
        len
    }
}

/// What `insert` yields: a new array with the element inserted at the
/// clamped position.
pub open spec fn insert_model(args: Seq<ValueModel>) -> ValueModel {
    if args.len() < 3 {
        ValueModel::Undef
    } else {
        match (args[0], args[1]) {
            (ValueModel::Arr(a), ValueModel::Int(idx)) => ValueModel::Arr(
                a.insert(insert_pos(idx, a.len() as int), args[2]),
            ),
            _ => ValueModel::Undef,
        }
    }
}

/// What `pop` yields: the element at the given index (negative indices
/// count back from the end; the default is the last element), or
/// `Undefined` when the index is out of range or the argument no array.
pub open spec fn pop_model(args: Seq<ValueModel>) -> ValueModel {
    if args.len() == 0 {
        ValueModel::Undef
    } else {
        match args[0] {
            ValueModel::Arr(a) => {
                if a.len() == 0 {
                    ValueModel::Undef
                } else {
                    let idx = if args.len() > 1 {
                        match args[1] {
                            ValueModel::Int(n) => if n < 0 {
                                if a.len() + n >= 0 {
                                    a.len() + n
                                } else {
                                    0
                                }
                            } else {
                                n
                            },
                            _ => a.len() - 1,
                        }
                    } else {
                        a.len() - 1
                    };
                    if idx < a.len() {
                        a[idx]
                    } else {
                        ValueModel::Undef
                    }
                }
            },
            _ => ValueModel::Undef,
        }
    }
}

/// The first position at or after `i` whose element equals `x`, or `-1`.
pub open spec fn find_first(s: Seq<ValueModel>, x: ValueModel, i: int) -> int
    decreases s.len() - i,
{
    if i < 0 || i >= s.len() {
        -1
    } else if val_eq(s[i], x) {
        i
    } else {
        find_first(s, x, i + 1)
    }
}

/// The first position at or after `i` where `sub` occurs in `s`, or `-1`.
pub open spec fn find_sub(s: Seq<char>, sub: Seq<char>, i: int) -> int
    decreases s.len() - i + 1,
{
    if i < 0 || i + sub.len() > s.len() {
        -1
    } else if s.subrange(i, i + sub.len() as int) == sub {
        i
    } else {
        find_sub(s, sub, i + 1)
    }
}

/// What `index` yields: for an array, the position of the first element
/// structurally equal to the needle; for a string, the position of the
/// first occurrence of a substring; `-1` when absent.
pub open spec fn index_model(args: Seq<ValueModel>) -> ValueModel {
    if args.len() < 2 {
        ValueModel::Undef
    } else {
        match args[0] {
            ValueModel::Arr(a) => ValueModel::Int(wrap64_wide(find_first(a, args[1], 0))),
            ValueModel::Text(s) => match args[1] {
                ValueModel::Text(sub) => ValueModel::Int(wrap64_wide(find_sub(s, sub, 0))),
                _ => ValueModel::Int(-1),
            },
            _ => ValueModel::Undef,
        }
    }
}

/// Inserts `x` into a sorted sequence, before the first element that
/// sorts strictly after it (so equal and incomparable elements keep
/// their order).
pub open spec fn sorted_insert(out: Seq<ValueModel>, x: ValueModel) -> Seq<ValueModel>
    decreases out,
{
    if out.len() == 0 {
        seq![x]
    } else if gt_val(out[0], x) {
        seq![x] + out
    } else {
        seq![out[0]] + sorted_insert(out.drop_first(), x)
    }
}

/// Stable insertion sort of a sequence under [`gt_val`].
pub open spec fn sort_models(s: Seq<ValueModel>) -> Seq<ValueModel>
    decreases s,
{
    if s.len() == 0 {
        Seq::empty()
    } else {
        sorted_insert(sort_models(s.drop_last()), s.last())
    }
}

/// What `sort` yields: the stable insertion sort of an array.
pub open spec fn sort_model(args: Seq<ValueModel>) -> ValueModel {
    if args.len() == 0 {
        ValueModel::Undef
    } else {
        match args[0] {
            ValueModel::Arr(a) => ValueModel::Arr(sort_models(a)),
            _ => ValueModel::Undef,
        }
    }
}

/// What the pure builtins (everything but `print` and `input`) yield.
pub open spec fn pure_builtin_model(b: Builtin, args: Seq<ValueModel>) -> ValueModel {
    match b {
        Builtin::Abs => abs_model(arg0_or(args, ValueModel::Int(0))),
        Builtin::Len => len_model(arg0_or(args, ValueModel::Text(Seq::empty()))),
        Builtin::Range => range_model(args),
        Builtin::IntCast => int_cast_model(arg0_or(args, ValueModel::Int(0))),
        Builtin::StrCast => str_cast_model(arg0_or(args, ValueModel::Text(Seq::empty()))),
        Builtin::FloatCast => ValueModel::Undef,
        Builtin::BoolCast => bool_cast_model(arg0_or(args, ValueModel::Int(0))),
        Builtin::Min => min_model(args),
        Builtin::Max => max_model(args),
        Builtin::Sum => sum_model(args),
        Builtin::Round => round_model(args),
        Builtin::Append => append_model(args),
        Builtin::Insert => insert_model(args),
        Builtin::Pop => pop_model(args),
        Builtin::Index => index_model(args),
        Builtin::Sort => sort_model(args),
        Builtin::Print => ValueModel::Int(0),
        Builtin::Input => ValueModel::Undef,
    }
}

/// A line of input with its trailing newline characters removed.
pub open spec fn trim_nl(s: Seq<char>) -> Seq<char>
    decreases s,
{
    if s.len() > 0 && (s.last() == '\n' || s.last() == '\r') {
        trim_nl(s.drop_last())
    } else {
        s
    }
}

/// What the `input` builtin makes of a line: trailing line terminators
/// are removed, then the text is re-read as an integer if it parses as
/// one and kept as a string otherwise.
pub open spec fn input_value(line: Seq<char>) -> ValueModel {
    match parse_int_text(trim_nl(line)) {
        Some(v) => ValueModel::Int(v),
        None => ValueModel::Text(trim_nl(line)),
    }
}

/// When everything from `end` on is a line terminator and the character
/// before `end` is none, trimming cuts exactly at `end`.
proof fn lemma_trim_take(s: Seq<char>, end: int)
    requires
        0 <= end <= s.len(),
        forall|j: int| end <= j < s.len() ==> (#[trigger] s[j]) == '\n' || s[j] == '\r',
        end > 0 ==> !(s[end - 1] == '\n' || s[end - 1] == '\r'),
    ensures
        trim_nl(s) == s.take(end),
    decreases s,
{
    if s.len() == end {
        assert(s.take(end) =~= s);
    } else {
        assert(s.last() == '\n' || s.last() == '\r');
        assert forall|j: int| end <= j < s.drop_last().len()
            implies (#[trigger] s.drop_last()[j]) == '\n' || s.drop_last()[j] == '\r' by {
            assert(s.drop_last()[j] == s[j]);
        }
        if end > 0 {
            assert(s.drop_last()[end - 1] == s[end - 1]);
        }
        lemma_trim_take(s.drop_last(), end);
        assert(s.drop_last().take(end) =~= s.take(end));
    }
}

/// Removes trailing line terminators, realising [`trim_nl`].
#[verifier::loop_isolation(false)]
fn trim_line_end(s: &str) -> (r: String)
    ensures
        r@ == trim_nl(s@),
{
    let mut end = s.unicode_len();
    let mut stop = false;
    while !stop && end > 0
        invariant
            end <= s@.len(),
            forall|j: int| end <= j < s@.len() ==> (#[trigger] s@[j]) == '\n' || s@[j] == '\r',
            stop ==> end > 0 && !(s@[end - 1] == '\n' || s@[end - 1] == '\r'),
        decreases end + (if stop { 0int } else { 1int }),
    {
        let c = s.get_char(end - 1);
        if c == '\n' || c == '\r' {
            end -= 1;
        } else {
            stop = true;
        }
    }
    proof {
        lemma_trim_take(s@, end as int);
    }
    let cut = s.substring_char(0, end);
    let r = cut.to_owned();
    proof {
        assert(r@ =~= s@.take(end as int));
    }
    r
}

/// Wraps a length into a signed 64-bit value, as a narrowing cast would.
fn wrap_len(n: usize) -> (r: i64)
    ensures
        r as int == wrap64_wide(n as int),
{
    let u = n as u64;
    if u <= 0x7fff_ffff_ffff_ffffu64 {
        u as i64
    } else {
        let d: u64 = u - 0x8000_0000_0000_0000u64;
        let r = i64::MIN + (d as i64);
        r
    }
}

/// Returns the absolute value of an integer (wrapping at the 64-bit
/// boundary); any other argument yields `Undefined`.
pub fn std_abs(val: &Value) -> (r: Value)
    ensures
        r.model() == abs_model(val.model()),
        r.wf(),
{
    match val {
        Value::Integer(n) => {
            if *n == i64::MIN {
                Value::Integer(i64::MIN)
            } else if *n < 0 {
                Value::Integer(-(*n))
            } else {
                Value::Integer(*n)
            }
        },
        _ => Value::Undefined,
    }
}

/// Returns the length of a string (in characters), array or dictionary;
/// any other argument yields `Undefined`.
pub fn std_len(val: &Value) -> (r: Value)
    ensures
        r.model() == len_model(val.model()),
        r.wf(),
{
    match val {
        Value::Str(s) => {
            proof {
                assert(val.model()->Text_0 == s@);
            }
            Value::Integer(wrap_len(s.unicode_len()))
        },
        Value::Array(vs) => {
            proof {
                lemma_seq_models(vs@);
            }
            Value::Integer(wrap_len(vs.len()))
        },
        Value::Dict(es) => {
            proof {
                crate::value::lemma_entry_models(es@);
            }
            Value::Integer(wrap_len(es.len()))
        },
        _ => Value::Undefined,
    }
}

/// Returns an array of the integers from start up to (excluding) end:
/// `range(e)` counts from zero, `range(s, e)` from `s`.
#[verifier::loop_isolation(false)]
pub fn std_range(args: &Vec<Value>) -> (r: Value)
    ensures
        r.model() == range_model(seq_models(args@)),
        r.wf(),
{
    proof {
        lemma_seq_models(args@);
    }
    let zero: i64 = 0;
    let (s, e): (i64, i64) = if args.len() >= 2 {
        match (&args[0], &args[1]) {
            (Value::Integer(a), Value::Integer(b)) => (*a, *b),
            _ => (zero, zero),
        }
    } else if args.len() == 1 {
        match &args[0] {
            Value::Integer(b) => (zero, *b),
            _ => (zero, zero),
        }
    } else {
        (zero, zero)
    };
    let ghost target = range_models(s as int, e as int);
    let mut out: Vec<Value> = Vec::new();
    let mut i: i64 = s;
    if s >= e {
        proof {
            lemma_seq_models(out@);
            assert(seq_models(out@) =~= target);
        }
        return Value::Array(out);
    }
    while i < e
        invariant
            s <= i <= e,
            out@.len() == i - s,
            forall|j: int| 0 <= j < out@.len() ==> (#[trigger] out@[j]) == Value::Integer(
                (s + j) as i64,
            ),
        decreases e - i,
    {
        out.push(Value::Integer(i));
        i += 1;
    }
    proof {
        lemma_seq_models(out@);
        assert forall|j: int| 0 <= j < out@.len()
            implies seq_models(out@)[j] == target[j] by {
            assert(out@[j] == Value::Integer((s + j) as i64));
        }
        assert(seq_models(out@) =~= target);
        assert forall|j: int| 0 <= j < out@.len() implies (#[trigger] out@[j]).wf() by {
            assert(out@[j] == Value::Integer((s + j) as i64));
        }
    }
    Value::Array(out)
}

/// Converts to an integer: integers unchanged, decimal strings parsed,
/// booleans as zero or one; anything else yields `Undefined`.
pub fn std_int(val: &Value) -> (r: Value)
    ensures
        r.model() == int_cast_model(val.model()),
        r.wf(),
{
    match val {
        Value::Integer(n) => Value::Integer(*n),
        Value::Str(s) => match parse_i64(s.as_str()) {
            Some(n) => Value::Integer(n),
            None => Value::Undefined,
        },
        Value::Boolean(b) => Value::Integer(if *b { 1 } else { 0 }),
        _ => Value::Undefined,
    }
}

/// Converts to a string: the argument's display text.
pub fn std_str(val: &Value) -> (r: Value)
    ensures
        r.model() == str_cast_model(val.model()),
        r.wf(),
{
    Value::Str(render_value(val))
}

/// The float cast. This interpreter's value model carries no
/// floating-point values, so the cast never produces one.
pub fn std_float(val: &Value) -> (r: Value)
    ensures
        r.model() == ValueModel::Undef,
        r.wf(),
{
    let _ = val;
    Value::Undefined
}

/// Converts to a boolean: the argument's truthiness.
pub fn std_bool(val: &Value) -> (r: Value)
    ensures
        r.model() == bool_cast_model(val.model()),
        r.wf(),
{
    Value::Boolean(is_truthy(val))
}

/// Decides [`lt_val`] on two values.
fn lt_value(a: &Value, b: &Value) -> (r: bool)
    ensures
        r == lt_val(a.model(), b.model()),
{
    match (a, b) {
        (Value::Integer(x), Value::Integer(y)) => *x < *y,
        (Value::Str(x), Value::Str(y)) => crate::operators::str_lt(x.as_str(), y.as_str()),
        _ => false,
    }
}

/// Decides [`gt_val`] on two values.
fn gt_value(a: &Value, b: &Value) -> (r: bool)
    ensures
        r == gt_val(a.model(), b.model()),
{
    match (a, b) {
        (Value::Integer(x), Value::Integer(y)) => *x > *y,
        (Value::Str(x), Value::Str(y)) => crate::operators::str_lt(y.as_str(), x.as_str()),
        _ => false,
    }
}

/// The smallest of an array's elements, or of the arguments themselves:
/// a running minimum under [`lt_val`], so incomparable values keep the
/// earlier candidate.
#[verifier::loop_isolation(false)]
pub fn std_min(args: &Vec<Value>) -> (r: Value)
    requires
        values_wf(args@),
    ensures
        r.model() == min_model(seq_models(args@)),
        r.wf(),
{
    proof {
        lemma_seq_models(args@);
    }
    if args.len() == 0 {
        return Value::Undefined;
    }
    match &args[0] {
        Value::Array(vs) => {
            proof {
                lemma_seq_models(vs@);
            }
            if vs.len() == 0 {
                return Value::Undefined;
            }
            let ghost ms = seq_models(vs@);
            proof {
                assert(args@[0].wf());
                assert(vs@[0].wf());
            }
            let mut best = vs[0].clone();
            let mut i: usize = 1;
            while i < vs.len()
                invariant
                    1 <= i <= vs@.len(),
                    best.model() == min_upto(ms, i - 1),
                    best.wf(),
                decreases vs@.len() - i,
            {
                if lt_value(&vs[i], &best) {
                    best = vs[i].clone();
                }
                i += 1;
            }
            best
        },
        _ => {
            let ghost ms = seq_models(args@);
            proof {
                assert(args@[0].wf());
            }
            let mut best = args[0].clone();
            let mut i: usize = 1;
            while i < args.len()
                invariant
                    1 <= i <= args@.len(),
                    best.model() == min_upto(ms, i - 1),
                    best.wf(),
                decreases args@.len() - i,
            {
                if lt_value(&args[i], &best) {
                    best = args[i].clone();
                }
                i += 1;
            }
            best
        },
    }
}

/// The largest of an array's elements, or of the arguments themselves,
/// dually to [`std_min`].
#[verifier::loop_isolation(false)]
pub fn std_max(args: &Vec<Value>) -> (r: Value)
    requires
        values_wf(args@),
    ensures
        r.model() == max_model(seq_models(args@)),
        r.wf(),
{
    proof {
        lemma_seq_models(args@);
    }
    if args.len() == 0 {
        return Value::Undefined;
    }
    match &args[0] {
        Value::Array(vs) => {
            proof {
                lemma_seq_models(vs@);
            }
            if vs.len() == 0 {
                return Value::Undefined;
            }
            let ghost ms = seq_models(vs@);
            proof {
                assert(args@[0].wf());
                assert(vs@[0].wf());
            }
            let mut best = vs[0].clone();
            let mut i: usize = 1;
            while i < vs.len()
                invariant
                    1 <= i <= vs@.len(),
                    best.model() == max_upto(ms, i - 1),
                    best.wf(),
                decreases vs@.len() - i,
            {
                if gt_value(&vs[i], &best) {
                    best = vs[i].clone();
                }
                i += 1;
            }
            best
        },
        _ => {
            let ghost ms = seq_models(args@);
            proof {
                assert(args@[0].wf());
            }
            let mut best = args[0].clone();
            let mut i: usize = 1;
            while i < args.len()
                invariant
                    1 <= i <= args@.len(),
                    best.model() == max_upto(ms, i - 1),
                    best.wf(),
                decreases args@.len() - i,
            {
                if gt_value(&args[i], &best) {
                    best = args[i].clone();
                }
                i += 1;
            }
            best
        },
    }
}

/// Once the running sum has failed on a non-integer, it stays failed.
proof fn lemma_sum_upto_none(s: Seq<ValueModel>, i: int, n: int)
    requires
        sum_upto(s, i) is None,
        0 <= i <= n,
    ensures
        sum_upto(s, n) is None,
    decreases n - i,
{
    if i < n {
        lemma_sum_upto_none(s, i + 1, n);
    }
}

/// The wrapping sum of an all-integer array; `Undefined` when any
/// element is not numeric.
#[verifier::loop_isolation(false)]
pub fn std_sum(args: &Vec<Value>) -> (r: Value)
    ensures
        r.model() == sum_model(seq_models(args@)),
        r.wf(),
{
    proof {
        lemma_seq_models(args@);
    }
    if args.len() == 0 {
        return Value::Integer(0);
    }
    match &args[0] {
        Value::Array(vs) => {
            proof {
                lemma_seq_models(vs@);
            }
            if vs.len() == 0 {
                return Value::Integer(0);
            }
            let ghost ms = seq_models(vs@);
            let mut acc: i64 = 0;
            let mut i: usize = 0;
            while i < vs.len()
                invariant
                    i <= vs@.len(),
                    sum_upto(ms, i as int) == Some(acc as int),
                decreases vs@.len() - i,
            {
                match &vs[i] {
                    Value::Integer(n) => {
                        acc = acc.wrapping_add(*n);
                    },
                    _ => {
                        proof {
                            assert(sum_upto(ms, i + 1) is None);
                            lemma_sum_upto_none(ms, i + 1, ms.len() as int);
                        }
                        return Value::Undefined;
                    },
                }
                i += 1;
            }
            Value::Integer(acc)
        },
        _ => Value::Undefined,
    }
}

/// Rounds: an integer is already round; anything else yields
/// `Undefined`.
pub fn std_round(args: &Vec<Value>) -> (r: Value)
    ensures
        r.model() == round_model(seq_models(args@)),
        r.wf(),
{
    proof {
        lemma_seq_models(args@);
    }
    if args.len() == 0 {
        return Value::Undefined;
    }
    match &args[0] {
        Value::Integer(n) => Value::Integer(*n),
        _ => Value::Undefined,
    }
}

/// Returns a new array with the second argument appended to the first.
pub fn std_append(args: &Vec<Value>) -> (r: Value)
    requires
        values_wf(args@),
    ensures
        r.model() == append_model(seq_models(args@)),
        r.wf(),
{
    proof {
        lemma_seq_models(args@);
    }
    if args.len() < 2 {
        return Value::Undefined;
    }
    match args[0].clone() {
        Value::Array(mut arr) => {
            let ghost before = arr@;
            arr.push(args[1].clone());
            proof {
                lemma_seq_models_push(before, arr@.last());
                assert(arr@.drop_last() =~= before);
                assert forall|j: int| 0 <= j < arr@.len() implies (#[trigger] arr@[j]).wf() by {
                    if j < before.len() {
                        assert(before[j].wf());
                    }
                }
            }
            Value::Array(arr)
        },
        _ => Value::Undefined,
    }
}

/// Returns a new array with the third argument inserted at the second's
/// (clamped) index position.
#[verifier::rlimit(80)]
pub fn std_insert(args: &Vec<Value>) -> (r: Value)
    requires
        values_wf(args@),
    ensures
        r.model() == insert_model(seq_models(args@)),
        r.wf(),
{
    proof {
        lemma_seq_models(args@);
    }
    if args.len() < 3 {
        return Value::Undefined;
    }
    let idx: i64 = match &args[1] {
        Value::Integer(n) => *n,
        _ => {
            return Value::Undefined;
        },
    };
    match args[0].clone() {
        Value::Array(mut arr) => {
            let len = arr.len();
            let lu = len as u64;
            let pos: usize = if idx >= 0 {
                if (idx as u64) < lu {
                    idx as usize
                } else {
                    len
                }
            } else {
                let mag: u64 = ((-(idx + 1)) as u64) + 1;
                if mag >= lu {
                    0
                } else {
                    len - (mag as usize)
                }
            };
            proof {
                assert(pos as int == insert_pos(idx as int, arr@.len() as int));
            }
            let ghost before = arr@;
            arr.insert(pos, args[2].clone());
            proof {
                lemma_seq_models(before);
                lemma_seq_models(arr@);
                let target = seq_models(before).insert(pos as int, args@[2].model());
                assert forall|j: int| 0 <= j < arr@.len()
                    implies seq_models(arr@)[j] == target[j] by {
                    if j < pos {
                        assert(arr@[j] == before[j]);
                    } else if j == pos {
                        assert(arr@[j].model() == args@[2].model());
                    } else {
                        assert(arr@[j] == before[j - 1]);
                    }
                }
                assert(seq_models(arr@) =~= target);
                assert(args@[0].wf());
                assert forall|j: int| 0 <= j < arr@.len() implies (#[trigger] arr@[j]).wf() by {
                    if j < pos {
                        assert(arr@[j] == before[j]);
                        assert(before[j].wf());
                    } else if j == pos {
                        assert(args@[2].wf());
                    } else {
                        assert(arr@[j] == before[j - 1]);
                        assert(before[j - 1].wf());
                    }
                }
            }
            Value::Array(arr)
        },
        _ => Value::Undefined,
    }
}

/// Returns the element at the given index (default: the last), counting
/// negative indices from the end; out-of-range indices and non-arrays
/// yield `Undefined`.
pub fn std_pop(args: &Vec<Value>) -> (r: Value)
    requires
        values_wf(args@),
    ensures
        r.model() == pop_model(seq_models(args@)),
        r.wf(),
{
    proof {
        lemma_seq_models(args@);
    }
    if args.len() == 0 {
        return Value::Undefined;
    }
    match &args[0] {
        Value::Array(arr) => {
            proof {
                lemma_seq_models(arr@);
            }
            if arr.len() == 0 {
                return Value::Undefined;
            }
            let len = arr.len();
            let lu = len as u64;
            let in_range: bool;
            let mut pos: usize = len - 1;
            if args.len() > 1 {
                match &args[1] {
                    Value::Integer(n) => {
                        if *n >= 0 {
                            if (*n as u64) < lu {
                                pos = *n as usize;
                                in_range = true;
                            } else {
                                in_range = false;
                            }
                        } else {
                            let mag: u64 = ((-(*n + 1)) as u64) + 1;
                            if mag >= lu {
                                pos = 0;
                                in_range = true;
                            } else {
                                pos = len - (mag as usize);
                                in_range = true;
                            }
                        }
                    },
                    _ => {
                        in_range = true;
                    },
                }
            } else {
                in_range = true;
            }
            if !in_range {
                return Value::Undefined;
            }
            proof {
                assert(args@[0].wf());
                assert(arr@[pos as int].wf());
            }
            arr[pos].clone()
        },
        _ => Value::Undefined,
    }
}

/// Skipping positions without a match leaves the first match unchanged.
proof fn lemma_find_first_skip(s: Seq<ValueModel>, x: ValueModel, i: int)
    requires
        0 <= i <= s.len(),
        forall|j: int| 0 <= j < i ==> !val_eq(#[trigger] s[j], x),
    ensures
        find_first(s, x, 0) == find_first(s, x, i),
    decreases i,
{
    if i > 0 {
        lemma_find_first_skip(s, x, i - 1);
    }
}

/// Skipping positions without an occurrence leaves the first occurrence
/// unchanged.
proof fn lemma_find_sub_skip(s: Seq<char>, sub: Seq<char>, i: int)
    requires
        0 <= i <= s.len() + 1,
        forall|j: int| 0 <= j < i ==> #[trigger] s.subrange(j, j + sub.len() as int) != sub,
    ensures
        find_sub(s, sub, 0) == find_sub(s, sub, i),
    decreases i,
{
    if i > 0 {
        lemma_find_sub_skip(s, sub, i - 1);
    }
}

/// The position of the first array element structurally equal to the
/// needle, or of the first occurrence of a substring; `-1` when absent.
#[verifier::loop_isolation(false)]
#[verifier::rlimit(30)]
pub fn std_index(args: &Vec<Value>) -> (r: Value)
    requires
        values_wf(args@),
    ensures
        r.model() == index_model(seq_models(args@)),
        r.wf(),
{
    proof {
        lemma_seq_models(args@);
    }
    if args.len() < 2 {
        return Value::Undefined;
    }
    match &args[0] {
        Value::Array(arr) => {
            proof {
                lemma_seq_models(arr@);
                assert(args@[0].wf());
                assert(args@[1].wf());
            }
            let ghost ms = seq_models(arr@);
            let ghost xm = args@[1].model();
            let mut i: usize = 0;
            while i < arr.len()
                invariant
                    i <= arr@.len(),
                    forall|j: int| 0 <= j < i ==> !val_eq(#[trigger] ms[j], xm),
                decreases arr@.len() - i,
            {
                proof {
                    assert(arr@[i as int].wf());
                }
                if values_equal(&arr[i], &args[1]) {
                    proof {
                        lemma_find_first_skip(ms, xm, i as int);
                    }
                    return Value::Integer(wrap_len(i));
                }
                i += 1;
            }
            proof {
                lemma_find_first_skip(ms, xm, arr@.len() as int);
            }
            Value::Integer(-1)
        },
        Value::Str(s) => {
            match &args[1] {
                Value::Str(sub) => {
                    let n = s.unicode_len();
                    let m = sub.unicode_len();
                    if m > n {
                        proof {
                            assert(find_sub(s@, sub@, 0) == -1);
                        }
                        return Value::Integer(-1);
                    }
                    let mut i: usize = 0;
                    while i <= n - m
                        invariant
                            m <= n,
                            i <= n - m + 1,
                            forall|j: int| 0 <= j < i
                                ==> #[trigger] s@.subrange(j, j + sub@.len() as int) != sub@,
                        decreases n - m - i + 1,
                    {
                        let mut j: usize = 0;
                        let mut matches_here = true;
                        while j < m
                            invariant
                                j <= m,
                                i + m <= n,
                                matches_here ==> forall|q: int| 0 <= q < j
                                    ==> s@[i + q] == sub@[q],
                                !matches_here ==> m > 0,
                                !matches_here ==> s@.subrange(
                                    i as int,
                                    i + sub@.len() as int,
                                ) != sub@,
                            decreases m - j,
                        {
                            if s.get_char(i + j) != sub.get_char(j) {
                                proof {
                                    assert(s@.subrange(i as int, i + sub@.len() as int)[j as int]
                                        == s@[i + j]);
                                }
                                matches_here = false;
                                j = m;
                            } else {
                                j += 1;
                            }
                        }
                        if matches_here {
                            proof {
                                assert forall|q: int| 0 <= q < sub@.len()
                                    implies s@.subrange(i as int, i + sub@.len() as int)[q]
                                        == sub@[q] by {
                                    assert(s@[i + q] == sub@[q]);
                                }
                                assert(s@.subrange(i as int, i + sub@.len() as int) =~= sub@);
                                lemma_find_sub_skip(s@, sub@, i as int);
                            }
                            return Value::Integer(wrap_len(i));
                        }
                        i += 1;
                    }
                    proof {
                        lemma_find_sub_skip(s@, sub@, (n - m + 1) as int);
                        assert(find_sub(s@, sub@, (n - m + 1) as int) == -1);
                    }
                    Value::Integer(-1)
                },
                _ => Value::Integer(-1),
            }
        },
        _ => Value::Undefined,
    }
}

/// Inserting before the first strictly-greater element realises
/// [`sorted_insert`].
proof fn lemma_sorted_insert_at(out: Seq<ValueModel>, x: ValueModel, p: int)
    requires
        0 <= p <= out.len(),
        forall|j: int| 0 <= j < p ==> !gt_val(#[trigger] out[j], x),
        p < out.len() ==> gt_val(out[p], x),
    ensures
        sorted_insert(out, x) == out.insert(p, x),
    decreases out,
{
    if out.len() == 0 {
        assert(sorted_insert(out, x) =~= out.insert(0, x));
    } else if gt_val(out[0], x) {
        assert(p == 0);
        assert(seq![x] + out =~= out.insert(0, x));
    } else {
        assert(p > 0);
        assert forall|j: int| 0 <= j < p - 1
            implies !gt_val(#[trigger] out.drop_first()[j], x) by {
            assert(out.drop_first()[j] == out[j + 1]);
        }
        if p - 1 < out.drop_first().len() {
            assert(out.drop_first()[p - 1] == out[p]);
        }
        lemma_sorted_insert_at(out.drop_first(), x, p - 1);
        assert(seq![out[0]] + out.drop_first().insert(p - 1, x) =~= out.insert(p, x));
    }
}

/// Returns a new array holding the elements in sorted order: integers by
/// value, strings lexicographically, anything else left where the stable
/// insertion finds it; realises [`sort_models`].
#[verifier::loop_isolation(false)]
#[verifier::rlimit(30)]
pub fn std_sort(args: &Vec<Value>) -> (r: Value)
    requires
        values_wf(args@),
    ensures
        r.model() == sort_model(seq_models(args@)),
        r.wf(),
{
    proof {
        lemma_seq_models(args@);
    }
    if args.len() == 0 {
        return Value::Undefined;
    }
    match &args[0] {
        Value::Array(arr) => {
            proof {
                lemma_seq_models(arr@);
                assert(args@[0].wf());
            }
            let ghost ms = seq_models(arr@);
            let mut out: Vec<Value> = Vec::new();
            let mut i: usize = 0;
            proof {
                assert(seq_models(out@) =~= sort_models(ms.take(0)));
            }
            while i < arr.len()
                invariant
                    i <= arr@.len(),
                    seq_models(out@) == sort_models(ms.take(i as int)),
                    values_wf(out@),
                decreases arr@.len() - i,
            {
                proof {
                    assert(arr@[i as int].wf());
                }
                let x = arr[i].clone();
                let ghost xm = x.model();
                let mut p: usize = 0;
                let mut found = false;
                while !found && p < out.len()
                    invariant
                        p <= out@.len(),
                        forall|j: int| 0 <= j < p
                            ==> !gt_val((#[trigger] out@[j]).model(), xm),
                        found ==> p < out@.len() && gt_val(out@[p as int].model(), xm),
                    decreases out@.len() - p + (if found { 0int } else { 1int }),
                {
                    if gt_value(&out[p], &x) {
                        found = true;
                    } else {
                        p += 1;
                    }
                }
                let ghost before = out@;
                out.insert(p, x);
                proof {
                    lemma_seq_models(before);
                    lemma_seq_models(out@);
                    assert forall|j: int| 0 <= j < p
                        implies !gt_val(#[trigger] seq_models(before)[j], xm) by {
                        assert(!gt_val(before[j].model(), xm));
                    }
                    if (p as int) < before.len() {
                        assert(gt_val(seq_models(before)[p as int], xm));
                    }
                    lemma_sorted_insert_at(seq_models(before), xm, p as int);
                    assert forall|j: int| 0 <= j < out@.len()
                        implies seq_models(out@)[j] == seq_models(before).insert(p as int, xm)[j]
                        by {
                        if j < p {
                            assert(out@[j] == before[j]);
                        } else if j == p {
                        } else {
                            assert(out@[j] == before[j - 1]);
                        }
                    }
                    assert(seq_models(out@) =~= seq_models(before).insert(p as int, xm));
                    assert(ms.take(i + 1).drop_last() =~= ms.take(i as int));
                    assert(ms.take(i + 1).last() == ms[i as int]);
                    assert forall|j: int| 0 <= j < out@.len()
                        implies (#[trigger] out@[j]).wf() by {
                        if j < p {
                            assert(out@[j] == before[j]);
                            assert(before[j].wf());
                        } else if j > p {
                            assert(out@[j] == before[j - 1]);
                            assert(before[j - 1].wf());
                        }
                    }
                }
                i += 1;
            }
            proof {
                assert(ms.take(arr@.len() as int) =~= ms);
            }
            Value::Array(out)
        },
        _ => Value::Undefined,
    }
}

/// Prints a value's display text as one line through the host.
pub fn std_print(val: &Value, host: &mut Host)
    requires
        old(host).wf(),
    ensures
        final(host).wf(),
        final(host).live() == old(host).live(),
        final(host).inputs() == old(host).inputs(),
        final(host).cursor() == old(host).cursor(),
        final(host).prompts() == old(host).prompts(),
        final(host).output() == old(host).output().push(render(val.model())),
{
    let line = render_value(val);
    host.emit_line(line);
}

/// Prompts (when the argument is a string) and reads one line of input
/// through the host, re-reading it as an integer when it parses as one.
pub fn std_input(prompt: &Value, host: &mut Host) -> (r: Value)
    requires
        old(host).wf(),
    ensures
        final(host).wf(),
        r.wf(),
        final(host).live() == old(host).live(),
        final(host).inputs() == old(host).inputs(),
        final(host).output() == old(host).output(),
        final(host).prompts() == (match prompt.model() {
            ValueModel::Text(p) => old(host).prompts().push(p),
            _ => old(host).prompts(),
        }),
        !old(host).live() ==> {
            if old(host).cursor() < old(host).inputs().len() {
                final(host).cursor() == old(host).cursor() + 1
                    && r.model() == input_value(old(host).inputs()[old(host).cursor()])
            } else {
                final(host).cursor() == old(host).cursor() && r.model() == ValueModel::Undef
            }
        },
        old(host).live() ==> final(host).cursor() == old(host).cursor(),
{
    match prompt {
        Value::Str(p) => {
            host.show_prompt(p.clone());
        },
        _ => {},
    }
    match host.read_line() {
        Some(line) => {
            let trimmed = trim_line_end(line.as_str());
            match parse_i64(trimmed.as_str()) {
                Some(n) => Value::Integer(n),
                None => Value::Str(trimmed),
            }
        },
        None => Value::Undefined,
    }
}

/// Calls a builtin on already-evaluated arguments. The pure builtins
/// yield [`pure_builtin_model`] and leave the host alone; `print` and
/// `input` go through the host as their own contracts state.
pub fn call_builtin(b: Builtin, args: &Vec<Value>, host: &mut Host) -> (r: Value)
    requires
        values_wf(args@),
        old(host).wf(),
    ensures
        final(host).wf(),
        r.wf(),
        final(host).live() == old(host).live(),
        final(host).inputs() == old(host).inputs(),
        !(b is Print || b is Input) ==> *final(host) == *old(host) && r.model() == pure_builtin_model(
            b,
            seq_models(args@),
        ),
        b is Print ==> {
            &&& final(host).output() == old(host).output().push(
                render(arg0_or(seq_models(args@), ValueModel::Text(Seq::empty()))),
            )
            &&& final(host).cursor() == old(host).cursor()
            &&& final(host).prompts() == old(host).prompts()
            &&& r.model() == ValueModel::Int(0)
        },
        b is Input ==> {
            &&& final(host).output() == old(host).output()
            &&& final(host).prompts() == (match arg0_or(
                seq_models(args@),
                ValueModel::Text(Seq::empty()),
            ) {
                ValueModel::Text(p) => old(host).prompts().push(p),
                _ => old(host).prompts(),
            })
            &&& !old(host).live() ==> {
                if old(host).cursor() < old(host).inputs().len() {
                    final(host).cursor() == old(host).cursor() + 1
                        && r.model() == input_value(old(host).inputs()[old(host).cursor()])
                } else {
                    final(host).cursor() == old(host).cursor() && r.model() == ValueModel::Undef
                }
            }
            &&& old(host).live() ==> final(host).cursor() == old(host).cursor()
        },
{
    proof {
        lemma_seq_models(args@);
    }
    let fallback = Value::Str(String::new());
    let arg0: &Value = if args.len() > 0 {
        &args[0]
    } else {
        &fallback
    };
    proof {
        if args@.len() > 0 {
            assert(args@[0].wf());
        }
        assert(arg0.model() == arg0_or(seq_models(args@), ValueModel::Text(Seq::empty())));
    }
    match b {
        Builtin::Print => {
            std_print(arg0, host);
            Value::Integer(0)
        },
        Builtin::Input => std_input(arg0, host),
        Builtin::Abs => {
            proof {
                assert(arg0.model() == arg0_or(seq_models(args@), ValueModel::Int(0))
                    || args@.len() == 0);
            }
            if args.len() == 0 {
                let d = Value::Integer(0);
                std_abs(&d)
            } else {
                std_abs(arg0)
            }
        },
        Builtin::Len => std_len(arg0),
        Builtin::Range => std_range(args),
        Builtin::IntCast => {
            if args.len() == 0 {
                let d = Value::Integer(0);
                std_int(&d)
            } else {
                std_int(arg0)
            }
        },
        Builtin::StrCast => std_str(arg0),
        Builtin::FloatCast => std_float(arg0),
        Builtin::BoolCast => {
            if args.len() == 0 {
                let d = Value::Integer(0);
                std_bool(&d)
            } else {
                std_bool(arg0)
            }
        },
        Builtin::Min => std_min(args),
        Builtin::Max => std_max(args),
        Builtin::Sum => std_sum(args),
        Builtin::Round => std_round(args),
        Builtin::Append => std_append(args),
        Builtin::Insert => std_insert(args),
        Builtin::Pop => std_pop(args),
        Builtin::Index => std_index(args),
        Builtin::Sort => std_sort(args),
    }
}

} // verus!
