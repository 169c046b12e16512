//! The runtime value model of the language: a closed tagged union of
//! integers, strings, booleans, arrays, dictionaries and the `Undefined`
//! sentinel, together with its mathematical abstraction [`ValueModel`].
//!
//! Dictionaries keep their entries in insertion order (which fixes how they
//! are rendered as text), but compare as unordered key-to-value maps: the
//! language's structural equality is the spec function [`val_eq`], and is
//! decided by the executable [`values_equal`].

use vstd::prelude::*;
use vstd::seq::axiom_seq_index_decreases;
use vstd::seq::axiom_seq_subrange_decreases;

verus! {

/// A runtime value. Dictionaries are kept as association vectors whose keys
/// are unique (see [`Value::wf`]).
#[derive(Debug)]
pub enum Value {
    Integer(i64),
    Str(String),
    Boolean(bool),
    Array(Vec<Value>),
    Dict(Vec<(String, Value)>),
    Undefined,
}

/// The mathematical abstraction of a [`Value`]: integers are unbounded,
/// strings are character sequences, arrays are sequences and dictionaries
/// are sequences of key-value entries in insertion order.
pub enum ValueModel {
    Int(int),
    Text(Seq<char>),
    Bool(bool),
    Arr(Seq<ValueModel>),
    Dict(Seq<(Seq<char>, ValueModel)>),
    Undef,
}

/// The abstractions of a sequence of values, element by element.
pub open spec fn seq_models(s: Seq<Value>) -> Seq<ValueModel>
    decreases s,
{
    if s.len() == 0 {
        Seq::empty()
    } else {
        proof {
            axiom_seq_subrange_decreases::<Value>(s, 0, s.len() - 1);
            axiom_seq_index_decreases::<Value>(s, s.len() - 1);
        }
        seq_models(s.drop_last()).push(s.last().model())
    }
}

/// The abstractions of a dictionary's association entries, in order.
pub open spec fn entry_models(es: Seq<(String, Value)>) -> Seq<(Seq<char>, ValueModel)>
    decreases es,
{
    if es.len() == 0 {
        Seq::empty()
    } else {
        proof {
            axiom_seq_subrange_decreases::<(String, Value)>(es, 0, es.len() - 1);
            axiom_seq_index_decreases::<(String, Value)>(es, es.len() - 1);
            assert(decreases_to!(es.last() => es.last().1));
        }
        entry_models(es.drop_last()).push((es.last().0@, es.last().1.model()))
    }
}

/// `seq_models` maps a sequence of values to their abstractions pointwise.
pub broadcast proof fn lemma_seq_models(s: Seq<Value>)
    ensures
        (#[trigger] seq_models(s)).len() == s.len(),
        forall|i: int| 0 <= i < s.len() ==> seq_models(s)[i] == (#[trigger] s[i]).model(),
    decreases s,
{
    if s.len() > 0 {
        lemma_seq_models(s.drop_last());
        assert forall|i: int| 0 <= i < s.len() implies seq_models(s)[i] == (#[trigger] s[i]).model() by {
            if i < s.len() - 1 {
                assert(s.drop_last()[i] == s[i]);
            } else {
                assert(seq_models(s)[i] == s.last().model());
            }
        }
    }
}

/// `entry_models` maps association entries to their abstractions pointwise.
pub broadcast proof fn lemma_entry_models(es: Seq<(String, Value)>)
    ensures
        (#[trigger] entry_models(es)).len() == es.len(),
        forall|i: int| 0 <= i < es.len()
            ==> entry_models(es)[i] == ((#[trigger] es[i]).0@, es[i].1.model()),
    decreases es,
{
    if es.len() > 0 {
        lemma_entry_models(es.drop_last());
        assert forall|i: int| 0 <= i < es.len()
            implies entry_models(es)[i] == ((#[trigger] es[i]).0@, es[i].1.model()) by {
            if i < es.len() - 1 {
                assert(es.drop_last()[i] == es[i]);
            } else {
                assert(entry_models(es)[i] == (es.last().0@, es.last().1.model()));
            }
        }
    }
}

/// A plain integer wrapper, kept for drivers that carry numbers apart
/// from the full value union.
#[derive(Debug, Clone, Copy, PartialEq, Eq, Structural)]
pub struct Number(pub i64);

/// A plain string wrapper, kept for drivers that carry text apart from
/// the full value union.
#[derive(Debug, Clone, PartialEq)]
pub struct StringValue(pub String);

/// A plain boolean wrapper, kept for drivers that carry flags apart from
/// the full value union.
#[derive(Debug, Clone, Copy, PartialEq, Eq, Structural)]
pub struct BooleanValue(pub bool);

/// The truthiness of a value, as conditionals and loops test it:
/// nonzero integers, non-empty strings, arrays and dictionaries, and
/// `true` are truthy; everything else, `Undefined` included, is falsy.
pub open spec fn truthy(v: ValueModel) -> bool {
    match v {
        ValueModel::Int(i) => i != 0,
        ValueModel::Text(s) => s.len() > 0,
        ValueModel::Bool(b) => b,
        ValueModel::Arr(vs) => vs.len() > 0,
        ValueModel::Dict(es) => es.len() > 0,
        ValueModel::Undef => false,
    }
}

/// Decides truthiness, realising [`truthy`].
pub fn is_truthy(value: &Value) -> (r: bool)
    ensures
        r == truthy(value.model()),
{
    match value {
        Value::Integer(i) => *i != 0,
        Value::Str(s) => s.unicode_len() != 0,
        Value::Boolean(b) => *b,
        Value::Array(vs) => {
            proof {
                lemma_seq_models(vs@);
            }
            vs.len() != 0
        },
        Value::Dict(es) => {
            proof {
                lemma_entry_models(es@);
            }
            es.len() != 0
        },
        Value::Undefined => false,
    }
}

/// Appending a value appends its abstraction.
pub proof fn lemma_seq_models_push(s: Seq<Value>, v: Value)
    ensures
        seq_models(s.push(v)) == seq_models(s).push(v.model()),
{
    assert(s.push(v).drop_last() =~= s);
    assert(s.push(v).last() == v);
}

/// Appending an entry appends its abstraction.
pub proof fn lemma_entry_models_push(es: Seq<(String, Value)>, e: (String, Value))
    ensures
        entry_models(es.push(e)) == entry_models(es).push((e.0@, e.1.model())),
{
    assert(es.push(e).drop_last() =~= es);
    assert(es.push(e).last() == e);
}

impl Value {
    /// The abstraction of this value.
    pub open spec fn model(self) -> ValueModel
        decreases self,
    {
        match self {
            Value::Integer(i) => ValueModel::Int(i as int),
            Value::Str(s) => ValueModel::Text(s@),
            Value::Boolean(b) => ValueModel::Bool(b),
            Value::Array(vs) => {
                proof {
                    assert(decreases_to!(self => vs));
                    assert(decreases_to!(vs => vs@));
                }
                ValueModel::Arr(seq_models(vs@))
            },
            Value::Dict(es) => {
                proof {
                    assert(decreases_to!(self => es));
                    assert(decreases_to!(es => es@));
                }
                ValueModel::Dict(entry_models(es@))
            },
            Value::Undefined => ValueModel::Undef,
        }
    }

    /// Well-formedness: every dictionary, at any depth, has pairwise
    /// distinct keys.
    pub open spec fn wf(self) -> bool
        decreases self,
    {
        match self {
            Value::Integer(_) => true,
            Value::Str(_) => true,
            Value::Boolean(_) => true,
            Value::Array(vs) => {
                proof {
                    assert(decreases_to!(self => vs));
                    assert(decreases_to!(vs => vs@));
                }
                values_wf(vs@)
            },
            Value::Dict(es) => {
                proof {
                    assert(decreases_to!(self => es));
                    assert(decreases_to!(es => es@));
                }
                unique_keys(es@) && entry_values_wf(es@)
            },
            Value::Undefined => true,
        }
    }
}

/// All values of a sequence are well-formed.
pub open spec fn values_wf(s: Seq<Value>) -> bool
    decreases s,
{
    forall|i: int| 0 <= i < s.len() ==> (#[trigger] s[i]).wf()
}

/// The keys of an association sequence are pairwise distinct.
pub open spec fn unique_keys(es: Seq<(String, Value)>) -> bool {
    forall|p: int, q: int|
        0 <= p < q < es.len() ==> (#[trigger] es[p].0@) != (#[trigger] es[q].0@)
}

/// All values of an association sequence are well-formed.
pub open spec fn entry_values_wf(es: Seq<(String, Value)>) -> bool
    decreases es,
{
    forall|i: int| 0 <= i < es.len() ==> (#[trigger] es[i].1).wf()
}

/// Structural equality of two abstract values: integers, strings and
/// booleans by their contents, arrays elementwise in order, dictionaries as
/// unordered key-to-value collections. Values of different kinds are
/// unequal.
pub open spec fn val_eq(a: ValueModel, b: ValueModel) -> bool
    decreases a, 2int,
{
    match (a, b) {
        (ValueModel::Int(x), ValueModel::Int(y)) => x == y,
        (ValueModel::Text(x), ValueModel::Text(y)) => x == y,
        (ValueModel::Bool(x), ValueModel::Bool(y)) => x == y,
        (ValueModel::Undef, ValueModel::Undef) => true,
        (ValueModel::Arr(xs), ValueModel::Arr(ys)) => {
            &&& xs.len() == ys.len()
            &&& forall|i: int| 0 <= i < xs.len() ==> val_eq(#[trigger] xs[i], ys[i])
        },
        (ValueModel::Dict(xs), ValueModel::Dict(ys)) => {
            dict_covered(xs, ys) && dict_keys_covered(ys, xs)
        },
        _ => false,
    }
}

/// Each entry of `xs` has a matching key in `ys` bound to an equal value.
pub open spec fn dict_covered(
    xs: Seq<(Seq<char>, ValueModel)>,
    ys: Seq<(Seq<char>, ValueModel)>,
) -> bool
    decreases xs, 0int,
{
    forall|i: int| 0 <= i < xs.len() ==> dict_entry_covered(#[trigger] xs[i], ys)
}

/// Some entry of `ys` carries key `e.0` and a value equal to `e.1`.
pub open spec fn dict_entry_covered(
    e: (Seq<char>, ValueModel),
    ys: Seq<(Seq<char>, ValueModel)>,
) -> bool
    decreases e, 1int,
{
    exists|j: int| 0 <= j < ys.len() && (#[trigger] ys[j]).0 == e.0 && val_eq(e.1, ys[j].1)
}

/// Each key of `ys` occurs among the keys of `xs`.
pub open spec fn dict_keys_covered(
    ys: Seq<(Seq<char>, ValueModel)>,
    xs: Seq<(Seq<char>, ValueModel)>,
) -> bool {
    forall|j: int| 0 <= j < ys.len() ==> exists|i: int|
        0 <= i < xs.len() && (#[trigger] xs[i]).0 == (#[trigger] ys[j]).0
}

/// Finds the first entry of an association vector whose key equals `key`.
pub fn entries_find(es: &Vec<(String, Value)>, key: &String) -> (r: Option<usize>)
    ensures
        match r {
            Some(i) => i < es@.len() && es@[i as int].0@ == key@
                && (forall|j: int| 0 <= j < i ==> (#[trigger] es@[j].0@) != key@),
            None => forall|j: int| 0 <= j < es@.len() ==> (#[trigger] es@[j].0@) != key@,
        },
{
    let mut i: usize = 0;
    while i < es.len()
        invariant
            i <= es@.len(),
            forall|j: int| 0 <= j < i ==> (#[trigger] es@[j].0@) != key@,
        decreases es@.len() - i,
    {
        if es[i].0 == *key {
            return Some(i);
        }
        i += 1;
    }
    None
}

/// Decides the language's structural equality of two well-formed values:
/// `r` holds exactly when the abstractions are equal under [`val_eq`].
#[verifier::loop_isolation(false)]
pub fn values_equal(a: &Value, b: &Value) -> (r: bool)
    requires
        a.wf(),
        b.wf(),
    ensures
        r == val_eq(a.model(), b.model()),
    decreases a, 1int,
{
    match (a, b) {
        (Value::Integer(x), Value::Integer(y)) => *x == *y,
        (Value::Str(x), Value::Str(y)) => *x == *y,
        (Value::Boolean(x), Value::Boolean(y)) => *x == *y,
        (Value::Undefined, Value::Undefined) => true,
        (Value::Array(xs), Value::Array(ys)) => {
            proof {
                lemma_seq_models(xs@);
                lemma_seq_models(ys@);
            }
            if xs.len() != ys.len() {
                return false;
            }
            let mut i: usize = 0;
            while i < xs.len()
                invariant
                    i <= xs@.len(),
                    forall|j: int| 0 <= j < i
                        ==> val_eq(#[trigger] xs@[j].model(), ys@[j].model()),
                decreases xs@.len() - i,
            {
                proof {
                    assert(decreases_to!(a => xs));
                    assert(decreases_to!(xs => xs@));
                    assert(decreases_to!(xs@ => xs@[i as int]));
                }
                if !values_equal(&xs[i], &ys[i]) {
                    return false;
                }
                i += 1;
            }
            proof {
                assert forall|p: int| 0 <= p < seq_models(xs@).len()
                    implies val_eq(#[trigger] seq_models(xs@)[p], seq_models(ys@)[p]) by {
                    assert(val_eq(xs@[p].model(), ys@[p].model()));
                }
            }
            true
        },
        (Value::Dict(xs), Value::Dict(ys)) => dict_entries_equal(xs, ys),
        _ => false,
    }
}

/// Compares two dictionaries' entry vectors as unordered maps.
#[verifier::loop_isolation(false)]
#[verifier::rlimit(50)]
fn dict_entries_equal(xs: &Vec<(String, Value)>, ys: &Vec<(String, Value)>) -> (r: bool)
    requires
        unique_keys(xs@),
        entry_values_wf(xs@),
        unique_keys(ys@),
        entry_values_wf(ys@),
    ensures
        r == val_eq(ValueModel::Dict(entry_models(xs@)), ValueModel::Dict(entry_models(ys@))),
    decreases xs, 0int,
{
    proof {
        lemma_entry_models(xs@);
        lemma_entry_models(ys@);
    }
    let mxs = Ghost(entry_models(xs@));
    let mys = Ghost(entry_models(ys@));
    let mut i: usize = 0;
    while i < xs.len()
        invariant
            i <= xs@.len(),
            forall|p: int| 0 <= p < i ==> dict_entry_covered(#[trigger] mxs@[p], mys@),
        decreases xs@.len() - i,
    {
        match entries_find(ys, &xs[i].0) {
            None => {
                proof {
                    assert forall|j: int| 0 <= j < mys@.len()
                        implies (#[trigger] mys@[j]).0 != mxs@[i as int].0 by {
                        assert(mys@[j] == (ys@[j].0@, ys@[j].1.model()));
                        assert(mxs@[i as int] == (xs@[i as int].0@, xs@[i as int].1.model()));
                        assert(ys@[j].0@ != xs@[i as int].0@);
                    }
                    assert(!dict_entry_covered(mxs@[i as int], mys@));
                    assert(!dict_covered(mxs@, mys@));
                }
                return false;
            },
            Some(k) => {
                proof {
                    assert(decreases_to!(xs => xs@));
                    assert(decreases_to!(xs@ => xs@[i as int]));
                    assert(decreases_to!(xs@[i as int] => xs@[i as int].1));
                }
                if !values_equal(&xs[i].1, &ys[k].1) {
                    proof {
                        assert forall|j: int|
                            0 <= j < mys@.len() && (#[trigger] mys@[j]).0 == mxs@[i as int].0
                            implies !val_eq(mxs@[i as int].1, mys@[j].1) by {
                            assert(mys@[j] == (ys@[j].0@, ys@[j].1.model()));
                            assert(mxs@[i as int] == (xs@[i as int].0@, xs@[i as int].1.model()));
                            assert(ys@[j].0@ == ys@[k as int].0@);
                            assert(j == k as int);
                        }
                        assert(!dict_entry_covered(mxs@[i as int], mys@));
                        assert(!dict_covered(mxs@, mys@));
                    }
                    return false;
                }
                proof {
                    assert(mys@[k as int] == (ys@[k as int].0@, ys@[k as int].1.model()));
                    assert(mys@[k as int].0 == mxs@[i as int].0);
                    assert(dict_entry_covered(mxs@[i as int], mys@));
                }
            },
        }
        i += 1;
    }
    let mut j: usize = 0;
    while j < ys.len()
        invariant
            j <= ys@.len(),
            i == xs@.len(),
            forall|p: int| 0 <= p < i ==> dict_entry_covered(#[trigger] mxs@[p], mys@),
            forall|q: int| 0 <= q < j ==> exists|p: int|
                0 <= p < mxs@.len() && (#[trigger] mxs@[p]).0 == (#[trigger] mys@[q]).0,
        decreases ys@.len() - j,
    {
        match entries_find(xs, &ys[j].0) {
            None => {
                proof {
                    assert forall|p: int| 0 <= p < mxs@.len()
                        implies (#[trigger] mxs@[p]).0 != mys@[j as int].0 by {
                        assert(mxs@[p] == (xs@[p].0@, xs@[p].1.model()));
                        assert(mys@[j as int] == (ys@[j as int].0@, ys@[j as int].1.model()));
                        assert(xs@[p].0@ != ys@[j as int].0@);
                    }
                    assert(!dict_keys_covered(mys@, mxs@));
                }
                return false;
            },
            Some(p) => {
                proof {
                    assert(mxs@[p as int].0 == mys@[j as int].0);
                }
            },
        }
        j += 1;
    }
    proof {
        assert(dict_covered(mxs@, mys@));
        assert(dict_keys_covered(mys@, mxs@));
    }
    true
}


/// Clones each value of a vector, preserving abstraction and
/// well-formedness pointwise.
fn clone_values(vs: &Vec<Value>) -> (res: Vec<Value>)
    ensures
        res@.len() == vs@.len(),
        forall|i: int| 0 <= i < vs@.len()
            ==> (#[trigger] res@[i]).model() == vs@[i].model(),
        forall|i: int| 0 <= i < vs@.len() ==> ((#[trigger] vs@[i]).wf() ==> res@[i].wf()),
    decreases vs,
{
    let mut res: Vec<Value> = Vec::new();
    let mut idx: usize = 0;
    while idx < vs.len()
        invariant
            idx <= vs@.len(),
            res@.len() == idx,
            forall|i: int| 0 <= i < idx ==> (#[trigger] res@[i]).model() == vs@[i].model(),
            forall|i: int| 0 <= i < idx ==> ((#[trigger] vs@[i]).wf() ==> res@[i].wf()),
        decreases vs@.len() - idx,
    {
        proof {
            assert(decreases_to!(vs => vs@));
            assert(decreases_to!(vs@ => vs@[idx as int]));
        }
        res.push(vs[idx].clone());
        idx += 1;
    }
    res
}

/// Clones each entry of an association vector, preserving keys and the
/// values' abstractions and well-formedness pointwise.
pub(crate) fn clone_entries(es: &Vec<(String, Value)>) -> (res: Vec<(String, Value)>)
    ensures
        res@.len() == es@.len(),
        forall|i: int| 0 <= i < es@.len() ==> (#[trigger] res@[i]).0@ == es@[i].0@,
        forall|i: int| 0 <= i < es@.len()
            ==> (#[trigger] res@[i]).1.model() == es@[i].1.model(),
        forall|i: int| 0 <= i < es@.len() ==> ((#[trigger] es@[i].1).wf() ==> res@[i].1.wf()),
    decreases es,
{
    let mut res: Vec<(String, Value)> = Vec::new();
    let mut idx: usize = 0;
    while idx < es.len()
        invariant
            idx <= es@.len(),
            res@.len() == idx,
            forall|i: int| 0 <= i < idx ==> (#[trigger] res@[i]).0@ == es@[i].0@,
            forall|i: int| 0 <= i < idx ==> (#[trigger] res@[i]).1.model() == es@[i].1.model(),
            forall|i: int| 0 <= i < idx ==> ((#[trigger] es@[i].1).wf() ==> res@[i].1.wf()),
        decreases es@.len() - idx,
    {
        proof {
            assert(decreases_to!(es => es@));
            assert(decreases_to!(es@ => es@[idx as int]));
            assert(decreases_to!(es@[idx as int] => es@[idx as int].1));
        }
        let key = es[idx].0.clone();
        let val = es[idx].1.clone();
        res.push((key, val));
        idx += 1;
    }
    res
}

impl Clone for Value {
    /// Cloning preserves the abstraction and well-formedness.
    fn clone(&self) -> (res: Self)
        ensures
            res.model() == self.model(),
            self.wf() ==> res.wf(),
        decreases self,
    {
        match self {
            Value::Integer(i) => Value::Integer(*i),
            Value::Str(s) => Value::Str(s.clone()),
            Value::Boolean(b) => Value::Boolean(*b),
            Value::Array(vs) => {
                let res = clone_values(vs);
                proof {
                    lemma_seq_models(vs@);
                    lemma_seq_models(res@);
                    assert forall|i: int| 0 <= i < vs@.len()
                        implies seq_models(res@)[i] == seq_models(vs@)[i] by {
                        assert(res@[i].model() == vs@[i].model());
                    }
                    assert(seq_models(res@) =~= seq_models(vs@));
                }
                Value::Array(res)
            },
            Value::Dict(es) => {
                let res = clone_entries(es);
                proof {
                    lemma_entry_models(es@);
                    lemma_entry_models(res@);
                    assert forall|i: int| 0 <= i < es@.len()
                        implies entry_models(res@)[i] == entry_models(es@)[i] by {
                        assert(res@[i].0@ == es@[i].0@);
                        assert(res@[i].1.model() == es@[i].1.model());
                    }
                    assert(entry_models(res@) =~= entry_models(es@));
                }
                Value::Dict(res)
            },
            Value::Undefined => Value::Undefined,
        }
    }
}

} // verus!
