//! The recursive expression evaluator: parse-tree nodes go in, values come
//! out. Evaluation never mutates the environment; its only side effects
//! run through the [`Host`] (the `print` and `input` builtins). The spec
//! function [`eval_node`] pins the evaluation of every node down, the
//! input/output state included; the executable [`evaluate_expression`]
//! realises it whenever the host is scripted (a live host's input lines
//! are not known in advance, so only the input values are then open).

use vstd::prelude::*;

use crate::builtins::Builtin;
use crate::builtins::StdLib;
use crate::builtins::arg0_or;
use crate::builtins::builtin_of;
use crate::builtins::call_builtin;
use crate::builtins::input_value;
use crate::builtins::pure_builtin_model;
use crate::env::Environment;
use crate::error::ErrorModel;
use crate::error::TungError;
use crate::host::Host;
use crate::host::IoModel;
use crate::node::Node;
use crate::node::NodeKind;
use crate::node::NodeModel;
use crate::node::lemma_node_models;
use crate::node::node_models;
use crate::operators::apply_op;
use crate::operators::apply_operator;
use crate::render::render;
use crate::value::Value;
use crate::value::ValueModel;
use crate::value::lemma_entry_models_push;
use crate::value::lemma_seq_models_push;
use crate::value::seq_models;

verus! {

/// What calling a builtin does to the value and input/output state: the
/// pure ones leave the state alone, `print` appends an output line, and
/// `input` shows its prompt and consumes the next scripted input line.
pub open spec fn apply_builtin_spec(b: Builtin, vals: Seq<ValueModel>, io: IoModel) -> (
    ValueModel,
    IoModel,
) {
    if b is Print {
        (
            ValueModel::Int(0),
            IoModel {
                output: io.output.push(render(arg0_or(vals, ValueModel::Text(Seq::empty())))),
                ..io
            },
        )
    } else if b is Input {
        let io1 = match arg0_or(vals, ValueModel::Text(Seq::empty())) {
            ValueModel::Text(p) => IoModel { prompts: io.prompts.push(p), ..io },
            _ => io,
        };
        if io.cursor < io.inputs.len() {
            (input_value(io.inputs[io.cursor]), IoModel { cursor: io.cursor + 1, ..io1 })
        } else {
            (ValueModel::Undef, io1)
        }
    } else {
        (pure_builtin_model(b, vals), io)
    }
}

/// Replaces the entry with key `k` (at its place), or appends one.
pub open spec fn upsert_entry(
    es: Seq<(Seq<char>, ValueModel)>,
    k: Seq<char>,
    v: ValueModel,
) -> Seq<(Seq<char>, ValueModel)>
    decreases es,
{
    if es.len() == 0 {
        seq![(k, v)]
    } else if es[0].0 == k {
        seq![(k, v)] + es.drop_first()
    } else {
        seq![es[0]] + upsert_entry(es.drop_first(), k, v)
    }
}

/// What evaluating a node yields, together with the input/output state it
/// leaves behind. The environment is read, never written.
pub open spec fn eval_node(n: NodeModel, env: Map<Seq<char>, ValueModel>, io: IoModel) -> (
    Result<ValueModel, ErrorModel>,
    IoModel,
)
    decreases n, 2int, 0int,
{
    match n.kind {
        NodeKind::Number => match crate::text::parse_int_text(n.text) {
            Some(v) => (Ok(ValueModel::Int(v)), io),
            None => (Err(ErrorModel::InvalidExpression(n.text)), io),
        },
        NodeKind::StringLit => if n.text.len() >= 2 {
            (Ok(ValueModel::Text(n.text.subrange(1, n.text.len() - 1))), io)
        } else {
            (Err(ErrorModel::InvalidExpression(n.text)), io)
        },
        NodeKind::BooleanLit => if n.text == "true"@ {
            (Ok(ValueModel::Bool(true)), io)
        } else if n.text == "false"@ {
            (Ok(ValueModel::Bool(false)), io)
        } else {
            (Err(ErrorModel::InvalidExpression(n.text)), io)
        },
        NodeKind::Identifier => if env.dom().contains(n.text) {
            (Ok(env[n.text]), io)
        } else {
            (Err(ErrorModel::VariableNotFound(n.text)), io)
        },
        NodeKind::Comparison | NodeKind::Sum | NodeKind::Term => {
            if n.children.len() == 0 {
                (Err(ErrorModel::InvalidExpression(n.text)), io)
            } else {
                match eval_node(n.children[0], env, io) {
                    (Err(e), io1) => (Err(e), io1),
                    (Ok(v), io1) => eval_chain(n.children, 1, v, env, io1),
                }
            }
        },
        NodeKind::Factor | NodeKind::Expression => {
            if n.children.len() == 0 {
                (Err(ErrorModel::InvalidExpression(n.text)), io)
            } else {
                eval_node(n.children[0], env, io)
            }
        },
        NodeKind::FunctionCall => {
            if n.children.len() == 0 {
                (Err(ErrorModel::InvalidExpression(n.text)), io)
            } else {
                let name = n.children[0].text;
                match eval_args(n.children, 1, Seq::empty(), env, io) {
                    (Err(e), io1) => (Err(e), io1),
                    (Ok(vals), io1) => match builtin_of(name) {
                        None => (Err(ErrorModel::UnknownFunction(name)), io1),
                        Some(b) => {
                            let (v, io2) = apply_builtin_spec(b, vals, io1);
                            (Ok(v), io2)
                        },
                    },
                }
            }
        },
        NodeKind::ArrayLit => match eval_args(n.children, 0, Seq::empty(), env, io) {
            (Err(e), io1) => (Err(e), io1),
            (Ok(vals), io1) => (Ok(ValueModel::Arr(vals)), io1),
        },
        NodeKind::DictLit => match eval_entries(n.children, 0, Seq::empty(), env, io) {
            (Err(e), io1) => (Err(e), io1),
            (Ok(es), io1) => (Ok(ValueModel::Dict(es)), io1),
        },
        _ => (Err(ErrorModel::InvalidExpression(n.text)), io),
    }
}

/// Folds the rest of a binary chain left-associatively: at each step an
/// operator node and its right operand are consumed and the operator
/// algebra is applied.
pub open spec fn eval_chain(
    children: Seq<NodeModel>,
    i: int,
    acc: ValueModel,
    env: Map<Seq<char>, ValueModel>,
    io: IoModel,
) -> (Result<ValueModel, ErrorModel>, IoModel)
    decreases children, 0int, children.len() - i,
{
    if i < 0 || i >= children.len() {
        (Ok(acc), io)
    } else if i + 1 >= children.len() {
        (Err(ErrorModel::InvalidExpression(children[i].text)), io)
    } else {
        let op = children[i].text;
        match eval_node(children[i + 1], env, io) {
            (Err(e), io1) => (Err(e), io1),
            (Ok(rhs), io1) => match apply_op(acc, rhs, op) {
                Err(e) => (Err(e), io1),
                Ok(v) => eval_chain(children, i + 2, v, env, io1),
            },
        }
    }
}

/// Evaluates the nodes from position `i` on, left to right, collecting
/// their values.
pub open spec fn eval_args(
    children: Seq<NodeModel>,
    i: int,
    acc: Seq<ValueModel>,
    env: Map<Seq<char>, ValueModel>,
    io: IoModel,
) -> (Result<Seq<ValueModel>, ErrorModel>, IoModel)
    decreases children, 0int, children.len() - i,
{
    if i < 0 || i >= children.len() {
        (Ok(acc), io)
    } else {
        match eval_node(children[i], env, io) {
            (Err(e), io1) => (Err(e), io1),
            (Ok(v), io1) => eval_args(children, i + 1, acc.push(v), env, io1),
        }
    }
}

/// Evaluates dictionary-entry nodes from position `i` on, in source
/// order; a later entry for the same key replaces the earlier one.
pub open spec fn eval_entries(
    children: Seq<NodeModel>,
    i: int,
    acc: Seq<(Seq<char>, ValueModel)>,
    env: Map<Seq<char>, ValueModel>,
    io: IoModel,
) -> (Result<Seq<(Seq<char>, ValueModel)>, ErrorModel>, IoModel)
    decreases children, 0int, children.len() - i,
{
    if i < 0 || i >= children.len() {
        (Ok(acc), io)
    } else if !(children[i].kind is DictEntry) || children[i].children.len() < 2 {
        (Err(ErrorModel::InvalidExpression(children[i].text)), io)
    } else {
        let key = children[i].children[0].text;
        match eval_node(children[i].children[1], env, io) {
            (Err(e), io1) => (Err(e), io1),
            (Ok(v), io1) => eval_entries(children, i + 1, upsert_entry(acc, key, v), env, io1),
        }
    }
}

/// Replacing the first (and under unique keys, only) entry carrying `k`
/// realises [`upsert_entry`].
proof fn lemma_upsert_at(
    es: Seq<(Seq<char>, ValueModel)>,
    k: Seq<char>,
    v: ValueModel,
    p: int,
)
    requires
        0 <= p < es.len(),
        es[p].0 == k,
        forall|j: int| 0 <= j < p ==> (#[trigger] es[j]).0 != k,
    ensures
        upsert_entry(es, k, v) == es.update(p, (k, v)),
    decreases es,
{
    if p == 0 {
        assert(seq![(k, v)] + es.drop_first() =~= es.update(0, (k, v)));
    } else {
        assert(es[0].0 != k);
        assert forall|j: int| 0 <= j < p - 1
            implies (#[trigger] es.drop_first()[j]).0 != k by {
            assert(es.drop_first()[j] == es[j + 1]);
        }
        assert(es.drop_first()[p - 1] == es[p]);
        lemma_upsert_at(es.drop_first(), k, v, p - 1);
        assert(seq![es[0]] + es.drop_first().update(p - 1, (k, v)) =~= es.update(p, (k, v)));
    }
}

/// Appending an entry with an absent key realises [`upsert_entry`].
proof fn lemma_upsert_absent(es: Seq<(Seq<char>, ValueModel)>, k: Seq<char>, v: ValueModel)
    requires
        forall|j: int| 0 <= j < es.len() ==> (#[trigger] es[j]).0 != k,
    ensures
        upsert_entry(es, k, v) == es.push((k, v)),
    decreases es,
{
    if es.len() == 0 {
        assert(seq![(k, v)] =~= es.push((k, v)));
    } else {
        assert forall|j: int| 0 <= j < es.drop_first().len()
            implies (#[trigger] es.drop_first()[j]).0 != k by {
            assert(es.drop_first()[j] == es[j + 1]);
        }
        lemma_upsert_absent(es.drop_first(), k, v);
        assert(seq![es[0]] + es.drop_first().push((k, v)) =~= es.push((k, v)));
    }
}

/// Evaluates one expression node against the environment, dispatching
/// call nodes to the builtin registry; realises [`eval_node`] whenever
/// the host is scripted.
#[verifier::loop_isolation(false)]
#[verifier::rlimit(100)]
pub fn evaluate_expression(
    node: &Node,
    variables: &Environment,
    stdlib: &StdLib,
    host: &mut Host,
) -> (res: Result<Value, TungError>)
    requires
        variables.wf(),
        old(host).wf(),
    ensures
        final(host).wf(),
        final(host).live() == old(host).live(),
        final(host).inputs() == old(host).inputs(),
        res is Ok ==> res->Ok_0.wf(),
        !old(host).live() ==> ({
            let (out, io2) = eval_node(node.model(), variables.model(), old(host).io());
            &&& final(host).io() == io2
            &&& match (res, out) {
                (Ok(v), Ok(m)) => v.model() == m,
                (Err(e), Err(m)) => e.model() == m,
                _ => false,
            }
        }),
    decreases node,
{
    proof {
        lemma_node_models(node.children@);
    }
    let ghost nm = node.model();
    let ghost vm = variables.model();
    let ghost io0 = old(host).io();
    match node.kind {
        NodeKind::Number => {
            match crate::text::parse_i64(node.text.as_str()) {
                Some(v) => Ok(Value::Integer(v)),
                None => Err(TungError::InvalidExpression(node.text.clone())),
            }
        },
        NodeKind::StringLit => {
            let len = node.text.unicode_len();
            if len >= 2 {
                let inner = node.text.as_str().substring_char(1, len - 1);
                Ok(Value::Str(inner.to_owned()))
            } else {
                Err(TungError::InvalidExpression(node.text.clone()))
            }
        },
        NodeKind::BooleanLit => {
            if crate::text::str_eq(node.text.as_str(), "true") {
                Ok(Value::Boolean(true))
            } else if crate::text::str_eq(node.text.as_str(), "false") {
                Ok(Value::Boolean(false))
            } else {
                Err(TungError::InvalidExpression(node.text.clone()))
            }
        },
        NodeKind::Identifier => {
            match variables.get(&node.text) {
                Some(v) => Ok(v),
                None => Err(TungError::VariableNotFound(node.text.clone())),
            }
        },
        NodeKind::Comparison | NodeKind::Sum | NodeKind::Term => {
            if node.children.len() == 0 {
                return Err(TungError::InvalidExpression(node.text.clone()));
            }
            proof {
                assert(decreases_to!(node => node.children));
                assert(decreases_to!(node.children => node.children@));
                assert(decreases_to!(node.children@ => node.children@[0]));
            }
            let mut acc = match evaluate_expression(&node.children[0], variables, stdlib, host) {
                Ok(v) => v,
                Err(e) => {
                    return Err(e);
                },
            };
            let ghost io1 = host.io();
            let mut i: usize = 1;
            while i < node.children.len()
                invariant
                    1 <= i <= node.children@.len() + 1,
                    acc.wf(),
                    host.wf(),
                    host.live() == old(host).live(),
                    host.inputs() == old(host).inputs(),
                    !old(host).live() ==> eval_chain(nm.children, i as int, acc.model(), vm,
                        host.io()) == eval_chain(nm.children, 1, eval_node(nm.children[0], vm,
                        io0).0->Ok_0, vm, io1),
                decreases node.children@.len() - i,
            {
                if i + 1 >= node.children.len() {
                    return Err(TungError::InvalidExpression(node.children[i].text.clone()));
                }
                proof {
                    assert(decreases_to!(node => node.children));
                    assert(decreases_to!(node.children => node.children@));
                    assert(decreases_to!(node.children@ => node.children@[i + 1]));
                }
                let rhs = match evaluate_expression(&node.children[i + 1], variables, stdlib, host)
                    {
                    Ok(v) => v,
                    Err(e) => {
                        return Err(e);
                    },
                };
                acc = match apply_operator(acc, rhs, node.children[i].text.as_str()) {
                    Ok(v) => v,
                    Err(e) => {
                        return Err(e);
                    },
                };
                i += 2;
            }
            Ok(acc)
        },
        NodeKind::Factor | NodeKind::Expression => {
            if node.children.len() == 0 {
                return Err(TungError::InvalidExpression(node.text.clone()));
            }
            proof {
                assert(decreases_to!(node => node.children));
                assert(decreases_to!(node.children => node.children@));
                assert(decreases_to!(node.children@ => node.children@[0]));
            }
            evaluate_expression(&node.children[0], variables, stdlib, host)
        },
        NodeKind::FunctionCall => {
            if node.children.len() == 0 {
                return Err(TungError::InvalidExpression(node.text.clone()));
            }
            let mut vals: Vec<Value> = Vec::new();
            let mut i: usize = 1;
            proof {
                crate::value::lemma_seq_models(vals@);
                assert(seq_models(vals@) =~= Seq::<ValueModel>::empty());
            }
            while i < node.children.len()
                invariant
                    1 <= i <= node.children@.len(),
                    crate::value::values_wf(vals@),
                    host.wf(),
                    host.live() == old(host).live(),
                    host.inputs() == old(host).inputs(),
                    !old(host).live() ==> eval_args(nm.children, i as int, seq_models(vals@), vm,
                        host.io()) == eval_args(nm.children, 1, Seq::empty(), vm, io0),
                decreases node.children@.len() - i,
            {
                proof {
                    assert(decreases_to!(node => node.children));
                    assert(decreases_to!(node.children => node.children@));
                    assert(decreases_to!(node.children@ => node.children@[i as int]));
                }
                let v = match evaluate_expression(&node.children[i], variables, stdlib, host) {
                    Ok(v) => v,
                    Err(e) => {
                        return Err(e);
                    },
                };
                let ghost before = vals@;
                vals.push(v);
                proof {
                    lemma_seq_models_push(before, vals@.last());
                    assert(vals@.drop_last() =~= before);
                    assert forall|j: int| 0 <= j < vals@.len()
                        implies (#[trigger] vals@[j]).wf() by {
                        if j < before.len() {
                            assert(before[j].wf());
                        }
                    }
                }
                i += 1;
            }
            match stdlib.get(node.children[0].text.as_str()) {
                None => Err(TungError::UnknownFunction(node.children[0].text.clone())),
                Some(b) => {
                    let ghost io_args = host.io();
                    let r = call_builtin(b, &vals, host);
                    proof {
                        if !old(host).live() {
                            let expected = apply_builtin_spec(b, seq_models(vals@), io_args);
                            if b is Print {
                                assert(host.io() == expected.1);
                            } else if b is Input {
                                assert(host.io() == expected.1);
                            } else {
                                assert(host.io() == expected.1);
                            }
                        }
                    }
                    Ok(r)
                },
            }
        },
        NodeKind::ArrayLit => {
            let mut vals: Vec<Value> = Vec::new();
            let mut i: usize = 0;
            proof {
                crate::value::lemma_seq_models(vals@);
                assert(seq_models(vals@) =~= Seq::<ValueModel>::empty());
            }
            while i < node.children.len()
                invariant
                    i <= node.children@.len(),
                    crate::value::values_wf(vals@),
                    host.wf(),
                    host.live() == old(host).live(),
                    host.inputs() == old(host).inputs(),
                    !old(host).live() ==> eval_args(nm.children, i as int, seq_models(vals@), vm,
                        host.io()) == eval_args(nm.children, 0, Seq::empty(), vm, io0),
                decreases node.children@.len() - i,
            {
                proof {
                    assert(decreases_to!(node => node.children));
                    assert(decreases_to!(node.children => node.children@));
                    assert(decreases_to!(node.children@ => node.children@[i as int]));
                }
                let v = match evaluate_expression(&node.children[i], variables, stdlib, host) {
                    Ok(v) => v,
                    Err(e) => {
                        return Err(e);
                    },
                };
                let ghost before = vals@;
                vals.push(v);
                proof {
                    lemma_seq_models_push(before, vals@.last());
                    assert(vals@.drop_last() =~= before);
                    assert forall|j: int| 0 <= j < vals@.len()
                        implies (#[trigger] vals@[j]).wf() by {
                        if j < before.len() {
                            assert(before[j].wf());
                        }
                    }
                }
                i += 1;
            }
            Ok(Value::Array(vals))
        },
        NodeKind::DictLit => {
            let mut entries: Vec<(String, Value)> = Vec::new();
            let mut i: usize = 0;
            proof {
                crate::value::lemma_entry_models(entries@);
                assert(crate::value::entry_models(entries@)
                    =~= Seq::<(Seq<char>, ValueModel)>::empty());
            }
            while i < node.children.len()
                invariant
                    i <= node.children@.len(),
                    crate::value::unique_keys(entries@),
                    crate::value::entry_values_wf(entries@),
                    host.wf(),
                    host.live() == old(host).live(),
                    host.inputs() == old(host).inputs(),
                    !old(host).live() ==> eval_entries(nm.children, i as int,
                        crate::value::entry_models(entries@), vm, host.io()) == eval_entries(
                        nm.children, 0, Seq::empty(), vm, io0),
                decreases node.children@.len() - i,
            {
                let child = &node.children[i];
                proof {
                    lemma_node_models(child.children@);
                }
                if !(child.kind == NodeKind::DictEntry) || child.children.len() < 2 {
                    return Err(TungError::InvalidExpression(child.text.clone()));
                }
                proof {
                    assert(decreases_to!(node => node.children));
                    assert(decreases_to!(node.children => node.children@));
                    assert(decreases_to!(node.children@ => node.children@[i as int]));
                    assert(decreases_to!(node.children@[i as int] => node.children@[i as int].children));
                    assert(decreases_to!(node.children@[i as int].children => node.children@[i as int].children@));
                    assert(decreases_to!(node.children@[i as int].children@ => node.children@[i as int].children@[1]));
                }
                let key = child.children[0].text.clone();
                let v = match evaluate_expression(&child.children[1], variables, stdlib, host) {
                    Ok(v) => v,
                    Err(e) => {
                        return Err(e);
                    },
                };
                let ghost before = entries@;
                let ghost mbefore = crate::value::entry_models(before);
                let ghost gk = key@;
                let ghost gv = v.model();
                proof {
                    crate::value::lemma_entry_models(before);
                }
                match crate::value::entries_find(&entries, &key) {
                    Some(p) => {
                        entries.set(p, (key, v));
                        proof {
                            crate::value::lemma_entry_models(entries@);
                            assert forall|j: int| 0 <= j < p
                                implies (#[trigger] mbefore[j]).0 != gk by {
                                assert(mbefore[j] == (before[j].0@, before[j].1.model()));
                                assert(before[j].0@ != gk);
                            }
                            assert(mbefore[p as int].0 == gk);
                            lemma_upsert_at(mbefore, gk, gv, p as int);
                            assert forall|j: int| 0 <= j < entries@.len()
                                implies (#[trigger] crate::value::entry_models(entries@)[j])
                                    == mbefore.update(p as int, (gk, gv))[j] by {
                                assert(crate::value::entry_models(entries@)[j]
                                    == (entries@[j].0@, entries@[j].1.model()));
                                if j != p {
                                    assert(entries@[j] == before[j]);
                                    assert(mbefore[j] == (before[j].0@, before[j].1.model()));
                                } else {
                                    assert(entries@[j].0@ == gk);
                                    assert(entries@[j].1.model() == gv);
                                }
                            }
                            assert(crate::value::entry_models(entries@)
                                =~= upsert_entry(mbefore, gk, gv));
                            assert forall|a: int, b: int| 0 <= a < b < entries@.len()
                                implies (#[trigger] entries@[a].0@) != (#[trigger] entries@[b].0@)
                                by {
                                if a != p && b != p {
                                    assert(entries@[a] == before[a]);
                                    assert(entries@[b] == before[b]);
                                } else if a == p {
                                    assert(entries@[b] == before[b]);
                                    assert(before[p as int].0@ == gk);
                                } else {
                                    assert(entries@[a] == before[a]);
                                    assert(before[p as int].0@ == gk);
                                }
                            }
                            assert forall|j: int| 0 <= j < entries@.len()
                                implies (#[trigger] entries@[j].1).wf() by {
                                if j != p {
                                    assert(entries@[j] == before[j]);
                                    assert(before[j].1.wf());
                                }
                            }
                        }
                    },
                    None => {
                        entries.push((key, v));
                        proof {
                            crate::value::lemma_entry_models(entries@);
                            assert forall|j: int| 0 <= j < mbefore.len()
                                implies (#[trigger] mbefore[j]).0 != gk by {
                                assert(mbefore[j] == (before[j].0@, before[j].1.model()));
                                assert(before[j].0@ != gk);
                            }
                            lemma_upsert_absent(mbefore, gk, gv);
                            crate::value::lemma_entry_models_push(before, (key, v));
                            assert(entries@.drop_last() =~= before);
                            assert forall|a: int, b: int| 0 <= a < b < entries@.len()
                                implies (#[trigger] entries@[a].0@) != (#[trigger] entries@[b].0@)
                                by {
                                if b < entries@.len() - 1 {
                                    assert(entries@[a] == before[a]);
                                    assert(entries@[b] == before[b]);
                                } else {
                                    assert(entries@[a] == before[a]);
                                }
                            }
                            assert forall|j: int| 0 <= j < entries@.len()
                                implies (#[trigger] entries@[j].1).wf() by {
                                if j < entries@.len() - 1 {
                                    assert(entries@[j] == before[j]);
                                    assert(before[j].1.wf());
                                }
                            }
                        }
                    },
                }
                i += 1;
            }
            Ok(Value::Dict(entries))
        },
        _ => Err(TungError::InvalidExpression(node.text.clone())),
    }
}

} // verus!
