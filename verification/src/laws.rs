//! Laws of the operator algebra and the scoping discipline, stated once
//! and proved from the contracts the rest of the crate carries.

use vstd::prelude::*;

use crate::env::merge_scopes;
use crate::error::ErrorModel;
use crate::host::IoModel;
use crate::interpreter::exec_stmt;
use crate::node::NodeKind;
use crate::node::NodeModel;
use crate::operators::apply_op;
use crate::operators::repeat_text;
use crate::value::ValueModel;

verus! {

/// Adding two integers whose mathematical sum fits in a signed 64-bit
/// value yields exactly that sum.
pub proof fn lemma_integer_addition(a: i64, b: i64)
    requires
        i64::MIN <= a + b <= i64::MAX,
    ensures
        apply_op(ValueModel::Int(a as int), ValueModel::Int(b as int), "+"@) == Ok::<
            ValueModel,
            ErrorModel,
        >(ValueModel::Int(a + b)),
{
}

/// Division, floor-division and remainder by an integer zero always fail
/// with the division-by-zero fault, whatever the left operand.
pub proof fn lemma_zero_divisor(a: int, op: Seq<char>)
    requires
        op == "/"@ || op == "//"@ || op == "%"@,
    ensures
        apply_op(ValueModel::Int(a), ValueModel::Int(0), op) == Err::<ValueModel, ErrorModel>(
            ErrorModel::DivisionByZero,
        ),
{
    broadcast use vstd::string::group_string_axioms;

    reveal_strlit("+");
    reveal_strlit("-");
    reveal_strlit("*");
    reveal_strlit("/");
    reveal_strlit("//");
    reveal_strlit("%");
    assert("/"@.len() == 1);
    assert("+"@.len() == 1);
    assert("-"@.len() == 1);
    assert("*"@.len() == 1);
    assert("%"@.len() == 1);
    assert("//"@.len() == 2);
    assert("/"@[0] == '/');
    assert("+"@[0] == '+');
    assert("-"@[0] == '-');
    assert("*"@[0] == '*');
    assert("%"@[0] == '%');
    assert("/"@ != "+"@);
    assert("/"@ != "-"@);
    assert("/"@ != "*"@);
    assert("//"@ != "+"@);
    assert("//"@ != "-"@);
    assert("//"@ != "*"@);
    assert("//"@ != "/"@);
    assert("%"@ != "+"@);
    assert("%"@ != "-"@);
    assert("%"@ != "*"@);
    assert("%"@ != "/"@);
    assert("%"@ != "//"@);
}

/// Multiplying a string by an integer repeats it that many times, and a
/// count of zero or less yields the empty string; the operand order does
/// not matter.
pub proof fn lemma_string_repetition(s: Seq<char>, n: int)
    ensures
        apply_op(ValueModel::Text(s), ValueModel::Int(n), "*"@) == Ok::<ValueModel, ErrorModel>(
            ValueModel::Text(repeat_text(s, n)),
        ),
        apply_op(ValueModel::Int(n), ValueModel::Text(s), "*"@) == Ok::<ValueModel, ErrorModel>(
            ValueModel::Text(repeat_text(s, n)),
        ),
        n <= 0 ==> repeat_text(s, n) == Seq::<char>::empty(),
{
    broadcast use vstd::string::group_string_axioms;

    reveal_strlit("+");
    reveal_strlit("*");
    assert("*"@[0] == '*');
    assert("+"@[0] == '+');
    assert("*"@ != "+"@);
}

/// Array concatenation is associative: concatenating `a + b` with `c`
/// equals concatenating `a` with `b + c`.
pub proof fn lemma_array_concat_associative(
    a: Seq<ValueModel>,
    b: Seq<ValueModel>,
    c: Seq<ValueModel>,
)
    ensures
        apply_op(
            apply_op(ValueModel::Arr(a), ValueModel::Arr(b), "+"@)->Ok_0,
            ValueModel::Arr(c),
            "+"@,
        ) == apply_op(
            ValueModel::Arr(a),
            apply_op(ValueModel::Arr(b), ValueModel::Arr(c), "+"@)->Ok_0,
            "+"@,
        ),
{
    assert((a + b) + c =~= a + (b + c));
}

/// The scope leak-back policy: after a block, the surrounding scope
/// binds exactly the names it bound before; a name the block still binds
/// takes the block's value, any other keeps its own.
pub proof fn lemma_scope_leak_back(
    parent: Map<Seq<char>, ValueModel>,
    child: Map<Seq<char>, ValueModel>,
    k: Seq<char>,
)
    ensures
        merge_scopes(parent, child).dom().contains(k) <==> parent.dom().contains(k),
        parent.dom().contains(k) && child.dom().contains(k) ==> merge_scopes(parent, child)[k]
            == child[k],
        parent.dom().contains(k) && !child.dom().contains(k) ==> merge_scopes(parent, child)[k]
            == parent[k],
{
}

/// Declaring a name that is already visible fails with the
/// already-declared fault and changes nothing.
pub proof fn lemma_redeclaration_rejected(
    n: NodeModel,
    env: Map<Seq<char>, ValueModel>,
    io: IoModel,
    fuel: nat,
)
    requires
        n.kind == NodeKind::VariableDeclaration,
        n.children.len() == 2,
        env.dom().contains(n.children[0].text),
    ensures
        exec_stmt(n, env, io, fuel) == (
            Err::<Map<Seq<char>, ValueModel>, ErrorModel>(
                ErrorModel::VariableAlreadyDeclared(n.children[0].text),
            ),
            io,
            fuel,
        ),
{
}

} // verus!
