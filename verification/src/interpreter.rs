//! The statement executor and scope manager: walks statement nodes in
//! program order, resolving expressions through the evaluator, and manages
//! variable visibility across blocks. A block body runs on a snapshot of
//! the environment; on exit, values of names that already existed outside
//! leak back, while names created inside are discarded.
//!
//! A while loop re-evaluates its condition before every iteration and
//! spends one unit of an iteration budget per pass; the budget a run
//! starts with is so large that exhausting it is out of reach in
//! practice, but it makes every run provably finite. The spec function
//! [`exec_stmt`] pins each statement's effect on the environment and the
//! input/output state down; [`execute_statement`] realises it whenever
//! the host is scripted.

use vstd::prelude::*;

use crate::builtins::StdLib;
use crate::env::Environment;
use crate::env::merge_scopes;
use crate::error::ErrorModel;
use crate::error::TungError;
use crate::eval::eval_node;
use crate::eval::evaluate_expression;
use crate::host::Host;
use crate::host::IoModel;
use crate::node::Node;
use crate::node::NodeKind;
use crate::node::NodeModel;
use crate::node::lemma_node_models;
use crate::node::node_models;
use crate::operators::apply_op;
use crate::operators::apply_operator;
use crate::render::render;
use crate::render::render_value;
use crate::value::Value;
use crate::value::ValueModel;
use crate::value::truthy;

verus! {

/// What executing one statement yields: the new environment (or the
/// fault that aborts the run), the input/output state left behind, and
/// the remaining iteration budget.
pub open spec fn exec_stmt(
    n: NodeModel,
    env: Map<Seq<char>, ValueModel>,
    io: IoModel,
    fuel: nat,
) -> (Result<Map<Seq<char>, ValueModel>, ErrorModel>, IoModel, nat)
    decreases fuel, n, 2int, 0int,
{
    match n.kind {
        NodeKind::VariableDeclaration => {
            if n.children.len() != 2 {
                (Err(ErrorModel::InvalidStatement(n.text)), io, fuel)
            } else {
                let name = n.children[0].text;
                if env.dom().contains(name) {
                    (Err(ErrorModel::VariableAlreadyDeclared(name)), io, fuel)
                } else {
                    match eval_node(n.children[1], env, io) {
                        (Err(e), io1) => (Err(e), io1, fuel),
                        (Ok(v), io1) => (Ok(env.insert(name, v)), io1, fuel),
                    }
                }
            }
        },
        NodeKind::Assignment => {
            if n.children.len() != 2 {
                (Err(ErrorModel::InvalidStatement(n.text)), io, fuel)
            } else {
                let name = n.children[0].text;
                if !env.dom().contains(name) {
                    (Err(ErrorModel::UndeclaredAssignment(name)), io, fuel)
                } else {
                    match eval_node(n.children[1], env, io) {
                        (Err(e), io1) => (Err(e), io1, fuel),
                        (Ok(v), io1) => (Ok(env.insert(name, v)), io1, fuel),
                    }
                }
            }
        },
        NodeKind::AugmentedAssignment => {
            if n.children.len() != 3 || n.children[1].text.len() == 0 {
                (Err(ErrorModel::InvalidStatement(n.text)), io, fuel)
            } else {
                let name = n.children[0].text;
                if !env.dom().contains(name) {
                    (Err(ErrorModel::UndeclaredAssignment(name)), io, fuel)
                } else {
                    let base = n.children[1].text.take(n.children[1].text.len() - 1);
                    match eval_node(n.children[2], env, io) {
                        (Err(e), io1) => (Err(e), io1, fuel),
                        (Ok(v), io1) => match apply_op(env[name], v, base) {
                            Err(e) => (Err(e), io1, fuel),
                            Ok(nv) => (Ok(env.insert(name, nv)), io1, fuel),
                        },
                    }
                }
            }
        },
        NodeKind::PrintStatement => {
            if n.children.len() != 1 {
                (Err(ErrorModel::InvalidStatement(n.text)), io, fuel)
            } else {
                match eval_node(n.children[0], env, io) {
                    (Err(e), io1) => (Err(e), io1, fuel),
                    (Ok(v), io1) => (
                        Ok(env),
                        IoModel { output: io1.output.push(render(v)), ..io1 },
                        fuel,
                    ),
                }
            }
        },
        NodeKind::IfStatement => {
            if n.children.len() < 2 {
                (Err(ErrorModel::InvalidStatement(n.text)), io, fuel)
            } else {
                match eval_node(n.children[0], env, io) {
                    (Err(e), io1) => (Err(e), io1, fuel),
                    (Ok(c), io1) => if truthy(c) {
                        run_block(n.children[1], env, io1, fuel)
                    } else {
                        if_rest(n.children, 2, env, io1, fuel)
                    },
                }
            }
        },
        NodeKind::WhileStatement => {
            if n.children.len() != 2 {
                (Err(ErrorModel::InvalidStatement(n.text)), io, fuel)
            } else {
                match eval_node(n.children[0], env, io) {
                    (Err(e), io1) => (Err(e), io1, fuel),
                    (Ok(c), io1) => if !truthy(c) {
                        (Ok(env), io1, fuel)
                    } else if fuel == 0 {
                        (Err(ErrorModel::IterationLimit), io1, fuel)
                    } else {
                        match run_block(n.children[1], env, io1, (fuel - 1) as nat) {
                            (Err(e), io2, f2) => (Err(e), io2, f2),
                            (Ok(env2), io2, f2) => {
                                let f3 = if f2 < fuel {
                                    f2
                                } else {
                                    0
                                };
                                exec_stmt(n, env2, io2, f3)
                            },
                        }
                    },
                }
            }
        },
        _ => (Err(ErrorModel::InvalidStatement(n.text)), io, fuel),
    }
}

/// Scans an if-chain's remaining arms: the first truthy `elif` runs its
/// block, an `else` always runs; anything else is skipped.
pub open spec fn if_rest(
    children: Seq<NodeModel>,
    j: int,
    env: Map<Seq<char>, ValueModel>,
    io: IoModel,
    fuel: nat,
) -> (Result<Map<Seq<char>, ValueModel>, ErrorModel>, IoModel, nat)
    decreases fuel, children, 1int, children.len() - j,
{
    if j < 0 || j >= children.len() {
        (Ok(env), io, fuel)
    } else if children[j].kind is ElifBlock {
        if children[j].children.len() < 2 {
            (Err(ErrorModel::InvalidStatement(children[j].text)), io, fuel)
        } else {
            match eval_node(children[j].children[0], env, io) {
                (Err(e), io1) => (Err(e), io1, fuel),
                (Ok(c), io1) => if truthy(c) {
                    run_block(children[j].children[1], env, io1, fuel)
                } else {
                    if_rest(children, j + 1, env, io1, fuel)
                },
            }
        }
    } else if children[j].kind is ElseBlock {
        if children[j].children.len() < 1 {
            (Err(ErrorModel::InvalidStatement(children[j].text)), io, fuel)
        } else {
            run_block(children[j].children[0], env, io, fuel)
        }
    } else {
        if_rest(children, j + 1, env, io, fuel)
    }
}

/// Runs a block body in a fresh scope snapshot and merges the values of
/// pre-existing names back into the surrounding environment.
pub open spec fn run_block(
    b: NodeModel,
    env: Map<Seq<char>, ValueModel>,
    io: IoModel,
    fuel: nat,
) -> (Result<Map<Seq<char>, ValueModel>, ErrorModel>, IoModel, nat)
    decreases fuel, b, 1int, 0int,
{
    match run_stmts(b.children, 0, env, io, fuel) {
        (Err(e), io1, f1) => (Err(e), io1, f1),
        (Ok(cenv), io1, f1) => (Ok(merge_scopes(env, cenv)), io1, f1),
    }
}

/// Executes statements sequentially from position `i` on, threading the
/// environment, the input/output state and the iteration budget.
pub open spec fn run_stmts(
    children: Seq<NodeModel>,
    i: int,
    env: Map<Seq<char>, ValueModel>,
    io: IoModel,
    fuel: nat,
) -> (Result<Map<Seq<char>, ValueModel>, ErrorModel>, IoModel, nat)
    decreases fuel, children, 0int, children.len() - i,
{
    if i < 0 || i >= children.len() {
        (Ok(env), io, fuel)
    } else {
        match exec_stmt(children[i], env, io, fuel) {
            (Err(e), io1, f1) => (Err(e), io1, f1),
            (Ok(env1), io1, f1) => {
                let f2 = if f1 <= fuel {
                    f1
                } else {
                    fuel
                };
                run_stmts(children, i + 1, env1, io1, f2)
            },
        }
    }
}

/// Executes one statement, realising [`exec_stmt`] whenever the host is
/// scripted; a successful run returns the remaining iteration budget.
#[verifier::loop_isolation(false)]
#[verifier::rlimit(100)]
pub fn execute_statement(
    node: &Node,
    variables: &mut Environment,
    stdlib: &StdLib,
    host: &mut Host,
    fuel: u64,
) -> (res: Result<u64, TungError>)
    requires
        old(variables).wf(),
        old(host).wf(),
    ensures
        final(variables).wf(),
        final(host).wf(),
        final(host).live() == old(host).live(),
        final(host).inputs() == old(host).inputs(),
        res is Ok ==> res->Ok_0 <= fuel,
        !old(host).live() ==> ({
            let (out, io2, f2) = exec_stmt(
                node.model(),
                old(variables).model(),
                old(host).io(),
                fuel as nat,
            );
            &&& final(host).io() == io2
            &&& match (res, out) {
                (Ok(f), Ok(m)) => final(variables).model() == m && f as nat == f2,
                (Err(e), Err(em)) => e.model() == em,
                _ => false,
            }
        }),
    decreases fuel, node, 2int, 0int,
{
    proof {
        lemma_node_models(node.children@);
    }
    let ghost nm = node.model();
    let ghost env0 = old(variables).model();
    let ghost io0 = old(host).io();
    match node.kind {
        NodeKind::VariableDeclaration => {
            if node.children.len() != 2 {
                return Err(TungError::InvalidStatement(node.text.clone()));
            }
            let name = node.children[0].text.clone();
            if variables.contains(&name) {
                return Err(TungError::VariableAlreadyDeclared(name));
            }
            let v = match evaluate_expression(&node.children[1], variables, stdlib, host) {
                Ok(v) => v,
                Err(e) => {
                    return Err(e);
                },
            };
            match variables.declare(name, v) {
                Ok(()) => Ok(fuel),
                Err(e) => {
                    proof {
                        assert(false);
                    }
                    Err(e)
                },
            }
        },
        NodeKind::Assignment => {
            if node.children.len() != 2 {
                return Err(TungError::InvalidStatement(node.text.clone()));
            }
            let name = node.children[0].text.clone();
            if !variables.contains(&name) {
                return Err(TungError::UndeclaredAssignment(name));
            }
            let v = match evaluate_expression(&node.children[1], variables, stdlib, host) {
                Ok(v) => v,
                Err(e) => {
                    return Err(e);
                },
            };
            match variables.assign(name, v) {
                Ok(()) => Ok(fuel),
                Err(e) => {
                    proof {
                        assert(false);
                    }
                    Err(e)
                },
            }
        },
        NodeKind::AugmentedAssignment => {
            let ok_shape = node.children.len() == 3 && node.children[1].text.unicode_len() > 0;
            if !ok_shape {
                return Err(TungError::InvalidStatement(node.text.clone()));
            }
            let name = node.children[0].text.clone();
            let current = match variables.get(&name) {
                Some(c) => c,
                None => {
                    return Err(TungError::UndeclaredAssignment(name));
                },
            };
            let v = match evaluate_expression(&node.children[2], variables, stdlib, host) {
                Ok(v) => v,
                Err(e) => {
                    return Err(e);
                },
            };
            let op_len = node.children[1].text.unicode_len();
            let base = node.children[1].text.as_str().substring_char(0, op_len - 1);
            let nv = match apply_operator(current, v, base) {
                Ok(nv) => nv,
                Err(e) => {
                    return Err(e);
                },
            };
            match variables.assign(name, nv) {
                Ok(()) => Ok(fuel),
                Err(e) => {
                    proof {
                        assert(false);
                    }
                    Err(e)
                },
            }
        },
        NodeKind::PrintStatement => {
            if node.children.len() != 1 {
                return Err(TungError::InvalidStatement(node.text.clone()));
            }
            let v = match evaluate_expression(&node.children[0], variables, stdlib, host) {
                Ok(v) => v,
                Err(e) => {
                    return Err(e);
                },
            };
            let line = render_value(&v);
            host.emit_line(line);
            Ok(fuel)
        },
        NodeKind::IfStatement => {
            if node.children.len() < 2 {
                return Err(TungError::InvalidStatement(node.text.clone()));
            }
            let c = match evaluate_expression(&node.children[0], variables, stdlib, host) {
                Ok(v) => v,
                Err(e) => {
                    return Err(e);
                },
            };
            if crate::value::is_truthy(&c) {
                proof {
                    assert(decreases_to!(node => node.children));
                    assert(decreases_to!(node.children => node.children@));
                    assert(decreases_to!(node.children@ => node.children@[1]));
                }
                return execute_block(&node.children[1], variables, stdlib, host, fuel);
            }
            let ghost io1 = host.io();
            let mut j: usize = 2;
            while j < node.children.len()
                invariant
                    2 <= j <= node.children@.len(),
                    variables.wf(),
                    host.wf(),
                    variables == old(variables),
                    host.live() == old(host).live(),
                    host.inputs() == old(host).inputs(),
                    !old(host).live() ==> if_rest(nm.children, j as int, env0, host.io(),
                        fuel as nat) == if_rest(nm.children, 2, env0, io1, fuel as nat),
                decreases node.children@.len() - j,
            {
                let child = &node.children[j];
                proof {
                    lemma_node_models(child.children@);
                    assert(decreases_to!(node => node.children));
                    assert(decreases_to!(node.children => node.children@));
                    assert(decreases_to!(node.children@ => node.children@[j as int]));
                    assert(decreases_to!(node.children@[j as int]
                        => node.children@[j as int].children));
                    assert(decreases_to!(node.children@[j as int].children
                        => node.children@[j as int].children@));
                }
                if child.kind == NodeKind::ElifBlock {
                    if child.children.len() < 2 {
                        return Err(TungError::InvalidStatement(child.text.clone()));
                    }
                    let ec = match evaluate_expression(&child.children[0], variables, stdlib, host)
                        {
                        Ok(v) => v,
                        Err(e) => {
                            return Err(e);
                        },
                    };
                    if crate::value::is_truthy(&ec) {
                        proof {
                            assert(decreases_to!(node.children@[j as int].children@
                                => node.children@[j as int].children@[1]));
                        }
                        return execute_block(&child.children[1], variables, stdlib, host, fuel);
                    }
                } else if child.kind == NodeKind::ElseBlock {
                    if child.children.len() < 1 {
                        return Err(TungError::InvalidStatement(child.text.clone()));
                    }
                    proof {
                        assert(decreases_to!(node.children@[j as int].children@
                            => node.children@[j as int].children@[0]));
                    }
                    return execute_block(&child.children[0], variables, stdlib, host, fuel);
                }
                j += 1;
            }
            Ok(fuel)
        },
        NodeKind::WhileStatement => {
            if node.children.len() != 2 {
                return Err(TungError::InvalidStatement(node.text.clone()));
            }
            let mut f = fuel;
            proof {
                assert(decreases_to!(node => node.children));
                assert(decreases_to!(node.children => node.children@));
                assert(decreases_to!(node.children@ => node.children@[1]));
            }
            loop
                invariant
                    f <= fuel,
                    variables.wf(),
                    host.wf(),
                    host.live() == old(host).live(),
                    host.inputs() == old(host).inputs(),
                    node.children@.len() == 2,
                    !old(host).live() ==> exec_stmt(nm, variables.model(), host.io(), f as nat)
                        == exec_stmt(nm, env0, io0, fuel as nat),
                decreases f,
            {
                let c = match evaluate_expression(&node.children[0], variables, stdlib, host) {
                    Ok(v) => v,
                    Err(e) => {
                        return Err(e);
                    },
                };
                if !crate::value::is_truthy(&c) {
                    return Ok(f);
                }
                if f == 0 {
                    return Err(TungError::IterationLimit);
                }
                f = f - 1;
                let ghost env_pre = variables.model();
                let ghost io_pre = host.io();
                match execute_block(&node.children[1], variables, stdlib, host, f) {
                    Err(e) => {
                        return Err(e);
                    },
                    Ok(f2) => {
                        proof {
                            if !old(host).live() {
                                assert(run_block(nm.children[1], env_pre, io_pre, f as nat)
                                    == (Ok::<Map<Seq<char>, ValueModel>, ErrorModel>(
                                        variables.model()), host.io(), f2 as nat));
                            }
                        }
                        f = f2;
                    },
                }
            }
        },
        _ => Err(TungError::InvalidStatement(node.text.clone())),
    }
}

/// Runs a block body in a scope snapshot, then merges changed values of
/// pre-existing names back; realises [`run_block`] whenever the host is
/// scripted.
#[verifier::loop_isolation(false)]
#[verifier::rlimit(60)]
pub fn execute_block(
    block: &Node,
    variables: &mut Environment,
    stdlib: &StdLib,
    host: &mut Host,
    fuel: u64,
) -> (res: Result<u64, TungError>)
    requires
        old(variables).wf(),
        old(host).wf(),
    ensures
        final(variables).wf(),
        final(host).wf(),
        final(host).live() == old(host).live(),
        final(host).inputs() == old(host).inputs(),
        res is Ok ==> res->Ok_0 <= fuel,
        !old(host).live() ==> ({
            let (out, io2, f2) = run_block(
                block.model(),
                old(variables).model(),
                old(host).io(),
                fuel as nat,
            );
            &&& final(host).io() == io2
            &&& match (res, out) {
                (Ok(f), Ok(m)) => final(variables).model() == m && f as nat == f2,
                (Err(e), Err(em)) => e.model() == em,
                _ => false,
            }
        }),
    decreases fuel, block, 1int, 0int,
{
    proof {
        lemma_node_models(block.children@);
    }
    let ghost bm = block.model();
    let ghost env0 = old(variables).model();
    let ghost io0 = old(host).io();
    let mut local = variables.snapshot();
    let mut f = fuel;
    let mut i: usize = 0;
    while i < block.children.len()
        invariant
            i <= block.children@.len(),
            f <= fuel,
            local.wf(),
            host.wf(),
            variables == old(variables),
            host.live() == old(host).live(),
            host.inputs() == old(host).inputs(),
            !old(host).live() ==> run_stmts(bm.children, i as int, local.model(), host.io(),
                f as nat) == run_stmts(bm.children, 0, env0, io0, fuel as nat),
        decreases block.children@.len() - i,
    {
        proof {
            assert(decreases_to!(block => block.children));
            assert(decreases_to!(block.children => block.children@));
            assert(decreases_to!(block.children@ => block.children@[i as int]));
        }
        match execute_statement(&block.children[i], &mut local, stdlib, host, f) {
            Err(e) => {
                return Err(e);
            },
            Ok(f2) => {
                f = f2;
            },
        }
        i += 1;
    }
    variables.merge_back(&local);
    Ok(f)
}

/// Runs a whole program: one root environment and one builtin registry
/// live for the run; statements execute in order and the first fault
/// aborts the run. Realises [`run_stmts`] on the program's statements
/// whenever the host is scripted.
#[verifier::loop_isolation(false)]
pub fn run_program(parsed: &Vec<Node>, host: &mut Host) -> (res: Result<(), TungError>)
    requires
        old(host).wf(),
    ensures
        final(host).wf(),
        final(host).live() == old(host).live(),
        final(host).inputs() == old(host).inputs(),
        !old(host).live() ==> ({
            let (out, io2, f2) = run_stmts(
                node_models(parsed@),
                0,
                Map::empty(),
                old(host).io(),
                u64::MAX as nat,
            );
            &&& final(host).io() == io2
            &&& match (res, out) {
                (Ok(()), Ok(_)) => true,
                (Err(e), Err(em)) => e.model() == em,
                _ => false,
            }
        }),
{
    proof {
        lemma_node_models(parsed@);
    }
    let stdlib = StdLib::new();
    let mut variables = Environment::new();
    let mut f: u64 = u64::MAX;
    let ghost io0 = old(host).io();
    let mut i: usize = 0;
    while i < parsed.len()
        invariant
            i <= parsed@.len(),
            f <= u64::MAX,
            variables.wf(),
            host.wf(),
            host.live() == old(host).live(),
            host.inputs() == old(host).inputs(),
            !old(host).live() ==> run_stmts(node_models(parsed@), i as int, variables.model(),
                host.io(), f as nat) == run_stmts(node_models(parsed@), 0, Map::empty(), io0,
                u64::MAX as nat),
        decreases parsed@.len() - i,
    {
        match execute_statement(&parsed[i], &mut variables, &stdlib, host, f) {
            Err(e) => {
                return Err(e);
            },
            Ok(f2) => {
                f = f2;
            },
        }
        i += 1;
    }
    Ok(())
}

/// An interpreter instance: one environment that persists across
/// `interpret` calls, and optionally the source text for diagnostics.
pub struct Interpreter {
    variables: Environment,
    source: Option<String>,
}

impl Interpreter {
    /// Well-formedness of the held environment.
    pub closed spec fn wf(self) -> bool {
        self.variables.wf()
    }

    /// The abstraction of the held environment.
    pub closed spec fn env_model(self) -> Map<Seq<char>, ValueModel> {
        self.variables.model()
    }

    /// A fresh interpreter with an empty environment.
    pub fn new() -> (r: Interpreter)
        ensures
            r.wf(),
            r.env_model() == Map::<Seq<char>, ValueModel>::empty(),
    {
        Interpreter { variables: Environment::new(), source: None }
    }

    /// A fresh interpreter that remembers the source text it runs.
    pub fn with_source(source: String) -> (r: Interpreter)
        ensures
            r.wf(),
            r.env_model() == Map::<Seq<char>, ValueModel>::empty(),
    {
        Interpreter { variables: Environment::new(), source: Some(source) }
    }

    /// Interprets a program's statements against the held environment,
    /// realising [`run_stmts`] whenever the host is scripted.
    #[verifier::loop_isolation(false)]
    pub fn interpret(&mut self, program: &Vec<Node>, host: &mut Host) -> (res: Result<
        (),
        TungError,
    >)
        requires
            old(self).wf(),
            old(host).wf(),
        ensures
            final(self).wf(),
            final(host).wf(),
            final(host).live() == old(host).live(),
            final(host).inputs() == old(host).inputs(),
            !old(host).live() ==> ({
                let (out, io2, f2) = run_stmts(
                    node_models(program@),
                    0,
                    old(self).env_model(),
                    old(host).io(),
                    u64::MAX as nat,
                );
                &&& final(host).io() == io2
                &&& match (res, out) {
                    (Ok(()), Ok(m)) => final(self).env_model() == m,
                    (Err(e), Err(em)) => e.model() == em,
                    _ => false,
                }
            }),
    {
        proof {
            lemma_node_models(program@);
        }
        let stdlib = StdLib::new();
        let mut f: u64 = u64::MAX;
        let ghost io0 = old(host).io();
        let mut i: usize = 0;
        while i < program.len()
            invariant
                i <= program@.len(),
                f <= u64::MAX,
                self.variables.wf(),
                self.source == old(self).source,
                host.wf(),
                host.live() == old(host).live(),
                host.inputs() == old(host).inputs(),
                !old(host).live() ==> run_stmts(node_models(program@), i as int,
                    self.variables.model(), host.io(), f as nat) == run_stmts(
                    node_models(program@), 0, old(self).env_model(), io0, u64::MAX as nat),
            decreases program@.len() - i,
        {
            match execute_statement(&program[i], &mut self.variables, &stdlib, host, f) {
                Err(e) => {
                    return Err(e);
                },
                Ok(f2) => {
                    f = f2;
                },
            }
            i += 1;
        }
        Ok(())
    }
}

} // verus!
