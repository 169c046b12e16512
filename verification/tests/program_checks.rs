use tunglang::Value;
use tunglang::error::TungError;
use tunglang::host::Host;
use tunglang::interpreter::Interpreter;
use tunglang::interpreter::run_program;
use tunglang::node::Node;
use tunglang::node::NodeKind;

fn leaf(kind: NodeKind, text: &str) -> Node {
    Node { kind, text: text.to_string(), children: vec![] }
}

fn inner(kind: NodeKind, children: Vec<Node>) -> Node {
    Node { kind, text: String::new(), children }
}

fn num(text: &str) -> Node {
    leaf(NodeKind::Number, text)
}

fn ident(name: &str) -> Node {
    leaf(NodeKind::Identifier, name)
}

fn op(text: &str) -> Node {
    leaf(NodeKind::Operator, text)
}

fn string_lit(quoted: &str) -> Node {
    leaf(NodeKind::StringLit, quoted)
}

fn decl(name: &str, expr: Node) -> Node {
    inner(NodeKind::VariableDeclaration, vec![ident(name), expr])
}

fn assign(name: &str, expr: Node) -> Node {
    inner(NodeKind::Assignment, vec![ident(name), expr])
}

fn print_stmt(expr: Node) -> Node {
    inner(NodeKind::PrintStatement, vec![expr])
}

fn block(stmts: Vec<Node>) -> Node {
    inner(NodeKind::Block, stmts)
}

fn scripted() -> Host {
    Host::scripted(vec![])
}

#[test]
fn precedence_comes_from_the_tree() {
    // a = 2; b = 3; print(a + b * 2) prints 8: the term binds tighter.
    let program = vec![
        decl("a", num("2")),
        decl("b", num("3")),
        print_stmt(inner(
            NodeKind::Sum,
            vec![
                ident("a"),
                op("+"),
                inner(NodeKind::Term, vec![ident("b"), op("*"), num("2")]),
            ],
        )),
    ];
    let mut host = scripted();
    run_program(&program, &mut host).unwrap();
    assert_eq!(host.output_lines().len(), 1);
    assert_eq!(host.output_lines()[0], "8");
}

#[test]
fn array_membership_is_structural() {
    // print("x" in [1, 2, "x"]) prints true.
    let program = vec![print_stmt(inner(
        NodeKind::Comparison,
        vec![
            string_lit("\"x\""),
            op("in"),
            inner(NodeKind::ArrayLit, vec![num("1"), num("2"), string_lit("\"x\"")]),
        ],
    ))];
    let mut host = scripted();
    run_program(&program, &mut host).unwrap();
    assert_eq!(host.output_lines()[0], "true");
}

#[test]
fn while_loop_terminates_after_three_iterations() {
    // x = 0; while x < 3 { x = x + 1; print(x) } prints 1, 2, 3.
    let cond = inner(NodeKind::Comparison, vec![ident("x"), op("<"), num("3")]);
    let body = block(vec![
        assign("x", inner(NodeKind::Sum, vec![ident("x"), op("+"), num("1")])),
        print_stmt(ident("x")),
    ]);
    let program = vec![
        decl("x", num("0")),
        inner(NodeKind::WhileStatement, vec![cond, body]),
        print_stmt(ident("x")),
    ];
    let mut host = scripted();
    run_program(&program, &mut host).unwrap();
    assert_eq!(host.output_lines().len(), 4);
    assert_eq!(host.output_lines()[0], "1");
    assert_eq!(host.output_lines()[1], "2");
    assert_eq!(host.output_lines()[2], "3");
    assert_eq!(host.output_lines()[3], "3");
}

#[test]
fn scope_leak_back() {
    // x = 1; if 1 { x = 2; y = 3 }: afterwards x is 2, y is gone.
    let mut interp = Interpreter::new();
    let program = vec![
        decl("x", num("1")),
        inner(
            NodeKind::IfStatement,
            vec![num("1"), block(vec![assign("x", num("2")), decl("y", num("3"))])],
        ),
        print_stmt(ident("x")),
    ];
    let mut host = scripted();
    interp.interpret(&program, &mut host).unwrap();
    assert_eq!(host.output_lines()[0], "2");
    let probe_y = vec![print_stmt(ident("y"))];
    let mut host2 = scripted();
    let e = interp.interpret(&probe_y, &mut host2).unwrap_err();
    match e {
        TungError::VariableNotFound(name) => assert_eq!(name, "y"),
        other => panic!("unexpected error: {:?}", other),
    }
}

#[test]
fn redeclaration_in_same_scope_fails() {
    let program = vec![decl("x", num("1")), decl("x", num("2"))];
    let mut host = scripted();
    let e = run_program(&program, &mut host).unwrap_err();
    match e {
        TungError::VariableAlreadyDeclared(name) => assert_eq!(name, "x"),
        other => panic!("unexpected error: {:?}", other),
    }
}

#[test]
fn assignment_requires_declaration() {
    let program = vec![assign("x", num("1"))];
    let mut host = scripted();
    let e = run_program(&program, &mut host).unwrap_err();
    assert!(matches!(e, TungError::UndeclaredAssignment(_)));
}

#[test]
fn augmented_assignment_applies_base_operator() {
    let program = vec![
        decl("x", num("5")),
        inner(NodeKind::AugmentedAssignment, vec![ident("x"), op("+="), num("3")]),
        print_stmt(ident("x")),
    ];
    let mut host = scripted();
    run_program(&program, &mut host).unwrap();
    assert_eq!(host.output_lines()[0], "8");
}

#[test]
fn elif_takes_first_truthy_arm() {
    let program = vec![inner(
        NodeKind::IfStatement,
        vec![
            num("0"),
            block(vec![print_stmt(num("1"))]),
            inner(NodeKind::ElifBlock, vec![num("1"), block(vec![print_stmt(num("2"))])]),
            inner(NodeKind::ElseBlock, vec![block(vec![print_stmt(num("3"))])]),
        ],
    )];
    let mut host = scripted();
    run_program(&program, &mut host).unwrap();
    assert_eq!(host.output_lines().len(), 1);
    assert_eq!(host.output_lines()[0], "2");
}

#[test]
fn else_runs_when_nothing_matched() {
    let program = vec![inner(
        NodeKind::IfStatement,
        vec![
            num("0"),
            block(vec![print_stmt(num("1"))]),
            inner(NodeKind::ElseBlock, vec![block(vec![print_stmt(num("3"))])]),
        ],
    )];
    let mut host = scripted();
    run_program(&program, &mut host).unwrap();
    assert_eq!(host.output_lines()[0], "3");
}

#[test]
fn input_reads_scripted_lines() {
    // x = input("? "); print(x): "42" comes back as the integer 42.
    let call = inner(
        NodeKind::FunctionCall,
        vec![ident("input"), string_lit("\"? \"")],
    );
    let program = vec![decl("x", call), print_stmt(ident("x"))];
    let mut host = Host::scripted(vec!["42\n".to_string()]);
    run_program(&program, &mut host).unwrap();
    assert_eq!(host.output_lines()[0], "42");
}

#[test]
fn input_keeps_non_numeric_text() {
    let call = inner(NodeKind::FunctionCall, vec![ident("input")]);
    let program = vec![decl("x", call), print_stmt(ident("x"))];
    let mut host = Host::scripted(vec!["hello\r\n".to_string()]);
    run_program(&program, &mut host).unwrap();
    assert_eq!(host.output_lines()[0], "hello");
}

#[test]
fn builtin_calls_inside_expressions() {
    // print(len("abc") + sum([1, 2])) prints 6.
    let len_call = inner(NodeKind::FunctionCall, vec![ident("len"), string_lit("\"abc\"")]);
    let sum_call = inner(
        NodeKind::FunctionCall,
        vec![ident("sum"), inner(NodeKind::ArrayLit, vec![num("1"), num("2")])],
    );
    let program = vec![print_stmt(inner(NodeKind::Sum, vec![len_call, op("+"), sum_call]))];
    let mut host = scripted();
    run_program(&program, &mut host).unwrap();
    assert_eq!(host.output_lines()[0], "6");
}

#[test]
fn unknown_function_fails() {
    let call = inner(NodeKind::FunctionCall, vec![ident("mystery")]);
    let program = vec![print_stmt(call)];
    let mut host = scripted();
    let e = run_program(&program, &mut host).unwrap_err();
    match e {
        TungError::UnknownFunction(name) => assert_eq!(name, "mystery"),
        other => panic!("unexpected error: {:?}", other),
    }
}

#[test]
fn dict_literals_and_key_membership() {
    // d = {"k": 1}; print("k" in d) prints true.
    let entry = inner(NodeKind::DictEntry, vec![ident("k"), num("1")]);
    let program = vec![
        decl("d", inner(NodeKind::DictLit, vec![entry])),
        print_stmt(inner(
            NodeKind::Comparison,
            vec![string_lit("\"k\""), op("in"), ident("d")],
        )),
    ];
    let mut host = scripted();
    run_program(&program, &mut host).unwrap();
    assert_eq!(host.output_lines()[0], "true");
}

#[test]
fn printing_undefined_renders_the_sentinel() {
    let call = inner(NodeKind::FunctionCall, vec![ident("float"), num("1")]);
    let program = vec![print_stmt(call)];
    let mut host = scripted();
    run_program(&program, &mut host).unwrap();
    assert_eq!(host.output_lines()[0], "undefined");
}

#[test]
fn undefined_variable_fails() {
    let program = vec![print_stmt(ident("ghost_name"))];
    let mut host = scripted();
    let e = run_program(&program, &mut host).unwrap_err();
    assert!(matches!(e, TungError::VariableNotFound(_)));
}
