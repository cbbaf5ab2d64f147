use alang::ast::{expr_span, stmt_span, CmpOp, Expr, IfBranch, Program, Span, Stmt};
use alang::bytecode::{Chunk, Instr, Value};
use alang::compiler::{compile_to_bytecode, CompileError};

fn sp() -> Span {
    Span { start: 0, end: 0 }
}

fn num(v: i64) -> Expr {
    Expr::Int(v, sp())
}

fn var(n: &str) -> Expr {
    Expr::Var(n.to_string(), sp())
}

fn call(n: &str, args: Vec<Expr>) -> Expr {
    Expr::Call(n.to_string(), args, sp())
}

fn assign(n: &str, e: Expr) -> Stmt {
    Stmt::Assign { name: n.to_string(), expr: e, span: sp() }
}

fn code_text(c: &Chunk) -> Vec<String> {
    c.code.iter().map(|i| format!("{:?}", i)).collect()
}

#[test]
fn two_locals_for_x_and_y() {
    let p = Program {
        stmts: vec![
            assign("x", num(1)),
            assign("y", Expr::Add(Box::new(var("x")), Box::new(num(2)), sp())),
            Stmt::Expr(call("Print", vec![var("y")])),
        ],
    };
    let c = compile_to_bytecode(&p).unwrap();
    assert_eq!(c.locals, vec!["x".to_string(), "y".to_string()]);
    assert_eq!(
        code_text(&c),
        vec![
            "Const(Int(1))", "StoreLocal(0)", "LoadLocal(0)", "Const(Int(2))", "AddInt",
            "StoreLocal(1)", "LoadLocal(1)", "Print(1)", "Halt",
        ]
    );
    assert!(c.consts.is_empty());
}

#[test]
fn print_of_three_literals() {
    let p = Program { stmts: vec![Stmt::Expr(call("Print", vec![num(1), num(2), num(3)]))] };
    let c = compile_to_bytecode(&p).unwrap();
    assert_eq!(
        code_text(&c),
        vec!["Const(Int(1))", "Const(Int(2))", "Const(Int(3))", "Print(3)", "Halt"]
    );
}

#[test]
fn compiling_twice_gives_the_same_chunk() {
    let make = || Program {
        stmts: vec![
            assign("b", num(1)),
            assign("a", num(2)),
            Stmt::If {
                first: IfBranch {
                    cond: Expr::Cmp(Box::new(var("a")), CmpOp::Gt, Box::new(var("b")), sp()),
                    body: vec![assign("c", num(3))],
                    span: sp(),
                },
                elseifs: vec![],
                else_body: Some(vec![assign("a", num(4))]),
                span: sp(),
            },
        ],
    };
    let c1 = compile_to_bytecode(&make()).unwrap();
    let c2 = compile_to_bytecode(&make()).unwrap();
    assert_eq!(code_text(&c1), code_text(&c2));
    assert_eq!(c1.locals, c2.locals);
    assert_eq!(c1.locals, vec!["b".to_string(), "a".to_string(), "c".to_string()]);
}

#[test]
fn reassignment_reuses_the_slot() {
    let p = Program {
        stmts: vec![
            Stmt::Let { name: "x".to_string(), ty: None, mutable: false, expr: num(1), span: sp() },
            Stmt::Mute { name: "x".to_string(), ty: None, expr: num(2), span: sp() },
            assign("x", num(3)),
        ],
    };
    let c = compile_to_bytecode(&p).unwrap();
    assert_eq!(c.locals.len(), 1);
    assert_eq!(
        code_text(&c),
        vec![
            "Const(Int(1))", "StoreLocal(0)", "Const(Int(2))", "StoreLocal(0)", "Const(Int(3))",
            "StoreLocal(0)", "Halt",
        ]
    );
}

#[test]
fn if_chain_jump_targets() {
    // If true then { Print(1) } ElseIf false then { Print(2) } Else { Print(3) }
    let p = Program {
        stmts: vec![Stmt::If {
            first: IfBranch {
                cond: Expr::Bool(true, sp()),
                body: vec![Stmt::Expr(call("Print", vec![num(1)]))],
                span: sp(),
            },
            elseifs: vec![IfBranch {
                cond: Expr::Bool(false, sp()),
                body: vec![Stmt::Expr(call("Print", vec![num(2)]))],
                span: sp(),
            }],
            else_body: Some(vec![Stmt::Expr(call("Print", vec![num(3)]))]),
            span: sp(),
        }],
    };
    let c = compile_to_bytecode(&p).unwrap();
    assert_eq!(
        code_text(&c),
        vec![
            "Const(Bool(true))", "JumpIfFalse(5)", "Const(Int(1))", "Print(1)", "Jump(12)",
            "Const(Bool(false))", "JumpIfFalse(10)", "Const(Int(2))", "Print(1)", "Jump(12)",
            "Const(Int(3))", "Print(1)", "Halt",
        ]
    );
}

#[test]
fn unknown_variable_fails() {
    let p = Program { stmts: vec![Stmt::Expr(call("print", vec![var("nope")]))] };
    match compile_to_bytecode(&p) {
        Err(CompileError::UnknownVariable(n)) => assert_eq!(n, "nope"),
        other => panic!("unexpected {:?}", other),
    }
}

#[test]
fn unsupported_call_fails() {
    let p = Program { stmts: vec![Stmt::Expr(call("launch", vec![var("nope")]))] };
    match compile_to_bytecode(&p) {
        Err(CompileError::UnsupportedCall(n)) => assert_eq!(n, "launch"),
        other => panic!("unexpected {:?}", other),
    }
}

#[test]
fn write_and_print_ignore_case() {
    let p = Program {
        stmts: vec![
            Stmt::Expr(call("PRINT", vec![num(1)])),
            Stmt::Expr(call("pRiNt", vec![])),
            assign("u", call("Write", vec![Expr::Char('c', sp()), Expr::Str("s".to_string(), sp())])),
            assign("v", call("print", vec![])),
        ],
    };
    let c = compile_to_bytecode(&p).unwrap();
    assert_eq!(
        code_text(&c),
        vec![
            "Const(Int(1))", "Print(1)", "Print(0)", "Const(Char('c'))", "Const(Str(\"s\"))",
            "Print(2)", "StoreLocal(0)", "Print(0)", "StoreLocal(1)", "Halt",
        ]
    );
}

#[test]
fn write_as_a_statement_fails() {
    let p = Program { stmts: vec![Stmt::Expr(call("write", vec![num(1)]))] };
    match compile_to_bytecode(&p) {
        Err(CompileError::UnsupportedCall(n)) => assert_eq!(n, "write"),
        other => panic!("unexpected {:?}", other),
    }
    let p = Program { stmts: vec![Stmt::Expr(call("WRITE", vec![]))] };
    assert!(matches!(compile_to_bytecode(&p), Err(CompileError::UnsupportedCall(_))));
}

#[test]
fn expression_statement_value_stays() {
    let p = Program { stmts: vec![Stmt::Expr(Expr::Add(Box::new(num(1)), Box::new(num(2)), sp()))] };
    let c = compile_to_bytecode(&p).unwrap();
    assert_eq!(code_text(&c), vec!["Const(Int(1))", "Const(Int(2))", "AddInt", "Halt"]);
}

#[test]
fn kinds_are_not_checked_at_compile_time() {
    let p = Program {
        stmts: vec![Stmt::Expr(Expr::Add(Box::new(Expr::Bool(true, sp())), Box::new(num(2)), sp()))],
    };
    assert!(compile_to_bytecode(&p).is_ok());
}

#[test]
fn spans_are_reported() {
    let s = Span { start: 3, end: 9 };
    let e = Expr::Add(Box::new(num(1)), Box::new(num(2)), s);
    assert_eq!(expr_span(&e), s);
    let st = Stmt::Expr(Expr::Var("v".to_string(), Span { start: 1, end: 2 }));
    assert_eq!(stmt_span(&st), Span { start: 1, end: 2 });
    let st2 = Stmt::Assign { name: "v".to_string(), expr: num(1), span: s };
    assert_eq!(stmt_span(&st2), s);
}

#[test]
fn chunk_table_operations() {
    let mut c = Chunk::new();
    assert_eq!(c.ensure_local("a"), 0);
    assert_eq!(c.ensure_local("b"), 1);
    assert_eq!(c.ensure_local("a"), 0);
    assert_eq!(c.locals.len(), 2);
    assert_eq!(c.find_local("b"), Some(1));
    assert_eq!(c.find_local("z"), None);
    assert_eq!(c.add_const(Value::Int(4)), 0);
    assert_eq!(c.add_const(Value::Unit), 1);
    c.push(Instr::Halt);
    assert_eq!(c.code.len(), 1);
}
