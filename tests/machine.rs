use alang::ast::{CmpOp, Expr, IfBranch, Program, Span, Stmt};
use alang::bytecode::{Chunk, Instr, Kind, Value};
use alang::compiler::compile_to_bytecode;
use alang::render::value_to_string;
use alang::vm::{Action, Operation, Vm, VmError};

fn sp() -> Span {
    Span { start: 0, end: 0 }
}

fn num(v: i64) -> Expr {
    Expr::Int(v, sp())
}

fn text(s: &str) -> Expr {
    Expr::Str(s.to_string(), sp())
}

fn var(n: &str) -> Expr {
    Expr::Var(n.to_string(), sp())
}

fn print(args: Vec<Expr>) -> Stmt {
    Stmt::Expr(Expr::Call("Print".to_string(), args, sp()))
}

fn assign(n: &str, e: Expr) -> Stmt {
    Stmt::Assign { name: n.to_string(), expr: e, span: sp() }
}

fn chunk_of(code: Vec<Instr>, nlocals: usize) -> Chunk {
    let mut c = Chunk::new();
    for i in 0..nlocals {
        c.ensure_local(&format!("v{}", i));
    }
    c.code = code;
    c
}

/// Runs a chunk to its end, feeding `input` to reads; returns the printed
/// lines and the outcome.
fn run(chunk: &Chunk, input: &[&str]) -> (Vec<String>, Result<(), VmError>) {
    let mut vm = Vm::new();
    vm.start(chunk);
    let mut out = Vec::new();
    let mut next = 0;
    for _ in 0..10_000 {
        match vm.step(chunk) {
            Err(e) => return (out, Err(e)),
            Ok(Action::Continue) => {},
            Ok(Action::Print(line)) => out.push(line),
            Ok(Action::ReadLine) => {
                vm.accept_line(input[next].to_string());
                next += 1;
            },
            Ok(Action::Stop) => return (out, Ok(())),
        }
    }
    panic!("did not stop");
}

fn age_program(age: i64) -> Program {
    Program {
        stmts: vec![
            assign("age", num(age)),
            Stmt::If {
                first: IfBranch {
                    cond: Expr::Cmp(Box::new(var("age")), CmpOp::Gt, Box::new(num(18)), sp()),
                    body: vec![print(vec![text("Adult")])],
                    span: sp(),
                },
                elseifs: vec![],
                else_body: Some(vec![print(vec![text("Not adult")])]),
                span: sp(),
            },
        ],
    }
}

#[test]
fn x_plus_two_prints_three() {
    let p = Program {
        stmts: vec![
            assign("x", num(1)),
            assign("y", Expr::Add(Box::new(var("x")), Box::new(num(2)), sp())),
            print(vec![var("y")]),
        ],
    };
    let c = compile_to_bytecode(&p).unwrap();
    assert_eq!(c.locals.len(), 2);
    assert_eq!(run(&c, &[]), (vec!["3".to_string()], Ok(())));
}

#[test]
fn adult_when_over_eighteen() {
    let c = compile_to_bytecode(&age_program(20)).unwrap();
    assert_eq!(run(&c, &[]), (vec!["Adult".to_string()], Ok(())));
}

#[test]
fn not_adult_when_ten() {
    let c = compile_to_bytecode(&age_program(10)).unwrap();
    assert_eq!(run(&c, &[]), (vec!["Not adult".to_string()], Ok(())));
}

fn chain(a: bool, b: bool, with_else: bool) -> Program {
    Program {
        stmts: vec![
            Stmt::If {
                first: IfBranch { cond: Expr::Bool(a, sp()), body: vec![print(vec![num(1)])], span: sp() },
                elseifs: vec![IfBranch {
                    cond: Expr::Bool(b, sp()),
                    body: vec![print(vec![num(2)])],
                    span: sp(),
                }],
                else_body: if with_else { Some(vec![print(vec![num(3)])]) } else { None },
                span: sp(),
            },
            print(vec![text("after")]),
        ],
    }
}

#[test]
fn if_chain_runs_exactly_one_branch() {
    let lines = |v: &[&str]| v.iter().map(|s| s.to_string()).collect::<Vec<_>>();
    let c = compile_to_bytecode(&chain(true, true, true)).unwrap();
    assert_eq!(run(&c, &[]), (lines(&["1", "after"]), Ok(())));
    let c = compile_to_bytecode(&chain(false, true, true)).unwrap();
    assert_eq!(run(&c, &[]), (lines(&["2", "after"]), Ok(())));
    let c = compile_to_bytecode(&chain(false, false, true)).unwrap();
    assert_eq!(run(&c, &[]), (lines(&["3", "after"]), Ok(())));
    let c = compile_to_bytecode(&chain(false, false, false)).unwrap();
    assert_eq!(run(&c, &[]), (lines(&["after"]), Ok(())));
}

#[test]
fn print_one_two_three_on_one_line() {
    let p = Program { stmts: vec![print(vec![num(1), num(2), num(3)])] };
    let c = compile_to_bytecode(&p).unwrap();
    assert_eq!(run(&c, &[]), (vec!["1 2 3".to_string()], Ok(())));
}

#[test]
fn add_of_bool_and_int_is_a_type_mismatch() {
    let c = chunk_of(
        vec![
            Instr::Const(Value::Bool(true)),
            Instr::Const(Value::Int(1)),
            Instr::AddInt,
            Instr::Const(Value::Int(5)),
            Instr::Print(1),
            Instr::Halt,
        ],
        0,
    );
    let (out, r) = run(&c, &[]);
    assert!(out.is_empty());
    assert_eq!(r, Err(VmError::AddTypes { left: Kind::Bool, right: Kind::Int }));
}

#[test]
fn add_overflow_fails() {
    let c = chunk_of(
        vec![Instr::Const(Value::Int(i64::MAX)), Instr::Const(Value::Int(1)), Instr::AddInt, Instr::Halt],
        0,
    );
    assert_eq!(run(&c, &[]).1, Err(VmError::AddOverflow { lhs: i64::MAX, rhs: 1 }));
}

#[test]
fn ordering_comparison_needs_ints() {
    let c = chunk_of(
        vec![Instr::Const(Value::Str("a".to_string())), Instr::Const(Value::Int(1)), Instr::CmpLt],
        0,
    );
    assert_eq!(run(&c, &[]).1, Err(VmError::CompareTypes { left: Kind::Str, right: Kind::Int }));
}

#[test]
fn ordering_comparisons_on_ints() {
    let code = vec![
        Instr::Const(Value::Int(1)), Instr::Const(Value::Int(2)), Instr::CmpLt,
        Instr::Const(Value::Int(2)), Instr::Const(Value::Int(2)), Instr::CmpLe,
        Instr::Const(Value::Int(1)), Instr::Const(Value::Int(2)), Instr::CmpGt,
        Instr::Const(Value::Int(1)), Instr::Const(Value::Int(2)), Instr::CmpGe,
        Instr::Print(4),
    ];
    let c = chunk_of(code, 0);
    assert_eq!(run(&c, &[]), (vec!["true true false false".to_string()], Ok(())));
}

#[test]
fn equality_across_kinds_is_false() {
    let c = chunk_of(
        vec![
            Instr::Const(Value::Int(1)), Instr::Const(Value::Bool(true)), Instr::CmpEq,
            Instr::Const(Value::Char('x')), Instr::Const(Value::Str("x".to_string())), Instr::CmpNe,
            Instr::Const(Value::Str("x".to_string())), Instr::Const(Value::Str("x".to_string())), Instr::CmpEq,
            Instr::Const(Value::Unit), Instr::Const(Value::Unit), Instr::CmpNe,
            Instr::Print(4),
        ],
        0,
    );
    assert_eq!(run(&c, &[]), (vec!["false true true false".to_string()], Ok(())));
}

#[test]
fn print_underflow_fails() {
    let c = chunk_of(vec![Instr::Const(Value::Int(1)), Instr::Print(2)], 0);
    assert_eq!(run(&c, &[]), (vec![], Err(VmError::PrintUnderflow { wanted: 2, available: 1 })));
}

#[test]
fn print_keeps_push_order_and_leaves_the_rest() {
    let c = chunk_of(
        vec![
            Instr::Const(Value::Int(9)),
            Instr::Const(Value::Char('a')),
            Instr::Const(Value::Bool(false)),
            Instr::Const(Value::Int(-12)),
            Instr::Print(3),
            Instr::Print(1),
        ],
        0,
    );
    assert_eq!(run(&c, &[]), (vec!["a false -12".to_string(), "9".to_string()], Ok(())));
}

#[test]
fn underflow_on_pops() {
    assert_eq!(
        run(&chunk_of(vec![Instr::Const(Value::Int(1)), Instr::AddInt], 0), &[]).1,
        Err(VmError::StackUnderflow(Operation::AddInt))
    );
    assert_eq!(
        run(&chunk_of(vec![Instr::StoreLocal(0)], 1), &[]).1,
        Err(VmError::StackUnderflow(Operation::StoreLocal))
    );
    assert_eq!(
        run(&chunk_of(vec![Instr::JumpIfFalse(0)], 0), &[]).1,
        Err(VmError::StackUnderflow(Operation::JumpIfFalse))
    );
    assert_eq!(
        run(&chunk_of(vec![Instr::CmpEq], 0), &[]).1,
        Err(VmError::StackUnderflow(Operation::Compare))
    );
}

#[test]
fn condition_must_be_bool() {
    let c = chunk_of(vec![Instr::Const(Value::Int(0)), Instr::JumpIfFalse(0)], 0);
    assert_eq!(run(&c, &[]).1, Err(VmError::ConditionNotBool(Kind::Int)));
}

#[test]
fn unset_slot_reads_as_unit_and_store_grows() {
    let c = chunk_of(
        vec![
            Instr::LoadLocal(0),
            Instr::LoadLocal(7),
            Instr::Const(Value::Int(4)),
            Instr::StoreLocal(3),
            Instr::LoadLocal(3),
            Instr::LoadLocal(2),
            Instr::Print(4),
        ],
        1,
    );
    assert_eq!(run(&c, &[]), (vec!["() () 4 ()".to_string()], Ok(())));
}

#[test]
fn read_line_strips_terminators() {
    let c = chunk_of(vec![Instr::ReadLine, Instr::ReadLine, Instr::Print(2)], 0);
    assert_eq!(run(&c, &["hello\r\n", "x\n\n"]), (vec!["hello x".to_string()], Ok(())));
}

#[test]
fn halt_stops_and_jump_past_end_falls_off() {
    let c = chunk_of(vec![Instr::Halt, Instr::Print(5)], 0);
    assert_eq!(run(&c, &[]), (vec![], Ok(())));
    let c = chunk_of(vec![Instr::Jump(2), Instr::Print(5)], 0);
    assert_eq!(run(&c, &[]), (vec![], Ok(())));
}

#[test]
fn values_render_as_text() {
    assert_eq!(value_to_string(&Value::Int(0)), "0");
    assert_eq!(value_to_string(&Value::Int(1234567)), "1234567");
    assert_eq!(value_to_string(&Value::Int(i64::MIN)), "-9223372036854775808");
    assert_eq!(value_to_string(&Value::Int(i64::MAX)), "9223372036854775807");
    assert_eq!(value_to_string(&Value::Bool(true)), "true");
    assert_eq!(value_to_string(&Value::Char('\u{e9}')), "\u{e9}");
    assert_eq!(value_to_string(&Value::Str("two words".to_string())), "two words");
    assert_eq!(value_to_string(&Value::Unit), "()");
}

#[test]
fn runs_are_independent() {
    let c = chunk_of(vec![Instr::LoadLocal(0), Instr::Print(1), Instr::Const(Value::Int(2)), Instr::StoreLocal(0)], 1);
    assert_eq!(run(&c, &[]), (vec!["()".to_string()], Ok(())));
    assert_eq!(run(&c, &[]), (vec!["()".to_string()], Ok(())));
}

#[test]
fn failed_step_pops_its_operands_and_pushes_nothing() {
    let c = chunk_of(
        vec![
            Instr::Const(Value::Int(7)),
            Instr::Const(Value::Bool(true)),
            Instr::Const(Value::Int(1)),
            Instr::CmpLt,
        ],
        0,
    );
    let mut vm = Vm::new();
    vm.start(&c);
    for _ in 0..3 {
        assert!(matches!(vm.step(&c), Ok(Action::Continue)));
    }
    assert_eq!(vm.step(&c).unwrap_err(), VmError::CompareTypes { left: Kind::Bool, right: Kind::Int });
    assert_eq!(vm.stack.len(), 1);
    assert!(matches!(vm.stack[0], Value::Int(7)));
    assert_eq!(vm.ip, 4);

    let c = chunk_of(vec![Instr::Const(Value::Int(1)), Instr::Print(3)], 0);
    let mut vm = Vm::new();
    vm.start(&c);
    assert!(matches!(vm.step(&c), Ok(Action::Continue)));
    assert_eq!(vm.step(&c).unwrap_err(), VmError::PrintUnderflow { wanted: 3, available: 1 });
    assert_eq!(vm.stack.len(), 1);
}
