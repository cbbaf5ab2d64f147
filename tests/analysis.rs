use alang::analysis::{analyze, AType};
use alang::ast::{CmpOp, Expr, IfBranch, Program, Span, Stmt};

fn at(start: usize) -> Span {
    Span { start, end: start + 1 }
}

fn assign(n: &str, e: Expr) -> Stmt {
    Stmt::Assign { name: n.to_string(), expr: e, span: at(0) }
}

#[test]
fn clean_program_lists_its_locals() {
    let p = Program {
        stmts: vec![
            assign("x", Expr::Int(1, at(0))),
            Stmt::Let {
                name: "b".to_string(),
                ty: None,
                mutable: false,
                expr: Expr::Cmp(Box::new(Expr::Var("x".to_string(), at(0))), CmpOp::Lt, Box::new(Expr::Int(3, at(0))), at(0)),
                span: at(0),
            },
            assign("x", Expr::Add(Box::new(Expr::Var("x".to_string(), at(0))), Box::new(Expr::Int(2, at(0))), at(0))),
        ],
    };
    let r = analyze(&p).unwrap();
    assert_eq!(r.locals, vec!["x".to_string(), "b".to_string()]);
    assert_eq!(r.local_types, vec![AType::Int, AType::Bool]);
}

#[test]
fn assignment_of_another_type_is_reported() {
    let p = Program {
        stmts: vec![assign("x", Expr::Int(1, at(0))), assign("x", Expr::Str("s".to_string(), at(7)))],
    };
    let errs = analyze(&p).unwrap_err();
    assert_eq!(errs.len(), 1);
    assert_eq!(errs[0].code, "A002");
    assert_eq!(errs[0].span, at(7));
    assert_eq!(errs[0].title, "Type mismatch in assignment");
    assert_eq!(errs[0].mental_model, "The value assigned has type Str but the variable expects Int.");
    assert_eq!(errs[0].example, "Example: `x = 1 + 2` (assigning int to int)");
    assert!(errs[0].backend.is_none());
}

#[test]
fn addition_of_a_bool_is_reported() {
    let p = Program {
        stmts: vec![assign(
            "y",
            Expr::Add(Box::new(Expr::Bool(true, at(4))), Box::new(Expr::Int(1, at(8))), at(4)),
        )],
    };
    let errs = analyze(&p).unwrap_err();
    assert_eq!(errs.len(), 1);
    assert_eq!(errs[0].code, "A003");
    assert_eq!(errs[0].mental_model, "`+` expects integer operands but found Bool and Int.");
    assert_eq!(errs[0].help, vec!["Ensure both sides are integers (e.g., `1 + 2`), or convert values explicitly.".to_string()]);
}

#[test]
fn non_bool_condition_and_undeclared_else_assignment() {
    let p = Program {
        stmts: vec![Stmt::If {
            first: IfBranch { cond: Expr::Int(1, at(3)), body: vec![], span: at(0) },
            elseifs: vec![IfBranch { cond: Expr::Bool(true, at(5)), body: vec![], span: at(0) }],
            else_body: Some(vec![assign("z", Expr::Int(2, at(9)))]),
            span: at(0),
        }],
    };
    let errs = analyze(&p).unwrap_err();
    assert_eq!(errs.len(), 2);
    assert_eq!(errs[0].code, "A007");
    assert_eq!(errs[0].span, at(3));
    assert_eq!(errs[0].help.len(), 2);
    assert!(errs[0].example.contains("Print(\"Not adult\")"));
    assert_eq!(errs[1].code, "A001");
    assert_eq!(errs[1].span, at(9));
    assert_eq!(errs[1].title, "Use of undeclared variable 'z'");
    assert_eq!(errs[1].help, vec!["Declare it first: `z = <expr>`".to_string()]);
    assert_eq!(errs[1].example, "Func main() {\n    z = 1\n}");
}

#[test]
fn unknown_types_are_not_reported() {
    let p = Program {
        stmts: vec![
            assign("x", Expr::Var("nowhere".to_string(), at(0))),
            assign("x", Expr::Int(5, at(0))),
            Stmt::Expr(Expr::Add(Box::new(Expr::Var("x".to_string(), at(0))), Box::new(Expr::Call("f".to_string(), vec![], at(0))), at(0))),
        ],
    };
    let r = analyze(&p).unwrap();
    assert_eq!(r.local_types, vec![AType::Unknown]);
}
