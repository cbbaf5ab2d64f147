//! Static checks run before compilation. They collect every problem found
//! in a program, each of which becomes a lesson-style diagnostic.

use vstd::prelude::*;
use crate::ast::{spec_expr_span, expr_span, Expr, IfBranch, Program, Span, Stmt};
use crate::bytecode::names_of;

verus! {

/// Inferred static type of an expression.
#[derive(Debug, Clone, Copy, PartialEq, Eq, Structural)]
pub enum AType {
    Int,
    Bool,
    Char,
    Str,
    Unknown,
}

/// A problem found by the checks, before it is worded.
#[derive(Debug, Clone)]
pub enum Problem {
    UndeclaredVariable { span: Span, name: String },
    AssignTypeMismatch { span: Span, expected: AType, found: AType },
    AddOperandsNotInt { span: Span, left: AType, right: AType },
    IfConditionNotBool { span: Span },
}

/// A worded diagnostic.
#[derive(Debug, Clone)]
pub struct AError {
    pub span: Span,
    pub code: String,
    pub title: String,
    pub mental_model: String,
    pub help: Vec<String>,
    pub example: String,
    pub backend: Option<String>,
}

/// Names declared, in declaration order, and the type inferred for each.
/// A name declared twice refers to its latest declaration.
#[derive(Debug, Clone)]
pub struct AnalysisResult {
    pub locals: Vec<String>,
    pub local_types: Vec<AType>,
}

/// The state of the checks: declared names with their types, and the
/// problems found so far.
pub ghost struct Scope {
    pub names: Seq<Seq<char>>,
    pub types: Seq<AType>,
    pub problems: Seq<Problem>,
}

/// The latest declaration of `name`, if any.
pub open spec fn latest(names: Seq<Seq<char>>, name: Seq<char>) -> Option<nat>
    decreases names.len(),
{
    if names.len() == 0 {
        None
    } else if names.last() == name {
        Some((names.len() - 1) as nat)
    } else {
        latest(names.drop_last(), name)
    }
}

pub open spec fn type_of(names: Seq<Seq<char>>, types: Seq<AType>, name: Seq<char>) -> AType {
    match latest(names, name) {
        Some(i) => if i < types.len() {
            types[i as int]
        } else {
            AType::Unknown
        },
        None => AType::Unknown,
    }
}

pub open spec fn infer(e: Expr, names: Seq<Seq<char>>, types: Seq<AType>) -> AType
    decreases e,
{
    match e {
        Expr::Int(..) => AType::Int,
        Expr::Bool(..) => AType::Bool,
        Expr::Char(..) => AType::Char,
        Expr::Str(..) => AType::Str,
        Expr::Cmp(..) => AType::Bool,
        Expr::Add(a, b, _) => if infer(*a, names, types) == AType::Int && infer(*b, names, types) == AType::Int {
            AType::Int
        } else {
            AType::Unknown
        },
        Expr::Var(name, _) => type_of(names, types, name@),
        Expr::Call(..) => AType::Unknown,
    }
}

pub open spec fn int_or_unknown(t: AType) -> bool {
    t == AType::Int || t == AType::Unknown
}

/// Problems inside an expression, innermost first, left to right.
pub open spec fn expr_problems(e: Expr, names: Seq<Seq<char>>, types: Seq<AType>) -> Seq<Problem>
    decreases e, 0nat,
{
    match e {
        Expr::Add(a, b, sp) => {
            let ta = infer(*a, names, types);
            let tb = infer(*b, names, types);
            expr_problems(*a, names, types) + expr_problems(*b, names, types) + if int_or_unknown(ta) && int_or_unknown(tb) {
                Seq::empty()
            } else {
                seq![Problem::AddOperandsNotInt { span: sp, left: ta, right: tb }]
            }
        },
        Expr::Cmp(a, _, b, _) => expr_problems(*a, names, types) + expr_problems(*b, names, types),
        Expr::Call(_, args, _) => args_problems(args, args.len() as int, names, types),
        _ => Seq::empty(),
    }
}

/// Problems inside the first `n` arguments of a call.
pub open spec fn args_problems(args: Vec<Expr>, n: int, names: Seq<Seq<char>>, types: Seq<AType>) -> Seq<
    Problem,
>
    decreases args, n,
{
    if n <= 0 || n > args.len() {
        Seq::empty()
    } else {
        args_problems(args, n - 1, names, types) + expr_problems(args[n - 1], names, types)
    }
}

pub open spec fn with_problems(sc: Scope, ps: Seq<Problem>) -> Scope {
    Scope { problems: sc.problems + ps, ..sc }
}

pub open spec fn declared(sc: Scope, name: Seq<char>, t: AType) -> Scope {
    Scope { names: sc.names.push(name), types: sc.types.push(t), ..sc }
}

/// A declaration: the name gets the type of its value, then the value is
/// checked with the name in scope.
pub open spec fn declare_spec(name: Seq<char>, expr: Expr, sc: Scope) -> Scope {
    let sc1 = declared(sc, name, infer(expr, sc.names, sc.types));
    with_problems(sc1, expr_problems(expr, sc1.names, sc1.types))
}

/// An assignment to a declared name: its value must not have a different
/// known type.
pub open spec fn mismatch_problems(expected: AType, expr: Expr, sc: Scope) -> Seq<Problem> {
    let found = infer(expr, sc.names, sc.types);
    if expected != AType::Unknown && found != AType::Unknown && expected != found {
        seq![
            Problem::AssignTypeMismatch { span: spec_expr_span(expr), expected, found },
        ]
    } else {
        Seq::empty()
    }
}

/// An assignment; `declares` says whether assigning an unknown name
/// declares it (at the top level) or is an error (in an `Else` body).
pub open spec fn assign_spec(name: String, expr: Expr, sc: Scope, declares: bool) -> Scope {
    match latest(sc.names, name@) {
        Some(i) => {
            let ps = mismatch_problems(sc.types[i as int], expr, sc);
            with_problems(sc, ps + expr_problems(expr, sc.names, sc.types))
        },
        None => if declares {
            declare_spec(name@, expr, sc)
        } else {
            with_problems(
                sc,
                seq![Problem::UndeclaredVariable { span: spec_expr_span(expr), name }]
                    + expr_problems(expr, sc.names, sc.types),
            )
        },
    }
}

/// A statement inside an `If`/`ElseIf` body: its expression is checked,
/// nothing is declared, and nested `If` chains are not looked into.
pub open spec fn body_stmt_spec(s: Stmt, sc: Scope) -> Scope {
    match s {
        Stmt::Let { expr, .. } => with_problems(sc, expr_problems(expr, sc.names, sc.types)),
        Stmt::Mute { expr, .. } => with_problems(sc, expr_problems(expr, sc.names, sc.types)),
        Stmt::Assign { expr, .. } => with_problems(sc, expr_problems(expr, sc.names, sc.types)),
        Stmt::Expr(e) => with_problems(sc, expr_problems(e, sc.names, sc.types)),
        Stmt::If { .. } => sc,
    }
}

pub open spec fn body_spec(v: Vec<Stmt>, n: int, sc: Scope) -> Scope
    decreases n,
{
    if n <= 0 || n > v.len() {
        sc
    } else {
        body_stmt_spec(v[n - 1], body_spec(v, n - 1, sc))
    }
}

/// A condition/body pair: the condition must be boolean if its type is
/// known, then the body is checked.
pub open spec fn branch_spec(br: IfBranch, sc: Scope) -> Scope {
    let t = infer(br.cond, sc.names, sc.types);
    let sc1 = if t == AType::Bool || t == AType::Unknown {
        sc
    } else {
        with_problems(sc, seq![Problem::IfConditionNotBool { span: spec_expr_span(br.cond) }])
    };
    body_spec(br.body, br.body.len() as int, sc1)
}

pub open spec fn branches_spec(v: Vec<IfBranch>, n: int, sc: Scope) -> Scope
    decreases n,
{
    if n <= 0 || n > v.len() {
        sc
    } else {
        branch_spec(v[n - 1], branches_spec(v, n - 1, sc))
    }
}

/// A statement of an `Else` body: declarations declare, assignments to
/// unknown names are errors, nested `If` chains are not looked into.
pub open spec fn else_stmt_spec(s: Stmt, sc: Scope) -> Scope {
    match s {
        Stmt::Let { name, expr, .. } => declare_spec(name@, expr, sc),
        Stmt::Mute { name, expr, .. } => declare_spec(name@, expr, sc),
        Stmt::Assign { name, expr, .. } => assign_spec(name, expr, sc, false),
        Stmt::Expr(e) => with_problems(sc, expr_problems(e, sc.names, sc.types)),
        Stmt::If { .. } => sc,
    }
}

pub open spec fn else_spec(v: Vec<Stmt>, n: int, sc: Scope) -> Scope
    decreases n,
{
    if n <= 0 || n > v.len() {
        sc
    } else {
        else_stmt_spec(v[n - 1], else_spec(v, n - 1, sc))
    }
}

pub open spec fn top_stmt_spec(s: Stmt, sc: Scope) -> Scope {
    match s {
        Stmt::Let { name, expr, .. } => declare_spec(name@, expr, sc),
        Stmt::Mute { name, expr, .. } => declare_spec(name@, expr, sc),
        Stmt::Assign { name, expr, .. } => assign_spec(name, expr, sc, true),
        Stmt::Expr(e) => with_problems(sc, expr_problems(e, sc.names, sc.types)),
        Stmt::If { first, elseifs, else_body, .. } => {
            let sc1 = branches_spec(elseifs, elseifs.len() as int, branch_spec(first, sc));
            match else_body {
                Some(body) => else_spec(body, body.len() as int, sc1),
                None => sc1,
            }
        },
    }
}

pub open spec fn top_spec(v: Vec<Stmt>, n: int, sc: Scope) -> Scope
    decreases n,
{
    if n <= 0 || n > v.len() {
        sc
    } else {
        top_stmt_spec(v[n - 1], top_spec(v, n - 1, sc))
    }
}

/// The outcome of the checks on a whole program.
pub open spec fn program_scope(p: Program) -> Scope {
    top_spec(
        p.stmts,
        p.stmts.len() as int,
        Scope { names: Seq::empty(), types: Seq::empty(), problems: Seq::empty() },
    )
}


/// The latest declaration of `name`, if any.
fn lookup(names: &Vec<String>, name: &str) -> (r: Option<usize>)
    ensures
        r matches Some(i) ==> latest(names_of(names@), name@) == Some(i as nat),
        r is None ==> latest(names_of(names@), name@) is None,
{
    let wanted = String::from_str(name);
    let mut i: usize = names.len();
    assert(names_of(names@).subrange(0, i as int) =~= names_of(names@));
    while i > 0
        invariant
            i <= names@.len(),
            wanted@ == name@,
            latest(names_of(names@), name@) == latest(names_of(names@).subrange(0, i as int), name@),
        decreases i,
    {
        let ghost all = names_of(names@);
        let ghost pre = all.subrange(0, i as int);
        assert(pre.drop_last() =~= all.subrange(0, i - 1));
        assert(pre.last() == names@[i - 1]@);
        if names[i - 1] == wanted {
            return Some(i - 1);
        }
        i = i - 1;
    }
    None
}

fn infer_expr_type(e: &Expr, names: &Vec<String>, types: &Vec<AType>) -> (r: AType)
    ensures
        r == infer(*e, names_of(names@), types@),
    decreases e,
{
    match e {
        Expr::Int(..) => AType::Int,
        Expr::Bool(..) => AType::Bool,
        Expr::Char(..) => AType::Char,
        Expr::Str(..) => AType::Str,
        Expr::Cmp(..) => AType::Bool,
        Expr::Add(a, b, _) => {
            let ta = infer_expr_type(a, names, types);
            let tb = infer_expr_type(b, names, types);
            if ta == AType::Int && tb == AType::Int {
                AType::Int
            } else {
                AType::Unknown
            }
        },
        Expr::Var(name, _) => match lookup(names, name.as_str()) {
            Some(idx) => if idx < types.len() {
                types[idx]
            } else {
                AType::Unknown
            },
            None => AType::Unknown,
        },
        Expr::Call(..) => AType::Unknown,
    }
}

fn check_expr(e: &Expr, names: &Vec<String>, types: &Vec<AType>, problems: &mut Vec<Problem>)
    ensures
        final(problems)@ == old(problems)@ + expr_problems(*e, names_of(names@), types@),
    decreases e,
{
    let ghost start = problems@;
    match e {
        Expr::Add(a, b, sp) => {
            check_expr(a, names, types, problems);
            check_expr(b, names, types, problems);
            let ta = infer_expr_type(a, names, types);
            let tb = infer_expr_type(b, names, types);
            let a_ok = ta == AType::Int || ta == AType::Unknown;
            let b_ok = tb == AType::Int || tb == AType::Unknown;
            if !(a_ok && b_ok) {
                problems.push(Problem::AddOperandsNotInt { span: *sp, left: ta, right: tb });
            }
            assert(problems@ =~= start + expr_problems(*e, names_of(names@), types@));
        },
        Expr::Cmp(a, _, b, _) => {
            check_expr(a, names, types, problems);
            check_expr(b, names, types, problems);
            assert(problems@ =~= start + expr_problems(*e, names_of(names@), types@));
        },
        Expr::Call(callee, args, call_span) => {
            assert(decreases_to!(*e => *args));
            let n = args.len();
            let mut i: usize = 0;
            while i < n
                invariant
                    n == args@.len(),
                    i <= n,
                    *e == Expr::Call(*callee, *args, *call_span),
                    decreases_to!(*e => *args),
                    problems@ == start + args_problems(*args, i as int, names_of(names@), types@),
                decreases n - i,
            {
                proof {
                    assert(decreases_to!(*args => args[i as int]));
                }
                check_expr(&args[i], names, types, problems);
                assert(problems@ =~= start + args_problems(*args, i + 1, names_of(names@), types@));
                i = i + 1;
            }
        },
        _ => {
            assert(problems@ =~= start + expr_problems(*e, names_of(names@), types@));
        },
    }
}

/// Declares `name` with the type of its value, then checks the value.
fn declare(name: &String, expr: &Expr, names: &mut Vec<String>, types: &mut Vec<AType>, problems: &mut Vec<Problem>)
    requires
        old(names)@.len() == old(types)@.len(),
    ensures
        final(names)@.len() == final(types)@.len(),
        ({
            let sc = Scope { names: names_of(old(names)@), types: old(types)@, problems: old(problems)@ };
            declare_spec(name@, *expr, sc) == Scope {
                names: names_of(final(names)@),
                types: final(types)@,
                problems: final(problems)@,
            }
        }),
{
    let ty = infer_expr_type(expr, names, types);
    names.push(name.clone());
    types.push(ty);
    check_expr(expr, names, types, problems);
    proof {
        assert(names_of(names@) =~= names_of(old(names)@).push(name@));
    }
}

/// An assignment; see `assign_spec` for what `declares` decides.
fn assign(
    name: &String,
    expr: &Expr,
    declares: bool,
    names: &mut Vec<String>,
    types: &mut Vec<AType>,
    problems: &mut Vec<Problem>,
)
    requires
        old(names)@.len() == old(types)@.len(),
    ensures
        final(names)@.len() == final(types)@.len(),
        ({
            let sc = Scope { names: names_of(old(names)@), types: old(types)@, problems: old(problems)@ };
            assign_spec(*name, *expr, sc, declares) == Scope {
                names: names_of(final(names)@),
                types: final(types)@,
                problems: final(problems)@,
            }
        }),
{
    let ghost start = problems@;
    match lookup(names, name.as_str()) {
        Some(idx) => {
            proof {
                lemma_latest_bounds(names_of(names@), name@);
            }
            let expected = types[idx];
            let found = infer_expr_type(expr, names, types);
            if expected != AType::Unknown && found != AType::Unknown && expected != found {
                problems.push(
                    Problem::AssignTypeMismatch { span: expr_span(expr), expected, found },
                );
            }
            let ghost mid = problems@;
            check_expr(expr, names, types, problems);
            proof {
                let ps = mismatch_problems(expected, *expr, Scope { names: names_of(names@), types: types@, problems: start });
                assert(mid =~= start + ps);
                assert(problems@ =~= start + (ps + expr_problems(*expr, names_of(names@), types@)));
            }
        },
        None => {
            if declares {
                declare(name, expr, names, types, problems);
            } else {
                problems.push(Problem::UndeclaredVariable { span: expr_span(expr), name: name.clone() });
                let ghost mid = problems@;
                check_expr(expr, names, types, problems);
                proof {
                    assert(problems@ =~= start + (seq![
                        Problem::UndeclaredVariable { span: spec_expr_span(*expr), name: *name },
                    ] + expr_problems(*expr, names_of(names@), types@)));
                }
            }
        },
    }
}

proof fn lemma_latest_bounds(names: Seq<Seq<char>>, name: Seq<char>)
    ensures
        latest(names, name) matches Some(i) ==> i < names.len(),
    decreases names.len(),
{
    if names.len() > 0 {
        lemma_latest_bounds(names.drop_last(), name);
    }
}


/// The checks' state as a scope.
pub open spec fn scope_of(names: Seq<String>, types: Seq<AType>, problems: Seq<Problem>) -> Scope {
    Scope { names: names_of(names), types, problems }
}

fn check_body(v: &Vec<Stmt>, names: &Vec<String>, types: &Vec<AType>, problems: &mut Vec<Problem>)
    ensures
        scope_of(names@, types@, final(problems)@) == body_spec(
            *v,
            v.len() as int,
            scope_of(names@, types@, old(problems)@),
        ),
{
    let n = v.len();
    let mut i: usize = 0;
    while i < n
        invariant
            n == v@.len(),
            i <= n,
            scope_of(names@, types@, problems@) == body_spec(
                *v,
                i as int,
                scope_of(names@, types@, old(problems)@),
            ),
        decreases n - i,
    {
        match &v[i] {
            Stmt::Let { expr, .. } => check_expr(expr, names, types, problems),
            Stmt::Mute { expr, .. } => check_expr(expr, names, types, problems),
            Stmt::Assign { expr, .. } => check_expr(expr, names, types, problems),
            Stmt::Expr(e) => check_expr(e, names, types, problems),
            Stmt::If { .. } => {},
        }
        i = i + 1;
    }
}

fn check_branch_with_ctx(br: &IfBranch, names: &Vec<String>, types: &Vec<AType>, problems: &mut Vec<Problem>)
    ensures
        scope_of(names@, types@, final(problems)@) == branch_spec(
            *br,
            scope_of(names@, types@, old(problems)@),
        ),
{
    let ty = infer_expr_type(&br.cond, names, types);
    let ghost found_before = problems@;
    if !(ty == AType::Bool || ty == AType::Unknown) {
        problems.push(Problem::IfConditionNotBool { span: expr_span(&br.cond) });
        assert(problems@ =~= found_before + seq![Problem::IfConditionNotBool { span: spec_expr_span(br.cond) }]);
    } else {
        assert(problems@ =~= found_before);
    }
    check_body(&br.body, names, types, problems);
}

fn check_else(v: &Vec<Stmt>, names: &mut Vec<String>, types: &mut Vec<AType>, problems: &mut Vec<Problem>)
    requires
        old(names)@.len() == old(types)@.len(),
    ensures
        final(names)@.len() == final(types)@.len(),
        scope_of(final(names)@, final(types)@, final(problems)@) == else_spec(
            *v,
            v.len() as int,
            scope_of(old(names)@, old(types)@, old(problems)@),
        ),
{
    let n = v.len();
    let mut i: usize = 0;
    while i < n
        invariant
            n == v@.len(),
            i <= n,
            names@.len() == types@.len(),
            scope_of(names@, types@, problems@) == else_spec(
                *v,
                i as int,
                scope_of(old(names)@, old(types)@, old(problems)@),
            ),
        decreases n - i,
    {
        match &v[i] {
            Stmt::Let { name, expr, .. } => declare(name, expr, names, types, problems),
            Stmt::Mute { name, expr, .. } => declare(name, expr, names, types, problems),
            Stmt::Assign { name, expr, .. } => assign(name, expr, false, names, types, problems),
            Stmt::Expr(e) => check_expr(e, names, types, problems),
            Stmt::If { .. } => {},
        }
        i = i + 1;
    }
}

fn check_top(s: &Stmt, names: &mut Vec<String>, types: &mut Vec<AType>, problems: &mut Vec<Problem>)
    requires
        old(names)@.len() == old(types)@.len(),
    ensures
        final(names)@.len() == final(types)@.len(),
        scope_of(final(names)@, final(types)@, final(problems)@) == top_stmt_spec(
            *s,
            scope_of(old(names)@, old(types)@, old(problems)@),
        ),
{
    match s {
        Stmt::Let { name, expr, .. } => declare(name, expr, names, types, problems),
        Stmt::Mute { name, expr, .. } => declare(name, expr, names, types, problems),
        Stmt::Assign { name, expr, .. } => assign(name, expr, true, names, types, problems),
        Stmt::Expr(e) => check_expr(e, names, types, problems),
        Stmt::If { first, elseifs, else_body, span } => {
            check_branch_with_ctx(first, names, types, problems);
            let ghost sc1 = scope_of(names@, types@, problems@);
            let n = elseifs.len();
            let mut i: usize = 0;
            while i < n
                invariant
                    n == elseifs@.len(),
                    i <= n,
                    names@ == old(names)@,
                    types@ == old(types)@,
                    scope_of(names@, types@, problems@) == branches_spec(*elseifs, i as int, sc1),
                decreases n - i,
            {
                check_branch_with_ctx(&elseifs[i], names, types, problems);
                i = i + 1;
            }
            match else_body {
                Some(body) => check_else(body, names, types, problems),
                None => {},
            }
        },
    }
}

fn find_problems(program: &Program) -> (r: (Vec<String>, Vec<AType>, Vec<Problem>))
    ensures
        scope_of(r.0@, r.1@, r.2@) == program_scope(*program),
{
    let mut names: Vec<String> = Vec::new();
    let mut types: Vec<AType> = Vec::new();
    let mut problems: Vec<Problem> = Vec::new();
    proof {
        assert(names_of(names@) =~= Seq::<Seq<char>>::empty());
        assert(types@ =~= Seq::<AType>::empty());
        assert(problems@ =~= Seq::<Problem>::empty());
    }
    let ghost sc0 = scope_of(names@, types@, problems@);
    let n = program.stmts.len();
    let mut i: usize = 0;
    while i < n
        invariant
            n == program.stmts@.len(),
            i <= n,
            names@.len() == types@.len(),
            sc0 == (Scope { names: Seq::empty(), types: Seq::empty(), problems: Seq::empty() }),
            scope_of(names@, types@, problems@) == top_spec(program.stmts, i as int, sc0),
        decreases n - i,
    {
        check_top(&program.stmts[i], &mut names, &mut types, &mut problems);
        i = i + 1;
    }
    (names, types, problems)
}


pub open spec fn atype_text(t: AType) -> Seq<char> {
    match t {
        AType::Int => "Int"@,
        AType::Bool => "Bool"@,
        AType::Char => "Char"@,
        AType::Str => "Str"@,
        AType::Unknown => "Unknown"@,
    }
}

/// Whether `e` is the diagnostic that words problem `p`.
pub open spec fn worded(e: AError, p: Problem) -> bool {
    &&& e.backend is None
    &&& match p {
        Problem::UndeclaredVariable { span, name } => {
            &&& e.span == span
            &&& e.code@ == "A001"@
            &&& e.title@ == "Use of undeclared variable '"@ + name@ + "'"@
            &&& e.mental_model@ == "You used a variable that hasn't been declared yet."@
            &&& e.help@.len() == 1
            &&& e.help@[0]@ == "Declare it first: `"@ + name@ + " = <expr>`"@
            &&& e.example@ == "Func main() {\n    "@ + name@ + " = 1\n}"@
        },
        Problem::AssignTypeMismatch { span, expected, found } => {
            &&& e.span == span
            &&& e.code@ == "A002"@
            &&& e.title@ == "Type mismatch in assignment"@
            &&& e.mental_model@ == "The value assigned has type "@ + atype_text(found)
                + " but the variable expects "@ + atype_text(expected) + "."@
            &&& e.help@.len() == 1
            &&& e.help@[0]@ == "Ensure the assigned value matches the variable's type."@
            &&& e.example@ == "Example: `x = 1 + 2` (assigning int to int)"@
        },
        Problem::AddOperandsNotInt { span, left, right } => {
            &&& e.span == span
            &&& e.code@ == "A003"@
            &&& e.title@ == "Add operands must be integers"@
            &&& e.mental_model@ == "`+` expects integer operands but found "@ + atype_text(left)
                + " and "@ + atype_text(right) + "."@
            &&& e.help@.len() == 1
            &&& e.help@[0]@
                == "Ensure both sides are integers (e.g., `1 + 2`), or convert values explicitly."@
            &&& e.example@ == "Example: `x = 1 + 2`"@
        },
        Problem::IfConditionNotBool { span } => {
            &&& e.span == span
            &&& e.code@ == "A007"@
            &&& e.title@ == "If condition must be true/false (bool)"@
            &&& e.mental_model@
                == "`If` asks a yes/no question. The condition must already be yes/no."@
            &&& e.help@.len() == 2
            &&& e.help@[0]@ == "Option 1: Compare to produce a boolean (example: `age > 18`)."@
            &&& e.help@[1]@ == "Option 2: Use `==` / `!=` to test equality."@
            &&& e.example@
                == "Func main() {\n    age: i32 = 20\n    If age > 18 then {\n        Print(\"Adult\")\n    } Else {\n        Print(\"Not adult\")\n    }\n}"@
        },
    }
}

fn atype_name(t: AType) -> (r: &'static str)
    ensures
        r@ == atype_text(t),
{
    match t {
        AType::Int => "Int",
        AType::Bool => "Bool",
        AType::Char => "Char",
        AType::Str => "Str",
        AType::Unknown => "Unknown",
    }
}

fn a007_if_condition_must_be_bool(span: Span) -> (r: AError)
    ensures
        worded(r, Problem::IfConditionNotBool { span }),
{
    let mut help: Vec<String> = Vec::new();
    help.push(String::from_str("Option 1: Compare to produce a boolean (example: `age > 18`)."));
    help.push(String::from_str("Option 2: Use `==` / `!=` to test equality."));
    AError {
        span,
        code: String::from_str("A007"),
        title: String::from_str("If condition must be true/false (bool)"),
        mental_model: String::from_str(
            "`If` asks a yes/no question. The condition must already be yes/no.",
        ),
        help,
        example: String::from_str(
            "Func main() {\n    age: i32 = 20\n    If age > 18 then {\n        Print(\"Adult\")\n    } Else {\n        Print(\"Not adult\")\n    }\n}",
        ),
        backend: None,
    }
}

fn a001_undeclared_variable(span: Span, name: &String) -> (r: AError)
    ensures
        worded(r, Problem::UndeclaredVariable { span, name: *name }),
{
    let mut title = String::from_str("Use of undeclared variable '");
    title.append(name.as_str());
    title.append("'");
    let mut hint = String::from_str("Declare it first: `");
    hint.append(name.as_str());
    hint.append(" = <expr>`");
    let mut help: Vec<String> = Vec::new();
    help.push(hint);
    let mut example = String::from_str("Func main() {\n    ");
    example.append(name.as_str());
    example.append(" = 1\n}");
    AError {
        span,
        code: String::from_str("A001"),
        title,
        mental_model: String::from_str("You used a variable that hasn't been declared yet."),
        help,
        example,
        backend: None,
    }
}

fn a002_assign_type_mismatch(span: Span, expected: AType, found: AType) -> (r: AError)
    ensures
        worded(r, Problem::AssignTypeMismatch { span, expected, found }),
{
    let mut model = String::from_str("The value assigned has type ");
    model.append(atype_name(found));
    model.append(" but the variable expects ");
    model.append(atype_name(expected));
    model.append(".");
    let mut help: Vec<String> = Vec::new();
    help.push(String::from_str("Ensure the assigned value matches the variable's type."));
    AError {
        span,
        code: String::from_str("A002"),
        title: String::from_str("Type mismatch in assignment"),
        mental_model: model,
        help,
        example: String::from_str("Example: `x = 1 + 2` (assigning int to int)"),
        backend: None,
    }
}

fn a003_add_operands_must_be_int(span: Span, left: AType, right: AType) -> (r: AError)
    ensures
        worded(r, Problem::AddOperandsNotInt { span, left, right }),
{
    let mut model = String::from_str("`+` expects integer operands but found ");
    model.append(atype_name(left));
    model.append(" and ");
    model.append(atype_name(right));
    model.append(".");
    let mut help: Vec<String> = Vec::new();
    help.push(
        String::from_str(
            "Ensure both sides are integers (e.g., `1 + 2`), or convert values explicitly.",
        ),
    );
    AError {
        span,
        code: String::from_str("A003"),
        title: String::from_str("Add operands must be integers"),
        mental_model: model,
        help,
        example: String::from_str("Example: `x = 1 + 2`"),
        backend: None,
    }
}

/// The diagnostic for a problem.
pub fn lesson(p: &Problem) -> (r: AError)
    ensures
        worded(r, *p),
{
    match p {
        Problem::UndeclaredVariable { span, name } => a001_undeclared_variable(*span, name),
        Problem::AssignTypeMismatch { span, expected, found } => a002_assign_type_mismatch(
            *span,
            *expected,
            *found,
        ),
        Problem::AddOperandsNotInt { span, left, right } => a003_add_operands_must_be_int(
            *span,
            *left,
            *right,
        ),
        Problem::IfConditionNotBool { span } => a007_if_condition_must_be_bool(*span),
    }
}

/// Runs the checks over a program: the declared names and their types when
/// no problem is found, else one diagnostic per problem, in the order found.
pub fn analyze(program: &Program) -> (r: Result<AnalysisResult, Vec<AError>>)
    ensures
        ({
            let sc = program_scope(*program);
            if sc.problems.len() == 0 {
                r matches Ok(res) && names_of(res.locals@) == sc.names && res.local_types@
                    == sc.types
            } else {
                r matches Err(errs) && errs@.len() == sc.problems.len() && forall|i: int|
                    0 <= i < errs@.len() ==> worded(#[trigger] errs@[i], sc.problems[i])
            }
        }),
{
    let (names, types, problems) = find_problems(program);
    if problems.len() == 0 {
        return Ok(AnalysisResult { locals: names, local_types: types });
    }
    let mut errors: Vec<AError> = Vec::new();
    let n = problems.len();
    let mut i: usize = 0;
    while i < n
        invariant
            n == problems@.len(),
            i <= n,
            errors@.len() == i,
            forall|k: int| 0 <= k < i ==> worded(#[trigger] errors@[k], problems@[k]),
        decreases n - i,
    {
        errors.push(lesson(&problems[i]));
        i = i + 1;
    }
    Err(errors)
}

} // verus!
