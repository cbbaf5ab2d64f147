//! Syntax tree handed to the compiler by the front end.

use vstd::prelude::*;

verus! {

/// Byte range of a construct in its source text.
#[derive(Debug, Clone, Copy, PartialEq, Eq, Structural)]
pub struct Span {
    pub start: usize,
    pub end: usize,
}

/// The six comparison operators.
#[derive(Debug, Clone, Copy, PartialEq, Eq, Structural)]
pub enum CmpOp {
    Eq,
    Ne,
    Lt,
    Le,
    Gt,
    Ge,
}

#[derive(Debug)]
pub enum Expr {
    Int(i64, Span),
    Str(String, Span),
    Char(char, Span),
    Bool(bool, Span),
    Var(String, Span),
    Add(Box<Expr>, Box<Expr>, Span),
    /// Comparison such as `a > b`.
    Cmp(Box<Expr>, CmpOp, Box<Expr>, Span),
    /// Call `Name(args...)`.
    Call(String, Vec<Expr>, Span),
}

/// One condition/body pair of an `If` chain.
#[derive(Debug)]
pub struct IfBranch {
    pub cond: Expr,
    pub body: Vec<Stmt>,
    pub span: Span,
}

#[derive(Debug)]
pub enum Stmt {
    /// `let x: i32 = 5` / `Let x = 5`
    Let { name: String, ty: Option<String>, mutable: bool, expr: Expr, span: Span },
    /// `x = 123`
    Assign { name: String, expr: Expr, span: Span },
    /// `mute x = 1`, the mutable declaration form.
    Mute { name: String, ty: Option<String>, expr: Expr, span: Span },
    /// `If cond then { ... } ElseIf cond then { ... } Else { ... }`
    If { first: IfBranch, elseifs: Vec<IfBranch>, else_body: Option<Vec<Stmt>>, span: Span },
    /// An expression used as a statement, such as a call.
    Expr(Expr),
}

#[derive(Debug)]
pub struct Program {
    pub stmts: Vec<Stmt>,
}

/// The span that an expression carries.
pub open spec fn spec_expr_span(e: Expr) -> Span {
    match e {
        Expr::Int(_, sp) => sp,
        Expr::Str(_, sp) => sp,
        Expr::Char(_, sp) => sp,
        Expr::Bool(_, sp) => sp,
        Expr::Var(_, sp) => sp,
        Expr::Add(_, _, sp) => sp,
        Expr::Cmp(_, _, _, sp) => sp,
        Expr::Call(_, _, sp) => sp,
    }
}

/// The span of a statement: its own, or that of its expression.
pub open spec fn spec_stmt_span(s: Stmt) -> Span {
    match s {
        Stmt::Let { span, .. } => span,
        Stmt::Assign { span, .. } => span,
        Stmt::Mute { span, .. } => span,
        Stmt::If { span, .. } => span,
        Stmt::Expr(e) => spec_expr_span(e),
    }
}

pub fn expr_span(e: &Expr) -> (r: Span)
    ensures
        r == spec_expr_span(*e),
{
    match e {
        Expr::Int(_, sp) => *sp,
        Expr::Str(_, sp) => *sp,
        Expr::Char(_, sp) => *sp,
        Expr::Bool(_, sp) => *sp,
        Expr::Var(_, sp) => *sp,
        Expr::Add(_, _, sp) => *sp,
        Expr::Cmp(_, _, _, sp) => *sp,
        Expr::Call(_, _, sp) => *sp,
    }
}

pub fn stmt_span(s: &Stmt) -> (r: Span)
    ensures
        r == spec_stmt_span(*s),
{
    match s {
        Stmt::Let { span, .. } => *span,
        Stmt::Assign { span, .. } => *span,
        Stmt::Mute { span, .. } => *span,
        Stmt::If { span, .. } => *span,
        Stmt::Expr(e) => expr_span(e),
    }
}

} // verus!
