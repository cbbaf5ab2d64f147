//! Lowering of a syntax tree to a chunk of bytecode.
//!
//! One flat name-to-slot table spans the whole chunk: declaring or assigning
//! a known name reuses its slot, also for names first bound inside an `If`
//! body. An expression used as a statement leaves its value on the stack:
//! no discard is emitted. `If` chains are lowered with forward jumps whose
//! targets are patched once the position they lead to is known.

use vstd::prelude::*;
use crate::ast::{CmpOp, Expr, IfBranch, Program, Stmt};
use crate::bytecode::{names_of, slot_of, Chunk, Instr, Value};

verus! {

/// Why a tree could not be compiled.
#[derive(Debug, Clone)]
pub enum CompileError {
    /// A variable read before any declaration or assignment named it.
    UnknownVariable(String),
    /// A call to something other than the built-in print/write.
    UnsupportedCall(String),
}

/// Code emitted so far and the local-name table at that point.
pub ghost struct Emitted {
    pub code: Seq<Instr>,
    pub names: Seq<Seq<char>>,
}

/// A character as ASCII case folding sees it.
pub open spec fn ascii_fold(c: char) -> u32 {
    if 'A' <= c && c <= 'Z' {
        (c as u32 + 32) as u32
    } else {
        c as u32
    }
}

/// Equality of two texts up to ASCII case.
pub open spec fn same_ignoring_ascii_case(a: Seq<char>, b: Seq<char>) -> bool {
    &&& a.len() == b.len()
    &&& forall|i: int| 0 <= i < a.len() ==> ascii_fold(#[trigger] a[i]) == ascii_fold(b[i])
}

pub open spec fn print_word() -> Seq<char> {
    seq!['p', 'r', 'i', 'n', 't']
}

pub open spec fn write_word() -> Seq<char> {
    seq!['w', 'r', 'i', 't', 'e']
}

/// Names of the built-in output call.
pub open spec fn is_output_call(name: Seq<char>) -> bool {
    same_ignoring_ascii_case(name, print_word()) || same_ignoring_ascii_case(name, write_word())
}

pub open spec fn cmp_instr(op: CmpOp) -> Instr {
    match op {
        CmpOp::Eq => Instr::CmpEq,
        CmpOp::Ne => Instr::CmpNe,
        CmpOp::Lt => Instr::CmpLt,
        CmpOp::Le => Instr::CmpLe,
        CmpOp::Gt => Instr::CmpGt,
        CmpOp::Ge => Instr::CmpGe,
    }
}

/// Code that leaves the value of `e` on the stack. Expressions contain no
/// jumps, so their code does not depend on where it is placed.
pub open spec fn expr_code(e: Expr, names: Seq<Seq<char>>) -> Result<Seq<Instr>, CompileError>
    decreases e, 0nat,
{
    match e {
        Expr::Int(v, _) => Ok(seq![Instr::Const(Value::Int(v))]),
        Expr::Bool(b, _) => Ok(seq![Instr::Const(Value::Bool(b))]),
        Expr::Char(c, _) => Ok(seq![Instr::Const(Value::Char(c))]),
        Expr::Str(s, _) => Ok(seq![Instr::Const(Value::Str(s))]),
        Expr::Var(name, _) => match slot_of(names, name@) {
            Some(i) => Ok(seq![Instr::LoadLocal(i as usize)]),
            None => Err(CompileError::UnknownVariable(name)),
        },
        Expr::Add(a, b, _) => match expr_code(*a, names) {
            Err(err) => Err(err),
            Ok(ca) => match expr_code(*b, names) {
                Err(err) => Err(err),
                Ok(cb) => Ok(ca + cb + seq![Instr::AddInt]),
            },
        },
        Expr::Cmp(a, op, b, _) => match expr_code(*a, names) {
            Err(err) => Err(err),
            Ok(ca) => match expr_code(*b, names) {
                Err(err) => Err(err),
                Ok(cb) => Ok(ca + cb + seq![cmp_instr(op)]),
            },
        },
        Expr::Call(name, args, _) => if is_output_call(name@) {
            match args_code(args, args.len() as int, names) {
                Err(err) => Err(err),
                Ok(c) => Ok(c.push(Instr::Print(args.len()))),
            }
        } else {
            Err(CompileError::UnsupportedCall(name))
        },
    }
}

/// Code for the first `n` arguments, left to right.
pub open spec fn args_code(args: Vec<Expr>, n: int, names: Seq<Seq<char>>) -> Result<
    Seq<Instr>,
    CompileError,
>
    decreases args, n,
{
    if n <= 0 || n > args.len() {
        Ok(Seq::empty())
    } else {
        match args_code(args, n - 1, names) {
            Err(err) => Err(err),
            Ok(c) => match expr_code(args[n - 1], names) {
                Err(err) => Err(err),
                Ok(d) => Ok(c + d),
            },
        }
    }
}


/// The table after `name` is declared or assigned: unchanged if the name is
/// known, else extended with it.
pub open spec fn names_after_binding(names: Seq<Seq<char>>, name: Seq<char>) -> Seq<Seq<char>> {
    if slot_of(names, name) is Some {
        names
    } else {
        names.push(name)
    }
}

/// Declaration or assignment: the value, then a store to the name's slot.
pub open spec fn binding_code(name: String, expr: Expr, st: Emitted) -> Result<Emitted, CompileError> {
    match expr_code(expr, st.names) {
        Err(err) => Err(err),
        Ok(c) => {
            let names = names_after_binding(st.names, name@);
            let slot = slot_of(names, name@)->Some_0;
            Ok(Emitted { code: st.code + c + seq![Instr::StoreLocal(slot as usize)], names })
        },
    }
}

/// Patches each position of `ps` to an unconditional jump to `target`.
pub open spec fn patch_jumps(code: Seq<Instr>, ps: Seq<int>, target: usize) -> Seq<Instr>
    decreases ps.len(),
{
    if ps.len() == 0 {
        code
    } else {
        patch_jumps(code, ps.drop_last(), target).update(ps.last(), Instr::Jump(target))
    }
}

/// An expression used as a statement: a call there must be the built-in
/// `print`; any other expression is compiled and its value stays on the
/// stack.
pub open spec fn stmt_expr_code(e: Expr, names: Seq<Seq<char>>) -> Result<Seq<Instr>, CompileError> {
    match e {
        Expr::Call(name, _, _) => if same_ignoring_ascii_case(name@, print_word()) {
            expr_code(e, names)
        } else {
            Err(CompileError::UnsupportedCall(name))
        },
        _ => expr_code(e, names),
    }
}

/// Code of a statement appended to what was emitted before it.
pub open spec fn stmt_code(s: Stmt, st: Emitted) -> Result<Emitted, CompileError>
    decreases s, 0nat,
{
    match s {
        Stmt::Let { name, expr, .. } => binding_code(name, expr, st),
        Stmt::Mute { name, expr, .. } => binding_code(name, expr, st),
        Stmt::Assign { name, expr, .. } => binding_code(name, expr, st),
        Stmt::Expr(e) => match stmt_expr_code(e, st.names) {
            Err(err) => Err(err),
            Ok(c) => Ok(Emitted { code: st.code + c, names: st.names }),
        },
        Stmt::If { first, elseifs, else_body, .. } => match branch_code(first, st) {
            Err(err) => Err(err),
            Ok((st1, j)) => match branches_code(elseifs, elseifs.len() as int, st1) {
                Err(err) => Err(err),
                Ok((st2, js)) => {
                    let done = match else_body {
                        Some(body) => stmts_code(body, body.len() as int, st2),
                        None => Ok(st2),
                    };
                    match done {
                        Err(err) => Err(err),
                        Ok(st3) => Ok(
                            Emitted {
                                code: patch_jumps(
                                    st3.code,
                                    seq![j] + js,
                                    st3.code.len() as usize,
                                ),
                                names: st3.names,
                            },
                        ),
                    }
                },
            },
        },
    }
}

/// The first `n` statements of a block, in order.
pub open spec fn stmts_code(v: Vec<Stmt>, n: int, st: Emitted) -> Result<Emitted, CompileError>
    decreases v, n,
{
    if n <= 0 || n > v.len() {
        Ok(st)
    } else {
        match stmts_code(v, n - 1, st) {
            Err(err) => Err(err),
            Ok(st1) => stmt_code(v[n - 1], st1),
        }
    }
}

/// One condition/body pair: the condition, a conditional jump past the
/// branch, the body, and a jump whose target is patched later to the end
/// of the chain. Also gives the position of that last jump.
pub open spec fn branch_code(br: IfBranch, st: Emitted) -> Result<(Emitted, int), CompileError>
    decreases br, 0nat,
{
    match expr_code(br.cond, st.names) {
        Err(err) => Err(err),
        Ok(c) => {
            let jf = (st.code.len() + c.len()) as int;
            let st1 = Emitted {
                code: st.code + c + seq![Instr::JumpIfFalse(0)],
                names: st.names,
            };
            match stmts_code(br.body, br.body.len() as int, st1) {
                Err(err) => Err(err),
                Ok(st2) => {
                    let aj = st2.code.len();
                    let code = st2.code.push(Instr::Jump(0));
                    Ok(
                        (
                            Emitted {
                                code: code.update(jf, Instr::JumpIfFalse(code.len() as usize)),
                                names: st2.names,
                            },
                            aj as int,
                        ),
                    )
                },
            }
        },
    }
}

/// The first `n` `ElseIf` branches, with the positions of their end jumps.
pub open spec fn branches_code(v: Vec<IfBranch>, n: int, st: Emitted) -> Result<
    (Emitted, Seq<int>),
    CompileError,
>
    decreases v, n,
{
    if n <= 0 || n > v.len() {
        Ok((st, Seq::empty()))
    } else {
        match branches_code(v, n - 1, st) {
            Err(err) => Err(err),
            Ok((st1, js)) => match branch_code(v[n - 1], st1) {
                Err(err) => Err(err),
                Ok((st2, j)) => Ok((st2, js.push(j))),
            },
        }
    }
}

/// The whole program: its statements, then `Halt`.
pub open spec fn program_code(p: Program) -> Result<Emitted, CompileError> {
    match stmts_code(p.stmts, p.stmts.len() as int, Emitted { code: Seq::empty(), names: Seq::empty() }) {
        Err(err) => Err(err),
        Ok(st) => Ok(Emitted { code: st.code.push(Instr::Halt), names: st.names }),
    }
}


/// `b` carries on from `a`: what `a` holds of code and local names is
/// still at the start of `b`, and the constant pool is the same.
pub open spec fn continues(a: Chunk, b: Chunk) -> bool {
    &&& a.code@.len() <= b.code@.len()
    &&& forall|i: int| 0 <= i < a.code@.len() ==> #[trigger] b.code@[i] == a.code@[i]
    &&& a.locals@.len() <= b.locals@.len()
    &&& forall|i: int| 0 <= i < a.locals@.len() ==> #[trigger] b.locals@[i] == a.locals@[i]
    &&& b.consts@ == a.consts@
}

/// Positions held in a vector, as integers.
pub open spec fn as_ints(v: Seq<usize>) -> Seq<int> {
    v.map_values(|x: usize| x as int)
}

/// What a chunk holds, seen as emitted code and a name table.
pub open spec fn emitted(c: Chunk) -> Emitted {
    Emitted { code: c.code@, names: names_of(c.locals@) }
}

proof fn lemma_args_err(args: Vec<Expr>, k: int, m: int, names: Seq<Seq<char>>)
    requires
        0 <= k <= m <= args.len(),
        args_code(args, k, names) is Err,
    ensures
        args_code(args, m, names) == args_code(args, k, names),
    decreases m - k,
{
    if m > k {
        lemma_args_err(args, k, m - 1, names);
    }
}

proof fn lemma_stmts_err(v: Vec<Stmt>, k: int, m: int, st: Emitted)
    requires
        0 <= k <= m <= v.len(),
        stmts_code(v, k, st) is Err,
    ensures
        stmts_code(v, m, st) == stmts_code(v, k, st),
    decreases m - k,
{
    if m > k {
        lemma_stmts_err(v, k, m - 1, st);
    }
}

proof fn lemma_branches_err(v: Vec<IfBranch>, k: int, m: int, st: Emitted)
    requires
        0 <= k <= m <= v.len(),
        branches_code(v, k, st) is Err,
    ensures
        branches_code(v, m, st) == branches_code(v, k, st),
    decreases m - k,
{
    if m > k {
        lemma_branches_err(v, k, m - 1, st);
    }
}

fn fold_ascii(c: char) -> (r: u32)
    ensures
        r == ascii_fold(c),
{
    if 'A' <= c && c <= 'Z' {
        c as u32 + 32
    } else {
        c as u32
    }
}

/// Equality of two texts up to ASCII case.
pub(crate) fn same_ignoring_case(a: &str, b: &str) -> (r: bool)
    ensures
        r == same_ignoring_ascii_case(a@, b@),
{
    let n = a.unicode_len();
    if n != b.unicode_len() {
        return false;
    }
    let mut i: usize = 0;
    while i < n
        invariant
            n == a@.len() == b@.len(),
            i <= n,
            forall|k: int| 0 <= k < i ==> ascii_fold(#[trigger] a@[k]) == ascii_fold(b@[k]),
        decreases n - i,
    {
        if fold_ascii(a.get_char(i)) != fold_ascii(b.get_char(i)) {
            return false;
        }
        i = i + 1;
    }
    true
}

/// Whether `name` calls the built-in output.
fn is_output_name(name: &String) -> (r: bool)
    ensures
        r == is_output_call(name@),
{
    let print = "print";
    let write = "write";
    proof {
        reveal_strlit("print");
        reveal_strlit("write");
        assert(print@ =~= print_word());
        assert(write@ =~= write_word());
    }
    same_ignoring_case(name.as_str(), print) || same_ignoring_case(name.as_str(), write)
}

/// Whether `name` is the built-in `print`.
fn is_print_name(name: &String) -> (r: bool)
    ensures
        r == same_ignoring_ascii_case(name@, print_word()),
{
    let print = "print";
    proof {
        reveal_strlit("print");
        assert(print@ =~= print_word());
    }
    same_ignoring_case(name.as_str(), print)
}

fn cmp_to_instr(op: &CmpOp) -> (r: Instr)
    ensures
        r == cmp_instr(*op),
{
    match op {
        CmpOp::Eq => Instr::CmpEq,
        CmpOp::Ne => Instr::CmpNe,
        CmpOp::Lt => Instr::CmpLt,
        CmpOp::Le => Instr::CmpLe,
        CmpOp::Gt => Instr::CmpGt,
        CmpOp::Ge => Instr::CmpGe,
    }
}

fn compile_expr(expr: &Expr, chunk: &mut Chunk) -> (r: Result<(), CompileError>)
    ensures
        continues(*old(chunk), *final(chunk)),
        final(chunk).consts@ == old(chunk).consts@,
        final(chunk).locals@ == old(chunk).locals@,
        match expr_code(*expr, names_of(old(chunk).locals@)) {
            Ok(c) => r is Ok && final(chunk).code@ == old(chunk).code@ + c,
            Err(e) => r == Err::<(), CompileError>(e),
        },
    decreases expr,
{
    match expr {
        Expr::Int(v, _) => {
            chunk.push(Instr::Const(Value::Int(*v)));
            Ok(())
        },
        Expr::Bool(b, _) => {
            chunk.push(Instr::Const(Value::Bool(*b)));
            Ok(())
        },
        Expr::Char(c, _) => {
            chunk.push(Instr::Const(Value::Char(*c)));
            Ok(())
        },
        Expr::Str(s, _) => {
            chunk.push(Instr::Const(Value::Str(s.clone())));
            Ok(())
        },
        Expr::Var(name, _) => match chunk.find_local(name.as_str()) {
            Some(idx) => {
                chunk.push(Instr::LoadLocal(idx));
                Ok(())
            },
            None => Err(CompileError::UnknownVariable(name.clone())),
        },
        Expr::Add(a, b, _) => {
            compile_expr(a, chunk)?;
            compile_expr(b, chunk)?;
            chunk.push(Instr::AddInt);
            Ok(())
        },
        Expr::Cmp(a, op, b, _) => {
            compile_expr(a, chunk)?;
            compile_expr(b, chunk)?;
            chunk.push(cmp_to_instr(op));
            Ok(())
        },
        Expr::Call(name, args, sp) => {
            if !is_output_name(name) {
                return Err(CompileError::UnsupportedCall(name.clone()));
            }
            let ghost names = names_of(chunk.locals@);
            let ghost code0 = chunk.code@;
            let n = args.len();
            let ghost whole = expr_code(*expr, names);
            assert(whole == match args_code(*args, n as int, names) {
                Err(err) => Err(err),
                Ok(c) => Ok(c.push(Instr::Print(n))),
            });
            let mut i: usize = 0;
            while i < n
                invariant
                    n == args@.len(),
                    *expr == Expr::Call(*name, *args, *sp),
                    whole == expr_code(*expr, names),
                    whole == match args_code(*args, n as int, names) {
                        Err(err) => Err(err),
                        Ok(c) => Ok(c.push(Instr::Print(n))),
                    },
                    i <= n,
                    names == names_of(old(chunk).locals@),
                    code0 == old(chunk).code@,
                    continues(*old(chunk), *chunk),
                    chunk.consts@ == old(chunk).consts@,
                    chunk.locals@ == old(chunk).locals@,
                    args_code(*args, i as int, names) matches Ok(c) && chunk.code@ == code0 + c,
                decreases n - i,
            {
                proof {
                    assert(decreases_to!(*expr => *args));
                    assert(decreases_to!(*args => args[i as int]));
                }
                match compile_expr(&args[i], chunk) {
                    Ok(()) => {
                        assert(chunk.code@ =~= code0 + args_code(*args, i + 1, names)->Ok_0);
                    },
                    Err(e) => {
                        proof {
                            assert(args_code(*args, i + 1, names) == Err::<Seq<Instr>, CompileError>(e));
                            lemma_args_err(*args, i + 1, n as int, names);
                        }
                        return Err(e);
                    },
                }
                i = i + 1;
            }
            chunk.push(Instr::Print(n));
            proof {
                let c = args_code(*args, n as int, names)->Ok_0;
                assert(chunk.code@ =~= code0 + c.push(Instr::Print(n)));
            }
            Ok(())
        },
    }
}


fn compile_binding(name: &String, expr: &Expr, chunk: &mut Chunk) -> (r: Result<(), CompileError>)
    ensures
        continues(*old(chunk), *final(chunk)),
        final(chunk).consts@ == old(chunk).consts@,
        match binding_code(*name, *expr, emitted(*old(chunk))) {
            Ok(st) => r is Ok && emitted(*final(chunk)) == st,
            Err(e) => r == Err::<(), CompileError>(e),
        },
{
    let ghost st0 = emitted(*chunk);
    compile_expr(expr, chunk)?;
    let ghost code1 = chunk.code@;
    let slot = chunk.ensure_local(name.as_str());
    chunk.push(Instr::StoreLocal(slot));
    proof {
        let c = expr_code(*expr, st0.names)->Ok_0;
        let names = names_after_binding(st0.names, name@);
        assert(names_of(chunk.locals@) == names);
        assert(chunk.code@ =~= st0.code + c + seq![Instr::StoreLocal(slot)]);
    }
    Ok(())
}

fn compile_block(v: &Vec<Stmt>, chunk: &mut Chunk) -> (r: Result<(), CompileError>)
    ensures
        continues(*old(chunk), *final(chunk)),
        final(chunk).consts@ == old(chunk).consts@,
        match stmts_code(*v, v.len() as int, emitted(*old(chunk))) {
            Ok(st) => r is Ok && emitted(*final(chunk)) == st,
            Err(e) => r == Err::<(), CompileError>(e),
        },
        r is Ok ==> final(chunk).code@.len() >= old(chunk).code@.len(),
    decreases v,
{
    let ghost st0 = emitted(*chunk);
    let n = v.len();
    let mut i: usize = 0;
    while i < n
        invariant
            n == v@.len(),
            i <= n,
            st0 == emitted(*old(chunk)),
            continues(*old(chunk), *chunk),
            chunk.consts@ == old(chunk).consts@,
            chunk.code@.len() >= old(chunk).code@.len(),
            stmts_code(*v, i as int, st0) == Ok::<Emitted, CompileError>(emitted(*chunk)),
        decreases n - i,
    {
        proof {
            assert(decreases_to!(*v => v[i as int]));
        }
        match compile_stmt(&v[i], chunk) {
            Ok(()) => {},
            Err(e) => {
                proof {
                    lemma_stmts_err(*v, i + 1, n as int, st0);
                }
                return Err(e);
            },
        }
        i = i + 1;
    }
    Ok(())
}

fn compile_branch(br: &IfBranch, chunk: &mut Chunk) -> (r: Result<usize, CompileError>)
    ensures
        continues(*old(chunk), *final(chunk)),
        final(chunk).consts@ == old(chunk).consts@,
        match branch_code(*br, emitted(*old(chunk))) {
            Ok((st, j)) => r matches Ok(jj) && jj as int == j && emitted(*final(chunk)) == st
                && old(chunk).code@.len() <= j < final(chunk).code@.len(),
            Err(e) => r == Err::<usize, CompileError>(e),
        },
        r is Ok ==> final(chunk).code@.len() >= old(chunk).code@.len(),
    decreases br,
{
    let ghost st0 = emitted(*chunk);
    compile_expr(&br.cond, chunk)?;
    let jf = chunk.code.len();
    chunk.push(Instr::JumpIfFalse(0));
    let ghost st1 = emitted(*chunk);
    proof {
        let c = expr_code(br.cond, st0.names)->Ok_0;
        assert(st1.code =~= st0.code + c + seq![Instr::JumpIfFalse(0)]);
    }
    compile_block(&br.body, chunk)?;
    let aj = chunk.code.len();
    chunk.push(Instr::Jump(0));
    let next = chunk.code.len();
    chunk.code.set(jf, Instr::JumpIfFalse(next));
    Ok(aj)
}

fn compile_stmt(stmt: &Stmt, chunk: &mut Chunk) -> (r: Result<(), CompileError>)
    ensures
        continues(*old(chunk), *final(chunk)),
        final(chunk).consts@ == old(chunk).consts@,
        match stmt_code(*stmt, emitted(*old(chunk))) {
            Ok(st) => r is Ok && emitted(*final(chunk)) == st,
            Err(e) => r == Err::<(), CompileError>(e),
        },
        r is Ok ==> final(chunk).code@.len() >= old(chunk).code@.len(),
    decreases stmt,
{
    match stmt {
        Stmt::Let { name, expr, .. } => compile_binding(name, expr, chunk),
        Stmt::Mute { name, expr, .. } => compile_binding(name, expr, chunk),
        Stmt::Assign { name, expr, .. } => compile_binding(name, expr, chunk),
        Stmt::Expr(e) => {
            if let Expr::Call(name, _, _) = e {
                if !is_print_name(name) {
                    return Err(CompileError::UnsupportedCall(name.clone()));
                }
            }
            compile_expr(e, chunk)
        },
        Stmt::If { first, elseifs, else_body, span } => {
            let j = compile_branch(first, chunk)?;
            let ghost st1 = emitted(*chunk);
            let mut jumps: Vec<usize> = Vec::new();
            jumps.push(j);
            let n = elseifs.len();
            let mut i: usize = 0;
            while i < n
                invariant
                    n == elseifs@.len(),
                    i <= n,
                    *stmt == (Stmt::If {
                        first: *first,
                        elseifs: *elseifs,
                        else_body: *else_body,
                        span: *span,
                    }),
                    branch_code(*first, emitted(*old(chunk))) == Ok::<(Emitted, int), CompileError>((st1, j as int)),
                    chunk.consts@ == old(chunk).consts@,
                    chunk.code@.len() >= old(chunk).code@.len(),
                    continues(*old(chunk), *chunk),
                    branches_code(*elseifs, i as int, st1) matches Ok((st, js)) && st == emitted(*chunk)
                        && as_ints(jumps@) == seq![j as int] + js,
                    forall|k: int| 0 <= k < jumps@.len() ==> jumps@[k] < chunk.code@.len(),
                    forall|k: int| 0 <= k < jumps@.len() ==> jumps@[k] >= old(chunk).code@.len(),
                decreases n - i,
            {
                proof {
                    assert(decreases_to!(*stmt => *elseifs));
                    assert(decreases_to!(*elseifs => elseifs[i as int]));
                }
                match compile_branch(&elseifs[i], chunk) {
                    Ok(jj) => {
                        let ghost before = jumps@;
                        jumps.push(jj);
                        proof {
                            let js = branches_code(*elseifs, i as int, st1)->Ok_0.1;
                            assert(as_ints(jumps@) =~= as_ints(before).push(jj as int));
                            assert(as_ints(jumps@) =~= seq![j as int] + js.push(jj as int));
                        }
                    },
                    Err(e) => {
                        proof {
                            lemma_branches_err(*elseifs, i + 1, n as int, st1);
                        }
                        return Err(e);
                    },
                }
                i = i + 1;
            }
            let ghost st2 = emitted(*chunk);
            match else_body {
                Some(body) => {
                    proof {
                        assert(decreases_to!(*stmt => *else_body));
                        assert(decreases_to!(*else_body => *body));
                    }
                    compile_block(body, chunk)?;
                },
                None => {},
            }
            let ghost code3 = chunk.code@;
            let ghost locals3 = chunk.locals@;
            let final_end = chunk.code.len();
            let m = jumps.len();
            let mut k: usize = 0;
            while k < m
                invariant
                    m == jumps@.len(),
                    k <= m,
                    final_end == code3.len(),
                    chunk.code@ == patch_jumps(code3, as_ints(jumps@).subrange(0, k as int), final_end),
                    chunk.code@.len() == code3.len(),
                    chunk.locals@ == locals3,
                    continues(*old(chunk), *chunk),
                    chunk.consts@ == old(chunk).consts@,
                    code3.len() >= old(chunk).code@.len(),
                    forall|q: int| 0 <= q < jumps@.len() ==> jumps@[q] < code3.len(),
                    forall|q: int| 0 <= q < jumps@.len() ==> jumps@[q] >= old(chunk).code@.len(),
                decreases m - k,
            {
                let p = jumps[k];
                chunk.code.set(p, Instr::Jump(final_end));
                proof {
                    let sub = as_ints(jumps@).subrange(0, k + 1);
                    assert(sub.drop_last() =~= as_ints(jumps@).subrange(0, k as int));
                }
                k = k + 1;
            }
            proof {
                assert(as_ints(jumps@).subrange(0, m as int) =~= as_ints(jumps@));
            }
            Ok(())
        },
    }
}

/// Compiles a whole program: its statements in order, then `Halt`.
pub fn compile_to_bytecode(program: &Program) -> (r: Result<Chunk, CompileError>)
    ensures
        match program_code(*program) {
            Ok(st) => r matches Ok(c) && emitted(c) == st && c.consts@.len() == 0,
            Err(e) => r == Err::<Chunk, CompileError>(e),
        },
{
    let mut chunk = Chunk::new();
    proof {
        assert(names_of(chunk.locals@) =~= Seq::<Seq<char>>::empty());
        assert(chunk.code@ =~= Seq::<Instr>::empty());
        assert(emitted(chunk) =~= (Emitted { code: Seq::empty(), names: Seq::empty() }));
    }
    compile_block(&program.stmts, &mut chunk)?;
    chunk.push(Instr::Halt);
    Ok(chunk)
}

} // verus!
