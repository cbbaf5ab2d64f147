//! Control flow of compiled code. Every jump the compiler emits leads
//! forward, to at most the end of the code, so each step of a run of
//! compiled code moves the instruction pointer forward. The code of an `If`
//! chain is a sequence of branches, each a condition, a conditional jump to
//! the next branch, a body, and a jump to the end of the chain. In a run of
//! such a chain, the body that runs is that of the first branch whose
//! condition is true, at most one body runs, and once inside it control
//! stays there until it leaves the chain.

use vstd::prelude::*;
use crate::ast::{Expr, IfBranch, Program, Stmt};
use crate::bytecode::{Chunk, Instr, Value};
use crate::compiler::{
    args_code, binding_code, branch_code, branches_code, expr_code, patch_jumps, program_code,
    stmt_code, stmt_expr_code, stmts_code, Emitted,
};
use crate::vm::{step_spec, Effect, Machine};

verus! {

pub open spec fn jump_target(i: Instr) -> Option<usize> {
    match i {
        Instr::Jump(t) => Some(t),
        Instr::JumpIfFalse(t) => Some(t),
        _ => None,
    }
}

/// A jump at `p`, if any, leads to a later position no further than `end`.
pub open spec fn forward_at(code: Seq<Instr>, p: int, end: int) -> bool {
    jump_target(code[p]) matches Some(t) ==> p < t <= end
}

/// Every jump of `code` leads forward, to at most its end.
pub open spec fn forward_only(code: Seq<Instr>) -> bool {
    forall|p: int| 0 <= p < code.len() ==> forward_at(code, p, code.len() as int)
}

/// `b` is `a` with more code appended and the same or more names.
pub open spec fn extends(a: Emitted, b: Emitted) -> bool {
    &&& b.code.len() >= a.code.len()
    &&& b.code.subrange(0, a.code.len() as int) == a.code
}

pub open spec fn jump_free(c: Seq<Instr>) -> bool {
    forall|k: int| 0 <= k < c.len() ==> jump_target(#[trigger] c[k]) is None
}

proof fn lemma_expr_jump_free(e: Expr, names: Seq<Seq<char>>)
    ensures
        expr_code(e, names) matches Ok(c) ==> jump_free(c),
    decreases e, 0nat,
{
    match e {
        Expr::Add(a, b, _) => {
            lemma_expr_jump_free(*a, names);
            lemma_expr_jump_free(*b, names);
            if let Ok(c) = expr_code(e, names) {
                let ca = expr_code(*a, names)->Ok_0;
                let cb = expr_code(*b, names)->Ok_0;
                assert forall|k: int| 0 <= k < c.len() implies jump_target(#[trigger] c[k]) is None by {
                    if k < ca.len() {
                        assert(c[k] == ca[k]);
                    } else if k < ca.len() + cb.len() {
                        assert(c[k] == cb[k - ca.len()]);
                    }
                }
            }
        },
        Expr::Cmp(a, _, b, _) => {
            lemma_expr_jump_free(*a, names);
            lemma_expr_jump_free(*b, names);
            if let Ok(c) = expr_code(e, names) {
                let ca = expr_code(*a, names)->Ok_0;
                let cb = expr_code(*b, names)->Ok_0;
                assert forall|k: int| 0 <= k < c.len() implies jump_target(#[trigger] c[k]) is None by {
                    if k < ca.len() {
                        assert(c[k] == ca[k]);
                    } else if k < ca.len() + cb.len() {
                        assert(c[k] == cb[k - ca.len()]);
                    }
                }
            }
        },
        Expr::Call(_, args, _) => {
            lemma_args_jump_free(args, args.len() as int, names);
        },
        _ => {},
    }
}

proof fn lemma_args_jump_free(args: Vec<Expr>, n: int, names: Seq<Seq<char>>)
    ensures
        args_code(args, n, names) matches Ok(c) ==> jump_free(c),
    decreases args, n,
{
    if 0 < n <= args.len() {
        lemma_args_jump_free(args, n - 1, names);
        lemma_expr_jump_free(args[n - 1], names);
        if let Ok(c) = args_code(args, n, names) {
            let c1 = args_code(args, n - 1, names)->Ok_0;
            let d = expr_code(args[n - 1], names)->Ok_0;
            assert forall|k: int| 0 <= k < c.len() implies jump_target(#[trigger] c[k]) is None by {
                if k < c1.len() {
                    assert(c[k] == c1[k]);
                } else {
                    assert(c[k] == d[k - c1.len()]);
                }
            }
        }
    }
}


/// `p` is one of the positions in `ps`.
pub open spec fn listed(ps: Seq<int>, p: int) -> bool {
    exists|k: int| 0 <= k < ps.len() && ps[k] == p
}

/// Every jump at a position of `[lo, hi)` other than those in `pending`
/// leads forward, to at most `hi`.
pub open spec fn settled(code: Seq<Instr>, lo: int, hi: int, pending: Seq<int>) -> bool {
    forall|p: int| lo <= p < hi && !listed(pending, p) ==> #[trigger] forward_at(code, p, hi)
}

pub(crate) proof fn lemma_extends_index(a: Emitted, b: Emitted, p: int)
    requires
        extends(a, b),
        0 <= p < a.code.len(),
    ensures
        b.code[p] == a.code[p],
{
    assert(b.code.subrange(0, a.code.len() as int)[p] == b.code[p]);
}

pub(crate) proof fn lemma_extends_trans(a: Emitted, b: Emitted, c: Emitted)
    requires
        extends(a, b),
        extends(b, c),
    ensures
        extends(a, c),
{
    assert forall|p: int| 0 <= p < a.code.len() implies c.code[p] == a.code[p] by {
        lemma_extends_index(a, b, p);
        lemma_extends_index(b, c, p);
    }
    assert(c.code.subrange(0, a.code.len() as int) =~= a.code);
}

/// Settled positions stay settled when code is appended after them.
proof fn lemma_settled_grow(a: Emitted, b: Emitted, lo: int, hi: int, pending: Seq<int>)
    requires
        extends(a, b),
        0 <= lo,
        a.code.len() <= hi <= b.code.len(),
        settled(a.code, lo, a.code.len() as int, pending),
    ensures
        forall|p: int|
            lo <= p < a.code.len() && !listed(pending, p) ==> #[trigger] forward_at(b.code, p, hi),
{
    assert forall|p: int| lo <= p < a.code.len() && !listed(pending, p) implies #[trigger] forward_at(
        b.code,
        p,
        hi,
    ) by {
        lemma_extends_index(a, b, p);
        assert(forward_at(a.code, p, a.code.len() as int));
    }
}

pub(crate) proof fn lemma_patch(code: Seq<Instr>, ps: Seq<int>, t: usize)
    requires
        forall|k: int| 0 <= k < ps.len() ==> 0 <= #[trigger] ps[k] < code.len(),
    ensures
        patch_jumps(code, ps, t).len() == code.len(),
        forall|p: int|
            0 <= p < code.len() && listed(ps, p) ==> #[trigger] patch_jumps(code, ps, t)[p]
                == Instr::Jump(t),
        forall|p: int|
            0 <= p < code.len() && !listed(ps, p) ==> #[trigger] patch_jumps(code, ps, t)[p]
                == code[p],
    decreases ps.len(),
{
    if ps.len() > 0 {
        let q = ps.drop_last();
        lemma_patch(code, q, t);
        let last = ps.last();
        assert forall|p: int| 0 <= p < code.len() && listed(ps, p) implies #[trigger] patch_jumps(
            code,
            ps,
            t,
        )[p] == Instr::Jump(t) by {
            if p != last {
                let k = choose|k: int| 0 <= k < ps.len() && ps[k] == p;
                assert(k < ps.len() - 1);
                assert(q[k] == ps[k]);
                assert(listed(q, p));
            }
        }
        assert forall|p: int| 0 <= p < code.len() && !listed(ps, p) implies #[trigger] patch_jumps(
            code,
            ps,
            t,
        )[p] == code[p] by {
            if listed(q, p) {
                let k = choose|k: int| 0 <= k < q.len() && q[k] == p;
                assert(ps[k] == q[k]);
            }
            assert(ps[ps.len() - 1] == last);
        }
    }
}

proof fn lemma_binding_flow(name: String, expr: Expr, st: Emitted)
    ensures
        binding_code(name, expr, st) matches Ok(st2) ==> extends(st, st2) && settled(
            st2.code,
            st.code.len() as int,
            st2.code.len() as int,
            Seq::empty(),
        ),
{
    lemma_expr_jump_free(expr, st.names);
    if let Ok(st2) = binding_code(name, expr, st) {
        let c = expr_code(expr, st.names)->Ok_0;
        assert(st2.code.subrange(0, st.code.len() as int) =~= st.code);
        assert forall|p: int|
            st.code.len() <= p < st2.code.len() && !listed(Seq::empty(), p) implies #[trigger] forward_at(
            st2.code,
            p,
            st2.code.len() as int,
        ) by {
            if p < st.code.len() + c.len() {
                assert(st2.code[p] == c[p - st.code.len()]);
            }
        }
    }
}


proof fn lemma_listed_push(ps: Seq<int>, j: int, p: int)
    ensures
        listed(ps.push(j), p) == (listed(ps, p) || p == j),
{
    let qs = ps.push(j);
    if listed(ps, p) {
        let k = choose|k: int| 0 <= k < ps.len() && ps[k] == p;
        assert(qs[k] == ps[k]);
    }
    if p == j {
        assert(qs[ps.len() as int] == j);
    }
    if listed(qs, p) {
        let k = choose|k: int| 0 <= k < qs.len() && qs[k] == p;
        if k < ps.len() {
            assert(qs[k] == ps[k]);
        }
    }
}

pub(crate) proof fn lemma_listed_prepend(j: int, ps: Seq<int>, p: int)
    ensures
        listed(seq![j] + ps, p) == (p == j || listed(ps, p)),
{
    let qs = seq![j] + ps;
    if listed(ps, p) {
        let k = choose|k: int| 0 <= k < ps.len() && ps[k] == p;
        assert(qs[k + 1] == ps[k]);
    }
    if p == j {
        assert(qs[0] == j);
    }
    if listed(qs, p) {
        let k = choose|k: int| 0 <= k < qs.len() && qs[k] == p;
        if k > 0 {
            assert(qs[k] == ps[k - 1]);
        }
    }
}

pub(crate) proof fn lemma_stmt_flow(s: Stmt, st: Emitted)
    ensures
        stmt_code(s, st) matches Ok(st2) ==> extends(st, st2) && (st2.code.len() <= usize::MAX
            ==> settled(st2.code, st.code.len() as int, st2.code.len() as int, Seq::empty())),
    decreases s, 0nat,
{
    match s {
        Stmt::Let { name, expr, .. } => lemma_binding_flow(name, expr, st),
        Stmt::Mute { name, expr, .. } => lemma_binding_flow(name, expr, st),
        Stmt::Assign { name, expr, .. } => lemma_binding_flow(name, expr, st),
        Stmt::Expr(e) => {
            lemma_expr_jump_free(e, st.names);
            if let Ok(st2) = stmt_code(s, st) {
                assert(stmt_expr_code(e, st.names) == expr_code(e, st.names));
                let c = expr_code(e, st.names)->Ok_0;
                assert(st2.code.subrange(0, st.code.len() as int) =~= st.code);
                assert forall|p: int|
                    st.code.len() <= p < st2.code.len() && !listed(Seq::empty(), p) implies #[trigger] forward_at(
                    st2.code,
                    p,
                    st2.code.len() as int,
                ) by {
                    assert(st2.code[p] == c[p - st.code.len()]);
                }
            }
        },
        Stmt::If { first, elseifs, else_body, .. } => {
            lemma_branch_flow(first, st);
            if let Ok((st1, j)) = branch_code(first, st) {
                lemma_branches_flow(elseifs, elseifs.len() as int, st1);
                if let Ok((st2, js)) = branches_code(elseifs, elseifs.len() as int, st1) {
                    let done = match else_body {
                        Some(body) => stmts_code(body, body.len() as int, st2),
                        None => Ok(st2),
                    };
                    match else_body {
                        Some(body) => lemma_stmts_flow(body, body.len() as int, st2),
                        None => {
                            assert(st2.code.subrange(0, st2.code.len() as int) =~= st2.code);
                        },
                    }
                    if let Ok(st3) = done {
                        let ps = seq![j] + js;
                        let end = st3.code.len();
                        lemma_extends_trans(st, st1, st2);
                        lemma_extends_trans(st1, st2, st3);
                        lemma_extends_trans(st, st2, st3);
                        assert forall|k: int| 0 <= k < ps.len() implies ps[k] < end && ps[k]
                            >= st.code.len() by {
                            if k > 0 {
                                assert(ps[k] == js[k - 1]);
                            }
                        }
                        lemma_patch(st3.code, ps, end as usize);
                        let fin = patch_jumps(st3.code, ps, end as usize);
                        let result = Emitted { code: fin, names: st3.names };
                        assert(stmt_code(s, st) == Ok::<Emitted, crate::compiler::CompileError>(result));
                        assert forall|p: int| 0 <= p < st.code.len() implies fin[p] == st.code[p] by {
                            if listed(ps, p) {
                                let k = choose|k: int| 0 <= k < ps.len() && ps[k] == p;
                            }
                            lemma_extends_index(st, st3, p);
                        }
                        assert(fin.subrange(0, st.code.len() as int) =~= st.code);
                        if end <= usize::MAX {
                        lemma_settled_grow(st1, st3, st.code.len() as int, end as int, seq![j]);
                        lemma_settled_grow(st2, st3, st1.code.len() as int, end as int, js);
                        assert forall|p: int|
                            st.code.len() <= p < end && !listed(Seq::empty(), p) implies #[trigger] forward_at(
                            fin,
                            p,
                            end as int,
                        ) by {
                            lemma_listed_prepend(j, js, p);
                            lemma_listed_push(Seq::empty(), j, p);
                            assert(seq![j] =~= Seq::<int>::empty().push(j));
                            if !listed(ps, p) {
                                assert(fin[p] == st3.code[p]);
                                if p < st1.code.len() {
                                    assert(forward_at(st3.code, p, end as int));
                                } else if p < st2.code.len() {
                                    assert(forward_at(st3.code, p, end as int));
                                } else {
                                    assert(!listed(Seq::<int>::empty(), p));
                                    assert(forward_at(st3.code, p, end as int));
                                }
                            }
                        }
                        }
                    }
                }
            }
        },
    }
}

pub(crate) proof fn lemma_stmts_flow(v: Vec<Stmt>, n: int, st: Emitted)
    ensures
        stmts_code(v, n, st) matches Ok(st2) ==> extends(st, st2) && (st2.code.len() <= usize::MAX
            ==> settled(st2.code, st.code.len() as int, st2.code.len() as int, Seq::empty())),
    decreases v, n,
{
    if n <= 0 || n > v.len() {
        assert(st.code.subrange(0, st.code.len() as int) =~= st.code);
    } else {
        lemma_stmts_flow(v, n - 1, st);
        if let Ok(st1) = stmts_code(v, n - 1, st) {
            lemma_stmt_flow(v[n - 1], st1);
            if let Ok(st2) = stmt_code(v[n - 1], st1) {
                lemma_extends_trans(st, st1, st2);
                if st2.code.len() <= usize::MAX {
                    lemma_settled_grow(st1, st2, st.code.len() as int, st2.code.len() as int, Seq::empty());
                    assert forall|p: int|
                        st.code.len() <= p < st2.code.len() && !listed(Seq::empty(), p) implies #[trigger] forward_at(
                        st2.code,
                        p,
                        st2.code.len() as int,
                    ) by {
                        assert(!listed(Seq::<int>::empty(), p));
                    }
                }
            }
        }
    }
}

pub(crate) proof fn lemma_branch_flow(br: IfBranch, st: Emitted)
    ensures
        branch_code(br, st) matches Ok((st2, aj)) ==> extends(st, st2) && st.code.len() <= aj
            && aj + 1 == st2.code.len() && (st2.code.len() <= usize::MAX ==> settled(
            st2.code,
            st.code.len() as int,
            st2.code.len() as int,
            seq![aj],
        )),
    decreases br, 0nat,
{
    lemma_expr_jump_free(br.cond, st.names);
    if let Ok(c) = expr_code(br.cond, st.names) {
        let jf = (st.code.len() + c.len()) as int;
        let st1 = Emitted { code: st.code + c + seq![Instr::JumpIfFalse(0)], names: st.names };
        lemma_stmts_flow(br.body, br.body.len() as int, st1);
        if let Ok(st2) = stmts_code(br.body, br.body.len() as int, st1) {
            let aj = st2.code.len() as int;
            let code = st2.code.push(Instr::Jump(0));
            let fin = code.update(jf, Instr::JumpIfFalse(code.len() as usize));
            assert(branch_code(br, st) == Ok::<(Emitted, int), crate::compiler::CompileError>(
                (Emitted { code: fin, names: st2.names }, aj),
            ));
            assert forall|p: int| 0 <= p < st1.code.len() implies st2.code[p] == st1.code[p] by {
                lemma_extends_index(st1, st2, p);
            }
            assert(fin.subrange(0, st.code.len() as int) =~= st.code);
            if fin.len() <= usize::MAX {
            assert forall|p: int|
                st.code.len() <= p < fin.len() && !listed(seq![aj], p) implies #[trigger] forward_at(
                fin,
                p,
                fin.len() as int,
            ) by {
                lemma_listed_push(Seq::empty(), aj, p);
                assert(seq![aj] =~= Seq::<int>::empty().push(aj));
                if p < jf {
                    assert(fin[p] == c[p - st.code.len()]);
                } else if p > jf {
                    assert(p != aj);
                    assert(p < aj);
                    assert(fin[p] == st2.code[p]);
                    assert(!listed(Seq::<int>::empty(), p));
                    assert(forward_at(st2.code, p, st2.code.len() as int));
                }
            }
            }
        }
    }
}

pub(crate) proof fn lemma_branches_flow(v: Vec<IfBranch>, n: int, st: Emitted)
    ensures
        branches_code(v, n, st) matches Ok((st2, js)) ==> extends(st, st2) && (forall|k: int|
            0 <= k < js.len() ==> st.code.len() <= #[trigger] js[k] < st2.code.len()) && (
        st2.code.len() <= usize::MAX ==> settled(
            st2.code,
            st.code.len() as int,
            st2.code.len() as int,
            js,
        )),
    decreases v, n,
{
    if n <= 0 || n > v.len() {
        assert(st.code.subrange(0, st.code.len() as int) =~= st.code);
    } else {
        lemma_branches_flow(v, n - 1, st);
        if let Ok((st1, js1)) = branches_code(v, n - 1, st) {
            lemma_branch_flow(v[n - 1], st1);
            if let Ok((st2, j)) = branch_code(v[n - 1], st1) {
                let js = js1.push(j);
                lemma_extends_trans(st, st1, st2);
                assert forall|k: int| 0 <= k < js.len() implies st.code.len() <= #[trigger] js[k]
                    < st2.code.len() by {
                    if k < js1.len() {
                        assert(js[k] == js1[k]);
                    }
                }
                if st2.code.len() <= usize::MAX {
                lemma_settled_grow(st1, st2, st.code.len() as int, st2.code.len() as int, js1);
                assert forall|p: int|
                    st.code.len() <= p < st2.code.len() && !listed(js, p) implies #[trigger] forward_at(
                    st2.code,
                    p,
                    st2.code.len() as int,
                ) by {
                    lemma_listed_push(js1, j, p);
                    lemma_listed_push(Seq::empty(), j, p);
                    assert(seq![j] =~= Seq::<int>::empty().push(j));
                }
                }
            }
        }
    }
}


/// Every jump in a compiled chunk leads forward, to at most the end of its
/// code.
pub proof fn compiled_jumps_lead_forward(p: Program, c: Chunk)
    requires
        program_code(p) == Ok::<Emitted, crate::compiler::CompileError>(
            crate::compiler::emitted(c),
        ),
    ensures
        forward_only(c.code@),
{
    let st0 = Emitted { code: Seq::empty(), names: Seq::empty() };
    lemma_stmts_flow(p.stmts, p.stmts.len() as int, st0);
    let st = stmts_code(p.stmts, p.stmts.len() as int, st0)->Ok_0;
    assert(c.code@ == st.code.push(Instr::Halt));
    assert(c.code@.len() == c.code.len());
    assert forall|q: int| 0 <= q < c.code@.len() implies forward_at(c.code@, q, c.code@.len() as int) by {
        if q < st.code.len() {
            assert(!listed(Seq::<int>::empty(), q));
            assert(forward_at(st.code, q, st.code.len() as int));
            assert(c.code@[q] == st.code[q]);
        }
    }
}

/// On a compiled chunk each step that does not stop or fail moves the
/// instruction pointer forward, so a run ends within as many steps as the
/// code has instructions.
pub proof fn compiled_runs_move_forward(p: Program, c: Chunk, m: Machine)
    requires
        program_code(p) == Ok::<Emitted, crate::compiler::CompileError>(
            crate::compiler::emitted(c),
        ),
        0 <= m.ip,
    ensures
        step_spec(c.code@, m) matches Ok((m2, e)) ==> e == Effect::Stop || m2.ip > m.ip,
{
    compiled_jumps_lead_forward(p, c);
    if m.ip < c.code@.len() {
        assert(forward_at(c.code@, m.ip, c.code@.len() as int));
    }
}


/// The code of one branch of an `If` chain, from `s` up to its closing
/// jump at `j`: condition code without jumps, then a conditional jump to
/// just past the closing jump, then the body, whose jumps lead forward to
/// at most the closing jump.
pub open spec fn branch_shaped(code: Seq<Instr>, s: int, j: int) -> bool {
    exists|jf: int| #[trigger] shaped_at(code, s, j, jf)
}

/// `branch_shaped`, with the branch's conditional jump at `jf`.
pub open spec fn shaped_at(code: Seq<Instr>, s: int, j: int, jf: int) -> bool {
    &&& s <= jf < j < code.len()
    &&& code[jf] == Instr::JumpIfFalse((j + 1) as usize)
    &&& forall|q: int| s <= q < jf ==> jump_target(#[trigger] code[q]) is None
    &&& forall|q: int| jf < q < j ==> #[trigger] forward_at(code, q, j)
}

/// Where branch `k` of a chain begins, given the closing jumps `ps` of the
/// branches and the start `a` of the chain.
pub open spec fn branch_start(a: int, ps: Seq<int>, k: int) -> int {
    if k == 0 {
        a
    } else {
        ps[k - 1] + 1
    }
}

proof fn lemma_shape_extends(a: Emitted, b: Emitted, s: int, j: int)
    requires
        extends(a, b),
        0 <= s,
        j < a.code.len(),
        branch_shaped(a.code, s, j),
    ensures
        branch_shaped(b.code, s, j),
{
    let jf = choose|jf: int| #[trigger] shaped_at(a.code, s, j, jf);
    lemma_extends_index(a, b, jf);
    assert forall|q: int| s <= q < jf implies jump_target(#[trigger] b.code[q]) is None by {
        lemma_extends_index(a, b, q);
    }
    assert forall|q: int| jf < q < j implies #[trigger] forward_at(b.code, q, j) by {
        lemma_extends_index(a, b, q);
        assert(forward_at(a.code, q, j));
    }
    assert(shaped_at(b.code, s, j, jf));
}

proof fn lemma_shape_patch(code: Seq<Instr>, ps: Seq<int>, t: usize, s: int, j: int)
    requires
        forall|k: int| 0 <= k < ps.len() ==> 0 <= #[trigger] ps[k] < code.len(),
        forall|q: int| s <= q < j ==> !listed(ps, q),
        0 <= s,
        branch_shaped(code, s, j),
    ensures
        branch_shaped(patch_jumps(code, ps, t), s, j),
{
    lemma_patch(code, ps, t);
    let fin = patch_jumps(code, ps, t);
    let jf = choose|jf: int| #[trigger] shaped_at(code, s, j, jf);
    assert(fin[jf] == code[jf]);
    assert forall|q: int| s <= q < jf implies jump_target(#[trigger] fin[q]) is None by {
        assert(fin[q] == code[q]);
    }
    assert forall|q: int| jf < q < j implies #[trigger] forward_at(fin, q, j) by {
        assert(fin[q] == code[q]);
        assert(forward_at(code, q, j));
    }
    assert(shaped_at(fin, s, j, jf));
}

proof fn lemma_branch_shape(br: IfBranch, st: Emitted)
    ensures
        branch_code(br, st) matches Ok((st2, aj)) ==> (st2.code.len() <= usize::MAX
            ==> branch_shaped(st2.code, st.code.len() as int, aj)),
{
    lemma_expr_jump_free(br.cond, st.names);
    if let Ok(c) = expr_code(br.cond, st.names) {
        let jf = (st.code.len() + c.len()) as int;
        let st1 = Emitted { code: st.code + c + seq![Instr::JumpIfFalse(0)], names: st.names };
        lemma_stmts_flow(br.body, br.body.len() as int, st1);
        if let Ok(st2) = stmts_code(br.body, br.body.len() as int, st1) {
            let aj = st2.code.len() as int;
            let code = st2.code.push(Instr::Jump(0));
            let fin = code.update(jf, Instr::JumpIfFalse(code.len() as usize));
            if fin.len() <= usize::MAX {
                lemma_extends_index(st1, st2, jf);
                assert(fin[jf] == Instr::JumpIfFalse((aj + 1) as usize));
                assert forall|q: int| st.code.len() <= q < jf implies jump_target(#[trigger] fin[q])
                    is None by {
                    lemma_extends_index(st1, st2, q);
                    assert(fin[q] == c[q - st.code.len()]);
                }
                assert forall|q: int| jf < q < aj implies #[trigger] forward_at(fin, q, aj) by {
                    assert(fin[q] == st2.code[q]);
                    assert(!listed(Seq::<int>::empty(), q));
                    assert(forward_at(st2.code, q, st2.code.len() as int));
                }
                assert(shaped_at(fin, st.code.len() as int, aj, jf));
            }
        }
    }
}

proof fn lemma_branches_shape(v: Vec<IfBranch>, n: int, st: Emitted)
    ensures
        branches_code(v, n, st) matches Ok((st2, js)) ==> ({
            &&& js.len() == 0 ==> st2.code.len() == st.code.len()
            &&& js.len() > 0 ==> js.last() + 1 == st2.code.len()
            &&& forall|k: int| 0 <= k < js.len() ==> st.code.len() <= #[trigger] js[k]
            &&& forall|i: int, k: int| 0 <= i < k < js.len() ==> js[i] < js[k]
            &&& st2.code.len() <= usize::MAX ==> forall|k: int|
                0 <= k < js.len() ==> branch_shaped(
                    st2.code,
                    branch_start(st.code.len() as int, js, k),
                    #[trigger] js[k],
                )
        }),
    decreases n,
{
    if 0 < n <= v.len() {
        lemma_branches_shape(v, n - 1, st);
        lemma_branches_flow(v, n - 1, st);
        if let Ok((st1, js1)) = branches_code(v, n - 1, st) {
            lemma_branch_shape(v[n - 1], st1);
            lemma_branch_flow(v[n - 1], st1);
            if let Ok((st2, j)) = branch_code(v[n - 1], st1) {
                let js = js1.push(j);
                assert forall|k: int| 0 <= k < js.len() implies st.code.len() <= #[trigger] js[k] by {
                    if k < js1.len() {
                        assert(js[k] == js1[k]);
                    }
                }
                assert forall|i: int, k: int| 0 <= i < k < js.len() implies js[i] < js[k] by {
                    assert(js[i] == js1[i]);
                    if k < js1.len() {
                        assert(js[k] == js1[k]);
                    }
                }
                if st2.code.len() <= usize::MAX {
                    assert forall|k: int| 0 <= k < js.len() implies branch_shaped(
                        st2.code,
                        branch_start(st.code.len() as int, js, k),
                        #[trigger] js[k],
                    ) by {
                        if k < js1.len() {
                            assert(js[k] == js1[k]);
                            if k > 0 {
                                assert(js[k - 1] == js1[k - 1]);
                            }
                            assert(branch_shaped(
                                st1.code,
                                branch_start(st.code.len() as int, js1, k),
                                js1[k],
                            ));
                            lemma_shape_extends(
                                st1,
                                st2,
                                branch_start(st.code.len() as int, js1, k),
                                js1[k],
                            );
                        } else {
                            if k > 0 {
                                assert(js[k - 1] == js1[k - 1]);
                            }
                        }
                    }
                }
            }
        }
    }
}


/// The control flow of the code of an `If` chain. Its branches follow one
/// another: each runs from just past the previous branch's closing jump
/// (the first from the start of the chain) up to its own closing jump, and
/// is shaped as `branch_shaped` says, so a false condition leads to the next
/// branch and a true one into the body, whose jumps stay inside it. Every
/// closing jump leads to the end of the chain, and the code after the last
/// one (the `Else` body) only jumps forward, to at most that end.
#[verifier::rlimit(40)]
pub proof fn if_chain_control(s: Stmt, st: Emitted)
    requires
        s is If,
        stmt_code(s, st) is Ok,
        stmt_code(s, st)->Ok_0.code.len() <= usize::MAX,
    ensures
        ({
            let fin = stmt_code(s, st)->Ok_0.code;
            let end = fin.len() as int;
            let st1 = branch_code(s->If_first, st)->Ok_0.0;
            let j = branch_code(s->If_first, st)->Ok_0.1;
            let elseifs = s->If_elseifs;
            let ps = seq![j] + branches_code(elseifs, elseifs.len() as int, st1)->Ok_0.1;
            &&& forall|k: int|
                0 <= k < ps.len() ==> branch_shaped(
                    fin,
                    branch_start(st.code.len() as int, ps, k),
                    #[trigger] ps[k],
                ) && fin[ps[k]] == Instr::Jump(end as usize)
            &&& forall|q: int| ps.last() < q < end ==> #[trigger] forward_at(fin, q, end)
        }),
{
    let first = s->If_first;
    let elseifs = s->If_elseifs;
    let else_body = s->If_else_body;
    let a = st.code.len() as int;
    lemma_branch_flow(first, st);
    lemma_branch_shape(first, st);
    let (st1, j) = branch_code(first, st)->Ok_0;
    lemma_branches_flow(elseifs, elseifs.len() as int, st1);
    lemma_branches_shape(elseifs, elseifs.len() as int, st1);
    let (st2, js) = branches_code(elseifs, elseifs.len() as int, st1)->Ok_0;
    let done = match else_body {
        Some(body) => stmts_code(body, body.len() as int, st2),
        None => Ok(st2),
    };
    match else_body {
        Some(body) => lemma_stmts_flow(body, body.len() as int, st2),
        None => {
            assert(st2.code.subrange(0, st2.code.len() as int) =~= st2.code);
        },
    }
    let st3 = done->Ok_0;
    let ps = seq![j] + js;
    let end = st3.code.len() as int;
    lemma_extends_trans(st1, st2, st3);
    assert(stmt_code(s, st) == Ok::<Emitted, crate::compiler::CompileError>(
        Emitted { code: patch_jumps(st3.code, ps, end as usize), names: st3.names },
    ));
    assert forall|k: int| 0 <= k < ps.len() implies 0 <= #[trigger] ps[k] < end by {
        if k > 0 {
            assert(ps[k] == js[k - 1]);
        }
    }
    assert forall|i: int, k: int| 0 <= i < k < ps.len() implies ps[i] < ps[k] by {
        assert(ps[k] == js[k - 1]);
        if i > 0 {
            assert(ps[i] == js[i - 1]);
        }
    }
    assert(ps.last() + 1 == st2.code.len()) by {
        if js.len() > 0 {
            assert(ps.last() == js.last());
        }
    }
    lemma_patch(st3.code, ps, end as usize);
    let fin = patch_jumps(st3.code, ps, end as usize);
    assert forall|k: int| 0 <= k < ps.len() implies branch_shaped(
        fin,
        branch_start(a, ps, k),
        #[trigger] ps[k],
    ) && fin[ps[k]] == Instr::Jump(end as usize) by {
        assert(listed(ps, ps[k]));
        let sk = branch_start(a, ps, k);
        if k == 0 {
            lemma_shape_extends(st1, st3, a, j);
        } else {
            assert(ps[k] == js[k - 1]);
            if k > 1 {
                assert(ps[k - 1] == js[k - 2]);
            }
            assert(sk == branch_start(st1.code.len() as int, js, k - 1));
            assert(branch_shaped(st2.code, sk, js[k - 1]));
            lemma_shape_extends(st2, st3, sk, ps[k]);
        }
        assert forall|q: int| sk <= q < ps[k] implies !listed(ps, q) by {
            if listed(ps, q) {
                let i = choose|i: int| 0 <= i < ps.len() && ps[i] == q;
                if i < k {
                    if i < k - 1 {
                        assert(ps[i] < ps[k - 1]);
                    }
                } else if i > k {
                    assert(ps[k] < ps[i]);
                }
            }
        }
        lemma_shape_patch(st3.code, ps, end as usize, sk, ps[k]);
    }
    assert forall|q: int| ps.last() < q < end implies #[trigger] forward_at(fin, q, end) by {
        if listed(ps, q) {
            let i = choose|i: int| 0 <= i < ps.len() && ps[i] == q;
            if i < ps.len() - 1 {
                assert(ps[i] < ps[ps.len() - 1]);
            }
        }
        assert(fin[q] == st3.code[q]);
        assert(!listed(Seq::<int>::empty(), q));
        assert(forward_at(st3.code, q, end));
    }
}


/// Closing jumps of the branches of an `If` chain, in order.
pub open spec fn closing_jumps(s: Stmt, st: Emitted) -> Seq<int> {
    let st1 = branch_code(s->If_first, st)->Ok_0.0;
    let j = branch_code(s->If_first, st)->Ok_0.1;
    let elseifs = s->If_elseifs;
    seq![j] + branches_code(elseifs, elseifs.len() as int, st1)->Ok_0.1
}

/// Position of the conditional jump of branch `k` of an `If` chain.
pub open spec fn cond_jump(s: Stmt, st: Emitted, k: int) -> int {
    let fin = stmt_code(s, st)->Ok_0.code;
    let ps = closing_jumps(s, st);
    choose|jf: int| #[trigger] shaped_at(fin, branch_start(st.code.len() as int, ps, k), ps[k], jf)
}

/// `c` holds the code of statement `s`, compiled after `st`, at its place.
pub open spec fn holds_chain(c: Seq<Instr>, s: Stmt, st: Emitted) -> bool {
    let fin = stmt_code(s, st)->Ok_0.code;
    &&& c.len() >= fin.len()
    &&& forall|q: int| st.code.len() <= q < fin.len() ==> c[q] == #[trigger] fin[q]
}

/// How one step moves through branch `k` of an `If` chain. Up to the
/// branch's conditional jump, control moves to the next instruction. The
/// conditional jump moves into the body when the condition is true and to
/// the start of the next branch when it is false. From the body, control
/// moves forward to at most the closing jump, and the closing jump leads to
/// the end of the chain. So control enters a body only through its own
/// branch's true condition, and leaves it only for the end of the chain.
pub proof fn if_branch_steps(s: Stmt, st: Emitted, c: Seq<Instr>, k: int, m: Machine)
    requires
        s is If,
        stmt_code(s, st) is Ok,
        stmt_code(s, st)->Ok_0.code.len() <= usize::MAX,
        holds_chain(c, s, st),
        0 <= k < closing_jumps(s, st).len(),
        branch_start(st.code.len() as int, closing_jumps(s, st), k) <= m.ip <= closing_jumps(
            s,
            st,
        )[k],
    ensures
        ({
            let ps = closing_jumps(s, st);
            let end = stmt_code(s, st)->Ok_0.code.len() as int;
            let n = m.stack.len();
            let jf = cond_jump(s, st, k);
            branch_start(st.code.len() as int, ps, k) <= jf < ps[k] && c[jf]
                    == Instr::JumpIfFalse((ps[k] + 1) as usize) && (step_spec(c, m) matches Ok(
                    (m2, e),
                ) ==> {
                    &&& m.ip < jf ==> m2.ip == m.ip + 1
                    &&& m.ip == jf ==> (m2.ip == jf + 1 && m.stack[n - 1] == Value::Bool(true))
                        || (m2.ip == ps[k] + 1 && m.stack[n - 1] == Value::Bool(false))
                    &&& jf < m.ip < ps[k] ==> m.ip < m2.ip <= ps[k]
                    &&& m.ip == ps[k] ==> m2.ip == end
                })
        }),
{
    let ps = closing_jumps(s, st);
    let fin = stmt_code(s, st)->Ok_0.code;
    let end = fin.len() as int;
    let sk = branch_start(st.code.len() as int, ps, k);
    lemma_branch_at(s, st, k);
    let jf = cond_jump(s, st, k);
    assert(c[jf] == fin[jf]);
    assert(c[m.ip] == fin[m.ip]);
    lemma_step_ip(c, m);
    if m.ip < jf {
        assert(jump_target(fin[m.ip]) is None);
    } else if jf < m.ip < ps[k] {
        assert(forward_at(fin, m.ip, ps[k]));
    }
    let n = m.stack.len();
    assert(sk <= jf < ps[k] && c[jf] == Instr::JumpIfFalse((ps[k] + 1) as usize) && (step_spec(
        c,
        m,
    ) matches Ok((m2, e)) ==> {
        &&& m.ip < jf ==> m2.ip == m.ip + 1
        &&& m.ip == jf ==> (m2.ip == jf + 1 && m.stack[n - 1] == Value::Bool(true)) || (m2.ip
            == ps[k] + 1 && m.stack[n - 1] == Value::Bool(false))
        &&& jf < m.ip < ps[k] ==> m.ip < m2.ip <= ps[k]
        &&& m.ip == ps[k] ==> m2.ip == end
    }));
}

proof fn lemma_branch_at(s: Stmt, st: Emitted, k: int)
    requires
        s is If,
        stmt_code(s, st) is Ok,
        stmt_code(s, st)->Ok_0.code.len() <= usize::MAX,
        0 <= k < closing_jumps(s, st).len(),
    ensures
        ({
            let ps = closing_jumps(s, st);
            let fin = stmt_code(s, st)->Ok_0.code;
            let sk = branch_start(st.code.len() as int, ps, k);
            &&& branch_shaped(fin, sk, ps[k])
            &&& fin[ps[k]] == Instr::Jump(fin.len() as usize)
            &&& sk >= st.code.len()
        }),
{
    if_chain_control(s, st);
    lemma_closing_jumps_increase(s, st);
    let ps = closing_jumps(s, st);
    assert(ps[k] == ps[k]);
    if k > 0 {
        assert(ps[k - 1] >= st.code.len());
    }
}

/// Where one step leads the instruction pointer: to the next instruction
/// unless the instruction jumps; to its target for a jump; for a
/// conditional jump, to the next instruction on `true` and to its target
/// on `false`.
pub proof fn lemma_step_ip(code: Seq<Instr>, m: Machine)
    requires
        0 <= m.ip < code.len(),
    ensures
        step_spec(code, m) matches Ok((m2, e)) ==> {
            let n = m.stack.len();
            &&& jump_target(code[m.ip]) is None ==> m2.ip == m.ip + 1
            &&& code[m.ip] matches Instr::Jump(t) ==> m2.ip == t
            &&& code[m.ip] matches Instr::JumpIfFalse(t) ==> (m2.ip == m.ip + 1 && m.stack[n - 1]
                == Value::Bool(true)) || (m2.ip == t && m.stack[n - 1] == Value::Bool(false))
        },
{
}

/// How one step moves through the code after the last closing jump of an
/// `If` chain (its `Else` body): forward, to at most the end of the chain.
pub proof fn if_else_steps(s: Stmt, st: Emitted, c: Seq<Instr>, m: Machine)
    requires
        s is If,
        stmt_code(s, st) is Ok,
        stmt_code(s, st)->Ok_0.code.len() <= usize::MAX,
        holds_chain(c, s, st),
        closing_jumps(s, st).last() < m.ip < stmt_code(s, st)->Ok_0.code.len(),
    ensures
        step_spec(c, m) matches Ok((m2, e)) ==> m.ip < m2.ip <= stmt_code(s, st)->Ok_0.code.len(),
{
    if_chain_control(s, st);
    let ps = closing_jumps(s, st);
    let fin = stmt_code(s, st)->Ok_0.code;
    assert(ps[0] >= st.code.len());
    assert(ps.last() >= st.code.len()) by {
        if ps.len() > 1 {
            assert(ps[0] < ps[ps.len() - 1]) by {
                assert(forall|i: int, kk: int| 0 <= i < kk < ps.len() ==> ps[i] < ps[kk]) by {
                    lemma_closing_jumps_increase(s, st);
                }
            }
        }
    }
    assert(c[m.ip] == fin[m.ip]);
    assert(forward_at(fin, m.ip, fin.len() as int));
}

proof fn lemma_closing_jumps_increase(s: Stmt, st: Emitted)
    requires
        s is If,
        stmt_code(s, st) is Ok,
    ensures
        forall|i: int, k: int|
            0 <= i < k < closing_jumps(s, st).len() ==> closing_jumps(s, st)[i] < closing_jumps(
                s,
                st,
            )[k],
        forall|k: int|
            0 <= k < closing_jumps(s, st).len() ==> st.code.len() <= #[trigger] closing_jumps(
                s,
                st,
            )[k],
{
    let first = s->If_first;
    let elseifs = s->If_elseifs;
    lemma_branch_flow(first, st);
    let (st1, j) = branch_code(first, st)->Ok_0;
    lemma_branches_shape(elseifs, elseifs.len() as int, st1);
    let js = branches_code(elseifs, elseifs.len() as int, st1)->Ok_0.1;
    let ps = seq![j] + js;
    assert forall|i: int, k: int| 0 <= i < k < ps.len() implies ps[i] < ps[k] by {
        assert(ps[k] == js[k - 1]);
        if i > 0 {
            assert(ps[i] == js[i - 1]);
        }
    }
    assert forall|k: int| 0 <= k < ps.len() implies st.code.len() <= #[trigger] ps[k] by {
        if k > 0 {
            assert(ps[k] == js[k - 1]);
        }
    }
}


/// `ms` is a run of `c` as far as the instruction pointer goes: each
/// machine's pointer is where a step from the one before leads (between
/// steps the caller may push a line of input).
pub open spec fn ip_trace(c: Seq<Instr>, ms: Seq<Machine>) -> bool {
    forall|i: int|
        0 <= i < ms.len() - 1 ==> (step_spec(c, #[trigger] ms[i]) matches Ok((m2, e)) && m2.ip
            == ms[i + 1].ip)
}

/// Position `q` lies in the body of branch `k` of an `If` chain, its
/// closing jump included.
pub open spec fn in_body(s: Stmt, st: Emitted, k: int, q: int) -> bool {
    0 <= k < closing_jumps(s, st).len() && cond_jump(s, st, k) < q <= closing_jumps(s, st)[k]
}

/// The code of `s` compiled after `st` is an `If` chain whose length fits
/// a vector.
pub open spec fn chain_ok(s: Stmt, st: Emitted) -> bool {
    &&& s is If
    &&& stmt_code(s, st) is Ok
    &&& stmt_code(s, st)->Ok_0.code.len() <= usize::MAX
}

proof fn lemma_cond_jump(s: Stmt, st: Emitted, k: int)
    requires
        chain_ok(s, st),
        0 <= k < closing_jumps(s, st).len(),
    ensures
        shaped_at(
            stmt_code(s, st)->Ok_0.code,
            branch_start(st.code.len() as int, closing_jumps(s, st), k),
            closing_jumps(s, st)[k],
            cond_jump(s, st, k),
        ),
        branch_start(st.code.len() as int, closing_jumps(s, st), k) >= st.code.len(),
{
    lemma_branch_at(s, st, k);
}

/// Branches come in order: everything of branch `k1` lies before the
/// conditional jump of a later branch `k2`.
proof fn lemma_branch_order(s: Stmt, st: Emitted, k1: int, k2: int)
    requires
        chain_ok(s, st),
        0 <= k1 < k2 < closing_jumps(s, st).len(),
    ensures
        closing_jumps(s, st)[k1] < branch_start(st.code.len() as int, closing_jumps(s, st), k2),
        branch_start(st.code.len() as int, closing_jumps(s, st), k2) <= cond_jump(s, st, k2),
{
    lemma_closing_jumps_increase(s, st);
    lemma_cond_jump(s, st, k2);
    let ps = closing_jumps(s, st);
    if k1 < k2 - 1 {
        assert(ps[k1] < ps[k2 - 1]);
    }
}

proof fn lemma_bodies_disjoint(s: Stmt, st: Emitted, k1: int, k2: int, q: int)
    requires
        chain_ok(s, st),
        in_body(s, st, k1, q),
        in_body(s, st, k2, q),
    ensures
        k1 == k2,
{
    if k1 < k2 {
        lemma_branch_order(s, st, k1, k2);
    } else if k2 < k1 {
        lemma_branch_order(s, st, k2, k1);
    }
}

/// Once a run of an `If` chain is inside the body of a branch, it stays in
/// that body for as long as it stays in the chain.
pub proof fn body_is_kept(s: Stmt, st: Emitted, c: Seq<Instr>, ms: Seq<Machine>, k: int, i: int, t: int)
    requires
        chain_ok(s, st),
        holds_chain(c, s, st),
        ip_trace(c, ms),
        forall|u: int| 0 <= u < ms.len() ==> #[trigger] ms[u].ip < stmt_code(s, st)->Ok_0.code.len(),
        0 <= i <= t < ms.len(),
        in_body(s, st, k, ms[i].ip),
    ensures
        in_body(s, st, k, ms[t].ip),
    decreases t - i,
{
    if t > i {
        body_is_kept(s, st, c, ms, k, i, t - 1);
        let m = ms[t - 1];
        lemma_cond_jump(s, st, k);
        if_branch_steps(s, st, c, k, m);
        assert(step_spec(c, ms[t - 1]) matches Ok((m2, e)) && m2.ip == ms[t].ip);
        assert(ms[t].ip < stmt_code(s, st)->Ok_0.code.len());
    }
}

/// A run of an `If` chain enters the body of branch `k` only from that
/// branch's conditional jump, with `true` on top of the stack.
pub proof fn body_is_entered_on_true(s: Stmt, st: Emitted, c: Seq<Instr>, ms: Seq<Machine>, k: int, i: int)
    requires
        chain_ok(s, st),
        holds_chain(c, s, st),
        ip_trace(c, ms),
        0 <= i < ms.len() - 1,
        st.code.len() <= ms[i].ip < stmt_code(s, st)->Ok_0.code.len(),
        !in_body(s, st, k, ms[i].ip),
        in_body(s, st, k, ms[i + 1].ip),
    ensures
        ms[i].ip == cond_jump(s, st, k),
        ms[i].stack.last() == Value::Bool(true),
{
    let ps = closing_jumps(s, st);
    let a = st.code.len() as int;
    let end = stmt_code(s, st)->Ok_0.code.len() as int;
    let m = ms[i];
    let q = m.ip;
    assert(step_spec(c, ms[i]) matches Ok((m2, e)) && m2.ip == ms[i + 1].ip);
    let next = ms[i + 1].ip;
    lemma_closing_jumps_increase(s, st);
    lemma_cond_jump(s, st, k);
    if q > ps.last() {
        if_else_steps(s, st, c, m);
        if k < ps.len() - 1 {
            assert(ps[k] < ps[ps.len() - 1]);
        }
    } else {
        let k2 = lemma_find_branch(a, ps, q, ps.len() - 1);
        lemma_cond_jump(s, st, k2);
        if_branch_steps(s, st, c, k2, m);
        let jf2 = cond_jump(s, st, k2);
        if q < jf2 {
            if k < k2 {
                lemma_branch_order(s, st, k, k2);
            } else if k > k2 {
                lemma_branch_order(s, st, k2, k);
            }
        } else if q == jf2 {
            if next == jf2 + 1 {
                assert(in_body(s, st, k2, next));
                lemma_bodies_disjoint(s, st, k, k2, next);
            } else {
                if k < k2 {
                    lemma_branch_order(s, st, k, k2);
                } else if k > k2 {
                    lemma_branch_order(s, st, k2, k);
                    if k2 < k - 1 {
                        assert(ps[k2] < ps[k - 1]);
                    }
                }
            }
        } else {
            assert(in_body(s, st, k2, q));
            if q < ps[k2] {
                assert(in_body(s, st, k2, next));
                lemma_bodies_disjoint(s, st, k, k2, next);
            } else {
                if k < ps.len() - 1 {
                    assert(ps[k] < ps[ps.len() - 1]);
                }
            }
        }
    }
}

/// The branch whose region holds `q`: the first whose closing jump is at
/// or after `q`.
proof fn lemma_find_branch(a: int, ps: Seq<int>, q: int, k: int) -> (r: int)
    requires
        0 <= k < ps.len(),
        a <= q <= ps[k],
    ensures
        0 <= r <= k,
        branch_start(a, ps, r) <= q <= ps[r],
    decreases k,
{
    if k == 0 || ps[k - 1] < q {
        k
    } else {
        lemma_find_branch(a, ps, q, k - 1)
    }
}

/// In a run of an `If` chain, the bodies of two different branches are
/// never both entered: the run stays in the first body it enters.
pub proof fn at_most_one_body_runs(
    s: Stmt,
    st: Emitted,
    c: Seq<Instr>,
    ms: Seq<Machine>,
    i: int,
    t: int,
    k1: int,
    k2: int,
)
    requires
        chain_ok(s, st),
        holds_chain(c, s, st),
        ip_trace(c, ms),
        forall|u: int| 0 <= u < ms.len() ==> #[trigger] ms[u].ip < stmt_code(s, st)->Ok_0.code.len(),
        0 <= i <= t < ms.len(),
        in_body(s, st, k1, ms[i].ip),
        in_body(s, st, k2, ms[t].ip),
    ensures
        k1 == k2,
{
    body_is_kept(s, st, c, ms, k1, i, t);
    lemma_bodies_disjoint(s, st, k1, k2, ms[t].ip);
}


/// A run of an `If` chain that starts at the chain's first instruction and
/// gets past the closing jump of branch `i` went through the conditional
/// jump of branch `i` with `false` on top of the stack, straight to the
/// next branch. With `body_is_entered_on_true`, the body that runs is that
/// of the first branch whose condition is true.
pub proof fn earlier_conditions_were_false(
    s: Stmt,
    st: Emitted,
    c: Seq<Instr>,
    ms: Seq<Machine>,
    i: int,
    t: int,
)
    requires
        chain_ok(s, st),
        holds_chain(c, s, st),
        ip_trace(c, ms),
        forall|u: int|
            0 <= u < ms.len() ==> st.code.len() <= #[trigger] ms[u].ip < stmt_code(
                s,
                st,
            )->Ok_0.code.len(),
        0 <= i < closing_jumps(s, st).len(),
        0 <= t < ms.len(),
        ms[0].ip == st.code.len(),
        ms[t].ip > closing_jumps(s, st)[i],
    ensures
        exists|u: int|
            0 <= u < t && #[trigger] ms[u].ip == cond_jump(s, st, i) && ms[u].stack.last()
                == Value::Bool(false) && ms[u + 1].ip == closing_jumps(s, st)[i] + 1,
{
    lemma_cond_jump(s, st, i);
    lemma_passes(s, st, c, ms, i, t, t);
}

proof fn lemma_passes(s: Stmt, st: Emitted, c: Seq<Instr>, ms: Seq<Machine>, i: int, t0: int, t: int)
    requires
        chain_ok(s, st),
        holds_chain(c, s, st),
        ip_trace(c, ms),
        forall|u: int|
            0 <= u < ms.len() ==> st.code.len() <= #[trigger] ms[u].ip < stmt_code(
                s,
                st,
            )->Ok_0.code.len(),
        0 <= i < closing_jumps(s, st).len(),
        0 <= t <= t0 < ms.len(),
        ms[0].ip == st.code.len(),
        ms[t0].ip > closing_jumps(s, st)[i],
        ms[t].ip > cond_jump(s, st, i),
    ensures
        exists|u: int|
            0 <= u < t && #[trigger] ms[u].ip == cond_jump(s, st, i) && ms[u].stack.last()
                == Value::Bool(false) && ms[u + 1].ip == closing_jumps(s, st)[i] + 1,
    decreases t,
{
    let ps = closing_jumps(s, st);
    let a = st.code.len() as int;
    let jf = cond_jump(s, st, i);
    lemma_cond_jump(s, st, i);
    lemma_closing_jumps_increase(s, st);
    assert(ms[0].ip <= jf);
    assert(t > 0);
    if ms[t - 1].ip > jf {
        lemma_passes(s, st, c, ms, i, t0, t - 1);
        let u = choose|u: int|
            0 <= u < t - 1 && #[trigger] ms[u].ip == jf && ms[u].stack.last() == Value::Bool(false)
                && ms[u + 1].ip == ps[i] + 1;
        assert(0 <= u < t && ms[u].ip == jf);
    } else {
        let m = ms[t - 1];
        let q = m.ip;
        assert(step_spec(c, ms[t - 1]) matches Ok((m2, e)) && m2.ip == ms[t].ip);
        assert(ms[t].ip < stmt_code(s, st)->Ok_0.code.len());
        assert(q >= a);
        let k2 = lemma_find_branch(a, ps, q, i);
        lemma_cond_jump(s, st, k2);
        if_branch_steps(s, st, c, k2, m);
        if k2 < i {
            lemma_branch_order(s, st, k2, i);
        } else {
            if q == jf {
                if ms[t].ip == jf + 1 {
                    assert(in_body(s, st, i, ms[t].ip));
                    body_is_kept_within(s, st, c, ms, i, t, t0);
                } else {
                    assert(ms[t - 1].ip == jf);
                }
            }
        }
    }
}

proof fn body_is_kept_within(s: Stmt, st: Emitted, c: Seq<Instr>, ms: Seq<Machine>, k: int, i: int, t: int)
    requires
        chain_ok(s, st),
        holds_chain(c, s, st),
        ip_trace(c, ms),
        forall|u: int|
            0 <= u < ms.len() ==> st.code.len() <= #[trigger] ms[u].ip < stmt_code(
                s,
                st,
            )->Ok_0.code.len(),
        0 <= i <= t < ms.len(),
        in_body(s, st, k, ms[i].ip),
    ensures
        in_body(s, st, k, ms[t].ip),
{
    assert forall|u: int| 0 <= u < ms.len() implies #[trigger] ms[u].ip < stmt_code(s, st)->Ok_0.code.len() by {
        assert(st.code.len() <= ms[u].ip);
    }
    body_is_kept(s, st, c, ms, k, i, t);
}


/// Every step taken inside the code of an `If` chain moves forward and
/// lands inside the chain or just past its end.
pub proof fn chain_steps_move_forward(s: Stmt, st: Emitted, c: Seq<Instr>, m: Machine)
    requires
        chain_ok(s, st),
        holds_chain(c, s, st),
        st.code.len() <= m.ip < stmt_code(s, st)->Ok_0.code.len(),
    ensures
        step_spec(c, m) matches Ok((m2, e)) ==> m.ip < m2.ip <= stmt_code(s, st)->Ok_0.code.len(),
{
    let ps = closing_jumps(s, st);
    lemma_closing_jumps_increase(s, st);
    if m.ip > ps.last() {
        if_else_steps(s, st, c, m);
    } else {
        let k = lemma_find_branch(st.code.len() as int, ps, m.ip, ps.len() - 1);
        lemma_cond_jump(s, st, k);
        if_branch_steps(s, st, c, k, m);
        if k < ps.len() - 1 {
            assert(ps[k] < ps[ps.len() - 1]);
        }
    }
}

/// A run that stays inside the code of an `If` chain takes fewer steps
/// than the chain has instructions: control always gets past the chain,
/// unless the run stops or fails first.
pub proof fn runs_leave_chain(s: Stmt, st: Emitted, c: Seq<Instr>, ms: Seq<Machine>)
    requires
        chain_ok(s, st),
        holds_chain(c, s, st),
        ip_trace(c, ms),
        forall|u: int|
            0 <= u < ms.len() ==> st.code.len() <= #[trigger] ms[u].ip < stmt_code(
                s,
                st,
            )->Ok_0.code.len(),
    ensures
        ms.len() <= stmt_code(s, st)->Ok_0.code.len() - st.code.len(),
{
    lemma_stmt_flow(s, st);
    if ms.len() > 0 {
        lemma_ip_grows(s, st, c, ms, ms.len() - 1);
        assert(ms[ms.len() - 1].ip < stmt_code(s, st)->Ok_0.code.len());
    }
}

proof fn lemma_ip_grows(s: Stmt, st: Emitted, c: Seq<Instr>, ms: Seq<Machine>, u: int)
    requires
        chain_ok(s, st),
        holds_chain(c, s, st),
        ip_trace(c, ms),
        forall|v: int|
            0 <= v < ms.len() ==> st.code.len() <= #[trigger] ms[v].ip < stmt_code(
                s,
                st,
            )->Ok_0.code.len(),
        0 <= u < ms.len(),
    ensures
        ms[u].ip >= st.code.len() + u,
    decreases u,
{
    assert(ms[u].ip >= st.code.len());
    if u > 0 {
        lemma_ip_grows(s, st, c, ms, u - 1);
        assert(step_spec(c, ms[u - 1]) matches Ok((m2, e)) && m2.ip == ms[u].ip);
        assert(st.code.len() <= ms[u - 1].ip);
        chain_steps_move_forward(s, st, c, ms[u - 1]);
    }
}


proof fn lemma_stmts_extend(v: Vec<Stmt>, k: int, n: int, st0: Emitted)
    requires
        0 <= k <= n <= v.len(),
        stmts_code(v, n, st0) is Ok,
    ensures
        stmts_code(v, k, st0) is Ok,
        extends(stmts_code(v, k, st0)->Ok_0, stmts_code(v, n, st0)->Ok_0),
    decreases n - k,
{
    if n == k {
        let st = stmts_code(v, n, st0)->Ok_0;
        assert(st.code.subrange(0, st.code.len() as int) =~= st.code);
    } else {
        assert(stmts_code(v, n - 1, st0) is Ok);
        lemma_stmts_extend(v, k, n - 1, st0);
        let st1 = stmts_code(v, n - 1, st0)->Ok_0;
        lemma_stmt_flow(v[n - 1], st1);
        lemma_extends_trans(stmts_code(v, k, st0)->Ok_0, st1, stmts_code(v, n, st0)->Ok_0);
    }
}

/// A top-level `If` chain of a compiled program sits in the chunk's code at
/// the place where the statements before it end, so the facts above about
/// runs of a chain hold of runs of the chunk.
pub proof fn top_level_chain_in_chunk(p: Program, c: Chunk, i: int)
    requires
        program_code(p) == Ok::<Emitted, crate::compiler::CompileError>(
            crate::compiler::emitted(c),
        ),
        0 <= i < p.stmts.len(),
        p.stmts[i] is If,
    ensures
        ({
            let st = stmts_code(
                p.stmts,
                i,
                Emitted { code: Seq::empty(), names: Seq::empty() },
            )->Ok_0;
            &&& stmts_code(p.stmts, i, Emitted { code: Seq::empty(), names: Seq::empty() }) is Ok
            &&& chain_ok(p.stmts[i], st)
            &&& holds_chain(c.code@, p.stmts[i], st)
        }),
{
    let st0 = Emitted { code: Seq::empty(), names: Seq::empty() };
    let n = p.stmts.len() as int;
    lemma_stmts_extend(p.stmts, i + 1, n, st0);
    lemma_stmts_extend(p.stmts, i, i + 1, st0);
    let st = stmts_code(p.stmts, i, st0)->Ok_0;
    let mid = stmts_code(p.stmts, i + 1, st0)->Ok_0;
    let last = stmts_code(p.stmts, n, st0)->Ok_0;
    assert(mid == stmt_code(p.stmts[i], st)->Ok_0);
    assert(c.code@ == last.code.push(Instr::Halt));
    assert(c.code@.len() == c.code.len());
    assert forall|q: int| st.code.len() <= q < mid.code.len() implies c.code@[q] == #[trigger] mid.code[q] by {
        lemma_extends_index(mid, last, q);
    }
}

} // verus!
