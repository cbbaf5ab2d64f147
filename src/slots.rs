//! Local slots of compiled code: every load or store the compiler emits
//! names a slot that the chunk's local table has, at the point where the
//! instruction is appended and so also in the finished chunk.

use vstd::prelude::*;
use crate::ast::{Expr, IfBranch, Program, Stmt};
use crate::bytecode::{names_of, slot_of, Chunk, Instr};
use crate::compiler::{
    args_code, binding_code, branch_code, branches_code, emitted, expr_code, names_after_binding,
    patch_jumps, program_code, stmt_code, stmt_expr_code, stmts_code, CompileError, Emitted,
};
use crate::flow::{
    extends, lemma_branch_flow, lemma_branches_flow, lemma_extends_index, lemma_extends_trans,
    lemma_listed_prepend, lemma_patch, lemma_stmts_flow, listed,
};

verus! {

/// The slot that a load or store names.
pub open spec fn slot_ref(i: Instr) -> Option<usize> {
    match i {
        Instr::LoadLocal(s) => Some(s),
        Instr::StoreLocal(s) => Some(s),
        _ => None,
    }
}

/// The instruction at `p`, if a load or store, names a slot below `n`.
pub open spec fn slot_ok(code: Seq<Instr>, p: int, n: int) -> bool {
    slot_ref(code[p]) matches Some(s) ==> s < n
}

pub open spec fn slots_below(code: Seq<Instr>, lo: int, hi: int, n: int) -> bool {
    forall|p: int| lo <= p < hi ==> #[trigger] slot_ok(code, p, n)
}

proof fn lemma_slot_of_bound(names: Seq<Seq<char>>, name: Seq<char>)
    ensures
        slot_of(names, name) matches Some(i) ==> i < names.len(),
        slot_of(names, name) is None ==> slot_of(names.push(name), name) == Some(names.len()),
    decreases names.len(),
{
    if names.len() > 0 {
        lemma_slot_of_bound(names.drop_last(), name);
    }
    assert(names.push(name).drop_last() =~= names);
}

proof fn lemma_expr_slots(e: Expr, names: Seq<Seq<char>>)
    ensures
        expr_code(e, names) matches Ok(c) ==> (names.len() <= usize::MAX ==> slots_below(
            c,
            0,
            c.len() as int,
            names.len() as int,
        )),
    decreases e, 0nat,
{
    match e {
        Expr::Var(name, _) => {
            lemma_slot_of_bound(names, name@);
        },
        Expr::Add(a, b, _) => {
            lemma_expr_slots(*a, names);
            lemma_expr_slots(*b, names);
            if let Ok(c) = expr_code(e, names) {
                let ca = expr_code(*a, names)->Ok_0;
                let cb = expr_code(*b, names)->Ok_0;
                assert forall|k: int| 0 <= k < c.len() && names.len() <= usize::MAX implies #[trigger] slot_ok(
                    c,
                    k,
                    names.len() as int,
                ) by {
                    if k < ca.len() {
                        assert(c[k] == ca[k]);
                        assert(slot_ok(ca, k, names.len() as int));
                    } else if k < ca.len() + cb.len() {
                        assert(c[k] == cb[k - ca.len()]);
                        assert(slot_ok(cb, k - ca.len(), names.len() as int));
                    }
                }
            }
        },
        Expr::Cmp(a, _, b, _) => {
            lemma_expr_slots(*a, names);
            lemma_expr_slots(*b, names);
            if let Ok(c) = expr_code(e, names) {
                let ca = expr_code(*a, names)->Ok_0;
                let cb = expr_code(*b, names)->Ok_0;
                assert forall|k: int| 0 <= k < c.len() && names.len() <= usize::MAX implies #[trigger] slot_ok(
                    c,
                    k,
                    names.len() as int,
                ) by {
                    if k < ca.len() {
                        assert(c[k] == ca[k]);
                        assert(slot_ok(ca, k, names.len() as int));
                    } else if k < ca.len() + cb.len() {
                        assert(c[k] == cb[k - ca.len()]);
                        assert(slot_ok(cb, k - ca.len(), names.len() as int));
                    }
                }
            }
        },
        Expr::Call(_, args, _) => {
            lemma_args_slots(args, args.len() as int, names);
            if let Ok(c) = expr_code(e, names) {
                let ca = args_code(args, args.len() as int, names)->Ok_0;
                assert forall|k: int| 0 <= k < c.len() && names.len() <= usize::MAX implies #[trigger] slot_ok(
                    c,
                    k,
                    names.len() as int,
                ) by {
                    if k < ca.len() {
                        assert(c[k] == ca[k]);
                        assert(slot_ok(ca, k, names.len() as int));
                    }
                }
            }
        },
        _ => {},
    }
}

proof fn lemma_args_slots(args: Vec<Expr>, n: int, names: Seq<Seq<char>>)
    ensures
        args_code(args, n, names) matches Ok(c) ==> (names.len() <= usize::MAX ==> slots_below(
            c,
            0,
            c.len() as int,
            names.len() as int,
        )),
    decreases args, n,
{
    if 0 < n <= args.len() {
        lemma_args_slots(args, n - 1, names);
        lemma_expr_slots(args[n - 1], names);
        if let Ok(c) = args_code(args, n, names) {
            let c1 = args_code(args, n - 1, names)->Ok_0;
            let d = expr_code(args[n - 1], names)->Ok_0;
            assert forall|k: int| 0 <= k < c.len() && names.len() <= usize::MAX implies #[trigger] slot_ok(
                c,
                k,
                names.len() as int,
            ) by {
                if k < c1.len() {
                    assert(c[k] == c1[k]);
                    assert(slot_ok(c1, k, names.len() as int));
                } else {
                    assert(c[k] == d[k - c1.len()]);
                    assert(slot_ok(d, k - c1.len(), names.len() as int));
                }
            }
        }
    }
}


proof fn lemma_binding_slots(name: String, expr: Expr, st: Emitted)
    ensures
        binding_code(name, expr, st) matches Ok(st2) ==> st2.names.len() >= st.names.len() && (
        st2.names.len() <= usize::MAX ==> slots_below(
            st2.code,
            st.code.len() as int,
            st2.code.len() as int,
            st2.names.len() as int,
        )),
{
    lemma_expr_slots(expr, st.names);
    lemma_slot_of_bound(st.names, name@);
    let names2 = names_after_binding(st.names, name@);
    lemma_slot_of_bound(names2, name@);
    if let Ok(st2) = binding_code(name, expr, st) {
        let c = expr_code(expr, st.names)->Ok_0;
        if st2.names.len() <= usize::MAX {
            assert forall|p: int| st.code.len() <= p < st2.code.len() implies #[trigger] slot_ok(
                st2.code,
                p,
                st2.names.len() as int,
            ) by {
                if p < st.code.len() + c.len() {
                    assert(st2.code[p] == c[p - st.code.len()]);
                    assert(slot_ok(c, p - st.code.len(), st.names.len() as int));
                }
            }
        }
    }
}

proof fn lemma_stmt_slots(s: Stmt, st: Emitted)
    ensures
        stmt_code(s, st) matches Ok(st2) ==> st2.names.len() >= st.names.len() && (
        st2.names.len() <= usize::MAX ==> slots_below(
            st2.code,
            st.code.len() as int,
            st2.code.len() as int,
            st2.names.len() as int,
        )),
    decreases s, 0nat,
{
    match s {
        Stmt::Let { name, expr, .. } => lemma_binding_slots(name, expr, st),
        Stmt::Mute { name, expr, .. } => lemma_binding_slots(name, expr, st),
        Stmt::Assign { name, expr, .. } => lemma_binding_slots(name, expr, st),
        Stmt::Expr(e) => {
            lemma_expr_slots(e, st.names);
            if let Ok(st2) = stmt_code(s, st) {
                assert(stmt_expr_code(e, st.names) == expr_code(e, st.names));
                let c = expr_code(e, st.names)->Ok_0;
                assert forall|p: int|
                    st.code.len() <= p < st2.code.len() && st2.names.len() <= usize::MAX implies #[trigger] slot_ok(
                    st2.code,
                    p,
                    st2.names.len() as int,
                ) by {
                    assert(st2.code[p] == c[p - st.code.len()]);
                    assert(slot_ok(c, p - st.code.len(), st.names.len() as int));
                }
            }
        },
        Stmt::If { first, elseifs, else_body, .. } => {
            lemma_branch_flow(first, st);
            lemma_branch_slots(first, st);
            if let Ok((st1, j)) = branch_code(first, st) {
                lemma_branches_flow(elseifs, elseifs.len() as int, st1);
                lemma_branches_slots(elseifs, elseifs.len() as int, st1);
                if let Ok((st2, js)) = branches_code(elseifs, elseifs.len() as int, st1) {
                    let done = match else_body {
                        Some(body) => stmts_code(body, body.len() as int, st2),
                        None => Ok(st2),
                    };
                    match else_body {
                        Some(body) => {
                            lemma_stmts_flow(body, body.len() as int, st2);
                            lemma_stmts_slots(body, body.len() as int, st2);
                        },
                        None => {
                            assert(st2.code.subrange(0, st2.code.len() as int) =~= st2.code);
                        },
                    }
                    if let Ok(st3) = done {
                        let ps = seq![j] + js;
                        let end = st3.code.len();
                        lemma_extends_trans(st1, st2, st3);
                        assert forall|k: int| 0 <= k < ps.len() implies 0 <= #[trigger] ps[k] < end by {
                            if k > 0 {
                                assert(ps[k] == js[k - 1]);
                            }
                        }
                        lemma_patch(st3.code, ps, end as usize);
                        let fin = patch_jumps(st3.code, ps, end as usize);
                        assert(stmt_code(s, st) == Ok::<Emitted, CompileError>(
                            Emitted { code: fin, names: st3.names },
                        ));
                        if st3.names.len() <= usize::MAX {
                            assert forall|p: int| st.code.len() <= p < end implies #[trigger] slot_ok(
                                fin,
                                p,
                                st3.names.len() as int,
                            ) by {
                                if !listed(ps, p) {
                                    assert(fin[p] == st3.code[p]);
                                    if p < st1.code.len() {
                                        lemma_extends_index(st1, st3, p);
                                        assert(slot_ok(st1.code, p, st1.names.len() as int));
                                    } else if p < st2.code.len() {
                                        lemma_extends_index(st2, st3, p);
                                        assert(slot_ok(st2.code, p, st2.names.len() as int));
                                    } else {
                                        assert(slot_ok(st3.code, p, st3.names.len() as int));
                                    }
                                }
                            }
                        }
                    }
                }
            }
        },
    }
}

proof fn lemma_stmts_slots(v: Vec<Stmt>, n: int, st: Emitted)
    ensures
        stmts_code(v, n, st) matches Ok(st2) ==> st2.names.len() >= st.names.len() && (
        st2.names.len() <= usize::MAX ==> slots_below(
            st2.code,
            st.code.len() as int,
            st2.code.len() as int,
            st2.names.len() as int,
        )),
    decreases v, n,
{
    if 0 < n <= v.len() {
        lemma_stmts_slots(v, n - 1, st);
        lemma_stmts_flow(v, n - 1, st);
        if let Ok(st1) = stmts_code(v, n - 1, st) {
            lemma_stmt_slots(v[n - 1], st1);
            crate::flow::lemma_stmt_flow(v[n - 1], st1);
            if let Ok(st2) = stmt_code(v[n - 1], st1) {
                assert forall|p: int|
                    st.code.len() <= p < st2.code.len() && st2.names.len() <= usize::MAX implies #[trigger] slot_ok(
                    st2.code,
                    p,
                    st2.names.len() as int,
                ) by {
                    if p < st1.code.len() {
                        lemma_extends_index(st1, st2, p);
                        assert(slot_ok(st1.code, p, st1.names.len() as int));
                    }
                }
            }
        }
    }
}

proof fn lemma_branch_slots(br: IfBranch, st: Emitted)
    ensures
        branch_code(br, st) matches Ok((st2, aj)) ==> st2.names.len() >= st.names.len() && (
        st2.names.len() <= usize::MAX ==> slots_below(
            st2.code,
            st.code.len() as int,
            st2.code.len() as int,
            st2.names.len() as int,
        )),
    decreases br, 0nat,
{
    lemma_expr_slots(br.cond, st.names);
    if let Ok(c) = expr_code(br.cond, st.names) {
        let jf = (st.code.len() + c.len()) as int;
        let st1 = Emitted { code: st.code + c + seq![Instr::JumpIfFalse(0)], names: st.names };
        lemma_stmts_slots(br.body, br.body.len() as int, st1);
        lemma_stmts_flow(br.body, br.body.len() as int, st1);
        if let Ok(st2) = stmts_code(br.body, br.body.len() as int, st1) {
            let code = st2.code.push(Instr::Jump(0));
            let fin = code.update(jf, Instr::JumpIfFalse(code.len() as usize));
            assert forall|p: int|
                st.code.len() <= p < fin.len() && st2.names.len() <= usize::MAX implies #[trigger] slot_ok(
                fin,
                p,
                st2.names.len() as int,
            ) by {
                if p < jf {
                    lemma_extends_index(st1, st2, p);
                    assert(fin[p] == c[p - st.code.len()]);
                    assert(slot_ok(c, p - st.code.len(), st.names.len() as int));
                } else if jf < p < st2.code.len() {
                    assert(fin[p] == st2.code[p]);
                    assert(slot_ok(st2.code, p, st2.names.len() as int));
                }
            }
        }
    }
}

proof fn lemma_branches_slots(v: Vec<IfBranch>, n: int, st: Emitted)
    ensures
        branches_code(v, n, st) matches Ok((st2, js)) ==> st2.names.len() >= st.names.len() && (
        st2.names.len() <= usize::MAX ==> slots_below(
            st2.code,
            st.code.len() as int,
            st2.code.len() as int,
            st2.names.len() as int,
        )),
    decreases v, n,
{
    if 0 < n <= v.len() {
        lemma_branches_slots(v, n - 1, st);
        lemma_branches_flow(v, n - 1, st);
        if let Ok((st1, js1)) = branches_code(v, n - 1, st) {
            lemma_branch_slots(v[n - 1], st1);
            lemma_branch_flow(v[n - 1], st1);
            if let Ok((st2, j)) = branch_code(v[n - 1], st1) {
                assert forall|p: int|
                    st.code.len() <= p < st2.code.len() && st2.names.len() <= usize::MAX implies #[trigger] slot_ok(
                    st2.code,
                    p,
                    st2.names.len() as int,
                ) by {
                    if p < st1.code.len() {
                        lemma_extends_index(st1, st2, p);
                        assert(slot_ok(st1.code, p, st1.names.len() as int));
                    }
                }
            }
        }
    }
}

/// Every load and store in a compiled chunk names one of the chunk's
/// local slots.
pub proof fn compiled_slots_exist(p: Program, c: Chunk)
    requires
        program_code(p) == Ok::<Emitted, CompileError>(emitted(c)),
    ensures
        forall|q: int|
            0 <= q < c.code@.len() ==> (slot_ref(#[trigger] c.code@[q]) matches Some(s) ==> s
                < c.locals@.len()),
{
    let st0 = Emitted { code: Seq::empty(), names: Seq::empty() };
    lemma_stmts_slots(p.stmts, p.stmts.len() as int, st0);
    let st = stmts_code(p.stmts, p.stmts.len() as int, st0)->Ok_0;
    assert(c.code@ == st.code.push(Instr::Halt));
    assert(names_of(c.locals@).len() == c.locals@.len());
    assert(c.locals@.len() == c.locals.len());
    assert forall|q: int| 0 <= q < c.code@.len() implies (slot_ref(#[trigger] c.code@[q]) matches Some(
        s,
    ) ==> s < c.locals@.len()) by {
        if q < st.code.len() {
            assert(c.code@[q] == st.code[q]);
            assert(slot_ok(st.code, q, st.names.len() as int));
        }
    }
}

} // verus!
