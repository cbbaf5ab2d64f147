//! General facts about the compiler, the machine and the container, proved
//! from the specifications the functions meet.

use vstd::prelude::*;
use crate::ast::{Expr, Program, Span, Stmt};
use crate::bytecode::{kind_of, names_of, slot_of, values_match, Chunk, Instr, Value};
use crate::compiler::{
    binding_code, emitted, expr_code, print_word, program_code, same_ignoring_ascii_case, stmt_code,
    CompileError, Emitted,
};
use crate::container::{opened, sealed, u32_le, ContainerError};
use crate::render::line_text;
use crate::vm::{step_spec, Effect, Machine, VmError};
use crate::bytecode::BYTECODE_VERSION;

verus! {

/// Compiling the same tree twice gives the same code and the same slot
/// assignment: two chunks that both meet the compiler's contract for one
/// program agree.
pub proof fn compilation_is_deterministic(p: Program, c1: Chunk, c2: Chunk)
    requires
        program_code(p) == Ok::<Emitted, CompileError>(emitted(c1)),
        program_code(p) == Ok::<Emitted, CompileError>(emitted(c2)),
    ensures
        c1.code@ == c2.code@,
        names_of(c1.locals@) == names_of(c2.locals@),
{
}

/// Opening a sealed container gives back exactly the encoded chunk that was
/// sealed into it.
pub proof fn container_round_trip(body: Seq<u8>)
    ensures
        opened(sealed(body)) == Ok::<Seq<u8>, ContainerError>(body),
{
    crate::container::lemma_open_sealed(body);
}

/// A container whose version field differs from the supported version is
/// refused, whatever bytes follow the field.
pub proof fn container_version_guard(bytes: Seq<u8>)
    requires
        bytes.len() >= 4,
        u32_le(bytes) != BYTECODE_VERSION as nat,
    ensures
        opened(bytes) is Err,
        opened(bytes) matches Err(ContainerError::UnsupportedVersion { found, .. })
            && found as nat == u32_le(bytes),
{
}

/// Integer addition fails at run time, naming both kinds, when its operands
/// are not both integers.
pub proof fn add_requires_ints(code: Seq<Instr>, m: Machine)
    requires
        0 <= m.ip < code.len(),
        code[m.ip] == Instr::AddInt,
        m.stack.len() >= 2,
        !(m.stack[m.stack.len() - 2] is Int && m.stack.last() is Int),
    ensures
        step_spec(code, m) == Err::<(Machine, Effect), VmError>(
            VmError::AddTypes {
                left: kind_of(m.stack[m.stack.len() - 2]),
                right: kind_of(m.stack.last()),
            },
        ),
{
}

/// The four ordering comparisons fail at run time, naming both kinds, when
/// their operands are not both integers.
pub proof fn ordering_requires_ints(code: Seq<Instr>, m: Machine)
    requires
        0 <= m.ip < code.len(),
        code[m.ip] is CmpLt || code[m.ip] is CmpLe || code[m.ip] is CmpGt || code[m.ip] is CmpGe,
        m.stack.len() >= 2,
        !(m.stack[m.stack.len() - 2] is Int && m.stack.last() is Int),
    ensures
        step_spec(code, m) == Err::<(Machine, Effect), VmError>(
            VmError::CompareTypes {
                left: kind_of(m.stack[m.stack.len() - 2]),
                right: kind_of(m.stack.last()),
            },
        ),
{
}

/// Equality and inequality never fail on two values, and values of
/// different kinds are unequal.
pub proof fn equality_never_fails(code: Seq<Instr>, m: Machine)
    requires
        0 <= m.ip < code.len(),
        code[m.ip] is CmpEq || code[m.ip] is CmpNe,
        m.stack.len() >= 2,
    ensures
        step_spec(code, m) matches Ok((m2, e)) && e == Effect::Continue && m2.ip == m.ip + 1
            && m2.stack == m.stack.subrange(0, m.stack.len() - 2).push(
            Value::Bool(
                if code[m.ip] is CmpEq {
                    values_match(m.stack[m.stack.len() - 2], m.stack.last())
                } else {
                    !values_match(m.stack[m.stack.len() - 2], m.stack.last())
                },
            ),
        ),
        kind_of(m.stack[m.stack.len() - 2]) != kind_of(m.stack.last()) ==> !values_match(
            m.stack[m.stack.len() - 2],
            m.stack.last(),
        ),
{
}

pub open spec fn is_literal(e: Expr) -> bool {
    e is Int || e is Bool || e is Char || e is Str
}

/// The compiler does not check operand kinds: an addition or comparison of
/// literals of any kinds compiles, and the check is left to run time.
pub proof fn operand_kinds_are_not_checked_when_compiling(
    a: Expr,
    b: Expr,
    op: crate::ast::CmpOp,
    sp: Span,
    names: Seq<Seq<char>>,
)
    requires
        is_literal(a),
        is_literal(b),
    ensures
        expr_code(Expr::Add(Box::new(a), Box::new(b), sp), names) is Ok,
        expr_code(Expr::Cmp(Box::new(a), op, Box::new(b), sp), names) is Ok,
{
    assert(expr_code(a, names) is Ok);
    assert(expr_code(b, names) is Ok);
}

/// A print of more values than the stack holds fails; otherwise it prints
/// the topmost values in the order they were pushed and removes them.
pub proof fn print_takes_values_in_order(code: Seq<Instr>, m: Machine, k: usize)
    requires
        0 <= m.ip < code.len(),
        code[m.ip] == Instr::Print(k),
    ensures
        m.stack.len() < k ==> step_spec(code, m) == Err::<(Machine, Effect), VmError>(
            VmError::PrintUnderflow { wanted: k, available: m.stack.len() as usize },
        ),
        m.stack.len() >= k ==> (step_spec(code, m) matches Ok((m2, e)) && e == Effect::Print(
            line_text(m.stack.subrange(m.stack.len() - k, m.stack.len() as int)),
        ) && m2.stack == m.stack.subrange(0, m.stack.len() - k)),
{
}

/// Declaring or assigning a name that already has a slot stores into that
/// slot and leaves the name table as it was.
pub proof fn known_name_reuses_slot(name: String, expr: Expr, st: Emitted)
    requires
        slot_of(st.names, name@) is Some,
        expr_code(expr, st.names) is Ok,
    ensures
        binding_code(name, expr, st) matches Ok(st2) && st2.names == st.names
            && st2.code.last() == Instr::StoreLocal(slot_of(st.names, name@)->Some_0 as usize),
{
}


/// Declaring or assigning a name that has no slot yet gives it the next
/// slot, at the end of the name table, and stores into it.
pub proof fn new_name_gets_next_slot(name: String, expr: Expr, st: Emitted)
    requires
        slot_of(st.names, name@) is None,
        expr_code(expr, st.names) is Ok,
    ensures
        binding_code(name, expr, st) matches Ok(st2) && st2.names == st.names.push(name@)
            && st2.code.last() == Instr::StoreLocal(st.names.len() as usize),
{
    assert(st.names.push(name@).drop_last() =~= st.names);
}

/// At statement position a call is accepted only when it names the
/// built-in `print` (in any ASCII case); any other call, `write` included,
/// fails compilation naming the call.
pub proof fn statement_call_must_be_print(name: String, args: Vec<Expr>, sp: Span, st: Emitted)
    requires
        !same_ignoring_ascii_case(name@, print_word()),
    ensures
        stmt_code(Stmt::Expr(Expr::Call(name, args, sp)), st) == Err::<Emitted, CompileError>(
            CompileError::UnsupportedCall(name),
        ),
{
}

} // verus!
