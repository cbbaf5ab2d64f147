//! Stack machine that executes a chunk one instruction at a time.
//!
//! The machine performs no input or output itself: a step that prints hands
//! the line back to the caller, and a step that reads asks the caller for a
//! line, which it then passes to [`Vm::accept_line`].

use vstd::prelude::*;
use crate::bytecode::{kind_of, values_match, Chunk, Instr, Kind, Value};
use crate::render::{line_text, push_char, push_value_text, value_text};

verus! {

/// Operand stack, local slots and instruction pointer of one execution.
pub struct Vm {
    pub stack: Vec<Value>,
    pub locals: Vec<Value>,
    pub ip: usize,
}

/// What the caller does after a step.
#[derive(Debug)]
pub enum Action {
    /// Nothing: step again.
    Continue,
    /// Write this line, then step again.
    Print(String),
    /// Flush pending output, read one line, pass it to `accept_line`, then
    /// step again.
    ReadLine,
    /// Execution is over.
    Stop,
}

/// Instruction that found too few values on the stack.
#[derive(Debug, Clone, Copy, PartialEq, Eq, Structural)]
pub enum Operation {
    AddInt,
    StoreLocal,
    JumpIfFalse,
    Compare,
}

/// A runtime failure; execution stops at it.
#[derive(Debug, Clone, Copy, PartialEq, Eq, Structural)]
pub enum VmError {
    /// A print of `wanted` values with only `available` on the stack.
    PrintUnderflow { wanted: usize, available: usize },
    /// An instruction popped an empty stack.
    StackUnderflow(Operation),
    /// Integer addition on operands that are not both integers.
    AddTypes { left: Kind, right: Kind },
    /// Integer addition whose sum leaves the 64-bit range.
    AddOverflow { lhs: i64, rhs: i64 },
    /// An ordering comparison on operands that are not both integers.
    CompareTypes { left: Kind, right: Kind },
    /// A conditional jump on a value that is not a boolean.
    ConditionNotBool(Kind),
}

/// The machine state: operand stack, local slots, instruction pointer.
pub ghost struct Machine {
    pub stack: Seq<Value>,
    pub locals: Seq<Value>,
    pub ip: int,
}

/// What a step asks of its caller.
pub ghost enum Effect {
    Continue,
    Print(Seq<char>),
    ReadLine,
    Stop,
}

pub open spec fn machine(vm: Vm) -> Machine {
    Machine { stack: vm.stack@, locals: vm.locals@, ip: vm.ip as int }
}

pub open spec fn effect_of(a: Action) -> Effect {
    match a {
        Action::Continue => Effect::Continue,
        Action::Print(s) => Effect::Print(s@),
        Action::ReadLine => Effect::ReadLine,
        Action::Stop => Effect::Stop,
    }
}

/// The slots after storing `v` into slot `i`, grown with unit values first
/// when `i` is past the end.
pub open spec fn stored(locals: Seq<Value>, i: int, v: Value) -> Seq<Value> {
    if i < locals.len() {
        locals.update(i, v)
    } else {
        (locals + Seq::new((i - locals.len()) as nat, |k: int| Value::Unit)).push(v)
    }
}

/// The value that slot `i` reads as: unit if never stored.
pub open spec fn loaded(locals: Seq<Value>, i: int) -> Value {
    if 0 <= i < locals.len() {
        locals[i]
    } else {
        Value::Unit
    }
}

pub open spec fn int_order(instr: Instr, x: i64, y: i64) -> bool {
    match instr {
        Instr::CmpLt => x < y,
        Instr::CmpLe => x <= y,
        Instr::CmpGt => x > y,
        _ => x >= y,
    }
}

/// One step of execution of `code` from `m`: the next machine state and
/// what the caller must do, or the failure.
pub open spec fn step_spec(code: Seq<Instr>, m: Machine) -> Result<(Machine, Effect), VmError> {
    if m.ip < 0 || m.ip >= code.len() {
        Ok((m, Effect::Stop))
    } else {
        let next = Machine { ip: m.ip + 1, ..m };
        let n = m.stack.len();
        match code[m.ip] {
            Instr::Const(v) => Ok((Machine { stack: m.stack.push(v), ..next }, Effect::Continue)),
            Instr::ReadLine => Ok((next, Effect::ReadLine)),
            Instr::Print(k) => if n < k {
                Err(VmError::PrintUnderflow { wanted: k, available: n as usize })
            } else {
                Ok(
                    (
                        Machine { stack: m.stack.subrange(0, n - k), ..next },
                        Effect::Print(line_text(m.stack.subrange(n - k, n as int))),
                    ),
                )
            },
            Instr::AddInt => if n < 2 {
                Err(VmError::StackUnderflow(Operation::AddInt))
            } else {
                let a = m.stack[n - 2];
                let b = m.stack[n - 1];
                match (a, b) {
                    (Value::Int(x), Value::Int(y)) => if i64::MIN <= x + y <= i64::MAX {
                        Ok(
                            (
                                Machine {
                                    stack: m.stack.subrange(0, n - 2).push(Value::Int((x + y) as i64)),
                                    ..next
                                },
                                Effect::Continue,
                            ),
                        )
                    } else {
                        Err(VmError::AddOverflow { lhs: x, rhs: y })
                    },
                    _ => Err(VmError::AddTypes { left: kind_of(a), right: kind_of(b) }),
                }
            },
            Instr::LoadLocal(i) => Ok(
                (Machine { stack: m.stack.push(loaded(m.locals, i as int)), ..next }, Effect::Continue),
            ),
            Instr::StoreLocal(i) => if n < 1 {
                Err(VmError::StackUnderflow(Operation::StoreLocal))
            } else {
                Ok(
                    (
                        Machine {
                            stack: m.stack.drop_last(),
                            locals: stored(m.locals, i as int, m.stack.last()),
                            ..next
                        },
                        Effect::Continue,
                    ),
                )
            },
            Instr::Jump(t) => Ok((Machine { ip: t as int, ..m }, Effect::Continue)),
            Instr::JumpIfFalse(t) => if n < 1 {
                Err(VmError::StackUnderflow(Operation::JumpIfFalse))
            } else {
                match m.stack.last() {
                    Value::Bool(b) => Ok(
                        (
                            Machine {
                                stack: m.stack.drop_last(),
                                ip: if b {
                                    m.ip + 1
                                } else {
                                    t as int
                                },
                                ..m
                            },
                            Effect::Continue,
                        ),
                    ),
                    other => Err(VmError::ConditionNotBool(kind_of(other))),
                }
            },
            Instr::CmpEq => if n < 2 {
                Err(VmError::StackUnderflow(Operation::Compare))
            } else {
                let eq = values_match(m.stack[n - 2], m.stack[n - 1]);
                Ok(
                    (
                        Machine { stack: m.stack.subrange(0, n - 2).push(Value::Bool(eq)), ..next },
                        Effect::Continue,
                    ),
                )
            },
            Instr::CmpNe => if n < 2 {
                Err(VmError::StackUnderflow(Operation::Compare))
            } else {
                let eq = values_match(m.stack[n - 2], m.stack[n - 1]);
                Ok(
                    (
                        Machine { stack: m.stack.subrange(0, n - 2).push(Value::Bool(!eq)), ..next },
                        Effect::Continue,
                    ),
                )
            },
            Instr::Halt => Ok((next, Effect::Stop)),
            cmp => if n < 2 {
                Err(VmError::StackUnderflow(Operation::Compare))
            } else {
                let a = m.stack[n - 2];
                let b = m.stack[n - 1];
                match (a, b) {
                    (Value::Int(x), Value::Int(y)) => Ok(
                        (
                            Machine {
                                stack: m.stack.subrange(0, n - 2).push(Value::Bool(int_order(cmp, x, y))),
                                ..next
                            },
                            Effect::Continue,
                        ),
                    ),
                    _ => Err(VmError::CompareTypes { left: kind_of(a), right: kind_of(b) }),
                }
            },
        }
    }
}

/// The machine after a step that failed with `err`: the pointer is past
/// the failing instruction, the slots are untouched, and the stack has lost
/// what the instruction popped before it failed; nothing was pushed.
pub open spec fn failed_machine(m: Machine, err: VmError) -> Machine {
    let n = m.stack.len() as int;
    let stack = match err {
        VmError::PrintUnderflow { .. } => m.stack,
        VmError::StackUnderflow(_) => Seq::empty(),
        VmError::ConditionNotBool(_) => m.stack.drop_last(),
        _ => m.stack.subrange(0, n - 2),
    };
    Machine { stack, locals: m.locals, ip: m.ip + 1 }
}

/// Removes the line terminators (`\n`, `\r`) at the end of a text.
pub open spec fn strip_terminators(s: Seq<char>) -> Seq<char>
    decreases s.len(),
{
    if s.len() > 0 && (s.last() == '\n' || s.last() == '\r') {
        strip_terminators(s.drop_last())
    } else {
        s
    }
}


impl Vm {
    pub fn new() -> (r: Vm)
        ensures
            r.stack@.len() == 0,
            r.locals@.len() == 0,
            r.ip == 0,
    {
        Vm { stack: Vec::new(), locals: Vec::new(), ip: 0 }
    }

    /// Prepares a fresh execution of `chunk`: an empty stack, one unit slot
    /// per declared local, and the pointer at the first instruction.
    pub fn start(&mut self, chunk: &Chunk)
        ensures
            final(self).stack@.len() == 0,
            final(self).locals@ == Seq::new(chunk.locals@.len(), |k: int| Value::Unit),
            final(self).ip == 0,
    {
        self.stack = Vec::new();
        self.locals = Vec::new();
        self.ip = 0;
        let n = chunk.locals.len();
        while self.locals.len() < n
            invariant
                n == chunk.locals@.len(),
                self.stack@.len() == 0,
                self.ip == 0,
                self.locals@.len() <= n,
                self.locals@ == Seq::new(self.locals@.len(), |k: int| Value::Unit),
            decreases n - self.locals@.len(),
        {
            self.locals.push(Value::Unit);
            assert(self.locals@ =~= Seq::new(self.locals@.len(), |k: int| Value::Unit));
        }
    }

    /// Pushes a line of input as a string, without its trailing line
    /// terminators.
    pub fn accept_line(&mut self, line: String)
        ensures
            final(self).stack@.len() == old(self).stack@.len() + 1,
            final(self).stack@.drop_last() == old(self).stack@,
            final(self).stack@.last() matches Value::Str(s) && s@ == strip_terminators(line@),
            final(self).locals@ == old(self).locals@,
            final(self).ip == old(self).ip,
    {
        let n = line.as_str().unicode_len();
        let mut k: usize = n;
        assert(line@.subrange(0, n as int) =~= line@);
        while k > 0 && (line.as_str().get_char(k - 1) == '\n' || line.as_str().get_char(k - 1) == '\r')
            invariant
                k <= n == line@.len(),
                strip_terminators(line@.subrange(0, k as int)) == strip_terminators(line@),
            decreases k,
        {
            assert(line@.subrange(0, k as int).drop_last() =~= line@.subrange(0, k - 1));
            k = k - 1;
        }
        let kept = String::from_str(line.as_str().substring_char(0, k));
        self.stack.push(Value::Str(kept));
        proof {
            assert(self.stack@.drop_last() =~= old(self).stack@);
        }
    }

    fn pop_pair(&mut self, op: Operation) -> (r: Result<(Value, Value), VmError>)
        ensures
            final(self).locals@ == old(self).locals@,
            final(self).ip == old(self).ip,
            old(self).stack@.len() < 2 ==> r == Err::<(Value, Value), VmError>(VmError::StackUnderflow(op))
                && final(self).stack@ == Seq::<Value>::empty(),
            old(self).stack@.len() >= 2 ==> {
                let n = old(self).stack@.len() as int;
                &&& r == Ok::<(Value, Value), VmError>((old(self).stack@[n - 2], old(self).stack@[n - 1]))
                &&& final(self).stack@ == old(self).stack@.subrange(0, n - 2)
            },
    {
        let b = match self.stack.pop() {
            Some(v) => v,
            None => {
                assert(self.stack@ =~= Seq::<Value>::empty());
                return Err(VmError::StackUnderflow(op));
            },
        };
        let a = match self.stack.pop() {
            Some(v) => v,
            None => {
                assert(self.stack@ =~= Seq::<Value>::empty());
                return Err(VmError::StackUnderflow(op));
            },
        };
        proof {
            let n = old(self).stack@.len() as int;
            assert(self.stack@ =~= old(self).stack@.subrange(0, n - 2));
        }
        Ok((a, b))
    }

    fn print_values(&mut self, k: usize) -> (r: Result<String, VmError>)
        ensures
            final(self).locals@ == old(self).locals@,
            final(self).ip == old(self).ip,
            ({
                let n = old(self).stack@.len() as int;
                if n < k {
                    &&& r == Err::<String, VmError>(
                        VmError::PrintUnderflow { wanted: k, available: n as usize },
                    )
                    &&& final(self).stack@ == old(self).stack@
                } else {
                    &&& r matches Ok(line) && line@ == line_text(old(self).stack@.subrange(n - k, n))
                    &&& final(self).stack@ == old(self).stack@.subrange(0, n - k)
                }
            }),
    {
        let n = self.stack.len();
        if n < k {
            return Err(VmError::PrintUnderflow { wanted: k, available: n });
        }
        let start = n - k;
        let mut out = String::new();
        let mut j = start;
        while j < n
            invariant
                n == self.stack@.len(),
                start <= j <= n,
                out@ == line_text(self.stack@.subrange(start as int, j as int)),
            decreases n - j,
        {
            let ghost before = out@;
            let ghost part = self.stack@.subrange(start as int, j + 1);
            assert(part.drop_last() =~= self.stack@.subrange(start as int, j as int));
            if j > start {
                push_char(&mut out, ' ');
            }
            push_value_text(&mut out, &self.stack[j]);
            proof {
                if j == start {
                    assert(before =~= Seq::<char>::empty());
                    assert(out@ =~= line_text(part));
                } else {
                    assert(out@ =~= line_text(part));
                }
            }
            j = j + 1;
        }
        self.stack.truncate(start);
        Ok(out)
    }

    fn store(&mut self, i: usize, v: Value)
        ensures
            final(self).locals@ == stored(old(self).locals@, i as int, v),
            final(self).stack@ == old(self).stack@,
            final(self).ip == old(self).ip,
    {
        if i < self.locals.len() {
            self.locals.set(i, v);
        } else {
            let ghost start = self.locals@;
            while self.locals.len() < i
                invariant
                    start.len() <= self.locals@.len() <= i,
                    self.locals@ == start + Seq::new(
                        (self.locals@.len() - start.len()) as nat,
                        |k: int| Value::Unit,
                    ),
                    self.stack@ == old(self).stack@,
                    self.ip == old(self).ip,
                    start == old(self).locals@,
                decreases i - self.locals@.len(),
            {
                self.locals.push(Value::Unit);
                assert(self.locals@ =~= start + Seq::new(
                    (self.locals@.len() - start.len()) as nat,
                    |k: int| Value::Unit,
                ));
            }
            self.locals.push(v);
        }
    }

    fn load(&self, i: usize) -> (r: Value)
        ensures
            r == loaded(self.locals@, i as int),
    {
        if i < self.locals.len() {
            self.locals[i].duplicate()
        } else {
            Value::Unit
        }
    }
}


impl Vm {
    /// Executes the instruction at the pointer. Past the end of the code the
    /// machine stops without changing.
    pub fn step(&mut self, chunk: &Chunk) -> (r: Result<Action, VmError>)
        ensures
            match step_spec(chunk.code@, machine(*old(self))) {
                Ok((m, e)) => r matches Ok(a) && machine(*final(self)) == m && effect_of(a) == e,
                Err(err) => r == Err::<Action, VmError>(err) && machine(*final(self))
                    == failed_machine(machine(*old(self)), err),
            },
    {
        if self.ip >= chunk.code.len() {
            return Ok(Action::Stop);
        }
        let ip = self.ip;
        self.ip = ip + 1;
        match &chunk.code[ip] {
            Instr::Const(v) => {
                self.stack.push(v.duplicate());
                Ok(Action::Continue)
            },
            Instr::ReadLine => Ok(Action::ReadLine),
            Instr::Print(k) => {
                let line = self.print_values(*k)?;
                Ok(Action::Print(line))
            },
            Instr::AddInt => {
                let (a, b) = self.pop_pair(Operation::AddInt)?;
                match (&a, &b) {
                    (Value::Int(x), Value::Int(y)) => {
                        let sum: i128 = *x as i128 + *y as i128;
                        if sum < i64::MIN as i128 || sum > i64::MAX as i128 {
                            return Err(VmError::AddOverflow { lhs: *x, rhs: *y });
                        }
                        self.stack.push(Value::Int(sum as i64));
                        Ok(Action::Continue)
                    },
                    _ => Err(VmError::AddTypes { left: a.kind(), right: b.kind() }),
                }
            },
            Instr::LoadLocal(i) => {
                let v = self.load(*i);
                self.stack.push(v);
                Ok(Action::Continue)
            },
            Instr::StoreLocal(i) => {
                let v = match self.stack.pop() {
                    Some(v) => v,
                    None => {
                        assert(self.stack@ =~= Seq::<Value>::empty());
                        return Err(VmError::StackUnderflow(Operation::StoreLocal));
                    },
                };
                self.store(*i, v);
                Ok(Action::Continue)
            },
            Instr::Jump(t) => {
                self.ip = *t;
                Ok(Action::Continue)
            },
            Instr::JumpIfFalse(t) => {
                let v = match self.stack.pop() {
                    Some(v) => v,
                    None => {
                        assert(self.stack@ =~= Seq::<Value>::empty());
                        return Err(VmError::StackUnderflow(Operation::JumpIfFalse));
                    },
                };
                match v {
                    Value::Bool(b) => {
                        if !b {
                            self.ip = *t;
                        }
                        Ok(Action::Continue)
                    },
                    other => Err(VmError::ConditionNotBool(other.kind())),
                }
            },
            Instr::CmpEq => {
                let (a, b) = self.pop_pair(Operation::Compare)?;
                self.stack.push(Value::Bool(a.matches(&b)));
                Ok(Action::Continue)
            },
            Instr::CmpNe => {
                let (a, b) = self.pop_pair(Operation::Compare)?;
                self.stack.push(Value::Bool(!a.matches(&b)));
                Ok(Action::Continue)
            },
            Instr::Halt => Ok(Action::Stop),
            cmp => {
                let (a, b) = self.pop_pair(Operation::Compare)?;
                match (&a, &b) {
                    (Value::Int(x), Value::Int(y)) => {
                        let holds = match cmp {
                            Instr::CmpLt => *x < *y,
                            Instr::CmpLe => *x <= *y,
                            Instr::CmpGt => *x > *y,
                            _ => *x >= *y,
                        };
                        self.stack.push(Value::Bool(holds));
                        Ok(Action::Continue)
                    },
                    _ => Err(VmError::CompareTypes { left: a.kind(), right: b.kind() }),
                }
            },
        }
    }
}

} // verus!
