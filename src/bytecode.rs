//! Values, instructions and the chunk that holds a compiled program.

use vstd::prelude::*;

verus! {

/// The single container format version that this library writes and reads.
pub const BYTECODE_VERSION: u32 = 1;

/// Extension given to a source path to name its bytecode file.
pub const BYTECODE_EXT: &'static str = "a.byte";

/// Suffix by which a bytecode file is recognised.
pub const BYTECODE_SUFFIX: &'static str = ".a.byte";

/// A runtime datum.
#[derive(Debug, Clone)]
pub enum Value {
    Int(i64),
    Bool(bool),
    Char(char),
    Str(String),
    Unit,
}

/// The kind of a value, as named in type-mismatch failures.
#[derive(Debug, Clone, Copy, PartialEq, Eq, Structural)]
pub enum Kind {
    Int,
    Bool,
    Char,
    Str,
    Unit,
}

pub open spec fn kind_of(v: Value) -> Kind {
    match v {
        Value::Int(_) => Kind::Int,
        Value::Bool(_) => Kind::Bool,
        Value::Char(_) => Kind::Char,
        Value::Str(_) => Kind::Str,
        Value::Unit => Kind::Unit,
    }
}

/// Structural equality of values: same kind and same payload; values of
/// different kinds are never equal.
pub open spec fn values_match(a: Value, b: Value) -> bool {
    match (a, b) {
        (Value::Int(x), Value::Int(y)) => x == y,
        (Value::Bool(x), Value::Bool(y)) => x == y,
        (Value::Char(x), Value::Char(y)) => x == y,
        (Value::Str(x), Value::Str(y)) => x@ == y@,
        (Value::Unit, Value::Unit) => true,
        _ => false,
    }
}

impl Value {
    /// A copy of this value.
    pub fn duplicate(&self) -> (r: Value)
        ensures
            r == *self,
    {
        match self {
            Value::Int(i) => Value::Int(*i),
            Value::Bool(b) => Value::Bool(*b),
            Value::Char(c) => Value::Char(*c),
            Value::Str(s) => Value::Str(s.clone()),
            Value::Unit => Value::Unit,
        }
    }

    pub fn kind(&self) -> (r: Kind)
        ensures
            r == kind_of(*self),
    {
        match self {
            Value::Int(_) => Kind::Int,
            Value::Bool(_) => Kind::Bool,
            Value::Char(_) => Kind::Char,
            Value::Str(_) => Kind::Str,
            Value::Unit => Kind::Unit,
        }
    }

    /// Structural equality across any kinds.
    pub fn matches(&self, other: &Value) -> (r: bool)
        ensures
            r == values_match(*self, *other),
    {
        match self {
            Value::Int(x) => match other {
                Value::Int(y) => *x == *y,
                _ => false,
            },
            Value::Bool(x) => match other {
                Value::Bool(y) => *x == *y,
                _ => false,
            },
            Value::Char(x) => match other {
                Value::Char(y) => *x == *y,
                _ => false,
            },
            Value::Str(x) => match other {
                Value::Str(y) => *x == *y,
                _ => false,
            },
            Value::Unit => match other {
                Value::Unit => true,
                _ => false,
            },
        }
    }
}

/// A stack-machine instruction. Jump targets are absolute indices into the
/// chunk's code; a target equal to the code length falls off the end.
#[derive(Debug, Clone)]
pub enum Instr {
    /// Push a constant.
    Const(Value),
    /// Read one line of text input and push it as a string.
    ReadLine,
    /// Pop and print the given number of values, in the order pushed.
    Print(usize),
    /// Pop two integers and push their sum.
    AddInt,
    /// Push the value of a local slot.
    LoadLocal(usize),
    /// Pop the top of the stack into a local slot.
    StoreLocal(usize),
    /// Continue at an absolute instruction index.
    Jump(usize),
    /// Pop a boolean; continue at the index if it is false.
    JumpIfFalse(usize),
    CmpEq,
    CmpNe,
    CmpLt,
    CmpLe,
    CmpGt,
    CmpGe,
    /// Stop execution.
    Halt,
}

impl Instr {
    /// A copy of this instruction.
    pub fn duplicate(&self) -> (r: Instr)
        ensures
            r == *self,
    {
        match self {
            Instr::Const(v) => Instr::Const(v.duplicate()),
            Instr::ReadLine => Instr::ReadLine,
            Instr::Print(n) => Instr::Print(*n),
            Instr::AddInt => Instr::AddInt,
            Instr::LoadLocal(i) => Instr::LoadLocal(*i),
            Instr::StoreLocal(i) => Instr::StoreLocal(*i),
            Instr::Jump(t) => Instr::Jump(*t),
            Instr::JumpIfFalse(t) => Instr::JumpIfFalse(*t),
            Instr::CmpEq => Instr::CmpEq,
            Instr::CmpNe => Instr::CmpNe,
            Instr::CmpLt => Instr::CmpLt,
            Instr::CmpLe => Instr::CmpLe,
            Instr::CmpGt => Instr::CmpGt,
            Instr::CmpGe => Instr::CmpGe,
            Instr::Halt => Instr::Halt,
        }
    }
}

/// One compiled unit: code, a constant pool that current instructions do
/// not use, and the local-name table whose index is the storage slot.
#[derive(Debug, Clone)]
pub struct Chunk {
    pub code: Vec<Instr>,
    pub consts: Vec<Value>,
    pub locals: Vec<String>,
}

/// The names of a local table, as character sequences.
pub open spec fn names_of(locals: Seq<String>) -> Seq<Seq<char>> {
    locals.map_values(|s: String| s@)
}

/// The first slot whose name is `name`, if any.
pub open spec fn slot_of(names: Seq<Seq<char>>, name: Seq<char>) -> Option<nat>
    decreases names.len(),
{
    if names.len() == 0 {
        None
    } else {
        match slot_of(names.drop_last(), name) {
            Some(i) => Some(i),
            None => if names.last() == name {
                Some((names.len() - 1) as nat)
            } else {
                None
            },
        }
    }
}

/// A slot found in a prefix of the table is the slot found in the whole.
pub proof fn lemma_slot_of_prefix(names: Seq<Seq<char>>, j: int, name: Seq<char>)
    requires
        0 <= j <= names.len(),
        slot_of(names.subrange(0, j), name) is Some,
    ensures
        slot_of(names, name) == slot_of(names.subrange(0, j), name),
    decreases names.len(),
{
    if j < names.len() {
        assert(names.drop_last().subrange(0, j) =~= names.subrange(0, j));
        lemma_slot_of_prefix(names.drop_last(), j, name);
    } else {
        assert(names.subrange(0, j) =~= names);
    }
}

impl Chunk {
    pub fn new() -> (r: Chunk)
        ensures
            r.code@.len() == 0,
            r.consts@.len() == 0,
            r.locals@.len() == 0,
    {
        Chunk { code: Vec::new(), consts: Vec::new(), locals: Vec::new() }
    }

    /// Append an instruction.
    pub fn push(&mut self, i: Instr)
        ensures
            final(self).code@ == old(self).code@.push(i),
            final(self).consts@ == old(self).consts@,
            final(self).locals@ == old(self).locals@,
    {
        self.code.push(i);
    }

    /// Append a constant to the pool and return its index.
    pub fn add_const(&mut self, v: Value) -> (r: usize)
        ensures
            final(self).consts@ == old(self).consts@.push(v),
            r == old(self).consts@.len(),
            final(self).code@ == old(self).code@,
            final(self).locals@ == old(self).locals@,
    {
        self.consts.push(v);
        self.consts.len() - 1
    }

    /// The slot of `name`, allocated at the end of the table if the name is
    /// not known yet.
    pub fn ensure_local(&mut self, name: &str) -> (r: usize)
        ensures
            old(self).locals@.len() <= final(self).locals@.len(),
            forall|i: int|
                0 <= i < old(self).locals@.len() ==> #[trigger] final(self).locals@[i]
                    == old(self).locals@[i],
            final(self).code@ == old(self).code@,
            final(self).consts@ == old(self).consts@,
            slot_of(names_of(old(self).locals@), name@) matches Some(i) ==> {
                &&& r == i
                &&& final(self).locals@ == old(self).locals@
            },
            slot_of(names_of(old(self).locals@), name@) is None ==> {
                &&& r == old(self).locals@.len()
                &&& names_of(final(self).locals@) == names_of(old(self).locals@).push(name@)
            },
            names_of(final(self).locals@) == names_of(old(self).locals@) || names_of(
                final(self).locals@,
            ) == names_of(old(self).locals@).push(name@),
            slot_of(names_of(final(self).locals@), name@) == Some(r as nat),
    {
        match self.find_local(name) {
            Some(i) => i,
            None => {
                let ghost old_names = names_of(self.locals@);
                self.locals.push(String::from_str(name));
                assert(names_of(self.locals@).drop_last() =~= old_names);
                self.locals.len() - 1
            },
        }
    }

    /// The slot of `name`, if the name is known.
    pub fn find_local(&self, name: &str) -> (r: Option<usize>)
        ensures
            r matches Some(i) ==> slot_of(names_of(self.locals@), name@) == Some(i as nat),
            r is None ==> slot_of(names_of(self.locals@), name@) is None,
    {
        let wanted = String::from_str(name);
        let n = self.locals.len();
        let mut i: usize = 0;
        while i < n
            invariant
                n == self.locals@.len(),
                wanted@ == name@,
                i <= n,
                slot_of(names_of(self.locals@).subrange(0, i as int), name@) is None,
            decreases n - i,
        {
            let ghost names = names_of(self.locals@);
            assert(names.subrange(0, i + 1).drop_last() =~= names.subrange(0, i as int));
            assert(names[i as int] == self.locals@[i as int]@);
            assert(names.subrange(0, i + 1).last() == names[i as int]);
            let same = self.locals[i] == wanted;
            if same {
                proof {
                    lemma_slot_of_prefix(names, i + 1, name@);
                }
                return Some(i);
            }
            i = i + 1;
        }
        assert(names_of(self.locals@).subrange(0, n as int) =~= names_of(self.locals@));
        None
    }
}

/// A chunk stamped with the format version it was written under.
#[derive(Debug, Clone)]
pub struct BytecodeFile {
    pub version: u32,
    pub chunk: Chunk,
}

impl BytecodeFile {
    pub fn new(chunk: Chunk) -> (r: BytecodeFile)
        ensures
            r.version == BYTECODE_VERSION,
            r.chunk == chunk,
    {
        BytecodeFile { version: BYTECODE_VERSION, chunk }
    }
}

} // verus!
