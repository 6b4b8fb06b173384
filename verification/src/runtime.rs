//! Bytecode of the SGA virtual machine, its verifier, and the table of
//! builtin functions.
//!
//! A chunk is a list of instructions and a pool of constants; jumps are
//! absolute indices into the chunk's own code. The verifier checks, before
//! any execution, that every `PushConst` names a constant of the pool and
//! every jump lands inside the chunk (or just past its end), recursively in
//! the bodies of closures and in every function.
use vstd::prelude::*;
use crate::lexer::token::chars_eq;
use crate::text::{decimal, decimal_int, i64_to_string, push_str, usize_to_string};

verus! {

/// Whether `n` names a builtin function (`len`, `push`, `range`, ...).
pub open spec fn spec_is_builtin(n: Seq<char>) -> bool {
    n == seq!['l', 'e', 'n']
        || n == seq!['p', 'u', 's', 'h']
        || n == seq!['t', 'o', '_', 's', 't', 'r', 'i', 'n', 'g']
        || n == seq!['t', 'o', '_', 'i', 'n', 't']
        || n == seq!['t', 'o', '_', 'f', 'l', 'o', 'a', 't']
        || n == seq!['t', 'y', 'p', 'e', '_', 'o', 'f']
        || n == seq!['k', 'e', 'y', 's']
        || n == seq!['s', 'q', 'r', 't']
        || n == seq!['f', 'l', 'o', 'o', 'r']
        || n == seq!['c', 'e', 'i', 'l']
        || n == seq!['a', 'b', 's']
        || n == seq!['m', 'i', 'n']
        || n == seq!['m', 'a', 'x']
        || n == seq!['p', 'o', 'w']
        || n == seq!['s', 't', 'r', '_', 's', 'p', 'l', 'i', 't']
        || n == seq!['s', 't', 'r', '_', 'c', 'o', 'n', 't', 'a', 'i', 'n', 's']
        || n == seq!['s', 't', 'r', '_', 't', 'r', 'i', 'm']
        || n == seq!['s', 't', 'r', '_', 's', 't', 'a', 'r', 't', 's', '_', 'w', 'i', 't', 'h']
        || n == seq!['s', 't', 'r', '_', 'e', 'n', 'd', 's', '_', 'w', 'i', 't', 'h']
        || n == seq!['s', 't', 'r', '_', 'r', 'e', 'p', 'l', 'a', 'c', 'e']
        || n == seq!['s', 't', 'r', '_', 'u', 'p', 'p', 'e', 'r']
        || n == seq!['s', 't', 'r', '_', 'l', 'o', 'w', 'e', 'r']
        || n == seq!['r', 'a', 'n', 'g', 'e']
        || n == seq!['j', 's', 'o', 'n', '_', 's', 't', 'r', 'i', 'n', 'g', 'i', 'f', 'y']
        || n == seq!['j', 's', 'o', 'n', '_', 'p', 'a', 'r', 's', 'e']
}

/// The least and greatest number of arguments a builtin accepts.
pub open spec fn spec_builtin_arity(n: Seq<char>) -> Option<(nat, nat)> {
    if n == seq!['l', 'e', 'n'] {
        Some((1nat, 1nat))
    } else if n == seq!['p', 'u', 's', 'h'] {
        Some((1nat, 2nat))
    } else if n == seq!['t', 'o', '_', 's', 't', 'r', 'i', 'n', 'g'] {
        Some((1nat, 1nat))
    } else if n == seq!['t', 'o', '_', 'i', 'n', 't'] {
        Some((1nat, 1nat))
    } else if n == seq!['t', 'o', '_', 'f', 'l', 'o', 'a', 't'] {
        Some((1nat, 1nat))
    } else if n == seq!['t', 'y', 'p', 'e', '_', 'o', 'f'] {
        Some((1nat, 1nat))
    } else if n == seq!['k', 'e', 'y', 's'] {
        Some((1nat, 1nat))
    } else if n == seq!['s', 'q', 'r', 't'] {
        Some((1nat, 1nat))
    } else if n == seq!['f', 'l', 'o', 'o', 'r'] {
        Some((1nat, 1nat))
    } else if n == seq!['c', 'e', 'i', 'l'] {
        Some((1nat, 1nat))
    } else if n == seq!['a', 'b', 's'] {
        Some((1nat, 1nat))
    } else if n == seq!['m', 'i', 'n'] {
        Some((2nat, 2nat))
    } else if n == seq!['m', 'a', 'x'] {
        Some((2nat, 2nat))
    } else if n == seq!['p', 'o', 'w'] {
        Some((2nat, 2nat))
    } else if n == seq!['s', 't', 'r', '_', 's', 'p', 'l', 'i', 't'] {
        Some((2nat, 2nat))
    } else if n == seq!['s', 't', 'r', '_', 'c', 'o', 'n', 't', 'a', 'i', 'n', 's'] {
        Some((2nat, 2nat))
    } else if n == seq!['s', 't', 'r', '_', 't', 'r', 'i', 'm'] {
        Some((1nat, 1nat))
    } else if n == seq!['s', 't', 'r', '_', 's', 't', 'a', 'r', 't', 's', '_', 'w', 'i', 't', 'h'] {
        Some((2nat, 2nat))
    } else if n == seq!['s', 't', 'r', '_', 'e', 'n', 'd', 's', '_', 'w', 'i', 't', 'h'] {
        Some((2nat, 2nat))
    } else if n == seq!['s', 't', 'r', '_', 'r', 'e', 'p', 'l', 'a', 'c', 'e'] {
        Some((3nat, 3nat))
    } else if n == seq!['s', 't', 'r', '_', 'u', 'p', 'p', 'e', 'r'] {
        Some((1nat, 1nat))
    } else if n == seq!['s', 't', 'r', '_', 'l', 'o', 'w', 'e', 'r'] {
        Some((1nat, 1nat))
    } else if n == seq!['r', 'a', 'n', 'g', 'e'] {
        Some((1nat, 2nat))
    } else if n == seq!['j', 's', 'o', 'n', '_', 's', 't', 'r', 'i', 'n', 'g', 'i', 'f', 'y'] {
        Some((1nat, 1nat))
    } else if n == seq!['j', 's', 'o', 'n', '_', 'p', 'a', 'r', 's', 'e'] {
        Some((1nat, 1nat))
    } else {
        None
    }
}

/// Whether `name` is a builtin function.
pub fn is_builtin(name: &str) -> (r: bool)
    ensures
        r == spec_is_builtin(name@),
{
    let cs = crate::text::chars_of(name);
    builtin_arity_chars(cs.as_slice()).is_some()
}

/// The least and greatest number of arguments of a builtin, given its name
/// as characters.
pub fn builtin_arity_chars(n: &[char]) -> (r: Option<(usize, usize)>)
    ensures
        match r {
            Some((a, b)) => spec_builtin_arity(n@) == Some((a as nat, b as nat)),
            None => spec_builtin_arity(n@).is_none(),
        },
        r.is_some() == spec_is_builtin(n@),
{
    assert(['l', 'e', 'n']@ =~= seq!['l', 'e', 'n']);
    if chars_eq(n, &['l', 'e', 'n']) {
        return Some((1, 1));
    }
    assert(['p', 'u', 's', 'h']@ =~= seq!['p', 'u', 's', 'h']);
    if chars_eq(n, &['p', 'u', 's', 'h']) {
        return Some((1, 2));
    }
    assert(['t', 'o', '_', 's', 't', 'r', 'i', 'n', 'g']@ =~= seq!['t', 'o', '_', 's', 't', 'r', 'i', 'n', 'g']);
    if chars_eq(n, &['t', 'o', '_', 's', 't', 'r', 'i', 'n', 'g']) {
        return Some((1, 1));
    }
    assert(['t', 'o', '_', 'i', 'n', 't']@ =~= seq!['t', 'o', '_', 'i', 'n', 't']);
    if chars_eq(n, &['t', 'o', '_', 'i', 'n', 't']) {
        return Some((1, 1));
    }
    assert(['t', 'o', '_', 'f', 'l', 'o', 'a', 't']@ =~= seq!['t', 'o', '_', 'f', 'l', 'o', 'a', 't']);
    if chars_eq(n, &['t', 'o', '_', 'f', 'l', 'o', 'a', 't']) {
        return Some((1, 1));
    }
    assert(['t', 'y', 'p', 'e', '_', 'o', 'f']@ =~= seq!['t', 'y', 'p', 'e', '_', 'o', 'f']);
    if chars_eq(n, &['t', 'y', 'p', 'e', '_', 'o', 'f']) {
        return Some((1, 1));
    }
    assert(['k', 'e', 'y', 's']@ =~= seq!['k', 'e', 'y', 's']);
    if chars_eq(n, &['k', 'e', 'y', 's']) {
        return Some((1, 1));
    }
    assert(['s', 'q', 'r', 't']@ =~= seq!['s', 'q', 'r', 't']);
    if chars_eq(n, &['s', 'q', 'r', 't']) {
        return Some((1, 1));
    }
    assert(['f', 'l', 'o', 'o', 'r']@ =~= seq!['f', 'l', 'o', 'o', 'r']);
    if chars_eq(n, &['f', 'l', 'o', 'o', 'r']) {
        return Some((1, 1));
    }
    assert(['c', 'e', 'i', 'l']@ =~= seq!['c', 'e', 'i', 'l']);
    if chars_eq(n, &['c', 'e', 'i', 'l']) {
        return Some((1, 1));
    }
    assert(['a', 'b', 's']@ =~= seq!['a', 'b', 's']);
    if chars_eq(n, &['a', 'b', 's']) {
        return Some((1, 1));
    }
    assert(['m', 'i', 'n']@ =~= seq!['m', 'i', 'n']);
    if chars_eq(n, &['m', 'i', 'n']) {
        return Some((2, 2));
    }
    assert(['m', 'a', 'x']@ =~= seq!['m', 'a', 'x']);
    if chars_eq(n, &['m', 'a', 'x']) {
        return Some((2, 2));
    }
    assert(['p', 'o', 'w']@ =~= seq!['p', 'o', 'w']);
    if chars_eq(n, &['p', 'o', 'w']) {
        return Some((2, 2));
    }
    assert(['s', 't', 'r', '_', 's', 'p', 'l', 'i', 't']@ =~= seq!['s', 't', 'r', '_', 's', 'p', 'l', 'i', 't']);
    if chars_eq(n, &['s', 't', 'r', '_', 's', 'p', 'l', 'i', 't']) {
        return Some((2, 2));
    }
    assert(['s', 't', 'r', '_', 'c', 'o', 'n', 't', 'a', 'i', 'n', 's']@ =~= seq!['s', 't', 'r', '_', 'c', 'o', 'n', 't', 'a', 'i', 'n', 's']);
    if chars_eq(n, &['s', 't', 'r', '_', 'c', 'o', 'n', 't', 'a', 'i', 'n', 's']) {
        return Some((2, 2));
    }
    assert(['s', 't', 'r', '_', 't', 'r', 'i', 'm']@ =~= seq!['s', 't', 'r', '_', 't', 'r', 'i', 'm']);
    if chars_eq(n, &['s', 't', 'r', '_', 't', 'r', 'i', 'm']) {
        return Some((1, 1));
    }
    assert(['s', 't', 'r', '_', 's', 't', 'a', 'r', 't', 's', '_', 'w', 'i', 't', 'h']@ =~= seq!['s', 't', 'r', '_', 's', 't', 'a', 'r', 't', 's', '_', 'w', 'i', 't', 'h']);
    if chars_eq(n, &['s', 't', 'r', '_', 's', 't', 'a', 'r', 't', 's', '_', 'w', 'i', 't', 'h']) {
        return Some((2, 2));
    }
    assert(['s', 't', 'r', '_', 'e', 'n', 'd', 's', '_', 'w', 'i', 't', 'h']@ =~= seq!['s', 't', 'r', '_', 'e', 'n', 'd', 's', '_', 'w', 'i', 't', 'h']);
    if chars_eq(n, &['s', 't', 'r', '_', 'e', 'n', 'd', 's', '_', 'w', 'i', 't', 'h']) {
        return Some((2, 2));
    }
    assert(['s', 't', 'r', '_', 'r', 'e', 'p', 'l', 'a', 'c', 'e']@ =~= seq!['s', 't', 'r', '_', 'r', 'e', 'p', 'l', 'a', 'c', 'e']);
    if chars_eq(n, &['s', 't', 'r', '_', 'r', 'e', 'p', 'l', 'a', 'c', 'e']) {
        return Some((3, 3));
    }
    assert(['s', 't', 'r', '_', 'u', 'p', 'p', 'e', 'r']@ =~= seq!['s', 't', 'r', '_', 'u', 'p', 'p', 'e', 'r']);
    if chars_eq(n, &['s', 't', 'r', '_', 'u', 'p', 'p', 'e', 'r']) {
        return Some((1, 1));
    }
    assert(['s', 't', 'r', '_', 'l', 'o', 'w', 'e', 'r']@ =~= seq!['s', 't', 'r', '_', 'l', 'o', 'w', 'e', 'r']);
    if chars_eq(n, &['s', 't', 'r', '_', 'l', 'o', 'w', 'e', 'r']) {
        return Some((1, 1));
    }
    assert(['r', 'a', 'n', 'g', 'e']@ =~= seq!['r', 'a', 'n', 'g', 'e']);
    if chars_eq(n, &['r', 'a', 'n', 'g', 'e']) {
        return Some((1, 2));
    }
    assert(['j', 's', 'o', 'n', '_', 's', 't', 'r', 'i', 'n', 'g', 'i', 'f', 'y']@ =~= seq!['j', 's', 'o', 'n', '_', 's', 't', 'r', 'i', 'n', 'g', 'i', 'f', 'y']);
    if chars_eq(n, &['j', 's', 'o', 'n', '_', 's', 't', 'r', 'i', 'n', 'g', 'i', 'f', 'y']) {
        return Some((1, 1));
    }
    assert(['j', 's', 'o', 'n', '_', 'p', 'a', 'r', 's', 'e']@ =~= seq!['j', 's', 'o', 'n', '_', 'p', 'a', 'r', 's', 'e']);
    if chars_eq(n, &['j', 's', 'o', 'n', '_', 'p', 'a', 'r', 's', 'e']) {
        return Some((1, 1));
    }
    None
}

/// The least and greatest number of arguments of a builtin.
pub fn builtin_arity(name: &str) -> (r: Option<(usize, usize)>)
    ensures
        match r {
            Some((a, b)) => spec_builtin_arity(name@) == Some((a as nat, b as nat)),
            None => spec_builtin_arity(name@).is_none(),
        },
{
    let cs = crate::text::chars_of(name);
    builtin_arity_chars(cs.as_slice())
}


// ------------------------------------------------------------------ bytecode

/// A constant of a chunk's pool. A float constant keeps the source text of
/// its literal.
#[derive(Debug, PartialEq)]
pub enum Constant {
    Int(i64),
    Float(String),
    Str(String),
    Bool(bool),
    Nil,
}

/// An instruction of the virtual machine.
#[derive(Debug, PartialEq)]
pub enum OpCode {
    PushConst(usize),
    LoadVar(String),
    StoreVar(String),
    DefineVar(String, bool),
    Pop,
    PushScope,
    PopScope,
    Add,
    Sub,
    Mul,
    Div,
    Mod,
    Eq,
    NotEq,
    Lt,
    Gt,
    LtEq,
    GtEq,
    And,
    Or,
    Neg,
    Not,
    JumpIfFalse(usize),
    Jump(usize),
    /// A call of a named function or builtin with `argc` arguments.
    Call(String, usize),
    /// A call of the value under the `argc` arguments on the stack.
    CallValue(usize),
    Print(usize),
    MakeArray(usize),
    Index,
    IndexAssign,
    Return(bool),
    /// Makes a closure of the body and the variables visible now.
    MakeClosure { params: Vec<String>, body: Box<Chunk> },
    /// Makes a struct instance from the values of the named fields.
    MakeStruct { struct_name: String, fields: Vec<String> },
    GetField(String),
    SetField(String),
    /// Calls `{TypeName}_{method}` with the object as the first argument.
    CallMethod { method: String, argc: usize },
}

/// Instructions and their constant pool.
#[derive(Debug, PartialEq)]
pub struct Chunk {
    pub code: Vec<OpCode>,
    pub constants: Vec<Constant>,
}

/// A compiled named function.
#[derive(Debug, PartialEq)]
pub struct FunctionDef {
    pub params: Vec<String>,
    /// The `MUT` flag of each parameter.
    pub param_mut: Vec<bool>,
    pub chunk: Chunk,
}

/// A compiled program: the main chunk and the named functions, each name
/// once.
#[derive(Debug, PartialEq)]
pub struct CompiledProgram {
    pub main: Chunk,
    pub functions: Vec<(String, FunctionDef)>,
}

/// A runtime error.
#[derive(Debug)]
pub struct RuntimeError(pub String);

impl RuntimeError {
    /// The error as it is shown to the user: `ошибка выполнения: ...`.
    pub fn describe(&self) -> (r: String)
        ensures
            r@ == "ошибка выполнения: "@ + self.0@,
    {
        let mut m = String::new();
        push_str(&mut m, "ошибка выполнения: ");
        push_str(&mut m, self.0.as_str());
        m
    }
}

// ------------------------------------------------------------------ views

/// The value of a constant.
pub enum ConstV {
    Int(i64),
    Float(Seq<char>),
    Str(Seq<char>),
    Bool(bool),
    Nil,
}

/// The value of an instruction.
pub enum OpV {
    PushConst(usize),
    LoadVar(Seq<char>),
    StoreVar(Seq<char>),
    DefineVar(Seq<char>, bool),
    Pop,
    PushScope,
    PopScope,
    Add,
    Sub,
    Mul,
    Div,
    Mod,
    Eq,
    NotEq,
    Lt,
    Gt,
    LtEq,
    GtEq,
    And,
    Or,
    Neg,
    Not,
    JumpIfFalse(usize),
    Jump(usize),
    Call(Seq<char>, nat),
    CallValue(nat),
    Print(nat),
    MakeArray(nat),
    Index,
    IndexAssign,
    Return(bool),
    MakeClosure { params: Seq<Seq<char>>, body: Box<ChunkV> },
    MakeStruct { struct_name: Seq<char>, fields: Seq<Seq<char>> },
    GetField(Seq<char>),
    SetField(Seq<char>),
    CallMethod { method: Seq<char>, argc: nat },
}

/// The value of a chunk.
pub struct ChunkV {
    pub code: Seq<OpV>,
    pub consts: Seq<ConstV>,
}

/// The value of a compiled function.
pub struct FunctionDefV {
    pub params: Seq<Seq<char>>,
    pub param_mut: Seq<bool>,
    pub chunk: ChunkV,
}

/// The value of a compiled program.
pub struct ProgramV {
    pub main: ChunkV,
    pub functions: Seq<(Seq<char>, FunctionDefV)>,
}

/// The value of a constant.
pub open spec fn const_view(c: Constant) -> ConstV {
    match c {
        Constant::Int(i) => ConstV::Int(i),
        Constant::Float(s) => ConstV::Float(s@),
        Constant::Str(s) => ConstV::Str(s@),
        Constant::Bool(b) => ConstV::Bool(b),
        Constant::Nil => ConstV::Nil,
    }
}

/// The values of a constant pool.
pub open spec fn consts_view(cs: Seq<Constant>) -> Seq<ConstV> {
    cs.map_values(|c: Constant| const_view(c))
}

/// The value of an instruction.
pub open spec fn op_view(op: OpCode) -> OpV
    decreases op, 0nat,
{
    match op {
        OpCode::PushConst(i) => OpV::PushConst(i),
        OpCode::LoadVar(n) => OpV::LoadVar(n@),
        OpCode::StoreVar(n) => OpV::StoreVar(n@),
        OpCode::DefineVar(n, m) => OpV::DefineVar(n@, m),
        OpCode::Pop => OpV::Pop,
        OpCode::PushScope => OpV::PushScope,
        OpCode::PopScope => OpV::PopScope,
        OpCode::Add => OpV::Add,
        OpCode::Sub => OpV::Sub,
        OpCode::Mul => OpV::Mul,
        OpCode::Div => OpV::Div,
        OpCode::Mod => OpV::Mod,
        OpCode::Eq => OpV::Eq,
        OpCode::NotEq => OpV::NotEq,
        OpCode::Lt => OpV::Lt,
        OpCode::Gt => OpV::Gt,
        OpCode::LtEq => OpV::LtEq,
        OpCode::GtEq => OpV::GtEq,
        OpCode::And => OpV::And,
        OpCode::Or => OpV::Or,
        OpCode::Neg => OpV::Neg,
        OpCode::Not => OpV::Not,
        OpCode::JumpIfFalse(t) => OpV::JumpIfFalse(t),
        OpCode::Jump(t) => OpV::Jump(t),
        OpCode::Call(n, a) => OpV::Call(n@, a as nat),
        OpCode::CallValue(a) => OpV::CallValue(a as nat),
        OpCode::Print(a) => OpV::Print(a as nat),
        OpCode::MakeArray(a) => OpV::MakeArray(a as nat),
        OpCode::Index => OpV::Index,
        OpCode::IndexAssign => OpV::IndexAssign,
        OpCode::Return(b) => OpV::Return(b),
        OpCode::MakeClosure { params, body } => OpV::MakeClosure {
            params: crate::ast::names_view(params@),
            body: Box::new(chunk_view(*body)),
        },
        OpCode::MakeStruct { struct_name, fields } => OpV::MakeStruct {
            struct_name: struct_name@,
            fields: crate::ast::names_view(fields@),
        },
        OpCode::GetField(f) => OpV::GetField(f@),
        OpCode::SetField(f) => OpV::SetField(f@),
        OpCode::CallMethod { method, argc } => OpV::CallMethod { method: method@, argc: argc as nat },
    }
}

/// The values of a list of instructions.
pub open spec fn ops_view(ops: Seq<OpCode>) -> Seq<OpV>
    decreases ops, 0nat,
{
    if ops.len() == 0 {
        Seq::empty()
    } else {
        ops_view(ops.drop_last()).push(op_view(ops.last()))
    }
}

/// The value of a chunk.
pub open spec fn chunk_view(c: Chunk) -> ChunkV
    decreases c, 1nat,
{
    ChunkV { code: ops_view(c.code@), consts: consts_view(c.constants@) }
}

/// The value of a compiled function.
pub open spec fn fn_def_view(d: FunctionDef) -> FunctionDefV {
    FunctionDefV { params: crate::ast::names_view(d.params@), param_mut: d.param_mut@, chunk: chunk_view(d.chunk) }
}

/// The value of a compiled program.
pub open spec fn program_view(p: CompiledProgram) -> ProgramV {
    ProgramV {
        main: chunk_view(p.main),
        functions: p.functions@.map_values(|f: (String, FunctionDef)| (f.0@, fn_def_view(f.1))),
    }
}

/// Appending an instruction appends its value.
pub proof fn lemma_ops_view_push(ops: Seq<OpCode>, op: OpCode)
    ensures
        ops_view(ops.push(op)) == ops_view(ops).push(op_view(op)),
        ops_view(Seq::<OpCode>::empty()) == Seq::<OpV>::empty(),
{
    assert(ops.push(op).drop_last() =~= ops);
}

/// The values of a list of instructions are, one for one, the values of the
/// instructions.
pub proof fn lemma_ops_view_index(ops: Seq<OpCode>)
    ensures
        ops_view(ops).len() == ops.len(),
        forall|i: int| 0 <= i < ops.len() ==> #[trigger] ops_view(ops)[i] == op_view(ops[i]),
    decreases ops.len(),
{
    if ops.len() > 0 {
        lemma_ops_view_index(ops.drop_last());
    }
}

/// Replacing an instruction replaces its value.
pub proof fn lemma_ops_view_update(ops: Seq<OpCode>, i: int, op: OpCode)
    requires
        0 <= i < ops.len(),
    ensures
        ops_view(ops.update(i, op)) == ops_view(ops).update(i, op_view(op)),
{
    lemma_ops_view_index(ops);
    lemma_ops_view_index(ops.update(i, op));
    assert(ops_view(ops.update(i, op)) =~= ops_view(ops).update(i, op_view(op)));
}

// ------------------------------------------------------------------ validity

/// An instruction is valid in a chunk with `nconsts` constants and `len`
/// instructions: a constant index is inside the pool, a jump target at most
/// `len`, and a closure body is a valid chunk.
pub open spec fn op_ok(op: OpV, nconsts: nat, len: nat) -> bool
    decreases op, 0nat,
{
    match op {
        OpV::PushConst(i) => i < nconsts,
        OpV::Jump(t) => t <= len,
        OpV::JumpIfFalse(t) => t <= len,
        OpV::MakeClosure { body, .. } => chunk_ok(*body),
        _ => true,
    }
}

/// Every instruction of a list is valid.
pub open spec fn ops_ok(code: Seq<OpV>, nconsts: nat, len: nat) -> bool
    decreases code, 0nat,
{
    if code.len() == 0 {
        true
    } else {
        ops_ok(code.drop_last(), nconsts, len) && op_ok(code.last(), nconsts, len)
    }
}

/// Every instruction of a chunk is valid in it.
pub open spec fn chunk_ok(c: ChunkV) -> bool
    decreases c, 1nat,
{
    ops_ok(c.code, c.consts.len(), c.code.len())
}

/// A valid list stays valid with more constants and a longer chunk.
pub proof fn lemma_ops_ok_grow(code: Seq<OpV>, n1: nat, l1: nat, n2: nat, l2: nat)
    requires
        ops_ok(code, n1, l1),
        n1 <= n2,
        l1 <= l2,
    ensures
        ops_ok(code, n2, l2),
    decreases code.len(),
{
    if code.len() > 0 {
        lemma_ops_ok_grow(code.drop_last(), n1, l1, n2, l2);
        let op = code.last();
        assert(op_ok(op, n1, l1));
        assert(op_ok(op, n2, l2)) by {
            match op {
                OpV::PushConst(i) => {
                    assert(i < n1);
                },
                OpV::Jump(t) => {},
                OpV::JumpIfFalse(t) => {},
                _ => {},
            }
        }
    }
}

/// Appending a valid instruction to a valid list.
pub proof fn lemma_ops_ok_push(code: Seq<OpV>, op: OpV, n: nat, l: nat)
    requires
        ops_ok(code, n, l),
        op_ok(op, n, l),
    ensures
        ops_ok(code.push(op), n, l),
{
    assert(code.push(op).drop_last() =~= code);
}

/// Replacing an instruction of a valid list by a valid one.
pub proof fn lemma_ops_ok_update(code: Seq<OpV>, i: int, op: OpV, n: nat, l: nat)
    requires
        ops_ok(code, n, l),
        op_ok(op, n, l),
        0 <= i < code.len(),
    ensures
        ops_ok(code.update(i, op), n, l),
    decreases code.len(),
{
    if i == code.len() - 1 {
        assert(code.update(i, op).drop_last() =~= code.drop_last());
    } else {
        assert(code.update(i, op).drop_last() =~= code.drop_last().update(i, op));
        lemma_ops_ok_update(code.drop_last(), i, op, n, l);
    }
}

/// Each instruction of a valid list is valid.
pub proof fn lemma_ops_ok_index(code: Seq<OpV>, n: nat, l: nat, i: int)
    requires
        ops_ok(code, n, l),
        0 <= i < code.len(),
    ensures
        op_ok(code[i], n, l),
    decreases code.len(),
{
    if i < code.len() - 1 {
        lemma_ops_ok_index(code.drop_last(), n, l, i);
    }
}

// ------------------------------------------------------------------ verifier

/// The message for a constant index outside the pool.
pub open spec fn msg_bad_const(idx: nat, pos: nat, nconsts: nat) -> Seq<char> {
    "повреждённый байткод: PushConst("@ + decimal(idx) + ") на позиции "@ + decimal(pos)
        + " ссылается за пределы пула констант (размер "@ + decimal(nconsts) + ")"@
}

/// The message for a jump outside the chunk.
pub open spec fn msg_bad_jump(pos: nat, target: nat, len: nat) -> Seq<char> {
    "повреждённый байткод: переход на позиции "@ + decimal(pos) + " ведёт за пределы чанка (target="@
        + decimal(target) + ", длина чанка="@ + decimal(len) + ")"@
}

/// The message for an error inside a closure body.
pub open spec fn msg_in_closure(pos: nat, inner: Seq<char>) -> Seq<char> {
    "в теле замыкания (MakeClosure на позиции "@ + decimal(pos) + "): "@ + inner
}

/// The verdict of the verifier on a chunk, from instruction `i` on: the
/// first invalid instruction, or nothing.
pub open spec fn verify_from(c: ChunkV, i: nat) -> Result<(), Seq<char>>
    decreases c, 0nat, c.code.len() - i,
{
    if i >= c.code.len() {
        Ok(())
    } else {
        let rest = verify_from(c, i + 1);
        match c.code[i as int] {
            OpV::PushConst(idx) => if idx >= c.consts.len() {
                Err(msg_bad_const(idx as nat, i, c.consts.len()))
            } else {
                rest
            },
            OpV::Jump(t) => if t > c.code.len() {
                Err(msg_bad_jump(i, t as nat, c.code.len()))
            } else {
                rest
            },
            OpV::JumpIfFalse(t) => if t > c.code.len() {
                Err(msg_bad_jump(i, t as nat, c.code.len()))
            } else {
                rest
            },
            OpV::MakeClosure { body, .. } => match spec_verify_chunk(*body) {
                Err(m) => Err(msg_in_closure(i, m)),
                Ok(_) => rest,
            },
            _ => rest,
        }
    }
}

/// The verdict of the verifier on a chunk.
pub open spec fn spec_verify_chunk(c: ChunkV) -> Result<(), Seq<char>>
    decreases c, 1nat, 0nat,
{
    verify_from(c, 0)
}

/// The verdict of the verifier on the functions of a program, from the
/// `i`-th on.
pub open spec fn verify_fns_from(fs: Seq<(Seq<char>, FunctionDefV)>, i: nat) -> Result<(), Seq<char>>
    decreases fs.len() - i,
{
    if i >= fs.len() {
        Ok(())
    } else {
        match spec_verify_chunk(fs[i as int].1.chunk) {
            Err(m) => Err("в функции '"@ + fs[i as int].0 + "': "@ + m),
            Ok(_) => verify_fns_from(fs, i + 1),
        }
    }
}

/// The verdict of the verifier on a program: its main chunk, then each of
/// its functions.
pub open spec fn spec_verify_program(p: ProgramV) -> Result<(), Seq<char>> {
    match spec_verify_chunk(p.main) {
        Err(m) => Err(m),
        Ok(_) => verify_fns_from(p.functions, 0),
    }
}

/// A valid chunk passes the verifier, from any position on.
pub proof fn lemma_ok_verifies_from(c: ChunkV, i: nat)
    requires
        chunk_ok(c),
    ensures
        verify_from(c, i) is Ok,
    decreases c, 0nat, c.code.len() - i,
{
    if i < c.code.len() {
        lemma_ops_ok_index(c.code, c.consts.len(), c.code.len(), i as int);
        lemma_ok_verifies_from(c, i + 1);
        match c.code[i as int] {
            OpV::MakeClosure { body, .. } => {
                lemma_ok_verifies(*body);
            },
            _ => {},
        }
    }
}

/// A valid chunk passes the verifier.
pub proof fn lemma_ok_verifies(c: ChunkV)
    requires
        chunk_ok(c),
    ensures
        spec_verify_chunk(c) is Ok,
    decreases c, 1nat, 0nat,
{
    lemma_ok_verifies_from(c, 0);
}

/// The chunks of a program are valid.
pub open spec fn program_ok(p: ProgramV) -> bool {
    &&& chunk_ok(p.main)
    &&& forall|i: int| 0 <= i < p.functions.len() ==> chunk_ok(#[trigger] p.functions[i].1.chunk)
    &&& names_distinct(p.functions)
}

/// No two functions of a program have the same name.
pub open spec fn names_distinct(fs: Seq<(Seq<char>, FunctionDefV)>) -> bool {
    forall|i: int, j: int| 0 <= i < j < fs.len() ==> #[trigger] fs[i].0 != #[trigger] fs[j].0
}

/// A program whose chunks are valid passes the verifier.
pub proof fn lemma_program_ok_verifies(p: ProgramV)
    requires
        program_ok(p),
    ensures
        spec_verify_program(p) is Ok,
{
    lemma_ok_verifies(p.main);
    lemma_fns_verify_from(p.functions, 0);
}

proof fn lemma_fns_verify_from(fs: Seq<(Seq<char>, FunctionDefV)>, i: nat)
    requires
        forall|j: int| 0 <= j < fs.len() ==> chunk_ok(#[trigger] fs[j].1.chunk),
    ensures
        verify_fns_from(fs, i) is Ok,
    decreases fs.len() - i,
{
    if i < fs.len() {
        lemma_ok_verifies(fs[i as int].1.chunk);
        lemma_fns_verify_from(fs, i + 1);
    }
}


// ------------------------------------------------------------------ executable verifier

/// A verdict as an error message or nothing.
pub open spec fn rt_res(r: Result<(), RuntimeError>) -> Result<(), Seq<char>> {
    match r {
        Ok(_) => Ok(()),
        Err(e) => Err(e.0@),
    }
}

fn chunk_verdict_from(c: &Chunk, start: usize) -> (r: Result<(), RuntimeError>)
    requires
        start <= c.code.len(),
    ensures
        rt_res(r) == verify_from(chunk_view(*c), start as nat),
    decreases c, 0nat, c.code.len() - start,
{
    let ghost cv = chunk_view(*c);
    proof {
        lemma_ops_view_index(c.code@);
    }
    if start == c.code.len() {
        return Ok(());
    }
    let i = start;
    let code_len = c.code.len();
    let const_len = c.constants.len();
    assert(cv.code[i as int] == op_view(c.code@[i as int]));
    match &c.code[i] {
        OpCode::PushConst(idx) => {
            if *idx >= const_len {
                let mut m = String::new();
                push_str(&mut m, "повреждённый байткод: PushConst(");
                push_str(&mut m, usize_to_string(*idx).as_str());
                push_str(&mut m, ") на позиции ");
                push_str(&mut m, usize_to_string(i).as_str());
                push_str(&mut m, " ссылается за пределы пула констант (размер ");
                push_str(&mut m, usize_to_string(const_len).as_str());
                push_str(&mut m, ")");
                return Err(RuntimeError(m));
            }
        },
        OpCode::Jump(target) | OpCode::JumpIfFalse(target) => {
            if *target > code_len {
                let mut m = String::new();
                push_str(&mut m, "повреждённый байткод: переход на позиции ");
                push_str(&mut m, usize_to_string(i).as_str());
                push_str(&mut m, " ведёт за пределы чанка (target=");
                push_str(&mut m, usize_to_string(*target).as_str());
                push_str(&mut m, ", длина чанка=");
                push_str(&mut m, usize_to_string(code_len).as_str());
                push_str(&mut m, ")");
                return Err(RuntimeError(m));
            }
        },
        OpCode::MakeClosure { body, .. } => {
            match verify_chunk(body) {
                Err(e) => {
                    let mut m = String::new();
                    push_str(&mut m, "в теле замыкания (MakeClosure на позиции ");
                    push_str(&mut m, usize_to_string(i).as_str());
                    push_str(&mut m, "): ");
                    push_str(&mut m, e.0.as_str());
                    return Err(RuntimeError(m));
                },
                Ok(_) => {},
            }
        },
        _ => {},
    }
    chunk_verdict_from(c, i + 1)
}

/// Checks a chunk before execution: every `PushConst` names a constant of
/// the pool, every jump lands at most one past the last instruction, and
/// the body of every closure passes the same checks; the first violation is
/// the error.
pub fn verify_chunk(c: &Chunk) -> (r: Result<(), RuntimeError>)
    ensures
        rt_res(r) == spec_verify_chunk(chunk_view(*c)),
    decreases c, 1nat, 0nat,
{
    chunk_verdict_from(c, 0)
}

/// Checks a compiled program before execution: its main chunk, then the
/// chunk of each function in order.
pub fn verify_program(p: &CompiledProgram) -> (r: Result<(), RuntimeError>)
    ensures
        rt_res(r) == spec_verify_program(program_view(*p)),
{
    match verify_chunk(&p.main) {
        Err(e) => return Err(e),
        Ok(_) => {},
    }
    let ghost fs = program_view(*p).functions;
    let mut i: usize = 0;
    while i < p.functions.len()
        invariant
            i <= p.functions.len(),
            fs == program_view(*p).functions,
            fs.len() == p.functions.len(),
            verify_fns_from(fs, 0) == verify_fns_from(fs, i as nat),
            spec_verify_chunk(program_view(*p).main) is Ok,
        decreases p.functions.len() - i,
    {
        assert(fs[i as int] == (p.functions@[i as int].0@, fn_def_view(p.functions@[i as int].1)));
        match verify_chunk(&p.functions[i].1.chunk) {
            Err(e) => {
                let mut m = String::new();
                push_str(&mut m, "в функции '");
                push_str(&mut m, p.functions[i].0.as_str());
                push_str(&mut m, "': ");
                push_str(&mut m, e.0.as_str());
                return Err(RuntimeError(m));
            },
            Ok(_) => {},
        }
        i = i + 1;
    }
    Ok(())
}

/// The result of an integer operation of the virtual machine: checked
/// addition, subtraction, multiplication, division and remainder; an
/// overflow or a division by zero is an error.
pub open spec fn spec_int_arith(op: OpV, x: i64, y: i64) -> Result<i64, Seq<char>> {
    match op {
        OpV::Add => match x.checked_add(y) {
            Some(v) => Ok(v),
            None => Err("переполнение int при сложении"@),
        },
        OpV::Sub => match x.checked_sub(y) {
            Some(v) => Ok(v),
            None => Err("переполнение int при вычитании"@),
        },
        OpV::Mul => match x.checked_mul(y) {
            Some(v) => Ok(v),
            None => Err("переполнение int при умножении"@),
        },
        OpV::Div => if y == 0 {
            Err("деление на ноль"@)
        } else {
            match x.checked_div(y) {
                Some(v) => Ok(v),
                None => Err("переполнение int при делении"@),
            }
        },
        _ => if y == 0 {
            Err("деление на ноль (остаток)"@)
        } else {
            match x.checked_rem(y) {
                Some(v) => Ok(v),
                None => Err("переполнение int при остатке"@),
            }
        },
    }
}

/// Whether an instruction is one of the arithmetic operations.
pub open spec fn is_arith(op: OpV) -> bool {
    op is Add || op is Sub || op is Mul || op is Div || op is Mod
}

fn rt_msg(a: &str) -> (r: RuntimeError)
    ensures
        r.0@ == a@,
{
    let mut m = String::new();
    push_str(&mut m, a);
    RuntimeError(m)
}

/// An arithmetic instruction on two integers; an overflow or a division by
/// zero is an error, never a panic.
pub fn int_arith(op: &OpCode, x: i64, y: i64) -> (r: Result<i64, RuntimeError>)
    requires
        is_arith(op_view(*op)),
    ensures
        match spec_int_arith(op_view(*op), x, y) {
            Ok(v) => r == Ok::<i64, RuntimeError>(v),
            Err(m) => r matches Err(e) && e.0@ == m,
        },
{
    match op {
        OpCode::Add => match x.checked_add(y) {
            Some(v) => Ok(v),
            None => Err(rt_msg("переполнение int при сложении")),
        },
        OpCode::Sub => match x.checked_sub(y) {
            Some(v) => Ok(v),
            None => Err(rt_msg("переполнение int при вычитании")),
        },
        OpCode::Mul => match x.checked_mul(y) {
            Some(v) => Ok(v),
            None => Err(rt_msg("переполнение int при умножении")),
        },
        OpCode::Div => {
            if y == 0 {
                return Err(rt_msg("деление на ноль"));
            }
            match x.checked_div(y) {
                Some(v) => Ok(v),
                None => Err(rt_msg("переполнение int при делении")),
            }
        },
        _ => {
            if y == 0 {
                return Err(rt_msg("деление на ноль (остаток)"));
            }
            match x.checked_rem(y) {
                Some(v) => Ok(v),
                None => Err(rt_msg("переполнение int при остатке")),
            }
        },
    }
}

/// The position that an index designates in an array or string of length
/// `len`: the index itself when `0 <= i < len`; otherwise an error.
pub fn normalize_index(i: i64, len: usize) -> (r: Result<usize, RuntimeError>)
    ensures
        0 <= i < len ==> r == Ok::<usize, RuntimeError>(i as usize),
        !(0 <= i < len) ==> (r matches Err(e) && e.0@ == "индекс "@ + decimal_int(i as int)
            + " выходит за границы массива длины "@ + decimal(len as nat)),
{
    if i < 0 || (i as u64) >= (len as u64) {
        let mut m = String::new();
        push_str(&mut m, "индекс ");
        push_str(&mut m, i64_to_string(i).as_str());
        push_str(&mut m, " выходит за границы массива длины ");
        push_str(&mut m, usize_to_string(len).as_str());
        return Err(RuntimeError(m));
    }
    Ok(i as usize)
}

} // verus!
