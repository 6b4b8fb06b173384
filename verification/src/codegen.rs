//! Bytecode generation: AST to chunks.
//!
//! Each named function and each anonymous function is compiled into a chunk
//! of its own. Jumps are absolute indices inside their chunk; `BREAK` and
//! `CONTINUE` are compiled by backpatching: a placeholder `Jump` is emitted,
//! its position recorded in the innermost loop's context, and patched once
//! the loop's end (or its continuation point) is known. The value of the
//! last top-level expression statement is the value of the whole program.
use vstd::prelude::*;
use crate::ast::{
    BinOp, Expr, ExprV, Param, ParamV, Stmt, StmtV, UnOp, expr_view, exprs_view, fields_view, names_view,
    params_view, stmt_view, stmts_view,
};
use crate::runtime::{
    Chunk, CompiledProgram, ConstV, Constant, FunctionDef, FunctionDefV, OpCode, OpV, ChunkV, ProgramV, chunk_ok,
    chunk_view, const_view, consts_view, fn_def_view, is_builtin, names_distinct, op_ok, op_view, ops_ok, ops_view, program_ok,
    program_view, spec_is_builtin, spec_verify_program,
};

verus! {

/// The state of code generation for one chunk: the instructions and
/// constants so far, and for each enclosing loop the positions of its
/// `BREAK` and `CONTINUE` placeholders.
pub struct CgState {
    pub code: Seq<OpV>,
    pub consts: Seq<ConstV>,
    pub loops: Seq<(Seq<usize>, Seq<usize>)>,
}

/// Nothing generated yet.
pub open spec fn cg_empty() -> CgState {
    CgState { code: Seq::empty(), consts: Seq::empty(), loops: Seq::empty() }
}

/// Appends an instruction.
pub open spec fn emit(st: CgState, op: OpV) -> CgState {
    CgState { code: st.code.push(op), ..st }
}

/// Appends a constant to the pool and an instruction that pushes it.
pub open spec fn push_const(st: CgState, c: ConstV) -> CgState {
    emit(CgState { consts: st.consts.push(c), ..st }, OpV::PushConst(st.consts.len() as usize))
}

/// Points the jump at `pos` to `target`; any other instruction stays.
pub open spec fn patch(code: Seq<OpV>, pos: usize, target: usize) -> Seq<OpV> {
    if pos < code.len() {
        match code[pos as int] {
            OpV::Jump(_) => code.update(pos as int, OpV::Jump(target)),
            OpV::JumpIfFalse(_) => code.update(pos as int, OpV::JumpIfFalse(target)),
            _ => code,
        }
    } else {
        code
    }
}

/// Points the jumps at the given positions, in order, to `target`.
pub open spec fn patch_all(code: Seq<OpV>, ps: Seq<usize>, target: usize) -> Seq<OpV>
    decreases ps.len(),
{
    if ps.len() == 0 {
        code
    } else {
        patch(patch_all(code, ps.drop_last(), target), ps.last(), target)
    }
}

/// Enters a loop: a new context with no placeholders.
pub open spec fn open_loop(st: CgState) -> CgState {
    CgState { loops: st.loops.push((Seq::empty(), Seq::empty())), ..st }
}

/// Leaves a loop: its `BREAK`s jump to `brk`, its `CONTINUE`s to `cont`.
pub open spec fn close_loop(st: CgState, brk: usize, cont: usize) -> CgState {
    let ctx = st.loops.last();
    CgState { code: patch_all(patch_all(st.code, ctx.0, brk), ctx.1, cont), loops: st.loops.drop_last(), ..st }
}

/// Records a placeholder at `pos` in the innermost loop, if there is one:
/// among its `BREAK`s when `is_break`, else among its `CONTINUE`s.
pub open spec fn record_jump(st: CgState, pos: usize, is_break: bool) -> CgState {
    if st.loops.len() == 0 {
        st
    } else {
        let ctx = st.loops.last();
        let ctx2 = if is_break { (ctx.0.push(pos), ctx.1) } else { (ctx.0, ctx.1.push(pos)) };
        CgState { loops: st.loops.update(st.loops.len() - 1, ctx2), ..st }
    }
}

/// The instruction of a binary operator.
pub open spec fn binop_code(op: BinOp) -> OpV {
    match op {
        BinOp::Add => OpV::Add,
        BinOp::Sub => OpV::Sub,
        BinOp::Mul => OpV::Mul,
        BinOp::Div => OpV::Div,
        BinOp::Mod => OpV::Mod,
        BinOp::Eq => OpV::Eq,
        BinOp::NotEq => OpV::NotEq,
        BinOp::Lt => OpV::Lt,
        BinOp::Gt => OpV::Gt,
        BinOp::LtEq => OpV::LtEq,
        BinOp::GtEq => OpV::GtEq,
        BinOp::And => OpV::And,
        BinOp::Or => OpV::Or,
    }
}

/// The instruction of a unary operator.
pub open spec fn unop_code(op: UnOp) -> OpV {
    match op {
        UnOp::Neg => OpV::Neg,
        UnOp::Not => OpV::Not,
    }
}

/// The code of an expression, appended to `st`; `k` are the names of the
/// program's named functions. Every expression leaves one value on the
/// stack.
pub open spec fn cg_expr(k: Seq<Seq<char>>, st: CgState, e: ExprV) -> CgState
    decreases e, 0nat,
{
    match e {
        ExprV::Int(v) => push_const(st, ConstV::Int(v)),
        ExprV::Float(t) => push_const(st, ConstV::Float(t)),
        ExprV::Str(t) => push_const(st, ConstV::Str(t)),
        ExprV::Bool(b) => push_const(st, ConstV::Bool(b)),
        ExprV::Nil => push_const(st, ConstV::Nil),
        ExprV::Ident(n) => emit(st, OpV::LoadVar(n)),
        ExprV::Array(items) => emit(cg_exprs(k, st, items), OpV::MakeArray(items.len())),
        ExprV::Index(t, i) => emit(cg_expr(k, cg_expr(k, st, *t), *i), OpV::Index),
        ExprV::Unary(op, a) => emit(cg_expr(k, st, *a), unop_code(op)),
        ExprV::Binary(op, l, r) => emit(cg_expr(k, cg_expr(k, st, *l), *r), binop_code(op)),
        ExprV::Call(n, args) => if k.contains(n) || spec_is_builtin(n) {
            emit(cg_exprs(k, st, args), OpV::Call(n, args.len()))
        } else {
            emit(cg_exprs(k, emit(st, OpV::LoadVar(n)), args), OpV::CallValue(args.len()))
        },
        ExprV::CallExpr(c, args) => emit(cg_exprs(k, cg_expr(k, st, *c), args), OpV::CallValue(args.len())),
        ExprV::Lambda { params, body } => emit(
            st,
            OpV::MakeClosure { params, body: Box::new(body_chunk(k, body)) },
        ),
        ExprV::Assign(n, v) => emit(cg_expr(k, st, *v), OpV::StoreVar(n)),
        ExprV::IndexAssign(t, i, v) => emit(cg_expr(k, cg_expr(k, cg_expr(k, st, *t), *i), *v), OpV::IndexAssign),
        ExprV::StructLit { struct_name, fields } => emit(
            cg_fields(k, st, fields),
            OpV::MakeStruct { struct_name, fields: fields.map_values(|f: (Seq<char>, ExprV)| f.0) },
        ),
        ExprV::FieldAccess(o, f) => emit(cg_expr(k, st, *o), OpV::GetField(f)),
        ExprV::FieldAssign(o, f, v) => emit(cg_expr(k, cg_expr(k, st, *o), *v), OpV::SetField(f)),
        ExprV::MethodCall(o, m, args) => emit(
            cg_exprs(k, cg_expr(k, st, *o), args),
            OpV::CallMethod { method: m, argc: args.len() },
        ),
    }
}

/// The code of expressions, in order.
pub open spec fn cg_exprs(k: Seq<Seq<char>>, st: CgState, es: Seq<ExprV>) -> CgState
    decreases es, 0nat,
{
    if es.len() == 0 {
        st
    } else {
        cg_expr(k, cg_exprs(k, st, es.drop_last()), es.last())
    }
}

/// The code of the values of a struct literal's fields, in order.
pub open spec fn cg_fields(k: Seq<Seq<char>>, st: CgState, fs: Seq<(Seq<char>, ExprV)>) -> CgState
    decreases fs, 0nat,
{
    if fs.len() == 0 {
        st
    } else {
        cg_expr(k, cg_fields(k, st, fs.drop_last()), fs.last().1)
    }
}

/// The chunk of a function body: its statements, then `Return(false)` for
/// a body that ends without `RETURN`.
pub open spec fn body_chunk(k: Seq<Seq<char>>, body: Seq<StmtV>) -> ChunkV
    decreases body, 1nat,
{
    let s = cg_stmts(k, cg_empty(), body);
    ChunkV { code: s.code.push(OpV::Return(false)), consts: s.consts }
}

/// The code of statements, in order.
pub open spec fn cg_stmts(k: Seq<Seq<char>>, st: CgState, ss: Seq<StmtV>) -> CgState
    decreases ss, 0nat,
{
    if ss.len() == 0 {
        st
    } else {
        cg_stmt(k, cg_stmts(k, st, ss.drop_last()), ss.last())
    }
}

/// The code of a statement. Every statement leaves the stack as it found
/// it; `FN`, `IMPORT` and `STRUCT` produce no code here.
pub open spec fn cg_stmt(k: Seq<Seq<char>>, st: CgState, s: StmtV) -> CgState
    decreases s, 0nat,
{
    match s {
        StmtV::VarDecl { name, value, mutable, .. } => emit(cg_expr(k, st, value), OpV::DefineVar(name, mutable)),
        StmtV::ExprStmt(e) => emit(cg_expr(k, st, e), OpV::Pop),
        StmtV::Print(args) => emit(cg_exprs(k, st, args), OpV::Print(args.len())),
        StmtV::If { cond, then_branch, else_branch } => {
            let s1 = cg_expr(k, st, cond);
            let jif = s1.code.len() as usize;
            let s3 = emit(emit(s1, OpV::JumpIfFalse(0)), OpV::PushScope);
            let s5 = emit(cg_stmts(k, s3, then_branch), OpV::PopScope);
            match else_branch {
                Some(b) => {
                    let jend = s5.code.len() as usize;
                    let s6 = emit(s5, OpV::Jump(0));
                    let s7 = CgState { code: patch(s6.code, jif, s6.code.len() as usize), ..s6 };
                    let s10 = emit(cg_stmts(k, emit(s7, OpV::PushScope), b), OpV::PopScope);
                    CgState { code: patch(s10.code, jend, s10.code.len() as usize), ..s10 }
                },
                None => CgState { code: patch(s5.code, jif, s5.code.len() as usize), ..s5 },
            }
        },
        StmtV::While { cond, body } => {
            let loop_start = st.code.len() as usize;
            let s1 = cg_expr(k, st, cond);
            let jif = s1.code.len() as usize;
            let s4 = emit(open_loop(emit(s1, OpV::JumpIfFalse(0))), OpV::PushScope);
            let s7 = emit(emit(cg_stmts(k, s4, body), OpV::PopScope), OpV::Jump(loop_start));
            let end = s7.code.len() as usize;
            close_loop(CgState { code: patch(s7.code, jif, end), ..s7 }, end, loop_start)
        },
        StmtV::ForIn { var, start, end, body } => {
            let s2 = emit(cg_expr(k, st, start), OpV::DefineVar(var, true));
            let cond_start = s2.code.len() as usize;
            let s5 = emit(cg_expr(k, emit(s2, OpV::LoadVar(var)), end), OpV::Lt);
            let jif = s5.code.len() as usize;
            let s8 = open_loop(emit(emit(s5, OpV::JumpIfFalse(0)), OpV::PushScope));
            let s10 = emit(cg_stmts(k, s8, body), OpV::PopScope);
            let incr = s10.code.len() as usize;
            let s13 = push_const(emit(s10, OpV::LoadVar(var)), ConstV::Int(1));
            let s17 = emit(emit(emit(emit(s13, OpV::Add), OpV::StoreVar(var)), OpV::Pop), OpV::Jump(cond_start));
            let loop_end = s17.code.len() as usize;
            close_loop(CgState { code: patch(s17.code, jif, loop_end), ..s17 }, loop_end, incr)
        },
        StmtV::Return(e) => match e {
            Some(x) => emit(cg_expr(k, st, x), OpV::Return(true)),
            None => emit(st, OpV::Return(false)),
        },
        StmtV::Break => record_jump(emit(st, OpV::Jump(0)), st.code.len() as usize, true),
        StmtV::Continue => record_jump(emit(st, OpV::Jump(0)), st.code.len() as usize, false),
        StmtV::Block(b) => emit(cg_stmts(k, emit(st, OpV::PushScope), b), OpV::PopScope),
        StmtV::FnDecl { .. } | StmtV::Import(_) | StmtV::StructDecl { .. } => st,
    }
}

/// The code of the last statement of the main chunk: an expression
/// statement returns its value; any other statement compiles as usual.
pub open spec fn cg_tail(k: Seq<Seq<char>>, st: CgState, s: StmtV) -> CgState {
    match s {
        StmtV::ExprStmt(e) => emit(cg_expr(k, st, e), OpV::Return(true)),
        _ => cg_stmt(k, st, s),
    }
}

/// The names of the named functions of a program, in order.
pub open spec fn fn_names(p: Seq<StmtV>) -> Seq<Seq<char>>
    decreases p.len(),
{
    if p.len() == 0 {
        Seq::empty()
    } else {
        match p.last() {
            StmtV::FnDecl { name, .. } => fn_names(p.drop_last()).push(name),
            _ => fn_names(p.drop_last()),
        }
    }
}

/// The index of the last statement that is not a named function; `-1`
/// when there is none.
pub open spec fn last_main(p: Seq<StmtV>) -> int
    decreases p.len(),
{
    if p.len() == 0 {
        -1
    } else if !(p.last() is FnDecl) {
        p.len() - 1
    } else {
        last_main(p.drop_last())
    }
}

/// The compiled form of a named function.
pub open spec fn fn_def_of(k: Seq<Seq<char>>, params: Seq<ParamV>, body: Seq<StmtV>) -> FunctionDefV {
    FunctionDefV {
        params: params.map_values(|p: ParamV| p.name),
        param_mut: params.map_values(|p: ParamV| p.mutable),
        chunk: body_chunk(k, body),
    }
}

/// The last position of a function named `n`.
pub open spec fn fn_slot(fs: Seq<(Seq<char>, FunctionDefV)>, n: Seq<char>) -> Option<int>
    decreases fs.len(),
{
    if fs.len() == 0 {
        None
    } else if fs.last().0 == n {
        Some(fs.len() - 1)
    } else {
        fn_slot(fs.drop_last(), n)
    }
}

/// Registers a function; one of the same name is replaced in place.
pub open spec fn fn_insert(fs: Seq<(Seq<char>, FunctionDefV)>, n: Seq<char>, d: FunctionDefV) -> Seq<
    (Seq<char>, FunctionDefV),
> {
    match fn_slot(fs, n) {
        Some(i) => fs.update(i, (n, d)),
        None => fs.push((n, d)),
    }
}

/// The main chunk's state and the functions after the first `n` statements
/// of a program whose last main statement is at `last`.
pub open spec fn compile_prefix(k: Seq<Seq<char>>, p: Seq<StmtV>, n: nat, last: int) -> (
    CgState,
    Seq<(Seq<char>, FunctionDefV)>,
)
    decreases n,
{
    if n == 0 {
        (cg_empty(), Seq::empty())
    } else {
        let (st, fs) = compile_prefix(k, p, (n - 1) as nat, last);
        match p[n - 1] {
            StmtV::FnDecl { name, params, body, .. } => (st, fn_insert(fs, name, fn_def_of(k, params, body))),
            s => if n - 1 == last {
                (cg_tail(k, st, s), fs)
            } else {
                (cg_stmt(k, st, s), fs)
            },
        }
    }
}

/// The compiled program: named functions each in a chunk of their own, the
/// other statements in the main chunk, which ends with `Return(false)`.
pub open spec fn spec_compile(p: Seq<StmtV>) -> ProgramV {
    let (st, fs) = compile_prefix(fn_names(p), p, p.len(), last_main(p));
    ProgramV { main: ChunkV { code: st.code.push(OpV::Return(false)), consts: st.consts }, functions: fs }
}

// ------------------------------------------------------------------ stack discipline

/// The net number of values an instruction leaves on the stack of its
/// chunk when it falls through (`Return(true)` consumes the value it
/// returns).
pub open spec fn op_effect(op: OpV) -> int {
    match op {
        OpV::PushConst(_) | OpV::LoadVar(_) | OpV::MakeClosure { .. } => 1,
        OpV::StoreVar(_) | OpV::PushScope | OpV::PopScope | OpV::Neg | OpV::Not | OpV::Jump(_) | OpV::GetField(_) => 0,
        OpV::DefineVar(..) | OpV::Pop | OpV::JumpIfFalse(_) | OpV::Index | OpV::SetField(_) => -1,
        OpV::Add | OpV::Sub | OpV::Mul | OpV::Div | OpV::Mod | OpV::Eq | OpV::NotEq | OpV::Lt | OpV::Gt | OpV::LtEq
        | OpV::GtEq | OpV::And | OpV::Or => -1,
        OpV::IndexAssign => -2,
        OpV::Call(_, argc) => 1 - argc,
        OpV::CallValue(argc) => -argc,
        OpV::CallMethod { argc, .. } => -argc,
        OpV::Print(n) => -n,
        OpV::MakeArray(n) => 1 - n,
        OpV::MakeStruct { fields, .. } => 1 - fields.len(),
        OpV::Return(b) => if b { -1 } else { 0 },
    }
}

/// The net stack effect of a list of instructions.
pub open spec fn code_effect(code: Seq<OpV>) -> int
    decreases code.len(),
{
    if code.len() == 0 {
        0
    } else {
        code_effect(code.drop_last()) + op_effect(code.last())
    }
}

proof fn lemma_effect_push(code: Seq<OpV>, op: OpV)
    ensures
        code_effect(code.push(op)) == code_effect(code) + op_effect(op),
{
    assert(code.push(op).drop_last() =~= code);
}

proof fn lemma_effect_update(code: Seq<OpV>, i: int, op: OpV)
    requires
        0 <= i < code.len(),
        op_effect(op) == op_effect(code[i]),
    ensures
        code_effect(code.update(i, op)) == code_effect(code),
    decreases code.len(),
{
    if i == code.len() - 1 {
        assert(code.update(i, op).drop_last() =~= code.drop_last());
    } else {
        assert(code.update(i, op).drop_last() =~= code.drop_last().update(i, op));
        lemma_effect_update(code.drop_last(), i, op);
    }
}

proof fn lemma_effect_patch(code: Seq<OpV>, pos: usize, target: usize)
    ensures
        code_effect(patch(code, pos, target)) == code_effect(code),
{
    if pos < code.len() {
        match code[pos as int] {
            OpV::Jump(_) => lemma_effect_update(code, pos as int, OpV::Jump(target)),
            OpV::JumpIfFalse(_) => lemma_effect_update(code, pos as int, OpV::JumpIfFalse(target)),
            _ => {},
        }
    }
}

proof fn lemma_effect_patch_all(code: Seq<OpV>, ps: Seq<usize>, target: usize)
    ensures
        code_effect(patch_all(code, ps, target)) == code_effect(code),
    decreases ps.len(),
{
    if ps.len() > 0 {
        lemma_effect_patch_all(code, ps.drop_last(), target);
        lemma_effect_patch(patch_all(code, ps.drop_last(), target), ps.last(), target);
    }
}

/// Every expression compiles to code that leaves exactly one value on the
/// stack.
pub proof fn lemma_expr_leaves_one_value(k: Seq<Seq<char>>, st: CgState, e: ExprV)
    ensures
        code_effect(cg_expr(k, st, e).code) == code_effect(st.code) + 1,
    decreases e, 0nat,
{
    match e {
        ExprV::Int(_) | ExprV::Float(_) | ExprV::Str(_) | ExprV::Bool(_) | ExprV::Nil | ExprV::Ident(_)
        | ExprV::Lambda { .. } => {
            assert forall|c: Seq<OpV>, op: OpV| #[trigger] code_effect(c.push(op)) == code_effect(c) + op_effect(op) by {
                lemma_effect_push(c, op);
            }
        },
        ExprV::Array(items) => {
            lemma_exprs_leave_values(k, st, items);
            lemma_effect_push(cg_exprs(k, st, items).code, OpV::MakeArray(items.len()));
        },
        ExprV::Index(t, i) => {
            lemma_expr_leaves_one_value(k, st, *t);
            lemma_expr_leaves_one_value(k, cg_expr(k, st, *t), *i);
            lemma_effect_push(cg_expr(k, cg_expr(k, st, *t), *i).code, OpV::Index);
        },
        ExprV::Unary(op, a) => {
            lemma_expr_leaves_one_value(k, st, *a);
            lemma_effect_push(cg_expr(k, st, *a).code, unop_code(op));
        },
        ExprV::Binary(op, l, r) => {
            lemma_expr_leaves_one_value(k, st, *l);
            lemma_expr_leaves_one_value(k, cg_expr(k, st, *l), *r);
            lemma_effect_push(cg_expr(k, cg_expr(k, st, *l), *r).code, binop_code(op));
        },
        ExprV::Call(n, args) => {
            if k.contains(n) || crate::runtime::spec_is_builtin(n) {
                lemma_exprs_leave_values(k, st, args);
                lemma_effect_push(cg_exprs(k, st, args).code, OpV::Call(n, args.len()));
            } else {
                let s1 = emit(st, OpV::LoadVar(n));
                lemma_effect_push(st.code, OpV::LoadVar(n));
                lemma_exprs_leave_values(k, s1, args);
                lemma_effect_push(cg_exprs(k, s1, args).code, OpV::CallValue(args.len()));
            }
        },
        ExprV::CallExpr(c, args) => {
            lemma_expr_leaves_one_value(k, st, *c);
            lemma_exprs_leave_values(k, cg_expr(k, st, *c), args);
            lemma_effect_push(cg_exprs(k, cg_expr(k, st, *c), args).code, OpV::CallValue(args.len()));
        },
        ExprV::Assign(n, v) => {
            lemma_expr_leaves_one_value(k, st, *v);
            lemma_effect_push(cg_expr(k, st, *v).code, OpV::StoreVar(n));
        },
        ExprV::IndexAssign(t, i, v) => {
            let s1 = cg_expr(k, st, *t);
            let s2 = cg_expr(k, s1, *i);
            lemma_expr_leaves_one_value(k, st, *t);
            lemma_expr_leaves_one_value(k, s1, *i);
            lemma_expr_leaves_one_value(k, s2, *v);
            lemma_effect_push(cg_expr(k, s2, *v).code, OpV::IndexAssign);
        },
        ExprV::StructLit { struct_name, fields } => {
            lemma_fields_leave_values(k, st, fields);
            let op = OpV::MakeStruct { struct_name, fields: fields.map_values(|f: (Seq<char>, ExprV)| f.0) };
            lemma_effect_push(cg_fields(k, st, fields).code, op);
        },
        ExprV::FieldAccess(o, f) => {
            lemma_expr_leaves_one_value(k, st, *o);
            lemma_effect_push(cg_expr(k, st, *o).code, OpV::GetField(f));
        },
        ExprV::FieldAssign(o, f, v) => {
            lemma_expr_leaves_one_value(k, st, *o);
            lemma_expr_leaves_one_value(k, cg_expr(k, st, *o), *v);
            lemma_effect_push(cg_expr(k, cg_expr(k, st, *o), *v).code, OpV::SetField(f));
        },
        ExprV::MethodCall(o, m, args) => {
            lemma_expr_leaves_one_value(k, st, *o);
            lemma_exprs_leave_values(k, cg_expr(k, st, *o), args);
            lemma_effect_push(
                cg_exprs(k, cg_expr(k, st, *o), args).code,
                OpV::CallMethod { method: m, argc: args.len() },
            );
        },
    }
}

/// Expressions compile to code that leaves one value each.
pub proof fn lemma_exprs_leave_values(k: Seq<Seq<char>>, st: CgState, es: Seq<ExprV>)
    ensures
        code_effect(cg_exprs(k, st, es).code) == code_effect(st.code) + es.len(),
    decreases es, 0nat,
{
    if es.len() > 0 {
        lemma_exprs_leave_values(k, st, es.drop_last());
        lemma_expr_leaves_one_value(k, cg_exprs(k, st, es.drop_last()), es.last());
    }
}

/// The values of a struct literal compile to code that leaves one value per
/// field.
pub proof fn lemma_fields_leave_values(k: Seq<Seq<char>>, st: CgState, fs: Seq<(Seq<char>, ExprV)>)
    ensures
        code_effect(cg_fields(k, st, fs).code) == code_effect(st.code) + fs.len(),
    decreases fs, 0nat,
{
    if fs.len() > 0 {
        lemma_fields_leave_values(k, st, fs.drop_last());
        lemma_expr_leaves_one_value(k, cg_fields(k, st, fs.drop_last()), fs.last().1);
    }
}

/// Statements compile to code that leaves the stack as it found it.
pub proof fn lemma_stmts_keep_stack(k: Seq<Seq<char>>, st: CgState, ss: Seq<StmtV>)
    ensures
        code_effect(cg_stmts(k, st, ss).code) == code_effect(st.code),
    decreases ss, 0nat,
{
    if ss.len() > 0 {
        lemma_stmts_keep_stack(k, st, ss.drop_last());
        lemma_stmt_keeps_stack(k, cg_stmts(k, st, ss.drop_last()), ss.last());
    }
}

/// Every statement compiles to code that leaves the stack as it found it.
pub proof fn lemma_stmt_keeps_stack(k: Seq<Seq<char>>, st: CgState, s: StmtV)
    ensures
        code_effect(cg_stmt(k, st, s).code) == code_effect(st.code),
    decreases s, 0nat,
{
    assert forall|c: Seq<OpV>, op: OpV| #[trigger] code_effect(c.push(op)) == code_effect(c) + op_effect(op) by {
        lemma_effect_push(c, op);
    }
    assert forall|c: Seq<OpV>, p: usize, t: usize| #[trigger] code_effect(patch(c, p, t)) == code_effect(c) by {
        lemma_effect_patch(c, p, t);
    }
    assert forall|c: Seq<OpV>, ps: Seq<usize>, t: usize| #[trigger] code_effect(patch_all(c, ps, t)) == code_effect(c) by {
        lemma_effect_patch_all(c, ps, t);
    }
    match s {
        StmtV::VarDecl { value, .. } => {
            lemma_expr_leaves_one_value(k, st, value);
        },
        StmtV::ExprStmt(e) => {
            lemma_expr_leaves_one_value(k, st, e);
        },
        StmtV::Print(args) => {
            lemma_exprs_leave_values(k, st, args);
        },
        StmtV::If { cond, then_branch, else_branch } => {
            let s1 = cg_expr(k, st, cond);
            lemma_expr_leaves_one_value(k, st, cond);
            let s3 = emit(emit(s1, OpV::JumpIfFalse(0)), OpV::PushScope);
            lemma_stmts_keep_stack(k, s3, then_branch);
            let s5 = emit(cg_stmts(k, s3, then_branch), OpV::PopScope);
            match else_branch {
                Some(b) => {
                    let s6 = emit(s5, OpV::Jump(0));
                    let s7 = CgState { code: patch(s6.code, s1.code.len() as usize, s6.code.len() as usize), ..s6 };
                    lemma_stmts_keep_stack(k, emit(s7, OpV::PushScope), b);
                },
                None => {},
            }
        },
        StmtV::While { cond, body } => {
            let s1 = cg_expr(k, st, cond);
            lemma_expr_leaves_one_value(k, st, cond);
            let s4 = emit(open_loop(emit(s1, OpV::JumpIfFalse(0))), OpV::PushScope);
            lemma_stmts_keep_stack(k, s4, body);
        },
        StmtV::ForIn { var, start, end, body } => {
            lemma_expr_leaves_one_value(k, st, start);
            let s2 = emit(cg_expr(k, st, start), OpV::DefineVar(var, true));
            lemma_expr_leaves_one_value(k, emit(s2, OpV::LoadVar(var)), end);
            let s5 = emit(cg_expr(k, emit(s2, OpV::LoadVar(var)), end), OpV::Lt);
            let s8 = open_loop(emit(emit(s5, OpV::JumpIfFalse(0)), OpV::PushScope));
            lemma_stmts_keep_stack(k, s8, body);
        },
        StmtV::Return(e) => {
            match e {
                Some(x) => lemma_expr_leaves_one_value(k, st, x),
                None => {},
            }
        },
        StmtV::Block(b) => {
            lemma_stmts_keep_stack(k, emit(st, OpV::PushScope), b);
        },
        _ => {},
    }
}

/// The chunk of a function body leaves its stack as it found it.
pub proof fn lemma_body_keeps_stack(k: Seq<Seq<char>>, body: Seq<StmtV>)
    ensures
        code_effect(body_chunk(k, body).code) == 0,
{
    lemma_stmts_keep_stack(k, cg_empty(), body);
    lemma_effect_push(cg_stmts(k, cg_empty(), body).code, OpV::Return(false));
}

// ------------------------------------------------------------------ validity

/// The code so far is valid in its own chunk, and every recorded
/// placeholder lies inside it.
pub open spec fn cg_ok(st: CgState) -> bool {
    &&& ops_ok(st.code, st.consts.len(), st.code.len())
    &&& forall|i: int, j: int|
        0 <= i < st.loops.len() && 0 <= j < st.loops[i].0.len() ==> #[trigger] st.loops[i].0[j] < st.code.len()
    &&& forall|i: int, j: int|
        0 <= i < st.loops.len() && 0 <= j < st.loops[i].1.len() ==> #[trigger] st.loops[i].1[j] < st.code.len()
}

/// Patching a jump to a target inside the chunk keeps the code valid.
pub proof fn lemma_patch_ok(code: Seq<OpV>, pos: usize, target: usize, n: nat, l: nat)
    requires
        ops_ok(code, n, l),
        target <= l,
    ensures
        ops_ok(patch(code, pos, target), n, l),
        patch(code, pos, target).len() == code.len(),
{
    if pos < code.len() {
        match code[pos as int] {
            OpV::Jump(_) => crate::runtime::lemma_ops_ok_update(code, pos as int, OpV::Jump(target), n, l),
            OpV::JumpIfFalse(_) => crate::runtime::lemma_ops_ok_update(
                code,
                pos as int,
                OpV::JumpIfFalse(target),
                n,
                l,
            ),
            _ => {},
        }
    }
}

/// Patching several jumps to a target inside the chunk keeps the code valid.
pub proof fn lemma_patch_all_ok(code: Seq<OpV>, ps: Seq<usize>, target: usize, n: nat, l: nat)
    requires
        ops_ok(code, n, l),
        target <= l,
    ensures
        ops_ok(patch_all(code, ps, target), n, l),
        patch_all(code, ps, target).len() == code.len(),
    decreases ps.len(),
{
    if ps.len() > 0 {
        lemma_patch_all_ok(code, ps.drop_last(), target, n, l);
        lemma_patch_ok(patch_all(code, ps.drop_last(), target), ps.last(), target, n, l);
    }
}


// ------------------------------------------------------------------ compiler

/// The view of the loop contexts.
pub open spec fn loops_view(ls: Seq<(Vec<usize>, Vec<usize>)>) -> Seq<(Seq<usize>, Seq<usize>)> {
    ls.map_values(|c: (Vec<usize>, Vec<usize>)| (c.0@, c.1@))
}

/// The view of a list of compiled functions.
pub open spec fn fns_view(fs: Seq<(String, FunctionDef)>) -> Seq<(Seq<char>, FunctionDefV)> {
    fs.map_values(|f: (String, FunctionDef)| (f.0@, fn_def_view(f.1)))
}

/// Whether a list of names holds `n`.
fn contains_name(k: &Vec<String>, n: &String) -> (r: bool)
    ensures
        r == names_view(k@).contains(n@),
{
    let mut i: usize = 0;
    while i < k.len()
        invariant
            i <= k.len(),
            forall|j: int| 0 <= j < i ==> names_view(k@)[j] != n@,
        decreases k.len() - i,
    {
        if crate::semantic::str_eq(&k[i], n) {
            assert(names_view(k@)[i as int] == n@);
            return true;
        }
        i = i + 1;
    }
    false
}

/// A copy of a list of names.
fn copy_names(v: &Vec<String>) -> (r: Vec<String>)
    ensures
        names_view(r@) == names_view(v@),
{
    let mut r: Vec<String> = Vec::new();
    let mut i: usize = 0;
    while i < v.len()
        invariant
            i <= v.len(),
            r@ == v@.take(i as int),
        decreases v.len() - i,
    {
        r.push(v[i].clone());
        assert(r@ =~= v@.take(i + 1));
        i = i + 1;
    }
    assert(v@.take(v.len() as int) =~= v@);
    r
}

/// The names of the fields of a struct literal.
fn field_names(fs: &Vec<(String, Expr)>) -> (r: Vec<String>)
    ensures
        names_view(r@) == fields_view(fs@).map_values(|f: (Seq<char>, ExprV)| f.0),
{
    proof { crate::ast::lemma_fields_view_index(fs@); }
    let mut r: Vec<String> = Vec::new();
    let mut i: usize = 0;
    while i < fs.len()
        invariant
            i <= fs.len(),
            fields_view(fs@).len() == fs.len(),
            forall|j: int| 0 <= j < fs.len() ==> #[trigger] fields_view(fs@)[j] == (fs@[j].0@, expr_view(fs@[j].1)),
            r.len() == i,
            forall|j: int| 0 <= j < i ==> #[trigger] r@[j] == fs@[j].0,
        decreases fs.len() - i,
    {
        r.push(fs[i].0.clone());
        i = i + 1;
    }
    assert(names_view(r@) =~= fields_view(fs@).map_values(|f: (Seq<char>, ExprV)| f.0));
    r
}

/// The names of a list of parameters.
fn param_names(ps: &Vec<Param>) -> (r: Vec<String>)
    ensures
        names_view(r@) == params_view(ps@).map_values(|p: ParamV| p.name),
{
    let mut r: Vec<String> = Vec::new();
    let mut i: usize = 0;
    while i < ps.len()
        invariant
            i <= ps.len(),
            r.len() == i,
            forall|j: int| 0 <= j < i ==> #[trigger] r@[j] == ps@[j].name,
        decreases ps.len() - i,
    {
        r.push(ps[i].name.clone());
        i = i + 1;
    }
    assert(names_view(r@) =~= params_view(ps@).map_values(|p: ParamV| p.name));
    r
}

/// The `MUT` flags of a list of parameters.
fn param_flags(ps: &Vec<Param>) -> (r: Vec<bool>)
    ensures
        r@ == params_view(ps@).map_values(|p: ParamV| p.mutable),
{
    let mut r: Vec<bool> = Vec::new();
    let mut i: usize = 0;
    while i < ps.len()
        invariant
            i <= ps.len(),
            r@ == params_view(ps@).take(i as int).map_values(|p: ParamV| p.mutable),
        decreases ps.len() - i,
    {
        r.push(ps[i].mutable);
        assert(r@ =~= params_view(ps@).take(i + 1).map_values(|p: ParamV| p.mutable));
        i = i + 1;
    }
    assert(params_view(ps@).take(ps.len() as int) =~= params_view(ps@));
    r
}

/// The code generator of one chunk: the chunk so far and, for each
/// enclosing loop, the positions of its `BREAK` and `CONTINUE` jumps still
/// to be patched.
pub struct Compiler {
    chunk: Chunk,
    loop_stack: Vec<(Vec<usize>, Vec<usize>)>,
}

impl View for Compiler {
    type V = CgState;

    closed spec fn view(&self) -> CgState {
        CgState {
            code: ops_view(self.chunk.code@),
            consts: consts_view(self.chunk.constants@),
            loops: loops_view(self.loop_stack@),
        }
    }
}

impl Compiler {
    /// The code is valid and the view has the chunk's length.
    pub closed spec fn wf(&self) -> bool {
        &&& cg_ok(self@)
        &&& self@.code.len() == self.chunk.code.len()
    }

    fn fresh() -> (r: Self)
        ensures
            r.wf(),
            r@ == cg_empty(),
    {
        let r = Compiler { chunk: Chunk { code: Vec::new(), constants: Vec::new() }, loop_stack: Vec::new() };
        assert(r@.code =~= Seq::<OpV>::empty());
        assert(r@.consts =~= Seq::<ConstV>::empty());
        assert(r@.loops =~= Seq::<(Seq<usize>, Seq<usize>)>::empty());
        r
    }

    fn emit(&mut self, op: OpCode) -> (r: usize)
        requires
            old(self).wf(),
            op_ok(op_view(op), old(self)@.consts.len(), old(self)@.code.len() + 1),
        ensures
            final(self).wf(),
            final(self)@ == emit(old(self)@, op_view(op)),
            r == old(self)@.code.len(),
    {
        let ghost before = self@;
        let ghost g = op;
        let r = self.chunk.code.len();
        proof {
            crate::runtime::lemma_ops_view_push(self.chunk.code@, g);
            crate::runtime::lemma_ops_ok_grow(
                before.code,
                before.consts.len(),
                before.code.len(),
                before.consts.len(),
                before.code.len() + 1,
            );
            crate::runtime::lemma_ops_ok_push(before.code, op_view(g), before.consts.len(), before.code.len() + 1);
        }
        self.chunk.code.push(op);
        assert(self@.code == before.code.push(op_view(g)));
        assert(self@.loops == before.loops);
        assert(self@.consts == before.consts);
        r
    }

    fn push_const(&mut self, c: Constant)
        requires
            old(self).wf(),
        ensures
            final(self).wf(),
            final(self)@ == push_const(old(self)@, const_view(c)),
    {
        let ghost before = self@;
        let ghost g = c;
        let idx = self.chunk.constants.len();
        self.chunk.constants.push(c);
        assert(self@.consts =~= before.consts.push(const_view(g)));
        assert(self@.loops == before.loops);
        assert(self@.code == before.code);
        proof {
            crate::runtime::lemma_ops_ok_grow(
                before.code,
                before.consts.len(),
                before.code.len(),
                before.consts.len() + 1,
                before.code.len(),
            );
        }
        self.emit(OpCode::PushConst(idx));
    }

    fn patch_jump(&mut self, pos: usize, target: usize)
        requires
            old(self).wf(),
            pos < old(self)@.code.len(),
            target <= old(self)@.code.len(),
        ensures
            final(self).wf(),
            final(self)@ == (CgState { code: patch(old(self)@.code, pos, target), ..old(self)@ }),
    {
        let ghost before = self@;
        proof {
            lemma_patch_ok(before.code, pos, target, before.consts.len(), before.code.len());
            crate::runtime::lemma_ops_view_index(self.chunk.code@);
        }
        let new_op = match &self.chunk.code[pos] {
            OpCode::Jump(_) => Some(OpCode::Jump(target)),
            OpCode::JumpIfFalse(_) => Some(OpCode::JumpIfFalse(target)),
            _ => None,
        };
        match new_op {
            Some(op) => {
                let ghost g = op;
                proof { crate::runtime::lemma_ops_view_update(self.chunk.code@, pos as int, g); }
                self.chunk.code.set(pos, op);
            },
            None => {},
        }
    }

    fn patch_list(&mut self, ps: &Vec<usize>, target: usize)
        requires
            old(self).wf(),
            forall|j: int| 0 <= j < ps.len() ==> ps@[j] < old(self)@.code.len(),
            target <= old(self)@.code.len(),
        ensures
            final(self).wf(),
            final(self)@ == (CgState { code: patch_all(old(self)@.code, ps@, target), ..old(self)@ }),
            final(self)@.code.len() == old(self)@.code.len(),
    {
        let mut i: usize = 0;
        assert(ps@.take(0) =~= Seq::<usize>::empty());
        while i < ps.len()
            invariant
                i <= ps.len(),
                self.wf(),
                forall|j: int| 0 <= j < ps.len() ==> ps@[j] < old(self)@.code.len(),
                target <= old(self)@.code.len(),
                cg_ok(old(self)@),
                self@ == (CgState { code: patch_all(old(self)@.code, ps@.take(i as int), target), ..old(self)@ }),
            decreases ps.len() - i,
        {
            proof {
                lemma_patch_all_ok(
                    old(self)@.code,
                    ps@.take(i as int),
                    target,
                    old(self)@.consts.len(),
                    old(self)@.code.len(),
                );
            }
            assert(ps@.take(i + 1).drop_last() =~= ps@.take(i as int));
            self.patch_jump(ps[i], target);
            i = i + 1;
        }
        assert(ps@.take(ps.len() as int) =~= ps@);
        proof {
            lemma_patch_all_ok(old(self)@.code, ps@, target, old(self)@.consts.len(), old(self)@.code.len());
        }
    }

    fn open_loop(&mut self)
        requires
            old(self).wf(),
        ensures
            final(self).wf(),
            final(self)@ == open_loop(old(self)@),
    {
        let ghost before = self@;
        self.loop_stack.push((Vec::new(), Vec::new()));
        assert(self@.loops =~~= before.loops.push((Seq::<usize>::empty(), Seq::<usize>::empty())));
    }

    fn close_loop(&mut self, brk: usize, cont: usize)
        requires
            old(self).wf(),
            old(self)@.loops.len() > 0,
            brk <= old(self)@.code.len(),
            cont <= old(self)@.code.len(),
        ensures
            final(self).wf(),
            final(self)@ == close_loop(old(self)@, brk, cont),
            final(self)@.code.len() == old(self)@.code.len(),
    {
        let ghost before = self@;
        let ctx = self.loop_stack.pop().unwrap();
        assert(self@.loops =~~= before.loops.drop_last());
        assert(ctx.0@ == before.loops.last().0);
        assert(ctx.1@ == before.loops.last().1);
        assert(forall|j: int| 0 <= j < ctx.0.len() ==> ctx.0@[j] < before.code.len()) by {
            assert forall|j: int| 0 <= j < ctx.0.len() implies ctx.0@[j] < before.code.len() by {
                assert(before.loops[before.loops.len() - 1].0[j] < before.code.len());
            }
        }
        assert(forall|j: int| 0 <= j < ctx.1.len() ==> ctx.1@[j] < before.code.len()) by {
            assert forall|j: int| 0 <= j < ctx.1.len() implies ctx.1@[j] < before.code.len() by {
                assert(before.loops[before.loops.len() - 1].1[j] < before.code.len());
            }
        }
        self.patch_list(&ctx.0, brk);
        self.patch_list(&ctx.1, cont);
    }

    fn record(&mut self, pos: usize, is_break: bool)
        requires
            old(self).wf(),
            pos < old(self)@.code.len(),
        ensures
            final(self).wf(),
            final(self)@ == record_jump(old(self)@, pos, is_break),
    {
        let ghost before = self@;
        if self.loop_stack.len() > 0 {
            let mut ctx = self.loop_stack.pop().unwrap();
            assert(ctx.0@ == before.loops.last().0);
            assert(ctx.1@ == before.loops.last().1);
            if is_break {
                ctx.0.push(pos);
            } else {
                ctx.1.push(pos);
            }
            self.loop_stack.push(ctx);
            let ghost ctx2 = if is_break {
                (before.loops.last().0.push(pos), before.loops.last().1)
            } else {
                (before.loops.last().0, before.loops.last().1.push(pos))
            };
            assert(self@.loops =~~= before.loops.update(before.loops.len() - 1, ctx2));
        }
    }
}


fn binop_op(op: BinOp) -> (r: OpCode)
    ensures
        op_view(r) == binop_code(op),
{
    match op {
        BinOp::Add => OpCode::Add,
        BinOp::Sub => OpCode::Sub,
        BinOp::Mul => OpCode::Mul,
        BinOp::Div => OpCode::Div,
        BinOp::Mod => OpCode::Mod,
        BinOp::Eq => OpCode::Eq,
        BinOp::NotEq => OpCode::NotEq,
        BinOp::Lt => OpCode::Lt,
        BinOp::Gt => OpCode::Gt,
        BinOp::LtEq => OpCode::LtEq,
        BinOp::GtEq => OpCode::GtEq,
        BinOp::And => OpCode::And,
        BinOp::Or => OpCode::Or,
    }
}

/// Compiles a function body into a chunk of its own, ending with
/// `Return(false)`.
fn compile_body(k: &Vec<String>, body: &Vec<Stmt>) -> (r: Chunk)
    ensures
        chunk_view(r) == body_chunk(names_view(k@), stmts_view(body@)),
        chunk_ok(chunk_view(r)),
    decreases body, 1nat,
{
    let mut c = Compiler::fresh();
    c.compile_stmts(k, body);
    c.emit(OpCode::Return(false));
    c.chunk
}

impl Compiler {
    fn compile_expr(&mut self, k: &Vec<String>, e: &Expr)
        requires
            old(self).wf(),
        ensures
            final(self).wf(),
            final(self)@ == cg_expr(names_view(k@), old(self)@, expr_view(*e)),
            final(self)@.code.len() >= old(self)@.code.len(),
            final(self)@.loops == old(self)@.loops,
        decreases e, 2nat,
    {
        match e {
            Expr::Int(v) => self.push_const(Constant::Int(*v)),
            Expr::Float(t) => self.push_const(Constant::Float(t.clone())),
            Expr::Str(t) => self.push_const(Constant::Str(t.clone())),
            Expr::Bool(b) => self.push_const(Constant::Bool(*b)),
            Expr::Nil => self.push_const(Constant::Nil),
            Expr::Ident(n) => {
                self.emit(OpCode::LoadVar(n.clone()));
            },
            Expr::Array(items) => {
                proof { crate::ast::lemma_exprs_view_index(items@); }
                self.compile_exprs(k, items);
                self.emit(OpCode::MakeArray(items.len()));
            },
            Expr::StructLit { struct_name, fields } => {
                self.compile_fields(k, fields);
                let names = field_names(fields);
                self.emit(OpCode::MakeStruct { struct_name: struct_name.clone(), fields: names });
            },
            Expr::Lambda { params, body } => {
                let chunk = compile_body(k, body);
                let ps = copy_names(params);
                self.emit(OpCode::MakeClosure { params: ps, body: Box::new(chunk) });
            },
            Expr::Index(..) | Expr::Unary(..) | Expr::Binary(..) | Expr::Assign(..) | Expr::IndexAssign(..)
            | Expr::FieldAccess(..) | Expr::FieldAssign(..) => self.compile_operation(k, e),
            Expr::Call(..) | Expr::CallExpr(..) | Expr::MethodCall(..) => self.compile_call(k, e),
        }
    }

    /// The code of an operation, an assignment or a field access.
    fn compile_operation(&mut self, k: &Vec<String>, e: &Expr)
        requires
            old(self).wf(),
            e is Index || e is Unary || e is Binary || e is Assign || e is IndexAssign || e is FieldAccess
                || e is FieldAssign,
        ensures
            final(self).wf(),
            final(self)@ == cg_expr(names_view(k@), old(self)@, expr_view(*e)),
            final(self)@.code.len() >= old(self)@.code.len(),
            final(self)@.loops == old(self)@.loops,
        decreases e, 1nat,
    {
        match e {
            Expr::Index(t, i) => {
                self.compile_expr(k, t);
                self.compile_expr(k, i);
                self.emit(OpCode::Index);
            },
            Expr::Unary(op, a) => {
                self.compile_expr(k, a);
                let o = match op {
                    UnOp::Neg => OpCode::Neg,
                    UnOp::Not => OpCode::Not,
                };
                self.emit(o);
            },
            Expr::Binary(op, l, r) => {
                self.compile_expr(k, l);
                self.compile_expr(k, r);
                self.emit(binop_op(*op));
            },
            Expr::Assign(n, v) => {
                self.compile_expr(k, v);
                self.emit(OpCode::StoreVar(n.clone()));
            },
            Expr::IndexAssign(t, i, v) => {
                self.compile_expr(k, t);
                self.compile_expr(k, i);
                self.compile_expr(k, v);
                self.emit(OpCode::IndexAssign);
            },
            Expr::FieldAccess(o, f) => {
                self.compile_expr(k, o);
                self.emit(OpCode::GetField(f.clone()));
            },
            Expr::FieldAssign(o, f, v) => {
                self.compile_expr(k, o);
                self.compile_expr(k, v);
                self.emit(OpCode::SetField(f.clone()));
            },
            _ => {},
        }
    }

    /// The code of a call: a named function or builtin is called by name,
    /// anything else as a value.
    fn compile_call(&mut self, k: &Vec<String>, e: &Expr)
        requires
            old(self).wf(),
            e is Call || e is CallExpr || e is MethodCall,
        ensures
            final(self).wf(),
            final(self)@ == cg_expr(names_view(k@), old(self)@, expr_view(*e)),
            final(self)@.code.len() >= old(self)@.code.len(),
            final(self)@.loops == old(self)@.loops,
        decreases e, 1nat,
    {
        match e {
            Expr::Call(n, args) => {
                proof { crate::ast::lemma_exprs_view_index(args@); }
                if contains_name(k, n) || is_builtin(n.as_str()) {
                    self.compile_exprs(k, args);
                    self.emit(OpCode::Call(n.clone(), args.len()));
                } else {
                    self.emit(OpCode::LoadVar(n.clone()));
                    self.compile_exprs(k, args);
                    self.emit(OpCode::CallValue(args.len()));
                }
            },
            Expr::CallExpr(c, args) => {
                proof { crate::ast::lemma_exprs_view_index(args@); }
                self.compile_expr(k, c);
                self.compile_exprs(k, args);
                self.emit(OpCode::CallValue(args.len()));
            },
            Expr::MethodCall(o, m, args) => {
                proof { crate::ast::lemma_exprs_view_index(args@); }
                self.compile_expr(k, o);
                self.compile_exprs(k, args);
                self.emit(OpCode::CallMethod { method: m.clone(), argc: args.len() });
            },
            _ => {},
        }
    }

    fn compile_exprs(&mut self, k: &Vec<String>, es: &Vec<Expr>)
        requires
            old(self).wf(),
        ensures
            final(self).wf(),
            final(self)@ == cg_exprs(names_view(k@), old(self)@, exprs_view(es@)),
            final(self)@.code.len() >= old(self)@.code.len(),
            final(self)@.loops == old(self)@.loops,
        decreases es, 0nat,
    {
        let ghost v = exprs_view(es@);
        proof { crate::ast::lemma_exprs_view_index(es@); }
        let mut i: usize = 0;
        assert(v.take(0) =~= Seq::<ExprV>::empty());
        while i < es.len()
            invariant
                i <= es.len(),
                v == exprs_view(es@),
                v.len() == es.len(),
                forall|j: int| 0 <= j < es.len() ==> #[trigger] v[j] == expr_view(es@[j]),
                self.wf(),
                self@ == cg_exprs(names_view(k@), old(self)@, v.take(i as int)),
                self@.code.len() >= old(self)@.code.len(),
                self@.loops == old(self)@.loops,
            decreases es.len() - i,
        {
            assert(v.take(i + 1).drop_last() =~= v.take(i as int));
            assert(v.take(i + 1).last() == expr_view(es@[i as int]));
            self.compile_expr(k, &es[i]);
            i = i + 1;
        }
        assert(v.take(es.len() as int) =~= v);
    }

    fn compile_fields(&mut self, k: &Vec<String>, fs: &Vec<(String, Expr)>)
        requires
            old(self).wf(),
        ensures
            final(self).wf(),
            final(self)@ == cg_fields(names_view(k@), old(self)@, fields_view(fs@)),
            final(self)@.code.len() >= old(self)@.code.len(),
            final(self)@.loops == old(self)@.loops,
        decreases fs, 0nat,
    {
        let ghost v = fields_view(fs@);
        proof { crate::ast::lemma_fields_view_index(fs@); }
        let mut i: usize = 0;
        assert(v.take(0) =~= Seq::<(Seq<char>, ExprV)>::empty());
        while i < fs.len()
            invariant
                i <= fs.len(),
                v == fields_view(fs@),
                v.len() == fs.len(),
                forall|j: int| 0 <= j < fs.len() ==> #[trigger] v[j] == (fs@[j].0@, expr_view(fs@[j].1)),
                self.wf(),
                self@ == cg_fields(names_view(k@), old(self)@, v.take(i as int)),
                self@.code.len() >= old(self)@.code.len(),
                self@.loops == old(self)@.loops,
            decreases fs.len() - i,
        {
            assert(v.take(i + 1).drop_last() =~= v.take(i as int));
            assert(v.take(i + 1).last().1 == expr_view(fs@[i as int].1));
            self.compile_expr(k, &fs[i].1);
            i = i + 1;
        }
        assert(v.take(fs.len() as int) =~= v);
    }
}


impl Compiler {
    fn compile_stmts(&mut self, k: &Vec<String>, ss: &Vec<Stmt>)
        requires
            old(self).wf(),
        ensures
            final(self).wf(),
            final(self)@ == cg_stmts(names_view(k@), old(self)@, stmts_view(ss@)),
            final(self)@.code.len() >= old(self)@.code.len(),
            final(self)@.loops.len() == old(self)@.loops.len(),
        decreases ss, 0nat,
    {
        let ghost v = stmts_view(ss@);
        proof { crate::ast::lemma_stmts_view_index(ss@); }
        let mut i: usize = 0;
        assert(v.take(0) =~= Seq::<StmtV>::empty());
        while i < ss.len()
            invariant
                i <= ss.len(),
                v == stmts_view(ss@),
                v.len() == ss.len(),
                forall|j: int| 0 <= j < ss.len() ==> #[trigger] v[j] == stmt_view(ss@[j]),
                self.wf(),
                self@ == cg_stmts(names_view(k@), old(self)@, v.take(i as int)),
                self@.code.len() >= old(self)@.code.len(),
                self@.loops.len() == old(self)@.loops.len(),
            decreases ss.len() - i,
        {
            assert(v.take(i + 1).drop_last() =~= v.take(i as int));
            assert(v.take(i + 1).last() == stmt_view(ss@[i as int]));
            self.compile_stmt(k, &ss[i]);
            i = i + 1;
        }
        assert(v.take(ss.len() as int) =~= v);
    }

    fn compile_stmt(&mut self, k: &Vec<String>, s: &Stmt)
        requires
            old(self).wf(),
        ensures
            final(self).wf(),
            final(self)@ == cg_stmt(names_view(k@), old(self)@, stmt_view(*s)),
            final(self)@.code.len() >= old(self)@.code.len(),
            final(self)@.loops.len() == old(self)@.loops.len(),
        decreases s, 2nat,
    {
        match s {
            Stmt::VarDecl { name, value, mutable, .. } => {
                self.compile_expr(k, value);
                self.emit(OpCode::DefineVar(name.clone(), *mutable));
            },
            Stmt::ExprStmt(e) => {
                self.compile_expr(k, e);
                self.emit(OpCode::Pop);
            },
            Stmt::Print(args) => {
                proof { crate::ast::lemma_exprs_view_index(args@); }
                self.compile_exprs(k, args);
                self.emit(OpCode::Print(args.len()));
            },
            Stmt::If { .. } => self.compile_if(k, s),
            Stmt::While { .. } => self.compile_while(k, s),
            Stmt::ForIn { .. } => self.compile_for(k, s),
            Stmt::Return(e) => {
                match e {
                    Some(x) => {
                        self.compile_expr(k, x);
                        self.emit(OpCode::Return(true));
                    },
                    None => {
                        self.emit(OpCode::Return(false));
                    },
                }
            },
            Stmt::Break => {
                let pos = self.emit(OpCode::Jump(0));
                self.record(pos, true);
            },
            Stmt::Continue => {
                let pos = self.emit(OpCode::Jump(0));
                self.record(pos, false);
            },
            Stmt::Block(b) => {
                self.emit(OpCode::PushScope);
                self.compile_stmts(k, b);
                self.emit(OpCode::PopScope);
            },
            Stmt::FnDecl { .. } | Stmt::Import(_) | Stmt::StructDecl { .. } => {},
        }
    }

    fn compile_if(&mut self, k: &Vec<String>, s: &Stmt)
        requires
            old(self).wf(),
            s is If,
        ensures
            final(self).wf(),
            final(self)@ == cg_stmt(names_view(k@), old(self)@, stmt_view(*s)),
            final(self)@.code.len() >= old(self)@.code.len(),
            final(self)@.loops.len() == old(self)@.loops.len(),
        decreases s, 1nat,
    {
        match s {
            Stmt::If { cond, then_branch, else_branch } => {
                self.compile_expr(k, cond);
                let jif = self.emit(OpCode::JumpIfFalse(0));
                self.emit(OpCode::PushScope);
                self.compile_stmts(k, then_branch);
                self.emit(OpCode::PopScope);
                match else_branch {
                    Some(b) => {
                        let jend = self.emit(OpCode::Jump(0));
                        let else_start = self.chunk.code.len();
                        self.patch_jump(jif, else_start);
                        self.emit(OpCode::PushScope);
                        self.compile_stmts(k, b);
                        self.emit(OpCode::PopScope);
                        let end = self.chunk.code.len();
                        self.patch_jump(jend, end);
                    },
                    None => {
                        let end = self.chunk.code.len();
                        self.patch_jump(jif, end);
                    },
                }
            },
            _ => {},
        }
    }

    fn compile_while(&mut self, k: &Vec<String>, s: &Stmt)
        requires
            old(self).wf(),
            s is While,
        ensures
            final(self).wf(),
            final(self)@ == cg_stmt(names_view(k@), old(self)@, stmt_view(*s)),
            final(self)@.code.len() >= old(self)@.code.len(),
            final(self)@.loops.len() == old(self)@.loops.len(),
        decreases s, 1nat,
    {
        match s {
            Stmt::While { cond, body } => {
                let loop_start = self.chunk.code.len();
                self.compile_expr(k, cond);
                let jif = self.emit(OpCode::JumpIfFalse(0));
                self.open_loop();
                self.emit(OpCode::PushScope);
                self.compile_stmts(k, body);
                self.emit(OpCode::PopScope);
                self.emit(OpCode::Jump(loop_start));
                let end = self.chunk.code.len();
                self.patch_jump(jif, end);
                self.close_loop(end, loop_start);
            },
            _ => {},
        }
    }

    fn compile_for(&mut self, k: &Vec<String>, s: &Stmt)
        requires
            old(self).wf(),
            s is ForIn,
        ensures
            final(self).wf(),
            final(self)@ == cg_stmt(names_view(k@), old(self)@, stmt_view(*s)),
            final(self)@.code.len() >= old(self)@.code.len(),
            final(self)@.loops.len() == old(self)@.loops.len(),
        decreases s, 1nat,
    {
        match s {
            Stmt::ForIn { var, start, end, body } => {
                self.compile_expr(k, start);
                self.emit(OpCode::DefineVar(var.clone(), true));
                let cond_start = self.chunk.code.len();
                self.emit(OpCode::LoadVar(var.clone()));
                self.compile_expr(k, end);
                self.emit(OpCode::Lt);
                let jif = self.emit(OpCode::JumpIfFalse(0));
                self.emit(OpCode::PushScope);
                self.open_loop();
                self.compile_stmts(k, body);
                self.emit(OpCode::PopScope);
                let incr = self.chunk.code.len();
                self.emit(OpCode::LoadVar(var.clone()));
                self.push_const(Constant::Int(1));
                self.emit(OpCode::Add);
                self.emit(OpCode::StoreVar(var.clone()));
                self.emit(OpCode::Pop);
                self.emit(OpCode::Jump(cond_start));
                let loop_end = self.chunk.code.len();
                self.patch_jump(jif, loop_end);
                self.close_loop(loop_end, incr);
            },
            _ => {},
        }
    }

    /// Compiles the last statement of the main chunk: an expression
    /// statement returns its value instead of dropping it.
    fn compile_tail(&mut self, k: &Vec<String>, s: &Stmt)
        requires
            old(self).wf(),
        ensures
            final(self).wf(),
            final(self)@ == cg_tail(names_view(k@), old(self)@, stmt_view(*s)),
    {
        match s {
            Stmt::ExprStmt(e) => {
                self.compile_expr(k, e);
                self.emit(OpCode::Return(true));
            },
            _ => self.compile_stmt(k, s),
        }
    }
}


fn collect_fn_names(program: &Vec<Stmt>) -> (r: Vec<String>)
    ensures
        names_view(r@) == fn_names(stmts_view(program@)),
{
    let ghost v = stmts_view(program@);
    proof { crate::ast::lemma_stmts_view_index(program@); }
    let mut r: Vec<String> = Vec::new();
    let mut i: usize = 0;
    assert(v.take(0) =~= Seq::<StmtV>::empty());
    while i < program.len()
        invariant
            i <= program.len(),
            v == stmts_view(program@),
            v.len() == program.len(),
            forall|j: int| 0 <= j < program.len() ==> #[trigger] v[j] == stmt_view(program@[j]),
            names_view(r@) == fn_names(v.take(i as int)),
        decreases program.len() - i,
    {
        assert(v.take(i + 1).drop_last() =~= v.take(i as int));
        assert(v.take(i + 1).last() == stmt_view(program@[i as int]));
        match &program[i] {
            Stmt::FnDecl { name, .. } => {
                let ghost before = r@;
                r.push(name.clone());
                assert(names_view(r@) =~= names_view(before).push(name@));
            },
            _ => {},
        }
        i = i + 1;
    }
    assert(v.take(program.len() as int) =~= v);
    r
}

fn find_last_main(program: &Vec<Stmt>) -> (r: Option<usize>)
    ensures
        match r {
            Some(i) => i as int == last_main(stmts_view(program@)),
            None => last_main(stmts_view(program@)) == -1,
        },
{
    let ghost v = stmts_view(program@);
    proof { crate::ast::lemma_stmts_view_index(program@); }
    let mut r: Option<usize> = None;
    let mut i: usize = 0;
    assert(v.take(0) =~= Seq::<StmtV>::empty());
    while i < program.len()
        invariant
            i <= program.len(),
            v == stmts_view(program@),
            v.len() == program.len(),
            forall|j: int| 0 <= j < program.len() ==> #[trigger] v[j] == stmt_view(program@[j]),
            match r {
                Some(j) => j as int == last_main(v.take(i as int)),
                None => last_main(v.take(i as int)) == -1,
            },
        decreases program.len() - i,
    {
        assert(v.take(i + 1).drop_last() =~= v.take(i as int));
        assert(v.take(i + 1).last() == stmt_view(program@[i as int]));
        match &program[i] {
            Stmt::FnDecl { .. } => {},
            _ => {
                r = Some(i);
            },
        }
        i = i + 1;
    }
    assert(v.take(program.len() as int) =~= v);
    r
}

proof fn lemma_fn_slot(fs: Seq<(Seq<char>, FunctionDefV)>, n: Seq<char>)
    ensures
        fn_slot(fs, n) matches Some(i) ==> 0 <= i < fs.len() && fs[i].0 == n,
        fn_slot(fs, n) is None ==> forall|i: int| 0 <= i < fs.len() ==> #[trigger] fs[i].0 != n,
    decreases fs.len(),
{
    if fs.len() > 0 && fs.last().0 != n {
        lemma_fn_slot(fs.drop_last(), n);
        assert forall|i: int| 0 <= i < fs.len() - 1 implies #[trigger] fs[i].0 == fs.drop_last()[i].0 by {}
    }
}

/// Registering a function keeps the names of a program's functions
/// distinct.
proof fn lemma_fn_insert_distinct(fs: Seq<(Seq<char>, FunctionDefV)>, n: Seq<char>, d: FunctionDefV)
    requires
        names_distinct(fs),
    ensures
        names_distinct(fn_insert(fs, n, d)),
{
    lemma_fn_slot(fs, n);
    let r = fn_insert(fs, n, d);
    match fn_slot(fs, n) {
        Some(k) => {
            assert forall|i: int, j: int| 0 <= i < j < r.len() implies #[trigger] r[i].0 != #[trigger] r[j].0 by {
                assert(r[i].0 == fs[i].0);
                assert(r[j].0 == fs[j].0);
            }
        },
        None => {
            assert forall|i: int, j: int| 0 <= i < j < r.len() implies #[trigger] r[i].0 != #[trigger] r[j].0 by {
                if j < fs.len() {
                    assert(r[i] == fs[i] && r[j] == fs[j]);
                } else {
                    assert(r[i] == fs[i]);
                }
            }
        },
    }
}

/// Registers a compiled function; one of the same name is replaced in
/// place.
fn insert_fn(fs: &mut Vec<(String, FunctionDef)>, name: &String, def: FunctionDef)
    requires
        forall|j: int| 0 <= j < old(fs).len() ==> chunk_ok(#[trigger] fns_view(old(fs)@)[j].1.chunk),
        chunk_ok(fn_def_view(def).chunk),
    ensures
        fns_view(final(fs)@) == fn_insert(fns_view(old(fs)@), name@, fn_def_view(def)),
        forall|j: int| 0 <= j < final(fs).len() ==> chunk_ok(#[trigger] fns_view(final(fs)@)[j].1.chunk),
{
    let ghost v = fns_view(fs@);
    let ghost d = fn_def_view(def);
    let mut i = fs.len();
    assert(v.take(i as int) =~= v);
    while i > 0
        invariant
            i <= fs.len(),
            fs@ == old(fs)@,
            v == fns_view(fs@),
            fn_slot(v, name@) == fn_slot(v.take(i as int), name@),
            d == fn_def_view(def),
            chunk_ok(d.chunk),
            forall|j: int| 0 <= j < fs.len() ==> chunk_ok(#[trigger] fns_view(fs@)[j].1.chunk),
        decreases i,
    {
        assert(v.take(i as int).drop_last() =~= v.take(i - 1));
        if crate::semantic::str_eq(&fs[i - 1].0, name) {
            let ghost before = fs@;
            fs.set(i - 1, (name.clone(), def));
            assert(fns_view(fs@) =~= v.update(i - 1, (name@, d)));
            return;
        }
        i = i - 1;
    }
    let ghost before = fs@;
    fs.push((name.clone(), def));
    assert(fns_view(fs@) =~= v.push((name@, d)));
}

/// Compiles a program. Each named function becomes a chunk of its own
/// (registered under its name; a later declaration of the same name
/// replaces an earlier one); the other statements form the main chunk,
/// whose last statement, if it is an expression statement, returns its
/// value. Every chunk produced passes the bytecode verifier.
pub fn compile(program: &Vec<Stmt>) -> (r: CompiledProgram)
    ensures
        program_view(r) == spec_compile(stmts_view(program@)),
        program_ok(program_view(r)),
        spec_verify_program(program_view(r)) is Ok,
{
    let known = collect_fn_names(program);
    let last = find_last_main(program);
    let ghost v = stmts_view(program@);
    let ghost kv = names_view(known@);
    let ghost lm = last_main(v);
    proof { crate::ast::lemma_stmts_view_index(program@); }
    let mut main = Compiler::fresh();
    let mut functions: Vec<(String, FunctionDef)> = Vec::new();
    let mut i: usize = 0;
    assert(fns_view(functions@) =~= Seq::<(Seq<char>, FunctionDefV)>::empty());
    while i < program.len()
        invariant
            i <= program.len(),
            v == stmts_view(program@),
            v.len() == program.len(),
            forall|j: int| 0 <= j < program.len() ==> #[trigger] v[j] == stmt_view(program@[j]),
            kv == names_view(known@),
            kv == fn_names(v),
            lm == last_main(v),
            match last {
                Some(j) => j as int == lm,
                None => lm == -1,
            },
            main.wf(),
            compile_prefix(kv, v, i as nat, lm) == (main@, fns_view(functions@)),
            forall|j: int| 0 <= j < functions.len() ==> chunk_ok(#[trigger] fns_view(functions@)[j].1.chunk),
            names_distinct(fns_view(functions@)),
        decreases program.len() - i,
    {
        match &program[i] {
            Stmt::FnDecl { name, params, body, .. } => {
                let chunk = compile_body(&known, body);
                let def = FunctionDef { params: param_names(params), param_mut: param_flags(params), chunk };
                let ghost before = fns_view(functions@);
                let ghost dv = fn_def_view(def);
                insert_fn(&mut functions, name, def);
                proof {
                    lemma_fn_insert_distinct(before, name@, dv);
                }
            },
            s => {
                let is_last = match last {
                    Some(j) => j == i,
                    None => false,
                };
                if is_last {
                    main.compile_tail(&known, s);
                } else {
                    main.compile_stmt(&known, s);
                }
            },
        }
        i = i + 1;
    }
    main.emit(OpCode::Return(false));
    let r = CompiledProgram { main: main.chunk, functions };
    proof {
        assert(program_view(r).functions =~= fns_view(r.functions@));
        assert(program_ok(program_view(r)));
        crate::runtime::lemma_program_ok_verifies(program_view(r));
    }
    r
}

} // verus!
