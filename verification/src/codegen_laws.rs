//! What the code of each expression and statement is made of: the code of
//! its parts, in source order, then the instruction of its own operation;
//! and where the jumps of `IF` and `WHILE` lead.
use vstd::prelude::*;
use crate::ast::{BinOp, ExprV, StmtV, UnOp};
use crate::codegen::{
    cg_expr, cg_exprs, cg_fields, cg_stmt, cg_stmts, close_loop, emit, open_loop, patch, patch_all, push_const,
    record_jump, CgState,
};
use crate::runtime::{ConstV, OpV};

verus! {

/// A binary expression is compiled to the code of its left operand, then
/// of its right operand, then the instruction of its own operator: `+`
/// adds, `-` subtracts, `*` multiplies, `/` divides, `%` takes the
/// remainder, and each comparison and logical operator has its own
/// instruction. Only the operator decides the instruction, and no two
/// operators share one.
pub proof fn lemma_binary_instruction(k: Seq<Seq<char>>, st: CgState, op: BinOp, l: ExprV, r: ExprV)
    ensures
        cg_expr(k, st, ExprV::Binary(op, Box::new(l), Box::new(r))).code == cg_expr(k, cg_expr(k, st, l), r).code.push(
            match op {
                BinOp::Add => OpV::Add,
                BinOp::Sub => OpV::Sub,
                BinOp::Mul => OpV::Mul,
                BinOp::Div => OpV::Div,
                BinOp::Mod => OpV::Mod,
                BinOp::Eq => OpV::Eq,
                BinOp::NotEq => OpV::NotEq,
                BinOp::Lt => OpV::Lt,
                BinOp::Gt => OpV::Gt,
                BinOp::LtEq => OpV::LtEq,
                BinOp::GtEq => OpV::GtEq,
                BinOp::And => OpV::And,
                BinOp::Or => OpV::Or,
            },
        ),
        cg_expr(k, st, ExprV::Binary(op, Box::new(l), Box::new(r))).consts == cg_expr(
            k,
            cg_expr(k, st, l),
            r,
        ).consts,
{
}

/// A unary expression is compiled to the code of its operand, then `Neg`
/// for `-` and `Not` for `NOT`.
pub proof fn lemma_unary_instruction(k: Seq<Seq<char>>, st: CgState, op: UnOp, a: ExprV)
    ensures
        cg_expr(k, st, ExprV::Unary(op, Box::new(a))).code == cg_expr(k, st, a).code.push(
            match op {
                UnOp::Neg => OpV::Neg,
                UnOp::Not => OpV::Not,
            },
        ),
{
}

/// A literal is added to the constant pool and pushed from its place there;
/// a name is loaded, and an assignment stores its value under its name.
pub proof fn lemma_leaf_instructions(k: Seq<Seq<char>>, st: CgState, v: i64, n: Seq<char>, e: ExprV)
    ensures
        cg_expr(k, st, ExprV::Int(v)).consts == st.consts.push(ConstV::Int(v)),
        cg_expr(k, st, ExprV::Int(v)).code == st.code.push(OpV::PushConst(st.consts.len() as usize)),
        cg_expr(k, st, ExprV::Ident(n)).code == st.code.push(OpV::LoadVar(n)),
        cg_expr(k, st, ExprV::Assign(n, Box::new(e))).code == cg_expr(k, st, e).code.push(OpV::StoreVar(n)),
{
}

/// A declaration defines its name, with its mutability, from the value
/// computed before; an expression statement drops its value; `PRINT`
/// prints as many values as it has arguments.
pub proof fn lemma_simple_statements(
    k: Seq<Seq<char>>,
    st: CgState,
    n: Seq<char>,
    e: ExprV,
    mutable: bool,
    ty: Option<crate::ast::TypeAnnotation>,
    args: Seq<ExprV>,
)
    ensures
        cg_stmt(k, st, StmtV::VarDecl { name: n, value: e, mutable, ty }).code == cg_expr(k, st, e).code.push(
            OpV::DefineVar(n, mutable),
        ),
        cg_stmt(k, st, StmtV::ExprStmt(e)).code == cg_expr(k, st, e).code.push(OpV::Pop),
        cg_stmt(k, st, StmtV::Print(args)).code == cg_exprs(k, st, args).code.push(OpV::Print(args.len())),
{
}


// ------------------------------------------------------------------ control flow

/// `y` holds the positions of `x`, in order, then only positions in
/// `[lo, hi)`.
pub open spec fn ctx_grows(x: Seq<usize>, y: Seq<usize>, lo: nat, hi: nat) -> bool {
    &&& x.len() <= y.len()
    &&& y.subrange(0, x.len() as int) == x
    &&& forall|j: int| x.len() <= j < y.len() ==> lo <= #[trigger] y[j] < hi
}

/// Code generation went from `a` to `b` by appending: the code of `a` is a
/// prefix of the code of `b`, the loop contexts are the same but for the
/// innermost one, which only gained placeholders in the new code.
pub open spec fn cg_grows(a: CgState, b: CgState) -> bool {
    &&& a.code.len() <= b.code.len()
    &&& b.code.subrange(0, a.code.len() as int) == a.code
    &&& b.loops.len() == a.loops.len()
    &&& b.loops.drop_last() == a.loops.drop_last()
    &&& a.loops.len() > 0 ==> ctx_grows(a.loops.last().0, b.loops.last().0, a.code.len(), b.code.len())
    &&& a.loops.len() > 0 ==> ctx_grows(a.loops.last().1, b.loops.last().1, a.code.len(), b.code.len())
}

proof fn lemma_grows_same_loops(a: CgState, b: CgState)
    requires
        a.code.len() <= b.code.len(),
        b.code.subrange(0, a.code.len() as int) == a.code,
        b.loops == a.loops,
    ensures
        cg_grows(a, b),
{
    if a.loops.len() > 0 {
        assert(a.loops.last().0.subrange(0, a.loops.last().0.len() as int) =~= a.loops.last().0);
        assert(a.loops.last().1.subrange(0, a.loops.last().1.len() as int) =~= a.loops.last().1);
    }
}

proof fn lemma_grows_trans(a: CgState, b: CgState, c: CgState)
    requires
        cg_grows(a, b),
        cg_grows(b, c),
    ensures
        cg_grows(a, c),
{
    assert(c.code.subrange(0, a.code.len() as int) =~= b.code.subrange(0, a.code.len() as int));
    if a.loops.len() > 0 {
        let (x0, y0, z0) = (a.loops.last().0, b.loops.last().0, c.loops.last().0);
        let (x1, y1, z1) = (a.loops.last().1, b.loops.last().1, c.loops.last().1);
        assert(z0.subrange(0, x0.len() as int) =~= y0.subrange(0, x0.len() as int));
        assert(z1.subrange(0, x1.len() as int) =~= y1.subrange(0, x1.len() as int));
        assert forall|j: int| x0.len() <= j < z0.len() implies a.code.len() <= #[trigger] z0[j] < c.code.len() by {
            if j < y0.len() {
                assert(z0[j] == z0.subrange(0, y0.len() as int)[j]);
            }
        }
        assert forall|j: int| x1.len() <= j < z1.len() implies a.code.len() <= #[trigger] z1[j] < c.code.len() by {
            if j < y1.len() {
                assert(z1[j] == z1.subrange(0, y1.len() as int)[j]);
            }
        }
    }
}

proof fn lemma_emit_grows(a: CgState, op: OpV)
    ensures
        cg_grows(a, emit(a, op)),
        emit(a, op).loops == a.loops,
{
    assert(emit(a, op).code.subrange(0, a.code.len() as int) =~= a.code);
    lemma_grows_same_loops(a, emit(a, op));
}

/// Pointing one jump elsewhere changes no other instruction and keeps the
/// length; a conditional jump stays conditional, with the new target.
proof fn lemma_patch_frame(code: Seq<OpV>, pos: usize, t: usize)
    ensures
        patch(code, pos, t).len() == code.len(),
        forall|i: int| 0 <= i < code.len() && i != pos ==> #[trigger] patch(code, pos, t)[i] == code[i],
        pos < code.len() && code[pos as int] is JumpIfFalse ==> patch(code, pos, t)[pos as int] == OpV::JumpIfFalse(t),
        pos < code.len() && code[pos as int] is Jump ==> patch(code, pos, t)[pos as int] == OpV::Jump(t),
{
}

/// Patching jumps at positions in `[lo, hi)` changes nothing outside.
proof fn lemma_patch_all_frame(code: Seq<OpV>, ps: Seq<usize>, t: usize, lo: nat, hi: nat)
    requires
        forall|j: int| 0 <= j < ps.len() ==> lo <= #[trigger] ps[j] < hi,
    ensures
        patch_all(code, ps, t).len() == code.len(),
        forall|i: int| 0 <= i < code.len() && (i < lo || i >= hi) ==> #[trigger] patch_all(code, ps, t)[i] == code[i],
    decreases ps.len(),
{
    if ps.len() > 0 {
        lemma_patch_all_frame(code, ps.drop_last(), t, lo, hi);
        let c1 = patch_all(code, ps.drop_last(), t);
        lemma_patch_frame(c1, ps.last(), t);
        assert(lo <= ps[ps.len() - 1] < hi);
    }
}

/// Patching a jump in the new code keeps the growth.
proof fn lemma_grows_patch(a: CgState, b: CgState, pos: usize, t: usize)
    requires
        cg_grows(a, b),
        pos >= a.code.len(),
    ensures
        cg_grows(a, CgState { code: patch(b.code, pos, t), ..b }),
{
    lemma_patch_frame(b.code, pos, t);
    assert(patch(b.code, pos, t).subrange(0, a.code.len() as int) =~= b.code.subrange(0, a.code.len() as int));
}

/// The code of an expression is appended: what was there stays, and the
/// loop contexts do not change.
proof fn lemma_expr_grows(k: Seq<Seq<char>>, st: CgState, e: ExprV)
    ensures
        cg_grows(st, cg_expr(k, st, e)),
        cg_expr(k, st, e).loops == st.loops,
    decreases e, 0nat,
{
    match e {
        ExprV::Int(v) => lemma_emit_grows(CgState { consts: st.consts.push(crate::runtime::ConstV::Int(v)), ..st }, OpV::PushConst(st.consts.len() as usize)),
        ExprV::Float(t) => lemma_emit_grows(CgState { consts: st.consts.push(crate::runtime::ConstV::Float(t)), ..st }, OpV::PushConst(st.consts.len() as usize)),
        ExprV::Str(t) => lemma_emit_grows(CgState { consts: st.consts.push(crate::runtime::ConstV::Str(t)), ..st }, OpV::PushConst(st.consts.len() as usize)),
        ExprV::Bool(b) => lemma_emit_grows(CgState { consts: st.consts.push(crate::runtime::ConstV::Bool(b)), ..st }, OpV::PushConst(st.consts.len() as usize)),
        ExprV::Nil => lemma_emit_grows(CgState { consts: st.consts.push(crate::runtime::ConstV::Nil), ..st }, OpV::PushConst(st.consts.len() as usize)),
        ExprV::Ident(n) => lemma_emit_grows(st, OpV::LoadVar(n)),
        ExprV::Array(items) => {
            lemma_exprs_grows(k, st, items);
            let s1 = cg_exprs(k, st, items);
            lemma_emit_grows(s1, OpV::MakeArray(items.len()));
            lemma_grows_trans(st, s1, cg_expr(k, st, e));
        },
        ExprV::Index(t, i) => {
            lemma_expr_grows(k, st, *t);
            let s1 = cg_expr(k, st, *t);
            lemma_expr_grows(k, s1, *i);
            let s2 = cg_expr(k, s1, *i);
            lemma_emit_grows(s2, OpV::Index);
            lemma_grows_trans(st, s1, s2);
            lemma_grows_trans(st, s2, cg_expr(k, st, e));
        },
        ExprV::Unary(op, a) => {
            lemma_expr_grows(k, st, *a);
            let s1 = cg_expr(k, st, *a);
            lemma_emit_grows(s1, crate::codegen::unop_code(op));
            lemma_grows_trans(st, s1, cg_expr(k, st, e));
        },
        ExprV::Binary(op, l, r) => {
            lemma_expr_grows(k, st, *l);
            let s1 = cg_expr(k, st, *l);
            lemma_expr_grows(k, s1, *r);
            let s2 = cg_expr(k, s1, *r);
            lemma_emit_grows(s2, crate::codegen::binop_code(op));
            lemma_grows_trans(st, s1, s2);
            lemma_grows_trans(st, s2, cg_expr(k, st, e));
        },
        ExprV::Call(n, args) => {
            if k.contains(n) || crate::runtime::spec_is_builtin(n) {
                lemma_exprs_grows(k, st, args);
                let s1 = cg_exprs(k, st, args);
                lemma_emit_grows(s1, OpV::Call(n, args.len()));
                lemma_grows_trans(st, s1, cg_expr(k, st, e));
            } else {
                let s0 = emit(st, OpV::LoadVar(n));
                lemma_emit_grows(st, OpV::LoadVar(n));
                lemma_exprs_grows(k, s0, args);
                let s1 = cg_exprs(k, s0, args);
                lemma_emit_grows(s1, OpV::CallValue(args.len()));
                lemma_grows_trans(st, s0, s1);
                lemma_grows_trans(st, s1, cg_expr(k, st, e));
            }
        },
        ExprV::CallExpr(c, args) => {
            lemma_expr_grows(k, st, *c);
            let s1 = cg_expr(k, st, *c);
            lemma_exprs_grows(k, s1, args);
            let s2 = cg_exprs(k, s1, args);
            lemma_emit_grows(s2, OpV::CallValue(args.len()));
            lemma_grows_trans(st, s1, s2);
            lemma_grows_trans(st, s2, cg_expr(k, st, e));
        },
        ExprV::Lambda { params, body } => {
            lemma_emit_grows(st, OpV::MakeClosure { params, body: Box::new(crate::codegen::body_chunk(k, body)) });
        },
        ExprV::Assign(n, v) => {
            lemma_expr_grows(k, st, *v);
            let s1 = cg_expr(k, st, *v);
            lemma_emit_grows(s1, OpV::StoreVar(n));
            lemma_grows_trans(st, s1, cg_expr(k, st, e));
        },
        ExprV::IndexAssign(t, i, v) => {
            lemma_expr_grows(k, st, *t);
            let s1 = cg_expr(k, st, *t);
            lemma_expr_grows(k, s1, *i);
            let s2 = cg_expr(k, s1, *i);
            lemma_expr_grows(k, s2, *v);
            let s3 = cg_expr(k, s2, *v);
            lemma_emit_grows(s3, OpV::IndexAssign);
            lemma_grows_trans(st, s1, s2);
            lemma_grows_trans(st, s2, s3);
            lemma_grows_trans(st, s3, cg_expr(k, st, e));
        },
        ExprV::StructLit { struct_name, fields } => {
            lemma_fields_grows(k, st, fields);
            let s1 = cg_fields(k, st, fields);
            lemma_emit_grows(
                s1,
                OpV::MakeStruct { struct_name, fields: fields.map_values(|f: (Seq<char>, ExprV)| f.0) },
            );
            lemma_grows_trans(st, s1, cg_expr(k, st, e));
        },
        ExprV::FieldAccess(o, f) => {
            lemma_expr_grows(k, st, *o);
            let s1 = cg_expr(k, st, *o);
            lemma_emit_grows(s1, OpV::GetField(f));
            lemma_grows_trans(st, s1, cg_expr(k, st, e));
        },
        ExprV::FieldAssign(o, f, v) => {
            lemma_expr_grows(k, st, *o);
            let s1 = cg_expr(k, st, *o);
            lemma_expr_grows(k, s1, *v);
            let s2 = cg_expr(k, s1, *v);
            lemma_emit_grows(s2, OpV::SetField(f));
            lemma_grows_trans(st, s1, s2);
            lemma_grows_trans(st, s2, cg_expr(k, st, e));
        },
        ExprV::MethodCall(o, m, args) => {
            lemma_expr_grows(k, st, *o);
            let s1 = cg_expr(k, st, *o);
            lemma_exprs_grows(k, s1, args);
            let s2 = cg_exprs(k, s1, args);
            lemma_emit_grows(s2, OpV::CallMethod { method: m, argc: args.len() });
            lemma_grows_trans(st, s1, s2);
            lemma_grows_trans(st, s2, cg_expr(k, st, e));
        },
    }
}

proof fn lemma_exprs_grows(k: Seq<Seq<char>>, st: CgState, es: Seq<ExprV>)
    ensures
        cg_grows(st, cg_exprs(k, st, es)),
        cg_exprs(k, st, es).loops == st.loops,
    decreases es, 0nat,
{
    if es.len() == 0 {
        assert(st.code.subrange(0, st.code.len() as int) =~= st.code);
        lemma_grows_same_loops(st, st);
    } else {
        lemma_exprs_grows(k, st, es.drop_last());
        let s1 = cg_exprs(k, st, es.drop_last());
        lemma_expr_grows(k, s1, es.last());
        lemma_grows_trans(st, s1, cg_exprs(k, st, es));
    }
}

proof fn lemma_fields_grows(k: Seq<Seq<char>>, st: CgState, fs: Seq<(Seq<char>, ExprV)>)
    ensures
        cg_grows(st, cg_fields(k, st, fs)),
        cg_fields(k, st, fs).loops == st.loops,
    decreases fs, 0nat,
{
    if fs.len() == 0 {
        assert(st.code.subrange(0, st.code.len() as int) =~= st.code);
        lemma_grows_same_loops(st, st);
    } else {
        lemma_fields_grows(k, st, fs.drop_last());
        let s1 = cg_fields(k, st, fs.drop_last());
        lemma_expr_grows(k, s1, fs.last().1);
        lemma_grows_trans(st, s1, cg_fields(k, st, fs));
    }
}


/// Closing a loop whose placeholders all lie in `[lo, hi)` changes no
/// instruction outside that range, and restores the enclosing contexts.
proof fn lemma_close_frame(a: CgState, b: CgState, lo: nat, hi: nat, brk: usize, cont: usize)
    requires
        a.code.len() <= lo,
        a.code.len() <= b.code.len(),
        b.code.subrange(0, a.code.len() as int) == a.code,
        b.loops.len() == a.loops.len() + 1,
        b.loops.drop_last() == a.loops,
        forall|j: int| 0 <= j < b.loops.last().0.len() ==> lo <= #[trigger] b.loops.last().0[j] < hi,
        forall|j: int| 0 <= j < b.loops.last().1.len() ==> lo <= #[trigger] b.loops.last().1[j] < hi,
    ensures
        cg_grows(a, close_loop(b, brk, cont)),
        close_loop(b, brk, cont).loops == a.loops,
        close_loop(b, brk, cont).code.len() == b.code.len(),
        forall|i: int| 0 <= i < b.code.len() && (i < lo || i >= hi) ==> #[trigger] close_loop(b, brk, cont).code[i] == b.code[i],
{
    let ctx = b.loops.last();
    lemma_patch_all_frame(b.code, ctx.0, brk, lo, hi);
    let c1 = patch_all(b.code, ctx.0, brk);
    lemma_patch_all_frame(c1, ctx.1, cont, lo, hi);
    let r = close_loop(b, brk, cont);
    assert(r.code.subrange(0, a.code.len() as int) =~= b.code.subrange(0, a.code.len() as int));
    lemma_grows_same_loops(a, r);
}

/// Emitting one more instruction after growth keeps the growth.
proof fn lemma_grows_emit(a: CgState, b: CgState, op: OpV)
    requires
        cg_grows(a, b),
    ensures
        cg_grows(a, emit(b, op)),
{
    lemma_emit_grows(b, op);
    lemma_grows_trans(a, b, emit(b, op));
}

/// Statements append their code: what was there stays, and only the
/// innermost loop context gains placeholders, in the new code.
proof fn lemma_stmt_grows(k: Seq<Seq<char>>, st: CgState, s: StmtV)
    requires
        cg_stmt(k, st, s).code.len() <= usize::MAX,
    ensures
        cg_grows(st, cg_stmt(k, st, s)),
    decreases s, 1nat,
{
    let r = cg_stmt(k, st, s);
    match s {
        StmtV::VarDecl { name, value, mutable, .. } => {
            lemma_expr_grows(k, st, value);
            lemma_grows_emit(st, cg_expr(k, st, value), OpV::DefineVar(name, mutable));
        },
        StmtV::ExprStmt(e) => {
            lemma_expr_grows(k, st, e);
            lemma_grows_emit(st, cg_expr(k, st, e), OpV::Pop);
        },
        StmtV::Print(args) => {
            lemma_exprs_grows(k, st, args);
            lemma_grows_emit(st, cg_exprs(k, st, args), OpV::Print(args.len()));
        },
        StmtV::If { .. } => {
            lemma_if_parts(k, st, s);
        },
        StmtV::While { .. } => {
            lemma_while_parts(k, st, s);
        },
        StmtV::ForIn { .. } => {
            lemma_for_grows(k, st, s);
        },
        StmtV::Return(e) => match e {
            Some(x) => {
                lemma_expr_grows(k, st, x);
                lemma_grows_emit(st, cg_expr(k, st, x), OpV::Return(true));
            },
            None => lemma_emit_grows(st, OpV::Return(false)),
        },
        StmtV::Break => lemma_jump_grows(st, true),
        StmtV::Continue => lemma_jump_grows(st, false),
        StmtV::Block(b) => {
            let s1 = emit(st, OpV::PushScope);
            lemma_emit_grows(st, OpV::PushScope);
            lemma_stmts_grows(k, s1, b);
            lemma_grows_trans(st, s1, cg_stmts(k, s1, b));
            lemma_grows_emit(st, cg_stmts(k, s1, b), OpV::PopScope);
        },
        _ => {
            assert(st.code.subrange(0, st.code.len() as int) =~= st.code);
            lemma_grows_same_loops(st, st);
        },
    }
}

/// A `BREAK` or `CONTINUE` placeholder is recorded at its own position.
proof fn lemma_jump_grows(st: CgState, is_break: bool)
    requires
        st.code.len() < usize::MAX,
    ensures
        cg_grows(st, record_jump(emit(st, OpV::Jump(0)), st.code.len() as usize, is_break)),
{
    let e = emit(st, OpV::Jump(0));
    lemma_emit_grows(st, OpV::Jump(0));
    let r = record_jump(e, st.code.len() as usize, is_break);
    if st.loops.len() > 0 {
        let ctx = st.loops.last();
        assert(r.loops.drop_last() =~= st.loops.drop_last());
        assert(r.loops.last().0.subrange(0, ctx.0.len() as int) =~= ctx.0);
        assert(r.loops.last().1.subrange(0, ctx.1.len() as int) =~= ctx.1);
    }
}

proof fn lemma_stmts_grows(k: Seq<Seq<char>>, st: CgState, ss: Seq<StmtV>)
    requires
        cg_stmts(k, st, ss).code.len() <= usize::MAX,
    ensures
        cg_grows(st, cg_stmts(k, st, ss)),
    decreases ss, 0nat,
{
    if ss.len() == 0 {
        assert(st.code.subrange(0, st.code.len() as int) =~= st.code);
        lemma_grows_same_loops(st, st);
    } else {
        let s1 = cg_stmts(k, st, ss.drop_last());
        lemma_stmt_len(k, s1, ss.last());
        lemma_stmts_grows(k, st, ss.drop_last());
        lemma_stmt_grows(k, s1, ss.last());
        lemma_grows_trans(st, s1, cg_stmts(k, st, ss));
    }
}


/// The code of an `IF`: the condition, a conditional jump, the `THEN`
/// branch in a scope of its own, and, for an `ELSE`, a jump over the
/// `ELSE` branch, which follows in a scope of its own. Without `ELSE` the
/// conditional jump leads past the statement; with one, to the `ELSE`
/// branch, and the jump after the `THEN` branch past the statement.
proof fn lemma_if_parts(k: Seq<Seq<char>>, st: CgState, s: StmtV)
    requires
        cg_stmt(k, st, s).code.len() <= usize::MAX,
        s is If,
    ensures
        cg_grows(st, cg_stmt(k, st, s)),
        ({
            let c = cg_expr(k, st, s->If_cond).code;
            let r = cg_stmt(k, st, s).code;
            let j = c.len() as int;
            &&& r.len() >= j + 3
            &&& r.subrange(0, j) == c
            &&& r[j + 1] == OpV::PushScope
            &&& r[r.len() - 1] == OpV::PopScope
            &&& s->else_branch is None ==> r[j] == OpV::JumpIfFalse(r.len() as usize)
            &&& s->else_branch is Some ==> exists|m: int|
                j + 2 < m < r.len() - 2 && r[j] == OpV::JumpIfFalse((m + 1) as usize) && r[m - 1] == OpV::PopScope
                    && #[trigger] r[m] == OpV::Jump(r.len() as usize) && r[m + 1] == OpV::PushScope
        }),
    decreases s, 0nat,
{
    let cond = s->If_cond;
    let tb = s->then_branch;
    let s1 = cg_expr(k, st, cond);
    let jif = s1.code.len() as usize;
    let s2 = emit(s1, OpV::JumpIfFalse(0));
    let s3 = emit(s2, OpV::PushScope);
    let s4 = cg_stmts(k, s3, tb);
    let s5 = emit(s4, OpV::PopScope);
    lemma_expr_grows(k, st, cond);
    lemma_stmts_len(k, s3, tb);
    lemma_patch_frame(s5.code, jif, s5.code.len() as usize);
    if let Some(b) = s->else_branch {
        let s6 = emit(s5, OpV::Jump(0));
        let s7 = CgState { code: patch(s6.code, jif, s6.code.len() as usize), ..s6 };
        let s8 = emit(s7, OpV::PushScope);
        let s10 = emit(cg_stmts(k, s8, b), OpV::PopScope);
        lemma_patch_frame(s6.code, jif, s6.code.len() as usize);
        lemma_stmts_len(k, s8, b);
        lemma_patch_frame(s10.code, s5.code.len() as usize, s10.code.len() as usize);
    }
    lemma_emit_grows(s1, OpV::JumpIfFalse(0));
    lemma_emit_grows(s2, OpV::PushScope);
    lemma_stmts_grows(k, s3, tb);
    lemma_grows_emit(s3, s4, OpV::PopScope);
    lemma_grows_trans(s1, s2, s3);
    lemma_grows_trans(st, s1, s3);
    lemma_grows_trans(st, s3, s5);
    assert(s5.code[jif as int] == s5.code.subrange(0, s3.code.len() as int)[jif as int]);
    assert(s5.code[jif + 1] == s5.code.subrange(0, s3.code.len() as int)[jif + 1]);
    assert(s5.code.subrange(0, jif as int) =~= s5.code.subrange(0, s3.code.len() as int).subrange(0, jif as int));
    match s->else_branch {
        None => {
            let r = CgState { code: patch(s5.code, jif, s5.code.len() as usize), ..s5 };
            lemma_grows_patch(st, s5, jif, s5.code.len() as usize);
            lemma_patch_frame(s5.code, jif, s5.code.len() as usize);
            assert(r.code.subrange(0, jif as int) =~= s5.code.subrange(0, jif as int));
        },
        Some(b) => {
            let jend = s5.code.len() as usize;
            let s6 = emit(s5, OpV::Jump(0));
            let s7 = CgState { code: patch(s6.code, jif, s6.code.len() as usize), ..s6 };
            let s8 = emit(s7, OpV::PushScope);
            let s9 = cg_stmts(k, s8, b);
            let s10 = emit(s9, OpV::PopScope);
            let r = CgState { code: patch(s10.code, jend, s10.code.len() as usize), ..s10 };
            lemma_grows_emit(st, s5, OpV::Jump(0));
            lemma_grows_patch(st, s6, jif, s6.code.len() as usize);
            lemma_patch_frame(s6.code, jif, s6.code.len() as usize);
            lemma_grows_emit(st, s7, OpV::PushScope);
            lemma_stmts_grows(k, s8, b);
            lemma_grows_trans(st, s8, s9);
            lemma_grows_emit(st, s9, OpV::PopScope);
            lemma_grows_patch(st, s10, jend, s10.code.len() as usize);
            lemma_patch_frame(s10.code, jend, s10.code.len() as usize);
            lemma_emit_grows(s8, OpV::PopScope);
            lemma_grows_emit(s8, s9, OpV::PopScope);
            let m = jend as int;
            assert(s10.code[jif as int] == s10.code.subrange(0, s8.code.len() as int)[jif as int]);
            assert(s10.code[jif + 1] == s10.code.subrange(0, s8.code.len() as int)[jif + 1]);
            assert(s10.code[m - 1] == s10.code.subrange(0, s8.code.len() as int)[m - 1]);
            assert(s10.code[m] == s10.code.subrange(0, s8.code.len() as int)[m]);
            assert(s10.code[m + 1] == s10.code.subrange(0, s8.code.len() as int)[m + 1]);
            assert(s10.code.subrange(0, jif as int) =~= s10.code.subrange(0, s8.code.len() as int).subrange(0, jif as int));
            assert(r.code.subrange(0, jif as int) =~= s10.code.subrange(0, jif as int));
            assert(r.code[m] == OpV::Jump(r.code.len() as usize));
        },
    }
}

/// The code of a `WHILE`: the condition, a conditional jump past the loop,
/// the body in a scope of its own, and a jump back to the condition.
proof fn lemma_while_parts(k: Seq<Seq<char>>, st: CgState, s: StmtV)
    requires
        cg_stmt(k, st, s).code.len() <= usize::MAX,
        s is While,
    ensures
        cg_grows(st, cg_stmt(k, st, s)),
        ({
            let c = cg_expr(k, st, s->While_cond).code;
            let r = cg_stmt(k, st, s).code;
            let j = c.len() as int;
            &&& r.len() >= j + 4
            &&& r.subrange(0, j) == c
            &&& r[j] == OpV::JumpIfFalse(r.len() as usize)
            &&& r[j + 1] == OpV::PushScope
            &&& r[r.len() - 2] == OpV::PopScope
            &&& r[r.len() - 1] == OpV::Jump(st.code.len() as usize)
        }),
    decreases s, 0nat,
{
    let cond = s->While_cond;
    let body = s->While_body;
    let loop_start = st.code.len() as usize;
    let s1 = cg_expr(k, st, cond);
    let jif = s1.code.len() as usize;
    let s2 = emit(s1, OpV::JumpIfFalse(0));
    let o = open_loop(s2);
    let s4 = emit(o, OpV::PushScope);
    let s6 = cg_stmts(k, s4, body);
    let s6b = emit(s6, OpV::PopScope);
    let s7 = emit(s6b, OpV::Jump(loop_start));
    let end = s7.code.len() as usize;
    let p = CgState { code: patch(s7.code, jif, end), ..s7 };
    let r = close_loop(p, end, loop_start);
    assert(r == cg_stmt(k, st, s));
    lemma_expr_grows(k, st, cond);
    lemma_stmts_len(k, s4, body);
    lemma_patch_frame(s7.code, jif, end);
    lemma_patch_all_len(p.code, p.loops.last().0, end);
    lemma_patch_all_len(patch_all(p.code, p.loops.last().0, end), p.loops.last().1, loop_start);
    lemma_emit_grows(s1, OpV::JumpIfFalse(0));
    lemma_stmts_grows(k, s4, body);
    lemma_grows_emit(s4, s6, OpV::PopScope);
    lemma_grows_emit(s4, s6b, OpV::Jump(loop_start));
    lemma_patch_frame(s7.code, jif, end);
    assert(s4.code =~= s1.code.push(OpV::JumpIfFalse(0)).push(OpV::PushScope));
    assert(s7.code[jif as int] == s7.code.subrange(0, s4.code.len() as int)[jif as int]);
    assert(s7.code[jif + 1] == s7.code.subrange(0, s4.code.len() as int)[jif + 1]);
    assert(s1.code.subrange(0, st.code.len() as int) == st.code);
    assert(p.code.subrange(0, st.code.len() as int) =~= st.code) by {
        assert forall|i: int| 0 <= i < st.code.len() implies p.code[i] == st.code[i] by {
            assert(p.code[i] == s7.code[i]);
            assert(s7.code[i] == s7.code.subrange(0, s4.code.len() as int)[i]);
            assert(s4.code[i] == s1.code[i]);
            assert(s1.code[i] == s1.code.subrange(0, st.code.len() as int)[i]);
        }
    }
    assert(s4.loops.drop_last() =~= st.loops);
    assert(s4.loops.last() == (Seq::<usize>::empty(), Seq::<usize>::empty()));
    assert(p.loops.drop_last() =~= st.loops);
    lemma_close_frame(st, p, s4.code.len(), s6.code.len(), end, loop_start);
    assert(r.code.subrange(0, jif as int) =~= s1.code) by {
        assert forall|i: int| 0 <= i < jif implies r.code.subrange(0, jif as int)[i] == s1.code[i] by {
            assert(r.code[i] == p.code[i]);
            assert(p.code[i] == s7.code[i]);
            assert(s7.code[i] == s7.code.subrange(0, s4.code.len() as int)[i]);
            assert(s4.code[i] == s1.code[i]);
        }
    }
    assert(r.code[jif as int] == p.code[jif as int]);
    assert(r.code[jif + 1] == p.code[jif + 1]);
    assert(r.code[end - 1] == p.code[end - 1]);
    assert(r.code[end - 2] == p.code[end - 2]);
}

/// The code of a `FOR .. IN` appends to the code before it.
proof fn lemma_for_grows(k: Seq<Seq<char>>, st: CgState, s: StmtV)
    requires
        cg_stmt(k, st, s).code.len() <= usize::MAX,
        s is ForIn,
    ensures
        cg_grows(st, cg_stmt(k, st, s)),
    decreases s, 0nat,
{
    let var = s->var;
    let start = s->start;
    let end_e = s->end;
    let body = s->ForIn_body;
    let s1 = cg_expr(k, st, start);
    let s2 = emit(s1, OpV::DefineVar(var, true));
    let cond_start = s2.code.len() as usize;
    let s3 = emit(s2, OpV::LoadVar(var));
    let s4 = cg_expr(k, s3, end_e);
    let s5 = emit(s4, OpV::Lt);
    let jif = s5.code.len() as usize;
    let s6 = emit(emit(s5, OpV::JumpIfFalse(0)), OpV::PushScope);
    let s8 = open_loop(s6);
    let s9 = cg_stmts(k, s8, body);
    let s10 = emit(s9, OpV::PopScope);
    let incr = s10.code.len() as usize;
    let s13 = push_const(emit(s10, OpV::LoadVar(var)), crate::runtime::ConstV::Int(1));
    let s17 = emit(emit(emit(emit(s13, OpV::Add), OpV::StoreVar(var)), OpV::Pop), OpV::Jump(cond_start));
    let loop_end = s17.code.len() as usize;
    let p = CgState { code: patch(s17.code, jif, loop_end), ..s17 };
    assert(close_loop(p, loop_end, incr) == cg_stmt(k, st, s));
    lemma_expr_grows(k, st, start);
    lemma_expr_grows(k, s3, end_e);
    lemma_stmts_len(k, s8, body);
    lemma_patch_frame(s17.code, jif, loop_end);
    lemma_patch_all_len(p.code, p.loops.last().0, loop_end);
    lemma_patch_all_len(patch_all(p.code, p.loops.last().0, loop_end), p.loops.last().1, incr);
    lemma_grows_emit(st, s1, OpV::DefineVar(var, true));
    lemma_grows_emit(st, s2, OpV::LoadVar(var));
    lemma_expr_grows(k, s3, end_e);
    lemma_grows_trans(st, s3, s4);
    lemma_grows_emit(st, s4, OpV::Lt);
    lemma_grows_emit(st, s5, OpV::JumpIfFalse(0));
    lemma_grows_emit(st, emit(s5, OpV::JumpIfFalse(0)), OpV::PushScope);
    lemma_stmts_grows(k, s8, body);
    lemma_grows_emit(s8, s9, OpV::PopScope);
    lemma_grows_emit(s8, s10, OpV::LoadVar(var));
    let s11 = emit(s10, OpV::LoadVar(var));
    let s12 = CgState { consts: s11.consts.push(crate::runtime::ConstV::Int(1)), ..s11 };
    lemma_grows_emit(s8, s12, OpV::PushConst(s11.consts.len() as usize));
    lemma_grows_emit(s8, s13, OpV::Add);
    lemma_grows_emit(s8, emit(s13, OpV::Add), OpV::StoreVar(var));
    lemma_grows_emit(s8, emit(emit(s13, OpV::Add), OpV::StoreVar(var)), OpV::Pop);
    lemma_grows_emit(s8, emit(emit(emit(s13, OpV::Add), OpV::StoreVar(var)), OpV::Pop), OpV::Jump(cond_start));
    lemma_patch_frame(s17.code, jif, loop_end);
    assert(p.code.subrange(0, st.code.len() as int) =~= st.code) by {
        assert forall|i: int| 0 <= i < st.code.len() implies p.code[i] == st.code[i] by {
            assert(p.code[i] == s17.code[i]);
            assert(s17.code[i] == s17.code.subrange(0, s8.code.len() as int)[i]);
            assert(s6.code[i] == s6.code.subrange(0, st.code.len() as int)[i]);
        }
    }
    assert(p.loops.drop_last() =~= st.loops);
    assert(s8.loops.last() == (Seq::<usize>::empty(), Seq::<usize>::empty()));
    lemma_close_frame(st, p, s8.code.len(), s9.code.len(), loop_end, incr);
}


/// Patching jumps keeps the length of the code.
proof fn lemma_patch_all_len(code: Seq<OpV>, ps: Seq<usize>, t: usize)
    ensures
        patch_all(code, ps, t).len() == code.len(),
    decreases ps.len(),
{
    if ps.len() > 0 {
        lemma_patch_all_len(code, ps.drop_last(), t);
    }
}

/// The code of a statement is at least as long as the code before it.
proof fn lemma_stmt_len(k: Seq<Seq<char>>, st: CgState, s: StmtV)
    ensures
        st.code.len() <= cg_stmt(k, st, s).code.len(),
    decreases s, 1nat,
{
    match s {
        StmtV::VarDecl { value, .. } => lemma_expr_grows(k, st, value),
        StmtV::ExprStmt(e) => lemma_expr_grows(k, st, e),
        StmtV::Print(args) => lemma_exprs_grows(k, st, args),
        StmtV::If { cond, then_branch, else_branch } => {
            let s1 = cg_expr(k, st, cond);
            let jif = s1.code.len() as usize;
            let s3 = emit(emit(s1, OpV::JumpIfFalse(0)), OpV::PushScope);
            let s5 = emit(cg_stmts(k, s3, then_branch), OpV::PopScope);
            lemma_expr_grows(k, st, cond);
            lemma_stmts_len(k, s3, then_branch);
            lemma_patch_frame(s5.code, jif, s5.code.len() as usize);
            if let Some(b) = else_branch {
                let jend = s5.code.len() as usize;
                let s6 = emit(s5, OpV::Jump(0));
                let s7 = CgState { code: patch(s6.code, jif, s6.code.len() as usize), ..s6 };
                let s8 = emit(s7, OpV::PushScope);
                let s10 = emit(cg_stmts(k, s8, b), OpV::PopScope);
                lemma_patch_frame(s6.code, jif, s6.code.len() as usize);
                lemma_stmts_len(k, s8, b);
                lemma_patch_frame(s10.code, jend, s10.code.len() as usize);
            }
        },
        StmtV::While { cond, body } => {
            let s1 = cg_expr(k, st, cond);
            let jif = s1.code.len() as usize;
            let s4 = emit(open_loop(emit(s1, OpV::JumpIfFalse(0))), OpV::PushScope);
            let s7 = emit(emit(cg_stmts(k, s4, body), OpV::PopScope), OpV::Jump(st.code.len() as usize));
            let end = s7.code.len() as usize;
            let p = CgState { code: patch(s7.code, jif, end), ..s7 };
            lemma_expr_grows(k, st, cond);
            lemma_stmts_len(k, s4, body);
            lemma_patch_frame(s7.code, jif, end);
            lemma_patch_all_len(p.code, p.loops.last().0, end);
            lemma_patch_all_len(patch_all(p.code, p.loops.last().0, end), p.loops.last().1, st.code.len() as usize);
        },
        StmtV::ForIn { var, start, end, body } => {
            let s2 = emit(cg_expr(k, st, start), OpV::DefineVar(var, true));
            let cond_start = s2.code.len() as usize;
            let s3 = emit(s2, OpV::LoadVar(var));
            let s5 = emit(cg_expr(k, s3, end), OpV::Lt);
            let jif = s5.code.len() as usize;
            let s8 = open_loop(emit(emit(s5, OpV::JumpIfFalse(0)), OpV::PushScope));
            let s10 = emit(cg_stmts(k, s8, body), OpV::PopScope);
            let incr = s10.code.len() as usize;
            let s13 = push_const(emit(s10, OpV::LoadVar(var)), crate::runtime::ConstV::Int(1));
            let s17 = emit(emit(emit(emit(s13, OpV::Add), OpV::StoreVar(var)), OpV::Pop), OpV::Jump(cond_start));
            let loop_end = s17.code.len() as usize;
            let p = CgState { code: patch(s17.code, jif, loop_end), ..s17 };
            lemma_expr_grows(k, st, start);
            lemma_expr_grows(k, s3, end);
            lemma_stmts_len(k, s8, body);
            lemma_patch_frame(s17.code, jif, loop_end);
            lemma_patch_all_len(p.code, p.loops.last().0, loop_end);
            lemma_patch_all_len(patch_all(p.code, p.loops.last().0, loop_end), p.loops.last().1, incr);
        },
        StmtV::Return(e) => if let Some(x) = e {
            lemma_expr_grows(k, st, x);
        },
        StmtV::Block(b) => lemma_stmts_len(k, emit(st, OpV::PushScope), b),
        _ => {},
    }
}

/// The code of statements is at least as long as the code before them.
proof fn lemma_stmts_len(k: Seq<Seq<char>>, st: CgState, ss: Seq<StmtV>)
    ensures
        st.code.len() <= cg_stmts(k, st, ss).code.len(),
    decreases ss, 0nat,
{
    if ss.len() > 0 {
        lemma_stmts_len(k, st, ss.drop_last());
        lemma_stmt_len(k, cg_stmts(k, st, ss.drop_last()), ss.last());
    }
}


/// How an `IF` runs: its code is the code of the condition, then a
/// conditional jump, then the `THEN` branch in a scope of its own (opened
/// by `PushScope`, closed by `PopScope`). Without `ELSE`, the conditional
/// jump leads just past the whole statement; with `ELSE`, it leads to the
/// `ELSE` branch, which follows, in a scope of its own, a jump from the end
/// of the `THEN` branch to just past the whole statement.
pub proof fn lemma_if_jumps(
    k: Seq<Seq<char>>,
    st: CgState,
    cond: ExprV,
    then_branch: Seq<StmtV>,
    else_branch: Option<Seq<StmtV>>,
)
    requires
        cg_stmt(k, st, StmtV::If { cond, then_branch, else_branch }).code.len() <= usize::MAX,
    ensures
        ({
            let c = cg_expr(k, st, cond).code;
            let r = cg_stmt(k, st, StmtV::If { cond, then_branch, else_branch }).code;
            let j = c.len() as int;
            &&& r.len() >= j + 3
            &&& r.subrange(0, j) == c
            &&& r[j + 1] == OpV::PushScope
            &&& r[r.len() - 1] == OpV::PopScope
            &&& else_branch is None ==> r[j] == OpV::JumpIfFalse(r.len() as usize)
            &&& else_branch is Some ==> exists|m: int|
                j + 2 < m < r.len() - 2 && r[j] == OpV::JumpIfFalse((m + 1) as usize) && r[m - 1] == OpV::PopScope
                    && #[trigger] r[m] == OpV::Jump(r.len() as usize) && r[m + 1] == OpV::PushScope
        }),
{
    lemma_if_parts(k, st, StmtV::If { cond, then_branch, else_branch });
}

/// How a `WHILE` runs: its code is the code of the condition, then a
/// conditional jump to just past the loop, then the body in a scope of its
/// own, then a jump back to the start of the condition.
pub proof fn lemma_while_jumps(k: Seq<Seq<char>>, st: CgState, cond: ExprV, body: Seq<StmtV>)
    requires
        cg_stmt(k, st, StmtV::While { cond, body }).code.len() <= usize::MAX,
    ensures
        ({
            let c = cg_expr(k, st, cond).code;
            let r = cg_stmt(k, st, StmtV::While { cond, body }).code;
            let j = c.len() as int;
            &&& r.len() >= j + 4
            &&& r.subrange(0, j) == c
            &&& r[j] == OpV::JumpIfFalse(r.len() as usize)
            &&& r[j + 1] == OpV::PushScope
            &&& r[r.len() - 2] == OpV::PopScope
            &&& r[r.len() - 1] == OpV::Jump(st.code.len() as usize)
        }),
{
    lemma_while_parts(k, st, StmtV::While { cond, body });
}

} // verus!
