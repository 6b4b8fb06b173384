//! What the type checker knows of the builtins from the start, what it
//! infers for their calls, and how a block scopes its declarations.
use vstd::prelude::*;
use crate::ast::{BinOp, ExprV, ParamV, StmtV, TypeAnnotation};
use crate::typechecker::{
    check_args_from, declare_typed, infer, infer_all, initial_ty, or_any, sig_get, spec_compatible, ty_check_block,
    ty_check_stmt, ty_check_stmts, ty_declare, ty_lookup, ty_push_scope, ty_same_outer, TyState,
};

verus! {

/// A call of a function whose one parameter is `Any` has the function's
/// result type, whatever the type of its argument.
proof fn lemma_call_any_param(st: TyState, f: Seq<char>, e: ExprV, ret: TypeAnnotation)
    requires
        sig_get(st.funcs, f) == Some((seq![TypeAnnotation::Any], ret)),
        infer(st, e) is Ok,
    ensures
        infer(st, ExprV::Call(f, seq![e])) == Ok::<TypeAnnotation, Seq<char>>(ret),
{
    let args = seq![e];
    let t = infer(st, e)->Ok_0;
    assert(args.drop_last() =~= Seq::<ExprV>::empty());
    assert(infer_all(st, Seq::<ExprV>::empty()) == Ok::<Seq<TypeAnnotation>, Seq<char>>(Seq::empty()));
    assert(infer_all(st, args) == Ok::<Seq<TypeAnnotation>, Seq<char>>(Seq::<TypeAnnotation>::empty().push(t)));
    let tys = Seq::<TypeAnnotation>::empty().push(t);
    let ps = seq![TypeAnnotation::Any];
    assert(spec_compatible(ps[0], tys[0]));
    assert(check_args_from(f, ps, tys, 1) == Ok::<(), Seq<char>>(()));
    assert(check_args_from(f, ps, tys, 0) == Ok::<(), Seq<char>>(()));
}

/// The signatures that a fresh type checker holds for the builtins:
/// `len(any) -> int`, `push(any, any) -> nil`, `to_string(any) -> string`,
/// `to_int(any) -> int`, `to_float(any) -> float`,
/// `json_stringify(any) -> string` and `json_parse(string) -> any`.
pub proof fn lemma_builtin_signatures()
    ensures
        sig_get(initial_ty().funcs, "len"@) == Some((seq![TypeAnnotation::Any], TypeAnnotation::Int)),
        sig_get(initial_ty().funcs, "push"@) == Some(
            (seq![TypeAnnotation::Any, TypeAnnotation::Any], TypeAnnotation::Nil),
        ),
        sig_get(initial_ty().funcs, "to_string"@) == Some((seq![TypeAnnotation::Any], TypeAnnotation::String)),
        sig_get(initial_ty().funcs, "to_int"@) == Some((seq![TypeAnnotation::Any], TypeAnnotation::Int)),
        sig_get(initial_ty().funcs, "to_float"@) == Some((seq![TypeAnnotation::Any], TypeAnnotation::Float)),
        sig_get(initial_ty().funcs, "json_stringify"@) == Some(
            (seq![TypeAnnotation::Any], TypeAnnotation::String),
        ),
        sig_get(initial_ty().funcs, "json_parse"@) == Some((seq![TypeAnnotation::String], TypeAnnotation::Any)),
{
    reveal_with_fuel(sig_get, 8);
    reveal_strlit("len");
    reveal_strlit("push");
    reveal_strlit("to_string");
    reveal_strlit("to_int");
    reveal_strlit("to_float");
    reveal_strlit("json_stringify");
    reveal_strlit("json_parse");
    let fs = initial_ty().funcs;
    assert(fs.len() == 7);
    assert(fs.drop_last().last().0 == "json_stringify"@);
    assert(fs.drop_last().drop_last().last().0 == "to_float"@);
    assert(fs.drop_last().drop_last().drop_last().last().0 == "to_int"@);
    assert(fs.drop_last().drop_last().drop_last().drop_last().last().0 == "to_string"@);
    assert(fs.drop_last().drop_last().drop_last().drop_last().drop_last().last().0 == "push"@);
    assert(fs.drop_last().drop_last().drop_last().drop_last().drop_last().drop_last().last().0 == "len"@);
    assert("json_parse"@ != "json_stringify"@);
    assert("json_parse"@ != "to_float"@);
    assert("json_parse"@ != "to_int"@);
    assert("json_parse"@ != "to_string"@);
    assert("json_parse"@ != "push"@);
    assert("json_stringify"@ != "to_float"@);
    assert("json_stringify"@ != "to_int"@);
    assert("json_stringify"@ != "to_string"@);
    assert("json_stringify"@ != "push"@);
    assert("to_float"@ != "to_int"@);
    assert("to_float"@ != "to_string"@);
    assert("to_float"@ != "push"@);
    assert("to_int"@ != "to_string"@);
    assert("to_int"@ != "push"@);
    assert("to_string"@ != "push"@);
    assert("json_parse"@ != "len"@);
    assert("json_stringify"@ != "len"@);
    assert("to_float"@ != "len"@);
    assert("to_int"@ != "len"@);
    assert("to_string"@ != "len"@);
    assert("push"@ != "len"@);
}

/// Where the builtin signatures stand, a call of `to_string`, `len`,
/// `to_int`, `to_float` or `json_stringify` on any well-typed argument has
/// the documented result type: `string`, `int`, `int`, `float` and `string`.
/// So a typed declaration such as `LET s: string = to_string(x)` is
/// accepted, and gives the variable the declared type.
pub proof fn lemma_builtin_call_types(st: TyState, e: ExprV, name: Seq<char>, mutable: bool)
    requires
        st.funcs == initial_ty().funcs,
        infer(st, e) is Ok,
    ensures
        infer(st, ExprV::Call("to_string"@, seq![e])) == Ok::<TypeAnnotation, Seq<char>>(TypeAnnotation::String),
        infer(st, ExprV::Call("len"@, seq![e])) == Ok::<TypeAnnotation, Seq<char>>(TypeAnnotation::Int),
        infer(st, ExprV::Call("to_int"@, seq![e])) == Ok::<TypeAnnotation, Seq<char>>(TypeAnnotation::Int),
        infer(st, ExprV::Call("to_float"@, seq![e])) == Ok::<TypeAnnotation, Seq<char>>(TypeAnnotation::Float),
        infer(st, ExprV::Call("json_stringify"@, seq![e])) == Ok::<TypeAnnotation, Seq<char>>(
            TypeAnnotation::String,
        ),
        ty_check_stmt(
            st,
            StmtV::VarDecl {
                name,
                value: ExprV::Call("to_string"@, seq![e]),
                mutable,
                ty: Some(TypeAnnotation::String),
            },
        ) == Ok::<TyState, Seq<char>>(ty_declare(st, name, TypeAnnotation::String)),
{
    lemma_builtin_signatures();
    lemma_call_any_param(st, "to_string"@, e, TypeAnnotation::String);
    lemma_call_any_param(st, "len"@, e, TypeAnnotation::Int);
    lemma_call_any_param(st, "to_int"@, e, TypeAnnotation::Int);
    lemma_call_any_param(st, "to_float"@, e, TypeAnnotation::Float);
    lemma_call_any_param(st, "json_stringify"@, e, TypeAnnotation::String);
}

/// Declaring parameters changes nothing but the innermost scope.
proof fn lemma_declare_typed_outer(st: TyState, ps: Seq<ParamV>)
    requires
        st.scopes.len() >= 1,
    ensures
        ty_same_outer(st, declare_typed(st, ps)),
    decreases ps.len(),
{
    if ps.len() > 0 {
        lemma_declare_typed_outer(st, ps.drop_last());
        let st1 = declare_typed(st, ps.drop_last());
        assert(ty_declare(st1, ps.last().name, or_any(ps.last().ty)).scopes.drop_last() =~= st1.scopes.drop_last());
    }
}

/// A statement changes nothing but the innermost scope.
proof fn lemma_ty_stmt_outer(st: TyState, s: StmtV)
    requires
        st.scopes.len() >= 1,
    ensures
        ty_check_stmt(st, s) matches Ok(st2) ==> ty_same_outer(st, st2),
    decreases s, 0nat,
{
    match s {
        StmtV::VarDecl { name, .. } => {
            assert(ty_declare(st, name, TypeAnnotation::Any).scopes.drop_last() =~= st.scopes.drop_last());
            if let Ok(st2) = ty_check_stmt(st, s) {
                assert(st2.scopes.drop_last() =~= st.scopes.drop_last());
            }
        },
        StmtV::If { then_branch, else_branch, .. } => {
            lemma_ty_block_restores(st, then_branch);
            if let Some(b) = else_branch {
                lemma_ty_block_restores(st, b);
            }
        },
        StmtV::While { body, .. } => {
            lemma_ty_block_restores(st, body);
        },
        StmtV::ForIn { var, start, body, .. } => {
            if let Ok(a) = infer(st, start) {
                let p = ty_declare(ty_push_scope(st), var, a);
                lemma_ty_stmts_outer(p, body);
                if let Ok(st2) = ty_check_stmts(p, body) {
                    assert(st2.scopes.drop_last() =~= st.scopes);
                }
            }
        },
        StmtV::FnDecl { params, body, return_ty, .. } => {
            let p = ty_push_scope(st);
            lemma_declare_typed_outer(p, params);
            let st1 = TyState { ret: Some(or_any(return_ty)), ..declare_typed(p, params) };
            lemma_ty_stmts_outer(st1, body);
            if let Ok(st2) = ty_check_stmts(st1, body) {
                assert(st2.scopes.drop_last() =~= st.scopes);
            }
        },
        StmtV::Block(b) => {
            lemma_ty_block_restores(st, b);
        },
        _ => {},
    }
}

/// A run of statements changes nothing but the innermost scope.
proof fn lemma_ty_stmts_outer(st: TyState, ss: Seq<StmtV>)
    requires
        st.scopes.len() >= 1,
    ensures
        ty_check_stmts(st, ss) matches Ok(st2) ==> ty_same_outer(st, st2),
    decreases ss, 0nat,
{
    if ss.len() > 0 {
        lemma_ty_stmts_outer(st, ss.drop_last());
        if let Ok(st1) = ty_check_stmts(st, ss.drop_last()) {
            lemma_ty_stmt_outer(st1, ss.last());
        }
    }
}

/// A block is checked in a fresh innermost scope: it is accepted exactly
/// when its statements are accepted in the state with one more, empty,
/// scope, and on success the state after it is the state before it, so
/// the types that it gives its variables are not seen after it.
pub proof fn lemma_ty_block_restores(st: TyState, ss: Seq<StmtV>)
    ensures
        ty_check_block(st, ss) is Ok <==> ty_check_stmts(TyState { scopes: st.scopes.push(Seq::empty()), ..st }, ss) is Ok,
        ty_check_block(st, ss) matches Ok(st2) ==> st2 == st,
        ty_check_block(st, ss) matches Ok(st2) ==> forall|n: Seq<char>| ty_lookup(st2.scopes, n) == ty_lookup(st.scopes, n),
    decreases ss, 1nat,
{
    let p = ty_push_scope(st);
    assert(p == TyState { scopes: st.scopes.push(Seq::empty()), ..st });
    lemma_ty_stmts_outer(p, ss);
    if let Ok(st1) = ty_check_stmts(p, ss) {
        assert(st1.scopes.drop_last() =~= st.scopes);
    }
}

/// The declared type of a variable must accept its value: an `int` value
/// may stand where `float` is declared, but a `float` value is refused
/// where `int` is declared and an `int` value where `string` is, each with
/// the message that names both types.
pub proof fn lemma_declared_types(st: TyState, n: Seq<char>, mutable: bool, v: i64, t: Seq<char>)
    ensures
        ty_check_stmt(st, StmtV::VarDecl { name: n, value: ExprV::Int(v), mutable, ty: Some(TypeAnnotation::Float) })
            == Ok::<TyState, Seq<char>>(ty_declare(st, n, TypeAnnotation::Float)),
        ty_check_stmt(st, StmtV::VarDecl { name: n, value: ExprV::Int(v), mutable, ty: Some(TypeAnnotation::Int) })
            == Ok::<TyState, Seq<char>>(ty_declare(st, n, TypeAnnotation::Int)),
        ty_check_stmt(st, StmtV::VarDecl { name: n, value: ExprV::Float(t), mutable, ty: Some(TypeAnnotation::Int) })
            == Err::<TyState, Seq<char>>(
            "переменная '"@ + n + "' объявлена с типом "@ + "int"@ + ", но присвоено значение типа "@ + "float"@,
        ),
        ty_check_stmt(st, StmtV::VarDecl { name: n, value: ExprV::Int(v), mutable, ty: Some(TypeAnnotation::String) })
            == Err::<TyState, Seq<char>>(
            "переменная '"@ + n + "' объявлена с типом "@ + "string"@ + ", но присвоено значение типа "@ + "int"@,
        ),
{
}

/// Whether an operator is one of the arithmetic ones.
pub open spec fn arithmetic_op(op: BinOp) -> bool {
    op == BinOp::Add || op == BinOp::Sub || op == BinOp::Mul || op == BinOp::Div || op == BinOp::Mod
}

/// The type of a binary expression: arithmetic on two `int`s is `int`, on
/// an `int` and a `float` (either way round) or two `float`s is `float`;
/// `+` on two strings is `string`; comparisons and `AND`/`OR` are `bool`.
pub proof fn lemma_binary_types(st: TyState, op: BinOp, l: ExprV, r: ExprV)
    ensures
        arithmetic_op(op) && infer(st, l) == Ok::<TypeAnnotation, Seq<char>>(TypeAnnotation::Int)
            && infer(st, r) == Ok::<TypeAnnotation, Seq<char>>(TypeAnnotation::Int)
            ==> infer(st, ExprV::Binary(op, Box::new(l), Box::new(r))) == Ok::<TypeAnnotation, Seq<char>>(
            TypeAnnotation::Int,
        ),
        arithmetic_op(op) && infer(st, l) == Ok::<TypeAnnotation, Seq<char>>(TypeAnnotation::Int)
            && infer(st, r) == Ok::<TypeAnnotation, Seq<char>>(TypeAnnotation::Float)
            ==> infer(st, ExprV::Binary(op, Box::new(l), Box::new(r))) == Ok::<TypeAnnotation, Seq<char>>(
            TypeAnnotation::Float,
        ),
        arithmetic_op(op) && infer(st, l) == Ok::<TypeAnnotation, Seq<char>>(TypeAnnotation::Float)
            && infer(st, r) == Ok::<TypeAnnotation, Seq<char>>(TypeAnnotation::Int)
            ==> infer(st, ExprV::Binary(op, Box::new(l), Box::new(r))) == Ok::<TypeAnnotation, Seq<char>>(
            TypeAnnotation::Float,
        ),
        arithmetic_op(op) && infer(st, l) == Ok::<TypeAnnotation, Seq<char>>(TypeAnnotation::Float)
            && infer(st, r) == Ok::<TypeAnnotation, Seq<char>>(TypeAnnotation::Float)
            ==> infer(st, ExprV::Binary(op, Box::new(l), Box::new(r))) == Ok::<TypeAnnotation, Seq<char>>(
            TypeAnnotation::Float,
        ),
        infer(st, l) == Ok::<TypeAnnotation, Seq<char>>(TypeAnnotation::String)
            && infer(st, r) == Ok::<TypeAnnotation, Seq<char>>(TypeAnnotation::String)
            ==> infer(st, ExprV::Binary(BinOp::Add, Box::new(l), Box::new(r))) == Ok::<TypeAnnotation, Seq<char>>(
            TypeAnnotation::String,
        ),
        !arithmetic_op(op) && infer(st, l) is Ok && infer(st, r) is Ok
            ==> infer(st, ExprV::Binary(op, Box::new(l), Box::new(r))) == Ok::<TypeAnnotation, Seq<char>>(
            TypeAnnotation::Bool,
        ),
{
}


/// A function's declared result type is enforced on its `RETURN`s: in a
/// function declared to return `int`, returning an `int` is accepted and
/// returning a string is refused with the message that names both types;
/// outside any typed function a `RETURN` of anything is accepted.
pub proof fn lemma_return_types(st: TyState, v: i64, text: Seq<char>)
    ensures
        ty_check_stmt(TyState { ret: Some(TypeAnnotation::Int), ..st }, StmtV::Return(Some(ExprV::Int(v))))
            == Ok::<TyState, Seq<char>>(TyState { ret: Some(TypeAnnotation::Int), ..st }),
        ty_check_stmt(TyState { ret: Some(TypeAnnotation::Int), ..st }, StmtV::Return(Some(ExprV::Str(text))))
            == Err::<TyState, Seq<char>>(
            "функция объявлена с возвращаемым типом "@ + "int"@ + ", но RETURN возвращает "@ + "string"@,
        ),
        ty_check_stmt(TyState { ret: None, ..st }, StmtV::Return(Some(ExprV::Str(text)))) == Ok::<
            TyState,
            Seq<char>,
        >(TyState { ret: None, ..st }),
{
}

} // verus!
