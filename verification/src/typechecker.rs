//! Gradual type checking of SGA programs.
//!
//! Only what the program annotates is checked (`LET x: int = ...`,
//! `FN f(a: int) -> int`); a name without an annotation has the type `Any`,
//! which is compatible with everything. `int` is implicitly promoted to
//! `float`. Types are erased after this pass.
use vstd::prelude::*;
use crate::ast::{
    BinOp, Expr, ExprV, Param, ParamV, Stmt, StmtV, TypeAnnotation, UnOp, expr_view, exprs_view, fields_view,
    names_view, params_view, stmt_view, stmts_view,
};
use crate::text::{decimal, push_str, usize_to_string};

verus! {

/// A type error.
#[derive(Debug, Clone)]
pub struct TypeError {
    pub message: String,
}

impl TypeError {
    /// The error as it is shown to the user: `ошибка типов: ...`.
    pub fn describe(&self) -> (r: String)
        ensures
            r@ == "ошибка типов: "@ + self.message@,
    {
        let mut m = String::new();
        push_str(&mut m, "ошибка типов: ");
        push_str(&mut m, self.message.as_str());
        m
    }
}

/// A signature: the parameter types and the result type.
pub type SigV = (Seq<TypeAnnotation>, TypeAnnotation);

/// What the type checker knows at a point of the program: the types of the
/// visible variables (one list per scope), the signatures of the named
/// functions, and the declared result type of the function being checked.
pub struct TyState {
    pub scopes: Seq<Seq<(Seq<char>, TypeAnnotation)>>,
    pub funcs: Seq<(Seq<char>, SigV)>,
    pub ret: Option<TypeAnnotation>,
}

/// The result of checking a statement: the state after it, or a message.
pub type TyR = Result<TyState, Seq<char>>;

/// The result of inferring a type: the type, or a message.
pub type TyE = Result<TypeAnnotation, Seq<char>>;

/// The result of inferring several types.
pub type TysE = Result<Seq<TypeAnnotation>, Seq<char>>;

// ------------------------------------------------------------------ types

/// Whether a value of type `actual` may stand where `declared` is expected:
/// `Any` on either side, the same type, or `int` where `float` is declared.
pub open spec fn spec_compatible(declared: TypeAnnotation, actual: TypeAnnotation) -> bool {
    declared == TypeAnnotation::Any || actual == TypeAnnotation::Any || declared == actual
        || (declared == TypeAnnotation::Float && actual == TypeAnnotation::Int)
}

/// The name of a type in messages.
pub open spec fn spec_show(t: TypeAnnotation) -> Seq<char> {
    match t {
        TypeAnnotation::Int => "int"@,
        TypeAnnotation::Float => "float"@,
        TypeAnnotation::Bool => "bool"@,
        TypeAnnotation::String => "string"@,
        TypeAnnotation::Array => "array"@,
        TypeAnnotation::Closure => "closure"@,
        TypeAnnotation::Nil => "nil"@,
        TypeAnnotation::Any => "any"@,
    }
}

/// Whether a type is `int` or `float`.
pub open spec fn is_numeric(t: TypeAnnotation) -> bool {
    t == TypeAnnotation::Int || t == TypeAnnotation::Float
}

/// The type of a binary operation: comparisons and logic give `bool`;
/// arithmetic with an `Any` side gives `Any`, on two `int`s `int`, on
/// numbers with a `float` `float`; `+` also joins two strings.
pub open spec fn spec_infer_binary(op: BinOp, lt: TypeAnnotation, rt: TypeAnnotation) -> TyE {
    match op {
        BinOp::Eq | BinOp::NotEq | BinOp::Lt | BinOp::Gt | BinOp::LtEq | BinOp::GtEq | BinOp::And | BinOp::Or => Ok(
            TypeAnnotation::Bool,
        ),
        _ => if lt == TypeAnnotation::Any || rt == TypeAnnotation::Any {
            Ok(TypeAnnotation::Any)
        } else if lt == TypeAnnotation::Int && rt == TypeAnnotation::Int {
            Ok(TypeAnnotation::Int)
        } else if is_numeric(lt) && is_numeric(rt) {
            Ok(TypeAnnotation::Float)
        } else if op == BinOp::Add && lt == TypeAnnotation::String && rt == TypeAnnotation::String {
            Ok(TypeAnnotation::String)
        } else if op == BinOp::Add {
            Err("оператор '+' не определён для "@ + spec_show(lt) + " и "@ + spec_show(rt))
        } else {
            Err("арифметический оператор не определён для "@ + spec_show(lt) + " и "@ + spec_show(rt))
        },
    }
}

/// A missing annotation means `Any`.
pub open spec fn or_any(t: Option<TypeAnnotation>) -> TypeAnnotation {
    match t {
        Some(x) => x,
        None => TypeAnnotation::Any,
    }
}

// ------------------------------------------------------------------ tables

/// The type of `n` in one scope, searching from the latest declaration.
pub open spec fn ty_scope_get(sc: Seq<(Seq<char>, TypeAnnotation)>, n: Seq<char>) -> Option<TypeAnnotation>
    decreases sc.len(),
{
    if sc.len() == 0 {
        None
    } else if sc.last().0 == n {
        Some(sc.last().1)
    } else {
        ty_scope_get(sc.drop_last(), n)
    }
}

/// The type of the innermost visible variable named `n`; `Any` when there
/// is none.
pub open spec fn ty_lookup(scopes: Seq<Seq<(Seq<char>, TypeAnnotation)>>, n: Seq<char>) -> TypeAnnotation
    decreases scopes.len(),
{
    if scopes.len() == 0 {
        TypeAnnotation::Any
    } else {
        match ty_scope_get(scopes.last(), n) {
            Some(t) => t,
            None => ty_lookup(scopes.drop_last(), n),
        }
    }
}

/// The latest signature registered for `n`.
pub open spec fn sig_get(funcs: Seq<(Seq<char>, SigV)>, n: Seq<char>) -> Option<SigV>
    decreases funcs.len(),
{
    if funcs.len() == 0 {
        None
    } else if funcs.last().0 == n {
        Some(funcs.last().1)
    } else {
        sig_get(funcs.drop_last(), n)
    }
}

/// A new innermost scope.
pub open spec fn ty_push_scope(st: TyState) -> TyState {
    TyState { scopes: st.scopes.push(Seq::empty()), ..st }
}

/// Leaves the innermost scope.
pub open spec fn ty_pop_scope(st: TyState) -> TyState {
    TyState { scopes: st.scopes.drop_last(), ..st }
}

/// Gives `n` the type `t` in the innermost scope (a later declaration of the
/// same name replaces an earlier one).
pub open spec fn ty_declare(st: TyState, n: Seq<char>, t: TypeAnnotation) -> TyState {
    TyState { scopes: st.scopes.update(st.scopes.len() - 1, st.scopes.last().push((n, t))), ..st }
}

/// Declares names, all of type `Any`, in order.
pub open spec fn declare_any(st: TyState, ns: Seq<Seq<char>>) -> TyState
    decreases ns.len(),
{
    if ns.len() == 0 {
        st
    } else {
        ty_declare(declare_any(st, ns.drop_last()), ns.last(), TypeAnnotation::Any)
    }
}

/// Declares parameters with their annotated types, in order.
pub open spec fn declare_typed(st: TyState, ps: Seq<ParamV>) -> TyState
    decreases ps.len(),
{
    if ps.len() == 0 {
        st
    } else {
        ty_declare(declare_typed(st, ps.drop_last()), ps.last().name, or_any(ps.last().ty))
    }
}

/// The signature of a named function: its parameters' annotations and its
/// result annotation, `Any` where missing.
pub open spec fn sig_of(params: Seq<ParamV>, ret: Option<TypeAnnotation>) -> SigV {
    (params.map_values(|p: ParamV| or_any(p.ty)), or_any(ret))
}

/// The first argument, from the `i`-th on, whose type does not fit its
/// parameter.
pub open spec fn check_args_from(n: Seq<char>, params: Seq<TypeAnnotation>, actual: Seq<TypeAnnotation>, i: nat) -> Result<
    (),
    Seq<char>,
>
    decreases params.len() - i,
{
    if i >= params.len() || i >= actual.len() {
        Ok(())
    } else if !spec_compatible(params[i as int], actual[i as int]) {
        Err("функция '"@ + n + "': аргумент "@ + decimal(i + 1) + " должен быть "@ + spec_show(params[i as int])
            + ", передан "@ + spec_show(actual[i as int]))
    } else {
        check_args_from(n, params, actual, i + 1)
    }
}

/// The message for an index of a wrong type.
pub open spec fn msg_index(t: TypeAnnotation) -> Seq<char> {
    "индекс массива должен быть int, получено "@ + spec_show(t)
}

/// Whether a type may be indexed.
pub open spec fn indexable(t: TypeAnnotation) -> bool {
    t == TypeAnnotation::Any || t == TypeAnnotation::Array || t == TypeAnnotation::String
}

/// Whether a type may be used as an index.
pub open spec fn index_type(t: TypeAnnotation) -> bool {
    t == TypeAnnotation::Any || t == TypeAnnotation::Int
}

// ------------------------------------------------------------------ inference

/// The type of an expression, or the first type error in it.
pub open spec fn infer(st: TyState, e: ExprV) -> TyE
    decreases e, 0nat,
{
    match e {
        ExprV::Int(_) => Ok(TypeAnnotation::Int),
        ExprV::Float(_) => Ok(TypeAnnotation::Float),
        ExprV::Str(_) => Ok(TypeAnnotation::String),
        ExprV::Bool(_) => Ok(TypeAnnotation::Bool),
        ExprV::Nil => Ok(TypeAnnotation::Nil),
        ExprV::Ident(n) => Ok(ty_lookup(st.scopes, n)),
        ExprV::Array(items) => match infer_all(st, items) {
            Ok(_) => Ok(TypeAnnotation::Array),
            Err(m) => Err(m),
        },
        ExprV::Index(t, i) => match infer(st, *t) {
            Ok(tt) => match infer(st, *i) {
                Ok(it) => if !indexable(tt) {
                    Err("индексация '[...]' не определена для типа "@ + spec_show(tt))
                } else if !index_type(it) {
                    Err(msg_index(it))
                } else {
                    Ok(TypeAnnotation::Any)
                },
                Err(m) => Err(m),
            },
            Err(m) => Err(m),
        },
        ExprV::Unary(op, a) => match infer(st, *a) {
            Ok(t) => match op {
                UnOp::Not => Ok(TypeAnnotation::Bool),
                UnOp::Neg => if t == TypeAnnotation::Any || is_numeric(t) {
                    Ok(t)
                } else {
                    Err("унарный '-' не определён для "@ + spec_show(t))
                },
            },
            Err(m) => Err(m),
        },
        ExprV::Binary(op, l, r) => match infer(st, *l) {
            Ok(lt) => match infer(st, *r) {
                Ok(rt) => spec_infer_binary(op, lt, rt),
                Err(m) => Err(m),
            },
            Err(m) => Err(m),
        },
        ExprV::Call(n, args) => match infer_all(st, args) {
            Ok(tys) => match sig_get(st.funcs, n) {
                Some(sig) => match check_args_from(n, sig.0, tys, 0) {
                    Ok(_) => Ok(sig.1),
                    Err(m) => Err(m),
                },
                None => Ok(TypeAnnotation::Any),
            },
            Err(m) => Err(m),
        },
        ExprV::CallExpr(c, args) => match infer(st, *c) {
            Ok(ct) => if ct != TypeAnnotation::Any && ct != TypeAnnotation::Closure {
                Err("вызов значения типа "@ + spec_show(ct) + " как функции невозможен (ожидался closure)"@)
            } else {
                match infer_all(st, args) {
                    Ok(_) => Ok(TypeAnnotation::Any),
                    Err(m) => Err(m),
                }
            },
            Err(m) => Err(m),
        },
        ExprV::Assign(n, v) => match infer(st, *v) {
            Ok(vt) => {
                let declared = ty_lookup(st.scopes, n);
                if !spec_compatible(declared, vt) {
                    Err("невозможно присвоить значение типа "@ + spec_show(vt) + " переменной '"@ + n
                        + "' (объявлена как "@ + spec_show(declared) + ")"@)
                } else if declared == TypeAnnotation::Any {
                    Ok(vt)
                } else {
                    Ok(declared)
                }
            },
            Err(m) => Err(m),
        },
        ExprV::IndexAssign(t, i, v) => match infer(st, *t) {
            Ok(tt) => match infer(st, *i) {
                Ok(it) => if tt != TypeAnnotation::Any && tt != TypeAnnotation::Array {
                    Err("индексное присваивание не определено для типа "@ + spec_show(tt))
                } else if !index_type(it) {
                    Err(msg_index(it))
                } else {
                    infer(st, *v)
                },
                Err(m) => Err(m),
            },
            Err(m) => Err(m),
        },
        ExprV::Lambda { params, body } => {
            let st1 = TyState { ret: Some(TypeAnnotation::Any), ..declare_any(ty_push_scope(st), params) };
            match ty_check_stmts(st1, body) {
                Ok(_) => Ok(TypeAnnotation::Closure),
                Err(m) => Err(m),
            }
        },
        ExprV::StructLit { fields, .. } => match infer_fields(st, fields) {
            Ok(_) => Ok(TypeAnnotation::Any),
            Err(m) => Err(m),
        },
        ExprV::FieldAccess(o, _) => match infer(st, *o) {
            Ok(_) => Ok(TypeAnnotation::Any),
            Err(m) => Err(m),
        },
        ExprV::FieldAssign(o, _, v) => match infer(st, *o) {
            Ok(_) => infer(st, *v),
            Err(m) => Err(m),
        },
        ExprV::MethodCall(o, _, args) => match infer(st, *o) {
            Ok(_) => match infer_all(st, args) {
                Ok(_) => Ok(TypeAnnotation::Any),
                Err(m) => Err(m),
            },
            Err(m) => Err(m),
        },
    }
}

/// The types of expressions, in order, or the first error.
pub open spec fn infer_all(st: TyState, es: Seq<ExprV>) -> TysE
    decreases es, 0nat,
{
    if es.len() == 0 {
        Ok(Seq::empty())
    } else {
        match infer_all(st, es.drop_last()) {
            Ok(ts) => match infer(st, es.last()) {
                Ok(t) => Ok(ts.push(t)),
                Err(m) => Err(m),
            },
            Err(m) => Err(m),
        }
    }
}

/// The first error in the values of a struct literal's fields.
pub open spec fn infer_fields(st: TyState, fs: Seq<(Seq<char>, ExprV)>) -> Result<(), Seq<char>>
    decreases fs, 0nat,
{
    if fs.len() == 0 {
        Ok(())
    } else {
        match infer_fields(st, fs.drop_last()) {
            Ok(_) => match infer(st, fs.last().1) {
                Ok(_) => Ok(()),
                Err(m) => Err(m),
            },
            Err(m) => Err(m),
        }
    }
}

/// Checks statements in order, each in the state the previous one left.
pub open spec fn ty_check_stmts(st: TyState, ss: Seq<StmtV>) -> TyR
    decreases ss, 0nat,
{
    if ss.len() == 0 {
        Ok(st)
    } else {
        match ty_check_stmts(st, ss.drop_last()) {
            Ok(st1) => ty_check_stmt(st1, ss.last()),
            Err(m) => Err(m),
        }
    }
}

/// Checks a block in a scope of its own.
pub open spec fn ty_check_block(st: TyState, ss: Seq<StmtV>) -> TyR
    decreases ss, 1nat,
{
    match ty_check_stmts(ty_push_scope(st), ss) {
        Ok(st1) => Ok(ty_pop_scope(st1)),
        Err(m) => Err(m),
    }
}

/// Checks a statement.
pub open spec fn ty_check_stmt(st: TyState, s: StmtV) -> TyR
    decreases s, 0nat,
{
    match s {
        StmtV::VarDecl { name, value, ty, .. } => match infer(st, value) {
            Ok(vt) => match ty {
                Some(d) => if !spec_compatible(d, vt) {
                    Err("переменная '"@ + name + "' объявлена с типом "@ + spec_show(d)
                        + ", но присвоено значение типа "@ + spec_show(vt))
                } else {
                    Ok(ty_declare(st, name, d))
                },
                None => Ok(ty_declare(st, name, TypeAnnotation::Any)),
            },
            Err(m) => Err(m),
        },
        StmtV::ExprStmt(e) => match infer(st, e) {
            Ok(_) => Ok(st),
            Err(m) => Err(m),
        },
        StmtV::Print(args) => match infer_all(st, args) {
            Ok(_) => Ok(st),
            Err(m) => Err(m),
        },
        StmtV::If { cond, then_branch, else_branch } => match infer(st, cond) {
            Ok(_) => match ty_check_block(st, then_branch) {
                Ok(st1) => match else_branch {
                    Some(b) => ty_check_block(st1, b),
                    None => Ok(st1),
                },
                Err(m) => Err(m),
            },
            Err(m) => Err(m),
        },
        StmtV::While { cond, body } => match infer(st, cond) {
            Ok(_) => ty_check_block(st, body),
            Err(m) => Err(m),
        },
        StmtV::ForIn { var, start, end, body } => match infer(st, start) {
            Ok(a) => match infer(st, end) {
                Ok(b) => if !spec_compatible(a, b) {
                    Err("границы диапазона FOR..IN имеют несовместимые типы: "@ + spec_show(a) + " и "@
                        + spec_show(b))
                } else {
                    match ty_check_stmts(ty_declare(ty_push_scope(st), var, a), body) {
                        Ok(st2) => Ok(ty_pop_scope(st2)),
                        Err(m) => Err(m),
                    }
                },
                Err(m) => Err(m),
            },
            Err(m) => Err(m),
        },
        StmtV::FnDecl { params, body, return_ty, .. } => {
            let st1 = TyState { ret: Some(or_any(return_ty)), ..declare_typed(ty_push_scope(st), params) };
            match ty_check_stmts(st1, body) {
                Ok(st2) => Ok(TyState { ret: st.ret, ..ty_pop_scope(st2) }),
                Err(m) => Err(m),
            }
        },
        StmtV::Return(e) => {
            let actual = match e {
                Some(x) => infer(st, x),
                None => Ok(TypeAnnotation::Nil),
            };
            match actual {
                Ok(a) => match st.ret {
                    Some(expected) => if !spec_compatible(expected, a) {
                        Err("функция объявлена с возвращаемым типом "@ + spec_show(expected)
                            + ", но RETURN возвращает "@ + spec_show(a))
                    } else {
                        Ok(st)
                    },
                    None => Ok(st),
                },
                Err(m) => Err(m),
            }
        },
        StmtV::Break | StmtV::Continue => Ok(st),
        StmtV::Block(b) => ty_check_block(st, b),
        StmtV::Import(path) => Err(
            "IMPORT \""@ + path + "\" не был резолвлен до проверки типов — используйте sga::run_source_file()"@,
        ),
        StmtV::StructDecl { .. } => Ok(st),
    }
}

/// The first pass: registers the signature of each named function, in
/// order (a later one of the same name replaces an earlier one).
pub open spec fn collect_sigs(st: TyState, program: Seq<StmtV>) -> TyState
    decreases program.len(),
{
    if program.len() == 0 {
        st
    } else {
        let st1 = collect_sigs(st, program.drop_last());
        match program.last() {
            StmtV::FnDecl { name, params, return_ty, .. } => TyState {
                funcs: st1.funcs.push((name, sig_of(params, return_ty))),
                ..st1
            },
            _ => st1,
        }
    }
}

/// Checks a program: registers its signatures, then checks its statements
/// in order.
pub open spec fn spec_typecheck(st: TyState, program: Seq<StmtV>) -> TyR {
    ty_check_stmts(collect_sigs(st, program), program)
}

/// The signatures of the builtins that have one.
pub open spec fn builtin_sigs() -> Seq<(Seq<char>, SigV)> {
    seq![
        ("len"@, (seq![TypeAnnotation::Any], TypeAnnotation::Int)),
        ("push"@, (seq![TypeAnnotation::Any, TypeAnnotation::Any], TypeAnnotation::Nil)),
        ("to_string"@, (seq![TypeAnnotation::Any], TypeAnnotation::String)),
        ("to_int"@, (seq![TypeAnnotation::Any], TypeAnnotation::Int)),
        ("to_float"@, (seq![TypeAnnotation::Any], TypeAnnotation::Float)),
        ("json_stringify"@, (seq![TypeAnnotation::Any], TypeAnnotation::String)),
        ("json_parse"@, (seq![TypeAnnotation::String], TypeAnnotation::Any)),
    ]
}

/// The state of a fresh type checker: one empty global scope, the builtin
/// signatures, outside any function.
pub open spec fn initial_ty() -> TyState {
    TyState { scopes: seq![Seq::empty()], funcs: builtin_sigs(), ret: None }
}

/// `b` differs from `a` at most in the contents of the innermost scope.
pub open spec fn ty_same_outer(a: TyState, b: TyState) -> bool {
    &&& a.scopes.len() == b.scopes.len()
    &&& a.scopes.drop_last() == b.scopes.drop_last()
    &&& a.funcs == b.funcs
    &&& a.ret == b.ret
}


// ------------------------------------------------------------------ lemmas

/// An error in a prefix of the expressions is the error of them all.
pub proof fn lemma_infer_all_err(st: TyState, es: Seq<ExprV>, k: int)
    requires
        0 <= k <= es.len(),
        infer_all(st, es.take(k)) is Err,
    ensures
        infer_all(st, es) == infer_all(st, es.take(k)),
    decreases es.len(),
{
    if k == es.len() {
        assert(es.take(k) =~= es);
    } else {
        assert(es.drop_last().take(k) =~= es.take(k));
        lemma_infer_all_err(st, es.drop_last(), k);
    }
}

/// An error in a prefix of the fields is the error of them all.
pub proof fn lemma_infer_fields_err(st: TyState, fs: Seq<(Seq<char>, ExprV)>, k: int)
    requires
        0 <= k <= fs.len(),
        infer_fields(st, fs.take(k)) is Err,
    ensures
        infer_fields(st, fs) == infer_fields(st, fs.take(k)),
    decreases fs.len(),
{
    if k == fs.len() {
        assert(fs.take(k) =~= fs);
    } else {
        assert(fs.drop_last().take(k) =~= fs.take(k));
        lemma_infer_fields_err(st, fs.drop_last(), k);
    }
}

/// An error in a prefix of the statements is the error of them all.
pub proof fn lemma_ty_check_stmts_err(st: TyState, ss: Seq<StmtV>, k: int)
    requires
        0 <= k <= ss.len(),
        ty_check_stmts(st, ss.take(k)) is Err,
    ensures
        ty_check_stmts(st, ss) == ty_check_stmts(st, ss.take(k)),
    decreases ss.len(),
{
    if k == ss.len() {
        assert(ss.take(k) =~= ss);
    } else {
        assert(ss.drop_last().take(k) =~= ss.take(k));
        lemma_ty_check_stmts_err(st, ss.drop_last(), k);
    }
}

// ------------------------------------------------------------------ executable

/// A type result as a type or an error message.
pub open spec fn ty_res(r: Result<TypeAnnotation, TypeError>) -> TyE {
    match r {
        Ok(t) => Ok(t),
        Err(x) => Err(x.message@),
    }
}

/// Whether a value of type `actual` may stand where `declared` is expected.
pub fn compatible(declared: TypeAnnotation, actual: TypeAnnotation) -> (r: bool)
    ensures
        r == spec_compatible(declared, actual),
{
    declared == TypeAnnotation::Any || actual == TypeAnnotation::Any || declared == actual
        || (declared == TypeAnnotation::Float && actual == TypeAnnotation::Int)
}

/// The name of a type in messages.
pub fn show(t: TypeAnnotation) -> (r: &'static str)
    ensures
        r@ == spec_show(t),
{
    match t {
        TypeAnnotation::Int => "int",
        TypeAnnotation::Float => "float",
        TypeAnnotation::Bool => "bool",
        TypeAnnotation::String => "string",
        TypeAnnotation::Array => "array",
        TypeAnnotation::Closure => "closure",
        TypeAnnotation::Nil => "nil",
        TypeAnnotation::Any => "any",
    }
}

fn terr(parts: (&str, &str, &str, &str)) -> (r: TypeError)
    ensures
        r.message@ == parts.0@ + parts.1@ + parts.2@ + parts.3@,
{
    let mut m = String::new();
    push_str(&mut m, parts.0);
    push_str(&mut m, parts.1);
    push_str(&mut m, parts.2);
    push_str(&mut m, parts.3);
    TypeError { message: m }
}

fn terr3(a: &str, b: &str, c: &str) -> (r: TypeError)
    ensures
        r.message@ == a@ + b@ + c@,
{
    let mut m = String::new();
    push_str(&mut m, a);
    push_str(&mut m, b);
    push_str(&mut m, c);
    TypeError { message: m }
}

fn terr2(a: &str, b: &str) -> (r: TypeError)
    ensures
        r.message@ == a@ + b@,
{
    let mut m = String::new();
    push_str(&mut m, a);
    push_str(&mut m, b);
    TypeError { message: m }
}

fn is_num(t: TypeAnnotation) -> (r: bool)
    ensures
        r == is_numeric(t),
{
    t == TypeAnnotation::Int || t == TypeAnnotation::Float
}

/// The type of a binary operation on operands of types `lt` and `rt`.
pub fn infer_binary(op: BinOp, lt: TypeAnnotation, rt: TypeAnnotation) -> (r: Result<TypeAnnotation, TypeError>)
    ensures
        ty_res(r) == spec_infer_binary(op, lt, rt),
{
    match op {
        BinOp::Eq | BinOp::NotEq | BinOp::Lt | BinOp::Gt | BinOp::LtEq | BinOp::GtEq | BinOp::And | BinOp::Or => {
            return Ok(TypeAnnotation::Bool);
        },
        _ => {},
    }
    if lt == TypeAnnotation::Any || rt == TypeAnnotation::Any {
        Ok(TypeAnnotation::Any)
    } else if lt == TypeAnnotation::Int && rt == TypeAnnotation::Int {
        Ok(TypeAnnotation::Int)
    } else if is_num(lt) && is_num(rt) {
        Ok(TypeAnnotation::Float)
    } else if op == BinOp::Add && lt == TypeAnnotation::String && rt == TypeAnnotation::String {
        Ok(TypeAnnotation::String)
    } else if op == BinOp::Add {
        Err(terr(("оператор '+' не определён для ", show(lt), " и ", show(rt))))
    } else {
        Err(terr(("арифметический оператор не определён для ", show(lt), " и ", show(rt))))
    }
}

/// Checks each argument type against its parameter type.
fn check_args(n: &String, params: &Vec<TypeAnnotation>, actual: &Vec<TypeAnnotation>) -> (r: Result<(), TypeError>)
    ensures
        check_args_from(n@, params@, actual@, 0) == match r {
            Ok(_) => Ok::<(), Seq<char>>(()),
            Err(x) => Err(x.message@),
        },
{
    let mut i: usize = 0;
    while i < params.len() && i < actual.len()
        invariant
            i <= params.len(),
            check_args_from(n@, params@, actual@, 0) == check_args_from(n@, params@, actual@, i as nat),
        decreases params.len() - i,
    {
        if !compatible(params[i], actual[i]) {
            let mut m = String::new();
            push_str(&mut m, "функция '");
            push_str(&mut m, n.as_str());
            push_str(&mut m, "': аргумент ");
            let k = usize_to_string(i + 1);
            push_str(&mut m, k.as_str());
            push_str(&mut m, " должен быть ");
            push_str(&mut m, show(params[i]));
            push_str(&mut m, ", передан ");
            push_str(&mut m, show(actual[i]));
            return Err(TypeError { message: m });
        }
        i = i + 1;
    }
    Ok(())
}

/// The view of one scope.
pub open spec fn ty_scope_view(sc: Seq<(String, TypeAnnotation)>) -> Seq<(Seq<char>, TypeAnnotation)> {
    sc.map_values(|p: (String, TypeAnnotation)| (p.0@, p.1))
}

/// The view of the scopes.
pub open spec fn ty_scopes_view(scs: Seq<Vec<(String, TypeAnnotation)>>) -> Seq<Seq<(Seq<char>, TypeAnnotation)>> {
    scs.map_values(|sc: Vec<(String, TypeAnnotation)>| ty_scope_view(sc@))
}

/// The view of the signature table.
pub open spec fn sigs_view(fs: Seq<(String, Vec<TypeAnnotation>, TypeAnnotation)>) -> Seq<(Seq<char>, SigV)> {
    fs.map_values(|f: (String, Vec<TypeAnnotation>, TypeAnnotation)| (f.0@, (f.1@, f.2)))
}

fn ty_scope_find(sc: &Vec<(String, TypeAnnotation)>, n: &String) -> (r: Option<TypeAnnotation>)
    ensures
        r == ty_scope_get(ty_scope_view(sc@), n@),
{
    let mut i = sc.len();
    assert(ty_scope_view(sc@).take(i as int) =~= ty_scope_view(sc@));
    while i > 0
        invariant
            i <= sc.len(),
            ty_scope_get(ty_scope_view(sc@), n@) == ty_scope_get(ty_scope_view(sc@).take(i as int), n@),
        decreases i,
    {
        let ghost v = ty_scope_view(sc@);
        assert(v.take(i as int).drop_last() =~= v.take(i - 1));
        if crate::semantic::str_eq(&sc[i - 1].0, n) {
            return Some(sc[i - 1].1);
        }
        i = i - 1;
    }
    None
}

/// The types of a list of parameters, `Any` where not annotated.
fn param_types(ps: &Vec<Param>) -> (r: Vec<TypeAnnotation>)
    ensures
        r@ == params_view(ps@).map_values(|p: ParamV| or_any(p.ty)),
{
    let mut r: Vec<TypeAnnotation> = Vec::new();
    let mut i: usize = 0;
    while i < ps.len()
        invariant
            i <= ps.len(),
            r@ == params_view(ps@).take(i as int).map_values(|p: ParamV| or_any(p.ty)),
        decreases ps.len() - i,
    {
        let t = match ps[i].ty {
            Some(x) => x,
            None => TypeAnnotation::Any,
        };
        r.push(t);
        assert(r@ =~= params_view(ps@).take(i + 1).map_values(|p: ParamV| or_any(p.ty)));
        i = i + 1;
    }
    assert(params_view(ps@).take(ps.len() as int) =~= params_view(ps@));
    r
}

/// The type checker: the types of the visible variables, the signatures of
/// the named functions and builtins, and the declared result type of the
/// function being checked.
pub struct Typechecker {
    scopes: Vec<Vec<(String, TypeAnnotation)>>,
    functions: Vec<(String, Vec<TypeAnnotation>, TypeAnnotation)>,
    current_return_ty: Option<TypeAnnotation>,
}

impl View for Typechecker {
    type V = TyState;

    closed spec fn view(&self) -> TyState {
        TyState {
            scopes: ty_scopes_view(self.scopes@),
            funcs: sigs_view(self.functions@),
            ret: self.current_return_ty,
        }
    }
}

fn builtin_sig(name: &str, params: Vec<TypeAnnotation>, ret: TypeAnnotation) -> (r: (String, Vec<TypeAnnotation>, TypeAnnotation))
    ensures
        r.0@ == name@,
        r.1@ == params@,
        r.2 == ret,
{
    let mut n = String::new();
    push_str(&mut n, name);
    (n, params, ret)
}

impl Typechecker {
    /// There is always at least the global scope.
    pub closed spec fn wf(&self) -> bool {
        self.scopes.len() >= 1
    }

    /// A fresh type checker: one empty global scope and the signatures of
    /// `len`, `push`, `to_string`, `to_int`, `to_float`, `json_stringify`
    /// and `json_parse`.
    pub fn new() -> (r: Self)
        ensures
            r.wf(),
            r@ == initial_ty(),
    {
        let mut functions: Vec<(String, Vec<TypeAnnotation>, TypeAnnotation)> = Vec::new();
        functions.push(builtin_sig("len", vec![TypeAnnotation::Any], TypeAnnotation::Int));
        functions.push(builtin_sig("push", vec![TypeAnnotation::Any, TypeAnnotation::Any], TypeAnnotation::Nil));
        functions.push(builtin_sig("to_string", vec![TypeAnnotation::Any], TypeAnnotation::String));
        functions.push(builtin_sig("to_int", vec![TypeAnnotation::Any], TypeAnnotation::Int));
        functions.push(builtin_sig("to_float", vec![TypeAnnotation::Any], TypeAnnotation::Float));
        functions.push(builtin_sig("json_stringify", vec![TypeAnnotation::Any], TypeAnnotation::String));
        functions.push(builtin_sig("json_parse", vec![TypeAnnotation::String], TypeAnnotation::Any));
        let mut scopes: Vec<Vec<(String, TypeAnnotation)>> = Vec::new();
        scopes.push(Vec::new());
        let r = Typechecker { scopes, functions, current_return_ty: None };
        assert(r@.scopes =~~= seq![Seq::<(Seq<char>, TypeAnnotation)>::empty()]);
        assert(r@.funcs =~~= builtin_sigs());
        r
    }

    fn push_scope(&mut self)
        requires
            old(self).wf(),
        ensures
            final(self).wf(),
            final(self)@ == ty_push_scope(old(self)@),
    {
        self.scopes.push(Vec::new());
        assert(final(self)@.scopes =~~= old(self)@.scopes.push(Seq::empty()));
    }

    fn pop_scope(&mut self)
        requires
            old(self).scopes.len() >= 2,
        ensures
            final(self).wf(),
            final(self)@ == ty_pop_scope(old(self)@),
    {
        self.scopes.pop();
        assert(final(self)@.scopes =~= old(self)@.scopes.drop_last());
    }

    fn declare(&mut self, n: &String, t: TypeAnnotation)
        requires
            old(self).wf(),
        ensures
            final(self).wf(),
            final(self)@ == ty_declare(old(self)@, n@, t),
            ty_same_outer(old(self)@, final(self)@),
    {
        let ghost old_v = self@;
        let mut top = self.scopes.pop().unwrap();
        top.push((n.clone(), t));
        self.scopes.push(top);
        assert(self@.scopes =~~= old_v.scopes.update(old_v.scopes.len() - 1, old_v.scopes.last().push((n@, t))));
        assert(self@.scopes.drop_last() =~= old_v.scopes.drop_last());
    }

    fn lookup(&self, n: &String) -> (r: TypeAnnotation)
        ensures
            r == ty_lookup(self@.scopes, n@),
    {
        let ghost v = self@.scopes;
        let mut i = self.scopes.len();
        assert(v.take(i as int) =~= v);
        while i > 0
            invariant
                i <= self.scopes.len(),
                v == self@.scopes,
                ty_lookup(v, n@) == ty_lookup(v.take(i as int), n@),
            decreases i,
        {
            assert(v.take(i as int).drop_last() =~= v.take(i - 1));
            match ty_scope_find(&self.scopes[i - 1], n) {
                Some(t) => return t,
                None => {},
            }
            i = i - 1;
        }
        TypeAnnotation::Any
    }

    fn sig_find(&self, n: &String) -> (r: Option<usize>)
        ensures
            match r {
                Some(i) => i < self.functions.len() && sig_get(self@.funcs, n@) == Some(
                    (self.functions@[i as int].1@, self.functions@[i as int].2),
                ),
                None => sig_get(self@.funcs, n@).is_none(),
            },
    {
        let ghost v = self@.funcs;
        let mut i = self.functions.len();
        assert(v.take(i as int) =~= v);
        while i > 0
            invariant
                i <= self.functions.len(),
                v == self@.funcs,
                sig_get(v, n@) == sig_get(v.take(i as int), n@),
            decreases i,
        {
            assert(v.take(i as int).drop_last() =~= v.take(i - 1));
            if crate::semantic::str_eq(&self.functions[i - 1].0, n) {
                return Some(i - 1);
            }
            i = i - 1;
        }
        None
    }

    fn declare_any(&mut self, ns: &Vec<String>)
        requires
            old(self).wf(),
        ensures
            final(self).wf(),
            final(self)@ == declare_any(old(self)@, names_view(ns@)),
            ty_same_outer(old(self)@, final(self)@),
    {
        let ghost v = names_view(ns@);
        let mut i: usize = 0;
        assert(v.take(0) =~= Seq::<Seq<char>>::empty());
        while i < ns.len()
            invariant
                i <= ns.len(),
                v == names_view(ns@),
                self.wf(),
                declare_any(old(self)@, v.take(i as int)) == self@,
                ty_same_outer(old(self)@, self@),
            decreases ns.len() - i,
        {
            assert(v.take(i + 1).drop_last() =~= v.take(i as int));
            assert(v.take(i + 1).last() == ns@[i as int]@);
            self.declare(&ns[i], TypeAnnotation::Any);
            i = i + 1;
        }
        assert(v.take(ns.len() as int) =~= v);
    }

    fn declare_typed(&mut self, ps: &Vec<Param>)
        requires
            old(self).wf(),
        ensures
            final(self).wf(),
            final(self)@ == declare_typed(old(self)@, params_view(ps@)),
            ty_same_outer(old(self)@, final(self)@),
    {
        let ghost v = params_view(ps@);
        let mut i: usize = 0;
        assert(v.take(0) =~= Seq::<ParamV>::empty());
        while i < ps.len()
            invariant
                i <= ps.len(),
                v == params_view(ps@),
                self.wf(),
                declare_typed(old(self)@, v.take(i as int)) == self@,
                ty_same_outer(old(self)@, self@),
            decreases ps.len() - i,
        {
            assert(v.take(i + 1).drop_last() =~= v.take(i as int));
            assert(v.take(i + 1).last() == ps@[i as int]@);
            let t = match ps[i].ty {
                Some(x) => x,
                None => TypeAnnotation::Any,
            };
            self.declare(&ps[i].name, t);
            i = i + 1;
        }
        assert(v.take(ps.len() as int) =~= v);
    }
}


impl Typechecker {
    fn infer(&mut self, e: &Expr) -> (r: Result<TypeAnnotation, TypeError>)
        requires
            old(self).wf(),
        ensures
            final(self).wf(),
            ty_res(r) == infer(old(self)@, expr_view(*e)),
            r is Ok ==> final(self)@ == old(self)@,
        decreases e, 1nat,
    {
        match e {
            Expr::Int(_) => Ok(TypeAnnotation::Int),
            Expr::Float(_) => Ok(TypeAnnotation::Float),
            Expr::Str(_) => Ok(TypeAnnotation::String),
            Expr::Bool(_) => Ok(TypeAnnotation::Bool),
            Expr::Nil => Ok(TypeAnnotation::Nil),
            Expr::Ident(n) => Ok(self.lookup(n)),
            Expr::Array(items) => {
                match self.infer_all(items) {
                    Ok(_) => Ok(TypeAnnotation::Array),
                    Err(x) => Err(x),
                }
            },
            Expr::StructLit { fields, .. } => {
                match self.infer_fields(fields) {
                    Ok(_) => Ok(TypeAnnotation::Any),
                    Err(x) => Err(x),
                }
            },
            Expr::Index(..) | Expr::IndexAssign(..) | Expr::FieldAccess(..) | Expr::FieldAssign(..) => self.infer_access(e),
            Expr::Unary(..) | Expr::Binary(..) | Expr::Assign(..) => self.infer_ops(e),
            Expr::Call(..) | Expr::CallExpr(..) | Expr::MethodCall(..) => self.infer_calls(e),
            Expr::Lambda { .. } => self.infer_lambda(e),
        }
    }

    /// The type of an indexing or field expression.
    fn infer_access(&mut self, e: &Expr) -> (r: Result<TypeAnnotation, TypeError>)
        requires
            old(self).wf(),
            e is Index || e is IndexAssign || e is FieldAccess || e is FieldAssign,
        ensures
            final(self).wf(),
            ty_res(r) == infer(old(self)@, expr_view(*e)),
            r is Ok ==> final(self)@ == old(self)@,
        decreases e, 0nat,
    {
        match e {
            Expr::Index(t, i) => {
                let tt = match self.infer(t) {
                    Ok(x) => x,
                    Err(x) => return Err(x),
                };
                let it = match self.infer(i) {
                    Ok(x) => x,
                    Err(x) => return Err(x),
                };
                if !(tt == TypeAnnotation::Any || tt == TypeAnnotation::Array || tt == TypeAnnotation::String) {
                    Err(terr2("индексация '[...]' не определена для типа ", show(tt)))
                } else if !(it == TypeAnnotation::Any || it == TypeAnnotation::Int) {
                    Err(terr2("индекс массива должен быть int, получено ", show(it)))
                } else {
                    Ok(TypeAnnotation::Any)
                }
            },
            Expr::IndexAssign(t, i, v) => {
                let tt = match self.infer(t) {
                    Ok(x) => x,
                    Err(x) => return Err(x),
                };
                let it = match self.infer(i) {
                    Ok(x) => x,
                    Err(x) => return Err(x),
                };
                if tt != TypeAnnotation::Any && tt != TypeAnnotation::Array {
                    Err(terr2("индексное присваивание не определено для типа ", show(tt)))
                } else if !(it == TypeAnnotation::Any || it == TypeAnnotation::Int) {
                    Err(terr2("индекс массива должен быть int, получено ", show(it)))
                } else {
                    self.infer(v)
                }
            },
            Expr::FieldAccess(o, _) => {
                match self.infer(o) {
                    Ok(_) => Ok(TypeAnnotation::Any),
                    Err(x) => Err(x),
                }
            },
            Expr::FieldAssign(o, _, v) => {
                match self.infer(o) {
                    Ok(_) => {},
                    Err(x) => return Err(x),
                }
                self.infer(v)
            },
            _ => Ok(TypeAnnotation::Any),
        }
    }

    /// The type of an operation or an assignment.
    fn infer_ops(&mut self, e: &Expr) -> (r: Result<TypeAnnotation, TypeError>)
        requires
            old(self).wf(),
            e is Unary || e is Binary || e is Assign,
        ensures
            final(self).wf(),
            ty_res(r) == infer(old(self)@, expr_view(*e)),
            r is Ok ==> final(self)@ == old(self)@,
        decreases e, 0nat,
    {
        match e {
            Expr::Unary(op, a) => {
                let t = match self.infer(a) {
                    Ok(x) => x,
                    Err(x) => return Err(x),
                };
                match op {
                    UnOp::Not => Ok(TypeAnnotation::Bool),
                    UnOp::Neg => {
                        if t == TypeAnnotation::Any || is_num(t) {
                            Ok(t)
                        } else {
                            Err(terr2("унарный '-' не определён для ", show(t)))
                        }
                    },
                }
            },
            Expr::Binary(op, l, r) => {
                let lt = match self.infer(l) {
                    Ok(x) => x,
                    Err(x) => return Err(x),
                };
                let rt = match self.infer(r) {
                    Ok(x) => x,
                    Err(x) => return Err(x),
                };
                infer_binary(*op, lt, rt)
            },
            Expr::Assign(n, v) => {
                let vt = match self.infer(v) {
                    Ok(x) => x,
                    Err(x) => return Err(x),
                };
                let declared = self.lookup(n);
                if !compatible(declared, vt) {
                    let mut m = String::new();
                    push_str(&mut m, "невозможно присвоить значение типа ");
                    push_str(&mut m, show(vt));
                    push_str(&mut m, " переменной '");
                    push_str(&mut m, n.as_str());
                    push_str(&mut m, "' (объявлена как ");
                    push_str(&mut m, show(declared));
                    push_str(&mut m, ")");
                    Err(TypeError { message: m })
                } else if declared == TypeAnnotation::Any {
                    Ok(vt)
                } else {
                    Ok(declared)
                }
            },
            _ => Ok(TypeAnnotation::Any),
        }
    }

    /// The type of a call.
    fn infer_calls(&mut self, e: &Expr) -> (r: Result<TypeAnnotation, TypeError>)
        requires
            old(self).wf(),
            e is Call || e is CallExpr || e is MethodCall,
        ensures
            final(self).wf(),
            ty_res(r) == infer(old(self)@, expr_view(*e)),
            r is Ok ==> final(self)@ == old(self)@,
        decreases e, 0nat,
    {
        match e {
            Expr::Call(n, args) => {
                let tys = match self.infer_all(args) {
                    Ok(x) => x,
                    Err(x) => return Err(x),
                };
                match self.sig_find(n) {
                    Some(k) => {
                        match check_args(n, &self.functions[k].1, &tys) {
                            Ok(_) => Ok(self.functions[k].2),
                            Err(x) => Err(x),
                        }
                    },
                    None => Ok(TypeAnnotation::Any),
                }
            },
            Expr::CallExpr(c, args) => {
                let ct = match self.infer(c) {
                    Ok(x) => x,
                    Err(x) => return Err(x),
                };
                if ct != TypeAnnotation::Any && ct != TypeAnnotation::Closure {
                    return Err(terr3("вызов значения типа ", show(ct), " как функции невозможен (ожидался closure)"));
                }
                match self.infer_all(args) {
                    Ok(_) => Ok(TypeAnnotation::Any),
                    Err(x) => Err(x),
                }
            },
            Expr::MethodCall(o, _, args) => {
                match self.infer(o) {
                    Ok(_) => {},
                    Err(x) => return Err(x),
                }
                match self.infer_all(args) {
                    Ok(_) => Ok(TypeAnnotation::Any),
                    Err(x) => Err(x),
                }
            },

            _ => Ok(TypeAnnotation::Any),
        }
    }

    /// The type of an anonymous function: its body is checked in a scope of its own.
    fn infer_lambda(&mut self, e: &Expr) -> (r: Result<TypeAnnotation, TypeError>)
        requires
            old(self).wf(),
            e is Lambda,
        ensures
            final(self).wf(),
            ty_res(r) == infer(old(self)@, expr_view(*e)),
            r is Ok ==> final(self)@ == old(self)@,
        decreases e, 0nat,
    {
        match e {
            Expr::Lambda { params, body } => {
                let ghost st = self@;
                self.push_scope();
                self.declare_any(params);
                let prev = self.current_return_ty;
                self.current_return_ty = Some(TypeAnnotation::Any);
                match self.check_stmts(body) {
                    Ok(_) => {},
                    Err(x) => return Err(x),
                }
                self.current_return_ty = prev;
                self.pop_scope();
                assert(self@.scopes =~= st.scopes);
                Ok(TypeAnnotation::Closure)
            },
            _ => Ok(TypeAnnotation::Any),
        }
    }

    fn infer_all(&mut self, es: &Vec<Expr>) -> (r: Result<Vec<TypeAnnotation>, TypeError>)
        requires
            old(self).wf(),
        ensures
            final(self).wf(),
            match infer_all(old(self)@, exprs_view(es@)) {
                Ok(ts) => r matches Ok(v) && v@ == ts,
                Err(m) => r matches Err(x) && x.message@ == m,
            },
            r is Ok ==> final(self)@ == old(self)@,
        decreases es, 0nat,
    {
        let ghost v = exprs_view(es@);
        proof { crate::ast::lemma_exprs_view_index(es@); }
        let mut out: Vec<TypeAnnotation> = Vec::new();
        let mut i: usize = 0;
        assert(v.take(0) =~= Seq::<ExprV>::empty());
        while i < es.len()
            invariant
                i <= es.len(),
                v == exprs_view(es@),
                v.len() == es.len(),
                forall|j: int| 0 <= j < es.len() ==> #[trigger] v[j] == expr_view(es@[j]),
                self.wf(),
                self@ == old(self)@,
                infer_all(self@, v.take(i as int)) == Ok::<Seq<TypeAnnotation>, Seq<char>>(out@),
            decreases es.len() - i,
        {
            assert(v.take(i + 1).drop_last() =~= v.take(i as int));
            assert(v.take(i + 1).last() == expr_view(es@[i as int]));
            match self.infer(&es[i]) {
                Ok(t) => out.push(t),
                Err(x) => {
                    proof { lemma_infer_all_err(old(self)@, v, i + 1); }
                    return Err(x);
                },
            }
            i = i + 1;
        }
        assert(v.take(es.len() as int) =~= v);
        Ok(out)
    }

    fn infer_fields(&mut self, fs: &Vec<(String, Expr)>) -> (r: Result<(), TypeError>)
        requires
            old(self).wf(),
        ensures
            final(self).wf(),
            infer_fields(old(self)@, fields_view(fs@)) == match r {
                Ok(_) => Ok::<(), Seq<char>>(()),
                Err(x) => Err(x.message@),
            },
            r is Ok ==> final(self)@ == old(self)@,
        decreases fs, 0nat,
    {
        let ghost v = fields_view(fs@);
        proof { crate::ast::lemma_fields_view_index(fs@); }
        let mut i: usize = 0;
        assert(v.take(0) =~= Seq::<(Seq<char>, ExprV)>::empty());
        while i < fs.len()
            invariant
                i <= fs.len(),
                v == fields_view(fs@),
                v.len() == fs.len(),
                forall|j: int| 0 <= j < fs.len() ==> #[trigger] v[j] == (fs@[j].0@, expr_view(fs@[j].1)),
                self.wf(),
                self@ == old(self)@,
                infer_fields(self@, v.take(i as int)) == Ok::<(), Seq<char>>(()),
            decreases fs.len() - i,
        {
            assert(v.take(i + 1).drop_last() =~= v.take(i as int));
            assert(v.take(i + 1).last().1 == expr_view(fs@[i as int].1));
            match self.infer(&fs[i].1) {
                Ok(_) => {},
                Err(x) => {
                    proof { lemma_infer_fields_err(old(self)@, v, i + 1); }
                    return Err(x);
                },
            }
            i = i + 1;
        }
        assert(v.take(fs.len() as int) =~= v);
        Ok(())
    }

    #[verifier::rlimit(80)]
    fn check_stmts(&mut self, ss: &Vec<Stmt>) -> (r: Result<(), TypeError>)
        requires
            old(self).wf(),
        ensures
            final(self).wf(),
            match ty_check_stmts(old(self)@, stmts_view(ss@)) {
                Ok(st) => r is Ok && final(self)@ == st,
                Err(m) => r matches Err(x) && x.message@ == m,
            },
            r is Ok ==> ty_same_outer(old(self)@, final(self)@),
        decreases ss, 0nat,
    {
        let ghost v = stmts_view(ss@);
        proof { crate::ast::lemma_stmts_view_index(ss@); }
        let mut i: usize = 0;
        assert(v.take(0) =~= Seq::<StmtV>::empty());
        while i < ss.len()
            invariant
                i <= ss.len(),
                v == stmts_view(ss@),
                v.len() == ss.len(),
                forall|j: int| 0 <= j < ss.len() ==> #[trigger] v[j] == stmt_view(ss@[j]),
                self.wf(),
                ty_check_stmts(old(self)@, v.take(i as int)) == Ok::<TyState, Seq<char>>(self@),
                ty_same_outer(old(self)@, self@),
            decreases ss.len() - i,
        {
            assert(v.take(i + 1).drop_last() =~= v.take(i as int));
            assert(v.take(i + 1).last() == stmt_view(ss@[i as int]));
            match self.check_stmt(&ss[i]) {
                Ok(_) => {},
                Err(x) => {
                    proof { lemma_ty_check_stmts_err(old(self)@, v, i + 1); }
                    return Err(x);
                },
            }
            i = i + 1;
        }
        assert(v.take(ss.len() as int) =~= v);
        Ok(())
    }

    fn check_block(&mut self, ss: &Vec<Stmt>) -> (r: Result<(), TypeError>)
        requires
            old(self).wf(),
        ensures
            final(self).wf(),
            match ty_check_block(old(self)@, stmts_view(ss@)) {
                Ok(st) => r is Ok && final(self)@ == st,
                Err(m) => r matches Err(x) && x.message@ == m,
            },
            r is Ok ==> ty_same_outer(old(self)@, final(self)@),
        decreases ss, 1nat,
    {
        let ghost st = self@;
        self.push_scope();
        match self.check_stmts(ss) {
            Ok(_) => {},
            Err(x) => return Err(x),
        }
        self.pop_scope();
        assert(self@.scopes =~= st.scopes);
        Ok(())
    }

    #[verifier::rlimit(80)]
    fn check_stmt(&mut self, s: &Stmt) -> (r: Result<(), TypeError>)
        requires
            old(self).wf(),
        ensures
            final(self).wf(),
            match ty_check_stmt(old(self)@, stmt_view(*s)) {
                Ok(st) => r is Ok && final(self)@ == st,
                Err(m) => r matches Err(x) && x.message@ == m,
            },
            r is Ok ==> ty_same_outer(old(self)@, final(self)@),
        decreases s, 0nat,
    {
        let ghost st = self@;
        match s {
            Stmt::VarDecl { name, value, ty, .. } => {
                let vt = match self.infer(value) {
                    Ok(x) => x,
                    Err(x) => return Err(x),
                };
                match ty {
                    Some(d) => {
                        if !compatible(*d, vt) {
                            let mut m = String::new();
                            push_str(&mut m, "переменная '");
                            push_str(&mut m, name.as_str());
                            push_str(&mut m, "' объявлена с типом ");
                            push_str(&mut m, show(*d));
                            push_str(&mut m, ", но присвоено значение типа ");
                            push_str(&mut m, show(vt));
                            return Err(TypeError { message: m });
                        }
                        self.declare(name, *d);
                    },
                    None => self.declare(name, TypeAnnotation::Any),
                }
                Ok(())
            },
            Stmt::ExprStmt(e) => {
                match self.infer(e) {
                    Ok(_) => Ok(()),
                    Err(x) => Err(x),
                }
            },
            Stmt::Print(args) => {
                match self.infer_all(args) {
                    Ok(_) => Ok(()),
                    Err(x) => Err(x),
                }
            },
            Stmt::If { cond, then_branch, else_branch } => {
                match self.infer(cond) {
                    Ok(_) => {},
                    Err(x) => return Err(x),
                }
                match self.check_block(then_branch) {
                    Ok(_) => {},
                    Err(x) => return Err(x),
                }
                match else_branch {
                    Some(b) => self.check_block(b),
                    None => Ok(()),
                }
            },
            Stmt::While { cond, body } => {
                match self.infer(cond) {
                    Ok(_) => {},
                    Err(x) => return Err(x),
                }
                self.check_block(body)
            },
            Stmt::ForIn { var, start, end, body } => {
                let a = match self.infer(start) {
                    Ok(x) => x,
                    Err(x) => return Err(x),
                };
                let b = match self.infer(end) {
                    Ok(x) => x,
                    Err(x) => return Err(x),
                };
                if !compatible(a, b) {
                    return Err(terr(("границы диапазона FOR..IN имеют несовместимые типы: ", show(a), " и ", show(b))));
                }
                self.push_scope();
                self.declare(var, a);
                match self.check_stmts(body) {
                    Ok(_) => {},
                    Err(x) => return Err(x),
                }
                self.pop_scope();
                assert(self@.scopes =~= st.scopes);
                Ok(())
            },
            Stmt::FnDecl { params, body, return_ty, .. } => {
                self.push_scope();
                self.declare_typed(params);
                let prev = self.current_return_ty;
                self.current_return_ty = Some(
                    match return_ty {
                        Some(t) => *t,
                        None => TypeAnnotation::Any,
                    },
                );
                match self.check_stmts(body) {
                    Ok(_) => {},
                    Err(x) => return Err(x),
                }
                self.current_return_ty = prev;
                self.pop_scope();
                assert(self@.scopes =~= st.scopes);
                Ok(())
            },
            Stmt::Return(e) => {
                let actual = match e {
                    Some(x) => match self.infer(x) {
                        Ok(t) => t,
                        Err(x) => return Err(x),
                    },
                    None => TypeAnnotation::Nil,
                };
                match self.current_return_ty {
                    Some(expected) => {
                        if !compatible(expected, actual) {
                            return Err(terr((
                                "функция объявлена с возвращаемым типом ",
                                show(expected),
                                ", но RETURN возвращает ",
                                show(actual),
                            )));
                        }
                        Ok(())
                    },
                    None => Ok(()),
                }
            },
            Stmt::Break | Stmt::Continue => Ok(()),
            Stmt::Block(b) => self.check_block(b),
            Stmt::Import(path) => Err(terr3(
                "IMPORT \"",
                path.as_str(),
                "\" не был резолвлен до проверки типов — используйте sga::run_source_file()",
            )),
            Stmt::StructDecl { .. } => Ok(()),
        }
    }

    fn collect_sigs(&mut self, program: &[Stmt])
        requires
            old(self).wf(),
        ensures
            final(self).wf(),
            final(self)@ == collect_sigs(old(self)@, stmts_view(program@)),
    {
        let ghost v = stmts_view(program@);
        proof { crate::ast::lemma_stmts_view_index(program@); }
        let mut i: usize = 0;
        assert(v.take(0) =~= Seq::<StmtV>::empty());
        while i < program.len()
            invariant
                i <= program.len(),
                v == stmts_view(program@),
                v.len() == program.len(),
                forall|j: int| 0 <= j < program.len() ==> #[trigger] v[j] == stmt_view(program@[j]),
                self.wf(),
                collect_sigs(old(self)@, v.take(i as int)) == self@,
            decreases program.len() - i,
        {
            assert(v.take(i + 1).drop_last() =~= v.take(i as int));
            assert(v.take(i + 1).last() == stmt_view(program@[i as int]));
            match &program[i] {
                Stmt::FnDecl { name, params, return_ty, .. } => {
                    let tys = param_types(params);
                    let ret = match return_ty {
                        Some(t) => *t,
                        None => TypeAnnotation::Any,
                    };
                    let ghost before = self@;
                    self.functions.push((name.clone(), tys, ret));
                    assert(self@.funcs =~= before.funcs.push((name@, sig_of(params_view(params@), *return_ty))));
                },
                _ => {},
            }
            i = i + 1;
        }
        assert(v.take(program.len() as int) =~= v);
    }

    /// Checks a program: first registers the signatures of its named
    /// functions (so that a call may come before the declaration), then
    /// checks its statements in order.
    #[verifier::rlimit(80)]
    pub fn analyze(&mut self, program: &[Stmt]) -> (r: Result<(), TypeError>)
        requires
            old(self).wf(),
        ensures
            final(self).wf(),
            match spec_typecheck(old(self)@, stmts_view(program@)) {
                Ok(st) => r is Ok && final(self)@ == st,
                Err(m) => r matches Err(x) && x.message@ == m,
            },
    {
        self.collect_sigs(program);
        let ghost st1 = self@;
        let ghost v = stmts_view(program@);
        proof { crate::ast::lemma_stmts_view_index(program@); }
        let mut i: usize = 0;
        assert(v.take(0) =~= Seq::<StmtV>::empty());
        while i < program.len()
            invariant
                i <= program.len(),
                v == stmts_view(program@),
                v.len() == program.len(),
                forall|j: int| 0 <= j < program.len() ==> #[trigger] v[j] == stmt_view(program@[j]),
                self.wf(),
                ty_check_stmts(st1, v.take(i as int)) == Ok::<TyState, Seq<char>>(self@),
                collect_sigs(old(self)@, v) == st1,
            decreases program.len() - i,
        {
            assert(v.take(i + 1).drop_last() =~= v.take(i as int));
            assert(v.take(i + 1).last() == stmt_view(program@[i as int]));
            match self.check_stmt(&program[i]) {
                Ok(_) => {},
                Err(x) => {
                    proof { lemma_ty_check_stmts_err(st1, v, i + 1); }
                    return Err(x);
                },
            }
            i = i + 1;
        }
        assert(v.take(program.len() as int) =~= v);
        Ok(())
    }
}

} // verus!
