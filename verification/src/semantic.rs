//! Semantic analysis of SGA programs.
//!
//! Checks that every variable and function used is defined, that nothing is
//! declared twice in one scope, that `BREAK`/`CONTINUE` stand inside a loop
//! and `RETURN` inside a function, and ownership and borrowing: a `LET`/
//! `CONST` variable or a parameter without `MUT` can be neither reassigned nor
//! mutated (indexed assignment, `push`, field assignment), and an argument
//! passed to a `MUT` parameter of a named function must not be such a
//! variable.
use vstd::prelude::*;
use crate::ast::{
    Expr, ExprV, Param, ParamV, Stmt, StmtV, expr_view, exprs_view, fields_view, names_view, params_view,
    stmt_view, stmts_view,
};
use crate::runtime::{builtin_arity, spec_builtin_arity, spec_is_builtin};
use crate::text::{decimal, push_str, usize_to_string};

verus! {

/// A semantic error.
#[derive(Debug, Clone)]
pub struct SemError {
    pub message: String,
}

impl SemError {
    /// The error as it is shown to the user: `ошибка семантики: ...`.
    pub fn describe(&self) -> (r: String)
        ensures
            r@ == "ошибка семантики: "@ + self.message@,
    {
        let mut m = String::new();
        push_str(&mut m, "ошибка семантики: ");
        push_str(&mut m, self.message.as_str());
        m
    }
}

/// What the analyzer knows at a point of the program: the scopes (each a list
/// of names with their mutability), the named functions with the `MUT` flag
/// of each parameter, the structs with their fields, and whether the point is
/// inside a loop and inside a function.
pub struct SemV {
    pub scopes: Seq<Seq<(Seq<char>, bool)>>,
    pub funcs: Seq<(Seq<char>, Seq<bool>)>,
    pub structs: Seq<(Seq<char>, Seq<Seq<char>>)>,
    pub in_loop: bool,
    pub in_fn: bool,
}

/// The result of analyzing a statement: the state after it, or an error
/// message.
pub type SemR = Result<SemV, Seq<char>>;

/// The result of analyzing an expression: nothing, or an error message.
pub type SemE = Result<(), Seq<char>>;

// ------------------------------------------------------------------ tables

/// The mutability of `n` in one scope, searching from the latest declaration.
pub open spec fn scope_get(sc: Seq<(Seq<char>, bool)>, n: Seq<char>) -> Option<bool>
    decreases sc.len(),
{
    if sc.len() == 0 {
        None
    } else if sc.last().0 == n {
        Some(sc.last().1)
    } else {
        scope_get(sc.drop_last(), n)
    }
}

/// The mutability of the innermost visible variable named `n`.
pub open spec fn lookup(scopes: Seq<Seq<(Seq<char>, bool)>>, n: Seq<char>) -> Option<bool>
    decreases scopes.len(),
{
    if scopes.len() == 0 {
        None
    } else {
        match scope_get(scopes.last(), n) {
            Some(m) => Some(m),
            None => lookup(scopes.drop_last(), n),
        }
    }
}

/// The `MUT` flags of the parameters of the named function `n`.
pub open spec fn fn_get(funcs: Seq<(Seq<char>, Seq<bool>)>, n: Seq<char>) -> Option<Seq<bool>>
    decreases funcs.len(),
{
    if funcs.len() == 0 {
        None
    } else if funcs.last().0 == n {
        Some(funcs.last().1)
    } else {
        fn_get(funcs.drop_last(), n)
    }
}

/// The fields of the struct `n`.
pub open spec fn struct_get(structs: Seq<(Seq<char>, Seq<Seq<char>>)>, n: Seq<char>) -> Option<Seq<Seq<char>>>
    decreases structs.len(),
{
    if structs.len() == 0 {
        None
    } else if structs.last().0 == n {
        Some(structs.last().1)
    } else {
        struct_get(structs.drop_last(), n)
    }
}

/// A new innermost scope.
pub open spec fn push_scope(st: SemV) -> SemV {
    SemV { scopes: st.scopes.push(Seq::empty()), ..st }
}

/// Leaves the innermost scope.
pub open spec fn pop_scope(st: SemV) -> SemV {
    SemV { scopes: st.scopes.drop_last(), ..st }
}

/// Declares `n` in the innermost scope, unless it is declared there already.
pub open spec fn declare(st: SemV, n: Seq<char>, mutable: bool) -> SemR {
    let top = st.scopes.last();
    if scope_get(top, n).is_some() {
        Err("переменная '"@ + n + "' уже объявлена в этой области видимости"@)
    } else {
        Ok(SemV { scopes: st.scopes.update(st.scopes.len() - 1, top.push((n, mutable))), ..st })
    }
}

/// Declares the parameters of an anonymous function (all mutable), in order.
pub open spec fn declare_names(st: SemV, ns: Seq<Seq<char>>) -> SemR
    decreases ns.len(),
{
    if ns.len() == 0 {
        Ok(st)
    } else {
        match declare_names(st, ns.drop_last()) {
            Ok(st1) => declare(st1, ns.last(), true),
            Err(m) => Err(m),
        }
    }
}

/// Declares the parameters of a named function, in order.
pub open spec fn declare_params(st: SemV, ps: Seq<ParamV>) -> SemR
    decreases ps.len(),
{
    if ps.len() == 0 {
        Ok(st)
    } else {
        match declare_params(st, ps.drop_last()) {
            Ok(st1) => declare(st1, ps.last().name, ps.last().mutable),
            Err(m) => Err(m),
        }
    }
}

// ------------------------------------------------------------------ ownership

/// The variable at the root of a chain of indexing and field accesses
/// (`a` in `a[0].b[1]`), if the chain starts at a variable.
pub open spec fn mutation_root(e: ExprV) -> Option<Seq<char>>
    decreases e,
{
    match e {
        ExprV::Ident(n) => Some(n),
        ExprV::Index(t, _) => mutation_root(*t),
        ExprV::FieldAccess(t, _) => mutation_root(*t),
        _ => None,
    }
}

/// Mutating the contents of `target` (described as `what`) is refused when
/// its root variable is immutable.
pub open spec fn check_mutation_target(st: SemV, target: ExprV, what: Seq<char>) -> SemE {
    match mutation_root(target) {
        Some(n) => if lookup(st.scopes, n) == Some(false) {
            Err("невозможно изменить содержимое immutable-переменной '"@ + n + "' через "@ + what
                + " (объявлена через LET/CONST, либо параметр функции без MUT)"@)
        } else {
            Ok(())
        },
        None => Ok(()),
    }
}

/// The first argument, from the `i`-th on, passed to a `MUT` parameter that
/// is a plain immutable variable is refused.
pub open spec fn check_borrows_from(st: SemV, fname: Seq<char>, args: Seq<ExprV>, muts: Seq<bool>, i: nat) -> SemE
    decreases args.len() - i,
{
    if i >= args.len() || i >= muts.len() {
        Ok(())
    } else if muts[i as int] && args[i as int] is Ident && lookup(st.scopes, args[i as int]->Ident_0) == Some(false) {
        Err("нельзя передать immutable-переменную '"@ + args[i as int]->Ident_0 + "' в параметр "@
            + decimal(i + 1) + " функции '"@ + fname + "', объявленный как MUT (требуется VAR)"@)
    } else {
        check_borrows_from(st, fname, args, muts, i + 1)
    }
}

/// The message for a call with a wrong number of arguments.
pub open spec fn msg_arity(n: Seq<char>, expected: Seq<char>, given: nat) -> Seq<char> {
    "функция '"@ + n + "' ожидает "@ + expected + " аргумент(ов), передано "@ + decimal(given)
}

/// The arity checks of a call by name: a named function needs exactly its
/// number of parameters, a builtin a number in its range.
pub open spec fn check_call_head(st: SemV, n: Seq<char>, args: Seq<ExprV>) -> SemE {
    let known = fn_get(st.funcs, n);
    if known.is_none() && !spec_is_builtin(n) && lookup(st.scopes, n).is_none() {
        Err("неопределённая функция '"@ + n + "'"@)
    } else {
        match known {
            Some(muts) => if muts.len() != args.len() {
                Err(msg_arity(n, decimal(muts.len()), args.len()))
            } else {
                check_borrows_from(st, n, args, muts, 0)
            },
            None => match spec_builtin_arity(n) {
                Some((lo, hi)) => if args.len() < lo || args.len() > hi {
                    let expected = if lo == hi { decimal(lo) } else { "от "@ + decimal(lo) + " до "@ + decimal(hi) };
                    Err(msg_arity(n, expected, args.len()))
                } else {
                    Ok(())
                },
                None => Ok(()),
            },
        }
    }
}

// ------------------------------------------------------------------ analysis

/// Analyzes an expression.
pub open spec fn check_expr(st: SemV, e: ExprV) -> SemE
    decreases e, 0nat,
{
    match e {
        ExprV::Int(_) | ExprV::Float(_) | ExprV::Str(_) | ExprV::Bool(_) | ExprV::Nil => Ok(()),
        ExprV::Ident(n) => if lookup(st.scopes, n).is_none() {
            Err("неопределённая переменная '"@ + n + "'"@)
        } else {
            Ok(())
        },
        ExprV::Array(items) => check_exprs(st, items),
        ExprV::Index(t, i) => match check_expr(st, *t) {
            Ok(_) => check_expr(st, *i),
            Err(m) => Err(m),
        },
        ExprV::Unary(_, a) => check_expr(st, *a),
        ExprV::Binary(_, l, r) => match check_expr(st, *l) {
            Ok(_) => check_expr(st, *r),
            Err(m) => Err(m),
        },
        ExprV::Call(n, args) => match check_call_head(st, n, args) {
            Ok(_) => {
                let push_ok = if n == seq!['p', 'u', 's', 'h'] && args.len() > 0 {
                    check_mutation_target(st, args[0], "push()"@)
                } else {
                    Ok(())
                };
                match push_ok {
                    Ok(_) => check_exprs(st, args),
                    Err(m) => Err(m),
                }
            },
            Err(m) => Err(m),
        },
        ExprV::CallExpr(c, args) => match check_expr(st, *c) {
            Ok(_) => check_exprs(st, args),
            Err(m) => Err(m),
        },
        ExprV::Lambda { params, body } => {
            let st1 = SemV { in_loop: false, in_fn: true, ..push_scope(st) };
            match declare_names(st1, params) {
                Ok(st2) => match check_stmts(st2, body) {
                    Ok(_) => Ok(()),
                    Err(m) => Err(m),
                },
                Err(m) => Err(m),
            }
        },
        ExprV::Assign(n, v) => match lookup(st.scopes, n) {
            None => Err("неопределённая переменная '"@ + n + "'"@),
            Some(false) => Err("невозможно изменить immutable-переменную '"@ + n
                + "' (объявлена через LET/CONST, либо параметр функции без MUT)"@),
            Some(true) => check_expr(st, *v),
        },
        ExprV::IndexAssign(t, i, v) => match check_expr(st, *t) {
            Ok(_) => match check_mutation_target(st, *t, "индексное присваивание"@) {
                Ok(_) => match check_expr(st, *i) {
                    Ok(_) => check_expr(st, *v),
                    Err(m) => Err(m),
                },
                Err(m) => Err(m),
            },
            Err(m) => Err(m),
        },
        ExprV::StructLit { struct_name, fields } => match struct_get(st.structs, struct_name) {
            None => Err("неизвестный тип '"@ + struct_name + "'"@),
            Some(declared) => check_fields(st, struct_name, declared, fields),
        },
        ExprV::FieldAccess(o, _) => check_expr(st, *o),
        ExprV::FieldAssign(o, _, v) => match check_expr(st, *o) {
            Ok(_) => match check_mutation_target(st, *o, "присваивание полю struct"@) {
                Ok(_) => check_expr(st, *v),
                Err(m) => Err(m),
            },
            Err(m) => Err(m),
        },
        ExprV::MethodCall(o, _, args) => match check_expr(st, *o) {
            Ok(_) => check_exprs(st, args),
            Err(m) => Err(m),
        },
    }
}

/// Analyzes expressions in order.
pub open spec fn check_exprs(st: SemV, es: Seq<ExprV>) -> SemE
    decreases es, 0nat,
{
    if es.len() == 0 {
        Ok(())
    } else {
        match check_exprs(st, es.drop_last()) {
            Ok(_) => check_expr(st, es.last()),
            Err(m) => Err(m),
        }
    }
}

/// Whether a field name occurs among the fields of a literal.
pub open spec fn has_field(fs: Seq<(Seq<char>, ExprV)>, f: Seq<char>) -> bool {
    exists|i: int| 0 <= i < fs.len() && fs[i].0 == f
}

/// Analyzes the fields of a literal of struct `sname` (declared fields
/// `declared`), in order: each must be declared and not repeated.
pub open spec fn check_fields(st: SemV, sname: Seq<char>, declared: Seq<Seq<char>>, fs: Seq<(Seq<char>, ExprV)>) -> SemE
    decreases fs, 0nat,
{
    if fs.len() == 0 {
        Ok(())
    } else {
        match check_fields(st, sname, declared, fs.drop_last()) {
            Ok(_) => {
                let f = fs.last().0;
                if !declared.contains(f) {
                    Err("тип '"@ + sname + "' не имеет поля '"@ + f + "'"@)
                } else if has_field(fs.drop_last(), f) {
                    Err("поле '"@ + f + "' указано дважды в литерале '"@ + sname + "'"@)
                } else {
                    check_expr(st, fs.last().1)
                }
            },
            Err(m) => Err(m),
        }
    }
}

/// Analyzes statements in order, each in the state the previous one left.
pub open spec fn check_stmts(st: SemV, ss: Seq<StmtV>) -> SemR
    decreases ss, 0nat,
{
    if ss.len() == 0 {
        Ok(st)
    } else {
        match check_stmts(st, ss.drop_last()) {
            Ok(st1) => check_stmt(st1, ss.last()),
            Err(m) => Err(m),
        }
    }
}

/// Analyzes a block in a scope of its own.
pub open spec fn check_block(st: SemV, ss: Seq<StmtV>) -> SemR
    decreases ss, 1nat,
{
    match check_stmts(push_scope(st), ss) {
        Ok(st1) => Ok(pop_scope(st1)),
        Err(m) => Err(m),
    }
}

/// Analyzes an optional expression.
pub open spec fn check_opt(st: SemV, e: Option<ExprV>) -> SemE
    decreases e, 0nat,
{
    match e {
        Some(x) => check_expr(st, x),
        None => Ok(()),
    }
}

/// The message for an `IMPORT` left unresolved.
pub open spec fn msg_import(path: Seq<char>) -> Seq<char> {
    "IMPORT \""@ + path
        + "\" не был резолвлен до семантического анализа — используйте sga::run_source_file() для файлов с IMPORT (Analyzer::analyze ожидает уже резолвленный AST)"@
}

/// Analyzes a statement.
pub open spec fn check_stmt(st: SemV, s: StmtV) -> SemR
    decreases s, 0nat,
{
    match s {
        StmtV::VarDecl { name, value, mutable, .. } => match check_expr(st, value) {
            Ok(_) => declare(st, name, mutable),
            Err(m) => Err(m),
        },
        StmtV::ExprStmt(e) => match check_expr(st, e) {
            Ok(_) => Ok(st),
            Err(m) => Err(m),
        },
        StmtV::Print(args) => match check_exprs(st, args) {
            Ok(_) => Ok(st),
            Err(m) => Err(m),
        },
        StmtV::If { cond, then_branch, else_branch } => match check_expr(st, cond) {
            Ok(_) => match check_block(st, then_branch) {
                Ok(st1) => match else_branch {
                    Some(b) => check_block(st1, b),
                    None => Ok(st1),
                },
                Err(m) => Err(m),
            },
            Err(m) => Err(m),
        },
        StmtV::While { cond, body } => match check_expr(st, cond) {
            Ok(_) => match check_block(SemV { in_loop: true, ..st }, body) {
                Ok(st1) => Ok(SemV { in_loop: st.in_loop, ..st1 }),
                Err(m) => Err(m),
            },
            Err(m) => Err(m),
        },
        StmtV::ForIn { var, start, end, body } => match check_expr(st, start) {
            Ok(_) => match check_expr(st, end) {
                Ok(_) => match declare(push_scope(st), var, true) {
                    Ok(st1) => match check_stmts(SemV { in_loop: true, ..st1 }, body) {
                        Ok(st2) => Ok(pop_scope(SemV { in_loop: st.in_loop, ..st2 })),
                        Err(m) => Err(m),
                    },
                    Err(m) => Err(m),
                },
                Err(m) => Err(m),
            },
            Err(m) => Err(m),
        },
        StmtV::FnDecl { params, body, .. } => {
            let st1 = SemV { in_loop: false, in_fn: true, ..push_scope(st) };
            match declare_params(st1, params) {
                Ok(st2) => match check_stmts(st2, body) {
                    Ok(st3) => Ok(SemV { in_loop: st.in_loop, in_fn: st.in_fn, ..pop_scope(st3) }),
                    Err(m) => Err(m),
                },
                Err(m) => Err(m),
            }
        },
        StmtV::Return(e) => if !st.in_fn {
            Err("RETURN вне функции"@)
        } else {
            match check_opt(st, e) {
                Ok(_) => Ok(st),
                Err(m) => Err(m),
            }
        },
        StmtV::Break => if !st.in_loop {
            Err("BREAK вне цикла"@)
        } else {
            Ok(st)
        },
        StmtV::Continue => if !st.in_loop {
            Err("CONTINUE вне цикла"@)
        } else {
            Ok(st)
        },
        StmtV::Block(b) => check_block(st, b),
        StmtV::StructDecl { .. } => Ok(st),
        StmtV::Import(path) => Err(msg_import(path)),
    }
}

/// The first pass over a program: registers its named functions and structs
/// in order, refusing a name declared twice.
pub open spec fn collect_decls(st: SemV, program: Seq<StmtV>) -> SemR
    decreases program.len(),
{
    if program.len() == 0 {
        Ok(st)
    } else {
        match collect_decls(st, program.drop_last()) {
            Ok(st1) => match program.last() {
                StmtV::FnDecl { name, params, .. } => if fn_get(st1.funcs, name).is_some() {
                    Err("функция '"@ + name + "' уже объявлена"@)
                } else {
                    Ok(SemV { funcs: st1.funcs.push((name, params.map_values(|p: ParamV| p.mutable))), ..st1 })
                },
                StmtV::StructDecl { name, fields } => if struct_get(st1.structs, name).is_some() {
                    Err("тип '"@ + name + "' уже объявлен"@)
                } else {
                    Ok(SemV { structs: st1.structs.push((name, fields)), ..st1 })
                },
                _ => Ok(st1),
            },
            Err(m) => Err(m),
        }
    }
}

/// Analyzes a program: registers its declarations, then checks its
/// statements in order at the top level; the state after it, or the first
/// error.
pub open spec fn spec_analyze(st: SemV, program: Seq<StmtV>) -> SemR {
    match collect_decls(st, program) {
        Ok(st1) => check_stmts(st1, program),
        Err(m) => Err(m),
    }
}

/// The state of a fresh analyzer: one empty global scope, outside any loop
/// and function.
pub open spec fn initial_sem() -> SemV {
    SemV { scopes: seq![Seq::empty()], funcs: Seq::empty(), structs: Seq::empty(), in_loop: false, in_fn: false }
}


// ------------------------------------------------------------------ lemmas

/// An error in declaring a prefix of the names is the error of declaring
/// them all.
pub proof fn lemma_declare_names_err(st: SemV, ns: Seq<Seq<char>>, k: int)
    requires
        0 <= k <= ns.len(),
        declare_names(st, ns.take(k)) is Err,
    ensures
        declare_names(st, ns) == declare_names(st, ns.take(k)),
    decreases ns.len(),
{
    if k == ns.len() {
        assert(ns.take(k) =~= ns);
    } else {
        assert(ns.drop_last().take(k) =~= ns.take(k));
        lemma_declare_names_err(st, ns.drop_last(), k);
    }
}

/// An error in declaring a prefix of the parameters is the error of
/// declaring them all.
pub proof fn lemma_declare_params_err(st: SemV, ps: Seq<ParamV>, k: int)
    requires
        0 <= k <= ps.len(),
        declare_params(st, ps.take(k)) is Err,
    ensures
        declare_params(st, ps) == declare_params(st, ps.take(k)),
    decreases ps.len(),
{
    if k == ps.len() {
        assert(ps.take(k) =~= ps);
    } else {
        assert(ps.drop_last().take(k) =~= ps.take(k));
        lemma_declare_params_err(st, ps.drop_last(), k);
    }
}

/// An error in a prefix of the expressions is the error of them all.
pub proof fn lemma_check_exprs_err(st: SemV, es: Seq<ExprV>, k: int)
    requires
        0 <= k <= es.len(),
        check_exprs(st, es.take(k)) is Err,
    ensures
        check_exprs(st, es) == check_exprs(st, es.take(k)),
    decreases es.len(),
{
    if k == es.len() {
        assert(es.take(k) =~= es);
    } else {
        assert(es.drop_last().take(k) =~= es.take(k));
        lemma_check_exprs_err(st, es.drop_last(), k);
    }
}

/// An error in a prefix of the fields is the error of them all.
pub proof fn lemma_check_fields_err(st: SemV, sname: Seq<char>, declared: Seq<Seq<char>>, fs: Seq<(Seq<char>, ExprV)>, k: int)
    requires
        0 <= k <= fs.len(),
        check_fields(st, sname, declared, fs.take(k)) is Err,
    ensures
        check_fields(st, sname, declared, fs) == check_fields(st, sname, declared, fs.take(k)),
    decreases fs.len(),
{
    if k == fs.len() {
        assert(fs.take(k) =~= fs);
    } else {
        assert(fs.drop_last().take(k) =~= fs.take(k));
        lemma_check_fields_err(st, sname, declared, fs.drop_last(), k);
    }
}

/// An error in a prefix of the statements is the error of them all.
pub proof fn lemma_check_stmts_err(st: SemV, ss: Seq<StmtV>, k: int)
    requires
        0 <= k <= ss.len(),
        check_stmts(st, ss.take(k)) is Err,
    ensures
        check_stmts(st, ss) == check_stmts(st, ss.take(k)),
    decreases ss.len(),
{
    if k == ss.len() {
        assert(ss.take(k) =~= ss);
    } else {
        assert(ss.drop_last().take(k) =~= ss.take(k));
        lemma_check_stmts_err(st, ss.drop_last(), k);
    }
}

/// An error in registering a prefix of the program is the error of
/// registering it all.
pub proof fn lemma_collect_decls_err(st: SemV, ss: Seq<StmtV>, k: int)
    requires
        0 <= k <= ss.len(),
        collect_decls(st, ss.take(k)) is Err,
    ensures
        collect_decls(st, ss) == collect_decls(st, ss.take(k)),
    decreases ss.len(),
{
    if k == ss.len() {
        assert(ss.take(k) =~= ss);
    } else {
        assert(ss.drop_last().take(k) =~= ss.take(k));
        lemma_collect_decls_err(st, ss.drop_last(), k);
    }
}

/// `b` differs from `a` at most in the contents of the innermost scope.
pub open spec fn same_outer(a: SemV, b: SemV) -> bool {
    &&& a.scopes.len() == b.scopes.len()
    &&& a.scopes.drop_last() == b.scopes.drop_last()
    &&& a.funcs == b.funcs
    &&& a.structs == b.structs
    &&& a.in_loop == b.in_loop
    &&& a.in_fn == b.in_fn
}

/// The view of one scope.
pub open spec fn scope_view(sc: Seq<(String, bool)>) -> Seq<(Seq<char>, bool)> {
    sc.map_values(|p: (String, bool)| (p.0@, p.1))
}

/// The view of the scopes.
pub open spec fn scopes_view(scs: Seq<Vec<(String, bool)>>) -> Seq<Seq<(Seq<char>, bool)>> {
    scs.map_values(|sc: Vec<(String, bool)>| scope_view(sc@))
}

/// The view of the function table.
pub open spec fn funcs_view(fs: Seq<(String, Vec<bool>)>) -> Seq<(Seq<char>, Seq<bool>)> {
    fs.map_values(|f: (String, Vec<bool>)| (f.0@, f.1@))
}

/// The view of the struct table.
pub open spec fn structs_view(ss: Seq<(String, Vec<String>)>) -> Seq<(Seq<char>, Seq<Seq<char>>)> {
    ss.map_values(|s: (String, Vec<String>)| (s.0@, names_view(s.1@)))
}

/// A semantic result as an error message or nothing.
pub open spec fn sem_res(r: Result<(), SemError>) -> SemE {
    match r {
        Ok(_) => Ok(()),
        Err(x) => Err(x.message@),
    }
}

/// Whether two strings hold the same characters.
pub fn str_eq(a: &String, b: &String) -> (r: bool)
    ensures
        r == (a@ == b@),
{
    *a == *b
}

fn err1(a: &str) -> (r: SemError)
    ensures
        r.message@ == a@,
{
    let mut m = String::new();
    push_str(&mut m, a);
    SemError { message: m }
}

fn err3(a: &str, b: &str, c: &str) -> (r: SemError)
    ensures
        r.message@ == a@ + b@ + c@,
{
    let mut m = String::new();
    push_str(&mut m, a);
    push_str(&mut m, b);
    push_str(&mut m, c);
    SemError { message: m }
}

fn err5(a: &str, b: &str, c: &str, d: &str, e: &str) -> (r: SemError)
    ensures
        r.message@ == a@ + b@ + c@ + d@ + e@,
{
    let mut m = String::new();
    push_str(&mut m, a);
    push_str(&mut m, b);
    push_str(&mut m, c);
    push_str(&mut m, d);
    push_str(&mut m, e);
    SemError { message: m }
}

fn scope_find(sc: &Vec<(String, bool)>, n: &String) -> (r: Option<bool>)
    ensures
        r == scope_get(scope_view(sc@), n@),
{
    let mut i = sc.len();
    assert(scope_view(sc@).take(i as int) =~= scope_view(sc@));
    while i > 0
        invariant
            i <= sc.len(),
            scope_get(scope_view(sc@), n@) == scope_get(scope_view(sc@).take(i as int), n@),
        decreases i,
    {
        let ghost v = scope_view(sc@);
        assert(v.take(i as int).drop_last() =~= v.take(i - 1));
        if str_eq(&sc[i - 1].0, n) {
            return Some(sc[i - 1].1);
        }
        i = i - 1;
    }
    None
}

/// The analyzer: scopes, named functions and structs, and whether the
/// current point is inside a loop and inside a function.
pub struct Analyzer {
    scopes: Vec<Vec<(String, bool)>>,
    functions: Vec<(String, Vec<bool>)>,
    structs: Vec<(String, Vec<String>)>,
    in_loop: bool,
    in_fn: bool,
}

impl View for Analyzer {
    type V = SemV;

    closed spec fn view(&self) -> SemV {
        SemV {
            scopes: scopes_view(self.scopes@),
            funcs: funcs_view(self.functions@),
            structs: structs_view(self.structs@),
            in_loop: self.in_loop,
            in_fn: self.in_fn,
        }
    }
}

impl Analyzer {
    /// There is always at least the global scope.
    pub closed spec fn wf(&self) -> bool {
        self.scopes.len() >= 1
    }

    /// A fresh analyzer: one empty global scope, no declarations.
    pub fn new() -> (r: Self)
        ensures
            r.wf(),
            r@ == initial_sem(),
    {
        let mut scopes: Vec<Vec<(String, bool)>> = Vec::new();
        scopes.push(Vec::new());
        let r = Analyzer { scopes, functions: Vec::new(), structs: Vec::new(), in_loop: false, in_fn: false };
        assert(r@.scopes =~~= seq![Seq::<(Seq<char>, bool)>::empty()]);
        assert(r@.funcs =~= Seq::empty());
        assert(r@.structs =~= Seq::empty());
        r
    }

    fn push_scope(&mut self)
        requires
            old(self).wf(),
        ensures
            final(self).wf(),
            final(self)@ == push_scope(old(self)@),
    {
        self.scopes.push(Vec::new());
        assert(final(self)@.scopes =~~= old(self)@.scopes.push(Seq::empty()));
    }

    fn pop_scope(&mut self)
        requires
            old(self).scopes.len() >= 2,
        ensures
            final(self).wf(),
            final(self)@ == pop_scope(old(self)@),
    {
        self.scopes.pop();
        assert(final(self)@.scopes =~= old(self)@.scopes.drop_last());
    }

    fn lookup(&self, n: &String) -> (r: Option<bool>)
        ensures
            r == lookup(self@.scopes, n@),
    {
        let ghost v = self@.scopes;
        let mut i = self.scopes.len();
        assert(v.take(i as int) =~= v);
        while i > 0
            invariant
                i <= self.scopes.len(),
                v == self@.scopes,
                lookup(v, n@) == lookup(v.take(i as int), n@),
            decreases i,
        {
            assert(v.take(i as int).drop_last() =~= v.take(i - 1));
            match scope_find(&self.scopes[i - 1], n) {
                Some(m) => return Some(m),
                None => {},
            }
            i = i - 1;
        }
        None
    }

    fn fn_find(&self, n: &String) -> (r: Option<usize>)
        ensures
            match r {
                Some(i) => i < self.functions.len() && fn_get(self@.funcs, n@) == Some(self.functions@[i as int].1@),
                None => fn_get(self@.funcs, n@).is_none(),
            },
    {
        let ghost v = self@.funcs;
        let mut i = self.functions.len();
        assert(v.take(i as int) =~= v);
        while i > 0
            invariant
                i <= self.functions.len(),
                v == self@.funcs,
                fn_get(v, n@) == fn_get(v.take(i as int), n@),
            decreases i,
        {
            assert(v.take(i as int).drop_last() =~= v.take(i - 1));
            if str_eq(&self.functions[i - 1].0, n) {
                return Some(i - 1);
            }
            i = i - 1;
        }
        None
    }

    fn struct_find(&self, n: &String) -> (r: Option<usize>)
        ensures
            match r {
                Some(i) => i < self.structs.len() && struct_get(self@.structs, n@) == Some(names_view(self.structs@[i as int].1@)),
                None => struct_get(self@.structs, n@).is_none(),
            },
    {
        let ghost v = self@.structs;
        let mut i = self.structs.len();
        assert(v.take(i as int) =~= v);
        while i > 0
            invariant
                i <= self.structs.len(),
                v == self@.structs,
                struct_get(v, n@) == struct_get(v.take(i as int), n@),
            decreases i,
        {
            assert(v.take(i as int).drop_last() =~= v.take(i - 1));
            if str_eq(&self.structs[i - 1].0, n) {
                return Some(i - 1);
            }
            i = i - 1;
        }
        None
    }

    fn declare(&mut self, n: &String, mutable: bool) -> (r: Result<(), SemError>)
        requires
            old(self).wf(),
        ensures
            final(self).wf(),
            match declare(old(self)@, n@, mutable) {
                Ok(st) => r is Ok && final(self)@ == st,
                Err(m) => r matches Err(x) && x.message@ == m,
            },
            r is Ok ==> same_outer(old(self)@, final(self)@),
    {
        let ghost old_v = self@;
        let top = self.scopes.pop().unwrap();
        assert(scopes_view(self.scopes@) =~= old_v.scopes.drop_last());
        if scope_find(&top, n).is_some() {
            self.scopes.push(top);
            return Err(err3("переменная '", n.as_str(), "' уже объявлена в этой области видимости"));
        }
        let mut top = top;
        top.push((n.clone(), mutable));
        self.scopes.push(top);
        assert(self@.scopes =~~= old_v.scopes.update(old_v.scopes.len() - 1, old_v.scopes.last().push((n@, mutable))));
        assert(self@.scopes.drop_last() =~= old_v.scopes.drop_last());
        Ok(())
    }
}


/// The root variable of a chain of indexing and field accesses.
fn root_variable(e: &Expr) -> (r: Option<&String>)
    ensures
        match r {
            Some(n) => mutation_root(expr_view(*e)) == Some(n@),
            None => mutation_root(expr_view(*e)).is_none(),
        },
    decreases e,
{
    match e {
        Expr::Ident(n) => Some(n),
        Expr::Index(t, _) => root_variable(t),
        Expr::FieldAccess(t, _) => root_variable(t),
        _ => None,
    }
}

/// A copy of a list of names.
fn clone_names(v: &Vec<String>) -> (r: Vec<String>)
    ensures
        r@ == v@,
{
    let mut r: Vec<String> = Vec::new();
    let mut i: usize = 0;
    while i < v.len()
        invariant
            i <= v.len(),
            r@ == v@.take(i as int),
        decreases v.len() - i,
    {
        r.push(v[i].clone());
        assert(r@ =~= v@.take(i + 1));
        i = i + 1;
    }
    assert(v@.take(v.len() as int) =~= v@);
    r
}

fn is_push(n: &String) -> (r: bool)
    ensures
        r == (n@ == seq!['p', 'u', 's', 'h']),
{
    let cs = crate::text::chars_of(n.as_str());
    assert(['p', 'u', 's', 'h']@ =~= seq!['p', 'u', 's', 'h']);
    crate::lexer::token::chars_eq(cs.as_slice(), &['p', 'u', 's', 'h'])
}

impl Analyzer {
    fn declare_names(&mut self, ns: &Vec<String>) -> (r: Result<(), SemError>)
        requires
            old(self).wf(),
        ensures
            final(self).wf(),
            match declare_names(old(self)@, names_view(ns@)) {
                Ok(st) => r is Ok && final(self)@ == st,
                Err(m) => r matches Err(x) && x.message@ == m,
            },
            r is Ok ==> same_outer(old(self)@, final(self)@),
    {
        let ghost v = names_view(ns@);
        let mut i: usize = 0;
        assert(v.take(0) =~= Seq::<Seq<char>>::empty());
        while i < ns.len()
            invariant
                i <= ns.len(),
                v == names_view(ns@),
                self.wf(),
                declare_names(old(self)@, v.take(i as int)) == Ok::<SemV, Seq<char>>(self@),
                same_outer(old(self)@, self@),
            decreases ns.len() - i,
        {
            assert(v.take(i + 1).drop_last() =~= v.take(i as int));
            assert(v.take(i + 1).last() == ns@[i as int]@);
            match self.declare(&ns[i], true) {
                Ok(_) => {},
                Err(x) => {
                    proof { lemma_declare_names_err(old(self)@, v, i + 1); }
                    return Err(x);
                },
            }
            i = i + 1;
        }
        assert(v.take(ns.len() as int) =~= v);
        Ok(())
    }

    fn declare_params(&mut self, ps: &Vec<Param>) -> (r: Result<(), SemError>)
        requires
            old(self).wf(),
        ensures
            final(self).wf(),
            match declare_params(old(self)@, params_view(ps@)) {
                Ok(st) => r is Ok && final(self)@ == st,
                Err(m) => r matches Err(x) && x.message@ == m,
            },
            r is Ok ==> same_outer(old(self)@, final(self)@),
    {
        let ghost v = params_view(ps@);
        let mut i: usize = 0;
        assert(v.take(0) =~= Seq::<ParamV>::empty());
        while i < ps.len()
            invariant
                i <= ps.len(),
                v == params_view(ps@),
                self.wf(),
                declare_params(old(self)@, v.take(i as int)) == Ok::<SemV, Seq<char>>(self@),
                same_outer(old(self)@, self@),
            decreases ps.len() - i,
        {
            assert(v.take(i + 1).drop_last() =~= v.take(i as int));
            assert(v.take(i + 1).last() == ps@[i as int]@);
            match self.declare(&ps[i].name, ps[i].mutable) {
                Ok(_) => {},
                Err(x) => {
                    proof { lemma_declare_params_err(old(self)@, v, i + 1); }
                    return Err(x);
                },
            }
            i = i + 1;
        }
        assert(v.take(ps.len() as int) =~= v);
        Ok(())
    }

    fn check_mutation_target(&self, target: &Expr, what: &str) -> (r: Result<(), SemError>)
        ensures
            check_mutation_target(self@, expr_view(*target), what@) == sem_res(r),
    {
        match root_variable(target) {
            Some(n) => {
                match self.lookup(n) {
                    Some(false) => {
                        let mut m = String::new();
                        push_str(&mut m, "невозможно изменить содержимое immutable-переменной '");
                        push_str(&mut m, n.as_str());
                        push_str(&mut m, "' через ");
                        push_str(&mut m, what);
                        push_str(&mut m, " (объявлена через LET/CONST, либо параметр функции без MUT)");
                        Err(SemError { message: m })
                    },
                    _ => Ok(()),
                }
            },
            None => Ok(()),
        }
    }

    fn check_borrows(&self, fname: &String, args: &Vec<Expr>, muts: &Vec<bool>) -> (r: Result<(), SemError>)
        ensures
            check_borrows_from(self@, fname@, exprs_view(args@), muts@, 0) == sem_res(r),
    {
        let ghost av = exprs_view(args@);
        proof { crate::ast::lemma_exprs_view_index(args@); }
        let mut i: usize = 0;
        while i < args.len() && i < muts.len()
            invariant
                i <= args.len(),
                av == exprs_view(args@),
                av.len() == args.len(),
                forall|j: int| 0 <= j < args.len() ==> #[trigger] av[j] == expr_view(args@[j]),
                check_borrows_from(self@, fname@, av, muts@, 0) == check_borrows_from(self@, fname@, av, muts@, i as nat),
            decreases args.len() - i,
        {
            if muts[i] {
                match &args[i] {
                    Expr::Ident(a) => {
                        if self.lookup(a) == Some(false) {
                            let mut m = String::new();
                            push_str(&mut m, "нельзя передать immutable-переменную '");
                            push_str(&mut m, a.as_str());
                            push_str(&mut m, "' в параметр ");
                            let k = usize_to_string(i + 1);
                            push_str(&mut m, k.as_str());
                            push_str(&mut m, " функции '");
                            push_str(&mut m, fname.as_str());
                            push_str(&mut m, "', объявленный как MUT (требуется VAR)");
                            return Err(SemError { message: m });
                        }
                    },
                    _ => {},
                }
            }
            i = i + 1;
        }
        Ok(())
    }

    fn arity_error(n: &String, expected: String, given: usize) -> (r: SemError)
        ensures
            r.message@ == msg_arity(n@, expected@, given as nat),
    {
        let mut m = String::new();
        push_str(&mut m, "функция '");
        push_str(&mut m, n.as_str());
        push_str(&mut m, "' ожидает ");
        push_str(&mut m, expected.as_str());
        push_str(&mut m, " аргумент(ов), передано ");
        let g = usize_to_string(given);
        push_str(&mut m, g.as_str());
        SemError { message: m }
    }

    fn check_call_head(&self, n: &String, args: &Vec<Expr>) -> (r: Result<(), SemError>)
        ensures
            check_call_head(self@, n@, exprs_view(args@)) == sem_res(r),
    {
        proof { crate::ast::lemma_exprs_view_index(args@); }
        let known = self.fn_find(n);
        let is_var = self.lookup(n).is_some();
        let arity = builtin_arity(n.as_str());
        if known.is_none() && arity.is_none() && !is_var {
            return Err(err3("неопределённая функция '", n.as_str(), "'"));
        }
        match known {
            Some(i) => {
                let muts = &self.functions[i].1;
                if muts.len() != args.len() {
                    let expected = usize_to_string(muts.len());
                    Err(Self::arity_error(n, expected, args.len()))
                } else {
                    self.check_borrows(n, args, muts)
                }
            },
            None => match arity {
                Some((lo, hi)) => {
                    if args.len() < lo || args.len() > hi {
                        let expected = if lo == hi {
                            usize_to_string(lo)
                        } else {
                            let mut e = String::new();
                            push_str(&mut e, "от ");
                            let a = usize_to_string(lo);
                            push_str(&mut e, a.as_str());
                            push_str(&mut e, " до ");
                            let b = usize_to_string(hi);
                            push_str(&mut e, b.as_str());
                            e
                        };
                        Err(Self::arity_error(n, expected, args.len()))
                    } else {
                        Ok(())
                    }
                },
                None => Ok(()),
            },
        }
    }

    #[verifier::rlimit(80)]
    fn check_expr(&mut self, e: &Expr) -> (r: Result<(), SemError>)
        requires
            old(self).wf(),
        ensures
            final(self).wf(),
            check_expr(old(self)@, expr_view(*e)) == sem_res(r),
            r is Ok ==> final(self)@ == old(self)@,
        decreases e, 0nat,
    {
        match e {
            Expr::Int(_) | Expr::Float(_) | Expr::Str(_) | Expr::Bool(_) | Expr::Nil => Ok(()),
            Expr::Ident(n) => {
                if self.lookup(n).is_none() {
                    Err(err3("неопределённая переменная '", n.as_str(), "'"))
                } else {
                    Ok(())
                }
            },
            Expr::Array(items) => self.check_exprs(items),
            Expr::Index(t, i) => {
                match self.check_expr(t) {
                    Ok(_) => {},
                    Err(x) => return Err(x),
                }
                self.check_expr(i)
            },
            Expr::Unary(_, a) => self.check_expr(a),
            Expr::Binary(_, l, r) => {
                match self.check_expr(l) {
                    Ok(_) => {},
                    Err(x) => return Err(x),
                }
                self.check_expr(r)
            },
            Expr::Call(n, args) => {
                match self.check_call_head(n, args) {
                    Ok(_) => {},
                    Err(x) => return Err(x),
                }
                if is_push(n) && args.len() > 0 {
                    proof { crate::ast::lemma_exprs_view_index(args@); }
                    match self.check_mutation_target(&args[0], "push()") {
                        Ok(_) => {},
                        Err(x) => return Err(x),
                    }
                }
                self.check_exprs(args)
            },
            Expr::CallExpr(c, args) => {
                match self.check_expr(c) {
                    Ok(_) => {},
                    Err(x) => return Err(x),
                }
                self.check_exprs(args)
            },
            Expr::Lambda { params, body } => {
                let ghost st = self@;
                let saved_loop = self.in_loop;
                let saved_fn = self.in_fn;
                self.in_loop = false;
                self.push_scope();
                self.in_fn = true;
                assert(self@ == (SemV { in_loop: false, in_fn: true, ..push_scope(st) }));
                match self.declare_names(params) {
                    Ok(_) => {},
                    Err(x) => return Err(x),
                }
                let ghost st2 = self@;
                match self.check_stmts(body) {
                    Ok(_) => {},
                    Err(x) => return Err(x),
                }
                assert(same_outer(st2, self@));
                self.in_fn = saved_fn;
                self.pop_scope();
                self.in_loop = saved_loop;
                assert(self@.scopes =~= st.scopes);
                Ok(())
            },
            Expr::Assign(n, v) => {
                match self.lookup(n) {
                    None => Err(err3("неопределённая переменная '", n.as_str(), "'")),
                    Some(false) => Err(err3(
                        "невозможно изменить immutable-переменную '",
                        n.as_str(),
                        "' (объявлена через LET/CONST, либо параметр функции без MUT)",
                    )),
                    Some(true) => self.check_expr(v),
                }
            },
            Expr::IndexAssign(t, i, v) => {
                match self.check_expr(t) {
                    Ok(_) => {},
                    Err(x) => return Err(x),
                }
                match self.check_mutation_target(t, "индексное присваивание") {
                    Ok(_) => {},
                    Err(x) => return Err(x),
                }
                match self.check_expr(i) {
                    Ok(_) => {},
                    Err(x) => return Err(x),
                }
                self.check_expr(v)
            },
            Expr::StructLit { struct_name, fields } => {
                match self.struct_find(struct_name) {
                    None => Err(err3("неизвестный тип '", struct_name.as_str(), "'")),
                    Some(k) => {
                        let declared = clone_names(&self.structs[k].1);
                        self.check_fields(struct_name, &declared, fields)
                    },
                }
            },
            Expr::FieldAccess(o, _) => self.check_expr(o),
            Expr::FieldAssign(o, _, v) => {
                match self.check_expr(o) {
                    Ok(_) => {},
                    Err(x) => return Err(x),
                }
                match self.check_mutation_target(o, "присваивание полю struct") {
                    Ok(_) => {},
                    Err(x) => return Err(x),
                }
                self.check_expr(v)
            },
            Expr::MethodCall(o, _, args) => {
                match self.check_expr(o) {
                    Ok(_) => {},
                    Err(x) => return Err(x),
                }
                self.check_exprs(args)
            },
        }
    }

    fn check_exprs(&mut self, es: &Vec<Expr>) -> (r: Result<(), SemError>)
        requires
            old(self).wf(),
        ensures
            final(self).wf(),
            check_exprs(old(self)@, exprs_view(es@)) == sem_res(r),
            r is Ok ==> final(self)@ == old(self)@,
        decreases es, 0nat,
    {
        let ghost v = exprs_view(es@);
        proof { crate::ast::lemma_exprs_view_index(es@); }
        let mut i: usize = 0;
        assert(v.take(0) =~= Seq::<ExprV>::empty());
        while i < es.len()
            invariant
                i <= es.len(),
                v == exprs_view(es@),
                v.len() == es.len(),
                forall|j: int| 0 <= j < es.len() ==> #[trigger] v[j] == expr_view(es@[j]),
                self.wf(),
                self@ == old(self)@,
                check_exprs(self@, v.take(i as int)) == Ok::<(), Seq<char>>(()),
            decreases es.len() - i,
        {
            assert(v.take(i + 1).drop_last() =~= v.take(i as int));
            assert(v.take(i + 1).last() == expr_view(es@[i as int]));
            match self.check_expr(&es[i]) {
                Ok(_) => {},
                Err(x) => {
                    proof { lemma_check_exprs_err(old(self)@, v, i + 1); }
                    return Err(x);
                },
            }
            i = i + 1;
        }
        assert(v.take(es.len() as int) =~= v);
        Ok(())
    }

    fn has_name_before(fs: &Vec<(String, Expr)>, upto: usize, f: &String) -> (r: bool)
        requires
            upto <= fs.len(),
        ensures
            r == has_field(fields_view(fs@).take(upto as int), f@),
    {
        proof { crate::ast::lemma_fields_view_index(fs@); }
        let ghost v = fields_view(fs@).take(upto as int);
        let mut i: usize = 0;
        while i < upto
            invariant
                i <= upto,
                upto <= fs.len(),
                v == fields_view(fs@).take(upto as int),
                forall|j: int| 0 <= j < fs.len() ==> #[trigger] fields_view(fs@)[j] == (fs@[j].0@, expr_view(fs@[j].1)),
                fields_view(fs@).len() == fs.len(),
                forall|j: int| 0 <= j < i ==> v[j].0 != f@,
            decreases upto - i,
        {
            if str_eq(&fs[i].0, f) {
                assert(v[i as int].0 == f@);
                return true;
            }
            i = i + 1;
        }
        false
    }

    fn check_fields(&mut self, sname: &String, declared: &Vec<String>, fs: &Vec<(String, Expr)>) -> (r: Result<(), SemError>)
        requires
            old(self).wf(),
        ensures
            final(self).wf(),
            check_fields(old(self)@, sname@, names_view(declared@), fields_view(fs@)) == sem_res(r),
            r is Ok ==> final(self)@ == old(self)@,
        decreases fs, 0nat,
    {
        let ghost v = fields_view(fs@);
        proof { crate::ast::lemma_fields_view_index(fs@); }
        let mut i: usize = 0;
        assert(v.take(0) =~= Seq::<(Seq<char>, ExprV)>::empty());
        while i < fs.len()
            invariant
                i <= fs.len(),
                v == fields_view(fs@),
                v.len() == fs.len(),
                forall|j: int| 0 <= j < fs.len() ==> #[trigger] v[j] == (fs@[j].0@, expr_view(fs@[j].1)),
                self.wf(),
                self@ == old(self)@,
                check_fields(self@, sname@, names_view(declared@), v.take(i as int)) == Ok::<(), Seq<char>>(()),
            decreases fs.len() - i,
        {
            assert(v.take(i + 1).drop_last() =~= v.take(i as int));
            let f = &fs[i].0;
            if !Self::names_contain(declared, f) {
                proof { lemma_check_fields_err(old(self)@, sname@, names_view(declared@), v, i + 1); }
                return Err(err5("тип '", sname.as_str(), "' не имеет поля '", f.as_str(), "'"));
            }
            if Self::has_name_before(fs, i, f) {
                proof { lemma_check_fields_err(old(self)@, sname@, names_view(declared@), v, i + 1); }
                return Err(err5("поле '", f.as_str(), "' указано дважды в литерале '", sname.as_str(), "'"));
            }
            match self.check_expr(&fs[i].1) {
                Ok(_) => {},
                Err(x) => {
                    proof { lemma_check_fields_err(old(self)@, sname@, names_view(declared@), v, i + 1); }
                    return Err(x);
                },
            }
            i = i + 1;
        }
        assert(v.take(fs.len() as int) =~= v);
        Ok(())
    }

    fn names_contain(ns: &Vec<String>, f: &String) -> (r: bool)
        ensures
            r == names_view(ns@).contains(f@),
    {
        let mut i: usize = 0;
        while i < ns.len()
            invariant
                i <= ns.len(),
                forall|j: int| 0 <= j < i ==> names_view(ns@)[j] != f@,
            decreases ns.len() - i,
        {
            if str_eq(&ns[i], f) {
                assert(names_view(ns@)[i as int] == f@);
                return true;
            }
            i = i + 1;
        }
        false
    }
}


/// The `MUT` flags of a list of parameters.
fn param_flags(ps: &Vec<Param>) -> (r: Vec<bool>)
    ensures
        r@ == params_view(ps@).map_values(|p: ParamV| p.mutable),
{
    let mut r: Vec<bool> = Vec::new();
    let mut i: usize = 0;
    while i < ps.len()
        invariant
            i <= ps.len(),
            r@ == params_view(ps@).take(i as int).map_values(|p: ParamV| p.mutable),
        decreases ps.len() - i,
    {
        r.push(ps[i].mutable);
        assert(r@ =~= params_view(ps@).take(i + 1).map_values(|p: ParamV| p.mutable));
        i = i + 1;
    }
    assert(params_view(ps@).take(ps.len() as int) =~= params_view(ps@));
    r
}

impl Analyzer {
    #[verifier::rlimit(80)]
    fn check_stmts(&mut self, ss: &Vec<Stmt>) -> (r: Result<(), SemError>)
        requires
            old(self).wf(),
        ensures
            final(self).wf(),
            match check_stmts(old(self)@, stmts_view(ss@)) {
                Ok(st) => r is Ok && final(self)@ == st,
                Err(m) => r matches Err(x) && x.message@ == m,
            },
            r is Ok ==> same_outer(old(self)@, final(self)@),
        decreases ss, 0nat,
    {
        let ghost v = stmts_view(ss@);
        proof { crate::ast::lemma_stmts_view_index(ss@); }
        let mut i: usize = 0;
        assert(v.take(0) =~= Seq::<StmtV>::empty());
        while i < ss.len()
            invariant
                i <= ss.len(),
                v == stmts_view(ss@),
                v.len() == ss.len(),
                forall|j: int| 0 <= j < ss.len() ==> #[trigger] v[j] == stmt_view(ss@[j]),
                self.wf(),
                check_stmts(old(self)@, v.take(i as int)) == Ok::<SemV, Seq<char>>(self@),
                same_outer(old(self)@, self@),
            decreases ss.len() - i,
        {
            assert(v.take(i + 1).drop_last() =~= v.take(i as int));
            assert(v.take(i + 1).last() == stmt_view(ss@[i as int]));
            match self.check_stmt(&ss[i]) {
                Ok(_) => {},
                Err(x) => {
                    proof { lemma_check_stmts_err(old(self)@, v, i + 1); }
                    return Err(x);
                },
            }
            i = i + 1;
        }
        assert(v.take(ss.len() as int) =~= v);
        Ok(())
    }

    fn check_block(&mut self, ss: &Vec<Stmt>) -> (r: Result<(), SemError>)
        requires
            old(self).wf(),
        ensures
            final(self).wf(),
            match check_block(old(self)@, stmts_view(ss@)) {
                Ok(st) => r is Ok && final(self)@ == st,
                Err(m) => r matches Err(x) && x.message@ == m,
            },
            r is Ok ==> same_outer(old(self)@, final(self)@),
        decreases ss, 1nat,
    {
        let ghost st = self@;
        self.push_scope();
        match self.check_stmts(ss) {
            Ok(_) => {},
            Err(x) => return Err(x),
        }
        self.pop_scope();
        assert(self@.scopes =~= st.scopes);
        Ok(())
    }

    #[verifier::rlimit(80)]
    fn check_stmt(&mut self, s: &Stmt) -> (r: Result<(), SemError>)
        requires
            old(self).wf(),
        ensures
            final(self).wf(),
            match check_stmt(old(self)@, stmt_view(*s)) {
                Ok(st) => r is Ok && final(self)@ == st,
                Err(m) => r matches Err(x) && x.message@ == m,
            },
            r is Ok ==> same_outer(old(self)@, final(self)@),
        decreases s, 0nat,
    {
        let ghost st = self@;
        match s {
            Stmt::VarDecl { name, value, mutable, .. } => {
                match self.check_expr(value) {
                    Ok(_) => {},
                    Err(x) => return Err(x),
                }
                self.declare(name, *mutable)
            },
            Stmt::ExprStmt(e) => self.check_expr(e),
            Stmt::Print(args) => self.check_exprs(args),
            Stmt::If { cond, then_branch, else_branch } => {
                match self.check_expr(cond) {
                    Ok(_) => {},
                    Err(x) => return Err(x),
                }
                match self.check_block(then_branch) {
                    Ok(_) => {},
                    Err(x) => return Err(x),
                }
                match else_branch {
                    Some(b) => self.check_block(b),
                    None => Ok(()),
                }
            },
            Stmt::While { cond, body } => {
                match self.check_expr(cond) {
                    Ok(_) => {},
                    Err(x) => return Err(x),
                }
                let saved = self.in_loop;
                self.in_loop = true;
                match self.check_block(body) {
                    Ok(_) => {},
                    Err(x) => return Err(x),
                }
                self.in_loop = saved;
                Ok(())
            },
            Stmt::ForIn { var, start, end, body } => {
                match self.check_expr(start) {
                    Ok(_) => {},
                    Err(x) => return Err(x),
                }
                match self.check_expr(end) {
                    Ok(_) => {},
                    Err(x) => return Err(x),
                }
                self.push_scope();
                match self.declare(var, true) {
                    Ok(_) => {},
                    Err(x) => return Err(x),
                }
                let saved = self.in_loop;
                self.in_loop = true;
                match self.check_stmts(body) {
                    Ok(_) => {},
                    Err(x) => return Err(x),
                }
                self.in_loop = saved;
                self.pop_scope();
                assert(self@.scopes =~= st.scopes);
                Ok(())
            },
            Stmt::FnDecl { params, body, .. } => {
                let saved_loop = self.in_loop;
                let saved_fn = self.in_fn;
                self.in_loop = false;
                self.push_scope();
                self.in_fn = true;
                match self.declare_params(params) {
                    Ok(_) => {},
                    Err(x) => return Err(x),
                }
                match self.check_stmts(body) {
                    Ok(_) => {},
                    Err(x) => return Err(x),
                }
                self.in_fn = saved_fn;
                self.pop_scope();
                self.in_loop = saved_loop;
                assert(self@.scopes =~= st.scopes);
                Ok(())
            },
            Stmt::Return(e) => {
                if !self.in_fn {
                    return Err(err1("RETURN вне функции"));
                }
                match e {
                    Some(x) => self.check_expr(x),
                    None => Ok(()),
                }
            },
            Stmt::Break => {
                if !self.in_loop {
                    return Err(err1("BREAK вне цикла"));
                }
                Ok(())
            },
            Stmt::Continue => {
                if !self.in_loop {
                    return Err(err1("CONTINUE вне цикла"));
                }
                Ok(())
            },
            Stmt::Block(b) => self.check_block(b),
            Stmt::StructDecl { .. } => Ok(()),
            Stmt::Import(path) => Err(err3(
                "IMPORT \"",
                path.as_str(),
                "\" не был резолвлен до семантического анализа — используйте sga::run_source_file() для файлов с IMPORT (Analyzer::analyze ожидает уже резолвленный AST)",
            )),
        }
    }

    fn collect_decls(&mut self, program: &[Stmt]) -> (r: Result<(), SemError>)
        requires
            old(self).wf(),
        ensures
            final(self).wf(),
            match collect_decls(old(self)@, stmts_view(program@)) {
                Ok(st) => r is Ok && final(self)@ == st,
                Err(m) => r matches Err(x) && x.message@ == m,
            },
    {
        let ghost v = stmts_view(program@);
        proof { crate::ast::lemma_stmts_view_index(program@); }
        let mut i: usize = 0;
        assert(v.take(0) =~= Seq::<StmtV>::empty());
        while i < program.len()
            invariant
                i <= program.len(),
                v == stmts_view(program@),
                v.len() == program.len(),
                forall|j: int| 0 <= j < program.len() ==> #[trigger] v[j] == stmt_view(program@[j]),
                self.wf(),
                collect_decls(old(self)@, v.take(i as int)) == Ok::<SemV, Seq<char>>(self@),
            decreases program.len() - i,
        {
            assert(v.take(i + 1).drop_last() =~= v.take(i as int));
            assert(v.take(i + 1).last() == stmt_view(program@[i as int]));
            match &program[i] {
                Stmt::FnDecl { name, params, .. } => {
                    if self.fn_find(name).is_some() {
                        proof { lemma_collect_decls_err(old(self)@, v, i + 1); }
                        return Err(err3("функция '", name.as_str(), "' уже объявлена"));
                    }
                    let flags = param_flags(params);
                    let ghost before = self@;
                    self.functions.push((name.clone(), flags));
                    assert(self@.funcs =~= before.funcs.push((name@, params_view(params@).map_values(|p: ParamV| p.mutable))));
                },
                Stmt::StructDecl { name, fields } => {
                    if self.struct_find(name).is_some() {
                        proof { lemma_collect_decls_err(old(self)@, v, i + 1); }
                        return Err(err3("тип '", name.as_str(), "' уже объявлен"));
                    }
                    let copy = clone_names(fields);
                    let ghost before = self@;
                    self.structs.push((name.clone(), copy));
                    assert(self@.structs =~= before.structs.push((name@, names_view(fields@))));
                },
                _ => {},
            }
            i = i + 1;
        }
        assert(v.take(program.len() as int) =~= v);
        Ok(())
    }

    /// Analyzes a program: first registers its named functions and structs
    /// (so that a call may come before the declaration), then checks its
    /// statements in order. On success the analyzer holds the program's
    /// declarations and its top-level variables.
    #[verifier::rlimit(80)]
    pub fn analyze(&mut self, program: &[Stmt]) -> (r: Result<(), SemError>)
        requires
            old(self).wf(),
        ensures
            final(self).wf(),
            match spec_analyze(old(self)@, stmts_view(program@)) {
                Ok(st) => r is Ok && final(self)@ == st,
                Err(m) => r matches Err(x) && x.message@ == m,
            },
    {
        match self.collect_decls(program) {
            Ok(_) => {},
            Err(x) => return Err(x),
        }
        let mut i: usize = 0;
        let ghost v = stmts_view(program@);
        let ghost st1 = self@;
        proof { crate::ast::lemma_stmts_view_index(program@); }
        assert(v.take(0) =~= Seq::<StmtV>::empty());
        while i < program.len()
            invariant
                i <= program.len(),
                v == stmts_view(program@),
                v.len() == program.len(),
                forall|j: int| 0 <= j < program.len() ==> #[trigger] v[j] == stmt_view(program@[j]),
                self.wf(),
                check_stmts(st1, v.take(i as int)) == Ok::<SemV, Seq<char>>(self@),
                collect_decls(old(self)@, v) == Ok::<SemV, Seq<char>>(st1),
            decreases program.len() - i,
        {
            assert(v.take(i + 1).drop_last() =~= v.take(i as int));
            assert(v.take(i + 1).last() == stmt_view(program@[i as int]));
            match self.check_stmt(&program[i]) {
                Ok(_) => {},
                Err(x) => {
                    proof { lemma_check_stmts_err(st1, v, i + 1); }
                    return Err(x);
                },
            }
            i = i + 1;
        }
        assert(v.take(program.len() as int) =~= v);
        Ok(())
    }
}

} // verus!
