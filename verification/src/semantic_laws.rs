//! Laws of the semantic analysis: a block opens a scope of its own, and
//! what it declares is gone when it ends; a `LET` variable cannot be
//! reassigned; `BREAK`/`CONTINUE` need a loop and `RETURN` a function.
use vstd::prelude::*;
use crate::ast::{ExprV, ParamV, StmtV, TypeAnnotation};
use crate::semantic::{
    check_block, check_expr, check_stmt, check_stmts, declare, declare_params, lookup, push_scope, same_outer,
    scope_get, SemV,
};

verus! {

/// Declaring a name changes nothing but the innermost scope.
proof fn lemma_declare_outer(st: SemV, n: Seq<char>, mutable: bool)
    requires
        st.scopes.len() >= 1,
    ensures
        declare(st, n, mutable) matches Ok(st2) ==> same_outer(st, st2),
{
    if let Ok(st2) = declare(st, n, mutable) {
        assert(st2.scopes.drop_last() =~= st.scopes.drop_last());
    }
}

/// Declaring parameters changes nothing but the innermost scope.
proof fn lemma_declare_params_outer(st: SemV, ps: Seq<ParamV>)
    requires
        st.scopes.len() >= 1,
    ensures
        declare_params(st, ps) matches Ok(st2) ==> same_outer(st, st2),
    decreases ps.len(),
{
    if ps.len() > 0 {
        lemma_declare_params_outer(st, ps.drop_last());
        if let Ok(st1) = declare_params(st, ps.drop_last()) {
            lemma_declare_outer(st1, ps.last().name, ps.last().mutable);
        }
    }
}

/// A statement changes nothing but the innermost scope.
proof fn lemma_stmt_outer(st: SemV, s: StmtV)
    requires
        st.scopes.len() >= 1,
    ensures
        check_stmt(st, s) matches Ok(st2) ==> same_outer(st, st2),
    decreases s, 0nat,
{
    match s {
        StmtV::VarDecl { name, mutable, .. } => {
            lemma_declare_outer(st, name, mutable);
        },
        StmtV::If { then_branch, else_branch, .. } => {
            lemma_block_restores(st, then_branch);
            if let Some(b) = else_branch {
                lemma_block_restores(st, b);
            }
        },
        StmtV::While { body, .. } => {
            lemma_block_restores(SemV { in_loop: true, ..st }, body);
            if let Ok(st1) = check_block(SemV { in_loop: true, ..st }, body) {
                assert(st1.scopes =~= st.scopes);
            }
        },
        StmtV::ForIn { var, body, .. } => {
            let p = push_scope(st);
            lemma_declare_outer(p, var, true);
            if let Ok(st1) = declare(p, var, true) {
                let q = SemV { in_loop: true, ..st1 };
                lemma_stmts_outer(q, body);
                if let Ok(st2) = check_stmts(q, body) {
                    assert(st2.scopes.drop_last() =~= st.scopes);
                }
            }
        },
        StmtV::FnDecl { params, body, .. } => {
            let st1 = SemV { in_loop: false, in_fn: true, ..push_scope(st) };
            lemma_declare_params_outer(st1, params);
            if let Ok(st2) = declare_params(st1, params) {
                lemma_stmts_outer(st2, body);
                if let Ok(st3) = check_stmts(st2, body) {
                    assert(st3.scopes.drop_last() =~= st.scopes);
                }
            }
        },
        StmtV::Block(b) => {
            lemma_block_restores(st, b);
        },
        _ => {},
    }
}

/// A run of statements changes nothing but the innermost scope.
proof fn lemma_stmts_outer(st: SemV, ss: Seq<StmtV>)
    requires
        st.scopes.len() >= 1,
    ensures
        check_stmts(st, ss) matches Ok(st2) ==> same_outer(st, st2),
    decreases ss, 0nat,
{
    if ss.len() > 0 {
        lemma_stmts_outer(st, ss.drop_last());
        if let Ok(st1) = check_stmts(st, ss.drop_last()) {
            lemma_stmt_outer(st1, ss.last());
        }
    }
}

/// A block is analyzed in a fresh innermost scope: it is accepted exactly
/// when its statements are accepted in the state with one more, empty,
/// scope, and on success the state after it is the state before it. So a
/// name declared inside the block is not visible after it, and a block may
/// declare a name that an enclosing scope already declares.
pub proof fn lemma_block_restores(st: SemV, ss: Seq<StmtV>)
    ensures
        check_block(st, ss) is Ok <==> check_stmts(SemV { scopes: st.scopes.push(Seq::empty()), ..st }, ss) is Ok,
        check_block(st, ss) matches Ok(st2) ==> st2 == st,
        check_block(st, ss) matches Ok(st2) ==> forall|n: Seq<char>| lookup(st2.scopes, n) == lookup(st.scopes, n),
    decreases ss, 1nat,
{
    let p = push_scope(st);
    assert(p == SemV { scopes: st.scopes.push(Seq::empty()), ..st });
    lemma_stmts_outer(p, ss);
    if let Ok(st1) = check_stmts(p, ss) {
        assert(st1.scopes.drop_last() =~= st.scopes);
    }
}

/// A block that declares a variable with a name that an enclosing scope
/// already holds is accepted, and leaves the state as it was: the inner
/// declaration shadows the outer one only inside the block.
pub proof fn lemma_block_shadowing(st: SemV, n: Seq<char>, v: i64, mutable: bool, ty: Option<TypeAnnotation>)
    ensures
        check_block(st, seq![StmtV::VarDecl { name: n, value: ExprV::Int(v), mutable, ty }]) == Ok::<SemV, Seq<char>>(st),
{
    let s = StmtV::VarDecl { name: n, value: ExprV::Int(v), mutable, ty };
    let p = push_scope(st);
    assert(seq![s].drop_last() =~= Seq::<StmtV>::empty());
    assert(check_expr(p, ExprV::Int(v)) == Ok::<(), Seq<char>>(()));
    assert(p.scopes.last() =~= Seq::<(Seq<char>, bool)>::empty());
    lemma_block_restores(st, seq![s]);
    if let Ok(st2) = check_block(st, seq![s]) {
        assert(st2.scopes =~= st.scopes);
    }
}

/// A variable declared inside a block is not visible after it: where no
/// visible variable is named `n`, a block followed by a use of `n` is
/// refused with the message that `n` is undefined, whatever the block
/// declares.
pub proof fn lemma_block_names_do_not_leak(st: SemV, b: Seq<StmtV>, n: Seq<char>)
    requires
        lookup(st.scopes, n) is None,
        check_block(st, b) is Ok,
    ensures
        check_stmts(st, seq![StmtV::Block(b), StmtV::ExprStmt(ExprV::Ident(n))])
            == Err::<SemV, Seq<char>>("неопределённая переменная '"@ + n + "'"@),
{
    let first = seq![StmtV::Block(b)];
    let ss = seq![StmtV::Block(b), StmtV::ExprStmt(ExprV::Ident(n))];
    lemma_block_restores(st, b);
    assert(ss.drop_last() =~= first);
    assert(ss.last() == StmtV::ExprStmt(ExprV::Ident(n)));
    assert(first.drop_last() =~= Seq::<StmtV>::empty());
    assert(check_stmts(st, Seq::<StmtV>::empty()) == Ok::<SemV, Seq<char>>(st));
    assert(check_stmt(st, StmtV::Block(b)) == check_block(st, b));
    assert(check_stmts(st, first) == check_block(st, b));
    assert(check_stmts(st, first) == Ok::<SemV, Seq<char>>(st));
    assert(check_expr(st, ExprV::Ident(n)) == Err::<(), Seq<char>>("неопределённая переменная '"@ + n + "'"@));
    assert(check_stmt(st, StmtV::ExprStmt(ExprV::Ident(n)))
        == Err::<SemV, Seq<char>>("неопределённая переменная '"@ + n + "'"@));
    assert(ss.len() == 2);
    assert(check_stmts(st, ss) == check_stmt(st, StmtV::ExprStmt(ExprV::Ident(n))));
}

/// The two statements `LET n = v1;` (or `VAR n = v1;`) and `n = v2;`, in
/// order.
pub open spec fn declare_then_assign(n: Seq<char>, v1: i64, v2: i64, mutable: bool, ty: Option<TypeAnnotation>) -> Seq<StmtV> {
    seq![
        StmtV::VarDecl { name: n, value: ExprV::Int(v1), mutable, ty },
        StmtV::ExprStmt(ExprV::Assign(n, Box::new(ExprV::Int(v2)))),
    ]
}

/// A variable declared without `MUT` (by `LET` or `CONST`) cannot be
/// reassigned, and one declared mutable (by `VAR`) can: where `n` is new in
/// the innermost scope, declaring it and then assigning to it is refused
/// with the immutability message in the first case and accepted in the
/// second.
pub proof fn lemma_immutable_assignment(st: SemV, n: Seq<char>, v1: i64, v2: i64, ty: Option<TypeAnnotation>)
    requires
        st.scopes.len() >= 1,
        scope_get(st.scopes.last(), n) is None,
    ensures
        check_stmts(st, declare_then_assign(n, v1, v2, false, ty)) == Err::<SemV, Seq<char>>(
            "невозможно изменить immutable-переменную '"@ + n
                + "' (объявлена через LET/CONST, либо параметр функции без MUT)"@,
        ),
        check_stmts(st, declare_then_assign(n, v1, v2, true, ty)) is Ok,
{
    lemma_declared_then_used(st, n, v1, v2, false, ty);
    lemma_declared_then_used(st, n, v1, v2, true, ty);
    let st1 = declare(st, n, true)->Ok_0;
    let a = ExprV::Assign(n, Box::new(ExprV::Int(v2)));
    assert(check_expr(st1, ExprV::Int(v2)) == Ok::<(), Seq<char>>(()));
    assert(check_expr(st1, a) == Ok::<(), Seq<char>>(()));
    assert(check_stmt(st1, StmtV::ExprStmt(a)) == Ok::<SemV, Seq<char>>(st1));
}

/// After `n` is declared in the innermost scope, looking it up finds the
/// new declaration, and the assignment is analyzed in that state.
proof fn lemma_declared_then_used(st: SemV, n: Seq<char>, v1: i64, v2: i64, mutable: bool, ty: Option<TypeAnnotation>)
    requires
        st.scopes.len() >= 1,
        scope_get(st.scopes.last(), n) is None,
    ensures
        ({
            let st1 = declare(st, n, mutable)->Ok_0;
            &&& declare(st, n, mutable) is Ok
            &&& lookup(st1.scopes, n) == Some(mutable)
            &&& check_stmts(st, declare_then_assign(n, v1, v2, mutable, ty))
                == check_stmt(st1, StmtV::ExprStmt(ExprV::Assign(n, Box::new(ExprV::Int(v2)))))
        }),
{
    let ss = declare_then_assign(n, v1, v2, mutable, ty);
    let d = StmtV::VarDecl { name: n, value: ExprV::Int(v1), mutable, ty };
    let st1 = declare(st, n, mutable)->Ok_0;
    let top = st.scopes.last().push((n, mutable));
    assert(st1.scopes.last() == top);
    assert(scope_get(top, n) == Some(mutable));
    assert(ss.drop_last() =~= seq![d]);
    assert(seq![d].drop_last() =~= Seq::<StmtV>::empty());
    assert(check_expr(st, ExprV::Int(v1)) == Ok::<(), Seq<char>>(()));
    assert(check_stmt(st, d) == declare(st, n, mutable));
    assert(check_stmts(st, Seq::<StmtV>::empty()) == Ok::<SemV, Seq<char>>(st));
    assert(check_stmts(st, seq![d]) == check_stmt(st, d));
    assert(check_stmts(st, ss) == check_stmt(st1, ss.last()));
}

/// A loop body made of one `BREAK` or `CONTINUE` is accepted.
proof fn lemma_loop_jump_body(st: SemV, cond: bool, j: StmtV)
    requires
        j == StmtV::Break || j == StmtV::Continue,
    ensures
        check_stmt(st, StmtV::While { cond: ExprV::Bool(cond), body: seq![j] }) == Ok::<SemV, Seq<char>>(st),
{
    let lp = SemV { in_loop: true, ..st };
    let p = push_scope(lp);
    let body = seq![j];
    assert(check_expr(st, ExprV::Bool(cond)) == Ok::<(), Seq<char>>(()));
    assert(check_stmt(p, j) == Ok::<SemV, Seq<char>>(p));
    assert(body.drop_last() =~= Seq::<StmtV>::empty());
    assert(check_stmts(p, Seq::<StmtV>::empty()) == Ok::<SemV, Seq<char>>(p));
    assert(check_stmts(p, body) == Ok::<SemV, Seq<char>>(p));
    assert(p.scopes.drop_last() =~= st.scopes);
    assert(check_block(lp, body) == Ok::<SemV, Seq<char>>(lp));
}

/// `BREAK` and `CONTINUE` are refused outside a loop, with their messages,
/// and accepted as the body of a `WHILE` loop, which then leaves the state
/// as it was.
pub proof fn lemma_break_needs_loop(st: SemV, cond: bool)
    ensures
        !st.in_loop ==> check_stmt(st, StmtV::Break) == Err::<SemV, Seq<char>>("BREAK вне цикла"@),
        !st.in_loop ==> check_stmt(st, StmtV::Continue) == Err::<SemV, Seq<char>>("CONTINUE вне цикла"@),
        check_stmt(st, StmtV::While { cond: ExprV::Bool(cond), body: seq![StmtV::Break] }) == Ok::<SemV, Seq<char>>(st),
        check_stmt(st, StmtV::While { cond: ExprV::Bool(cond), body: seq![StmtV::Continue] }) == Ok::<SemV, Seq<char>>(
            st,
        ),
{
    lemma_loop_jump_body(st, cond, StmtV::Break);
    lemma_loop_jump_body(st, cond, StmtV::Continue);
}

/// `RETURN` is refused outside a function, with its message, and accepted
/// as the body of a named function, whose declaration then leaves the
/// state as it was.
pub proof fn lemma_return_needs_function(st: SemV, name: Seq<char>, return_ty: Option<TypeAnnotation>)
    ensures
        !st.in_fn ==> check_stmt(st, StmtV::Return(None)) == Err::<SemV, Seq<char>>("RETURN вне функции"@),
        check_stmt(
            st,
            StmtV::FnDecl { name, params: Seq::empty(), body: seq![StmtV::Return(None)], return_ty },
        ) == Ok::<SemV, Seq<char>>(st),
{
    let st1 = SemV { in_loop: false, in_fn: true, ..push_scope(st) };
    let body = seq![StmtV::Return(None)];
    assert(declare_params(st1, Seq::<ParamV>::empty()) == Ok::<SemV, Seq<char>>(st1));
    assert(check_stmt(st1, StmtV::Return(None)) == Ok::<SemV, Seq<char>>(st1));
    assert(body.drop_last() =~= Seq::<StmtV>::empty());
    assert(check_stmts(st1, Seq::<StmtV>::empty()) == Ok::<SemV, Seq<char>>(st1));
    assert(check_stmts(st1, body) == Ok::<SemV, Seq<char>>(st1));
    assert(st1.scopes.drop_last() =~= st.scopes);
}


/// The contents of a variable declared without `MUT` cannot be changed
/// either: where `n` is new in the innermost scope, declaring it by `LET`
/// and then assigning to one of its elements is refused, naming the
/// variable and the indexed assignment; declared by `VAR`, it is accepted.
pub proof fn lemma_immutable_contents(st: SemV, n: Seq<char>, v1: i64, i: i64, v2: i64, ty: Option<TypeAnnotation>)
    requires
        st.scopes.len() >= 1,
        scope_get(st.scopes.last(), n) is None,
    ensures
        check_stmts(st, declare_then_set_element(n, v1, i, v2, false, ty)) == Err::<SemV, Seq<char>>(
            "невозможно изменить содержимое immutable-переменной '"@ + n + "' через "@ + "индексное присваивание"@
                + " (объявлена через LET/CONST, либо параметр функции без MUT)"@,
        ),
        check_stmts(st, declare_then_set_element(n, v1, i, v2, true, ty)) is Ok,
{
    lemma_set_element_after_declare(st, n, v1, i, v2, false, ty);
    lemma_set_element_after_declare(st, n, v1, i, v2, true, ty);
    let sf = declare(st, n, false)->Ok_0;
    let stt = declare(st, n, true)->Ok_0;
    let target = ExprV::Ident(n);
    let a = ExprV::IndexAssign(Box::new(target), Box::new(ExprV::Int(i)), Box::new(ExprV::Int(v2)));
    assert(check_expr(sf, target) == Ok::<(), Seq<char>>(()));
    assert(check_expr(stt, target) == Ok::<(), Seq<char>>(()));
    assert(check_expr(stt, ExprV::Int(i)) == Ok::<(), Seq<char>>(()));
    assert(check_expr(stt, ExprV::Int(v2)) == Ok::<(), Seq<char>>(()));
    assert(check_expr(stt, a) == Ok::<(), Seq<char>>(()));
    assert(check_stmt(stt, StmtV::ExprStmt(a)) == Ok::<SemV, Seq<char>>(stt));
}

/// The two statements `LET n = v1;` (or `VAR n = v1;`) and `n[i] = v2;`.
pub open spec fn declare_then_set_element(
    n: Seq<char>,
    v1: i64,
    i: i64,
    v2: i64,
    mutable: bool,
    ty: Option<TypeAnnotation>,
) -> Seq<StmtV> {
    seq![
        StmtV::VarDecl { name: n, value: ExprV::Int(v1), mutable, ty },
        StmtV::ExprStmt(
            ExprV::IndexAssign(Box::new(ExprV::Ident(n)), Box::new(ExprV::Int(i)), Box::new(ExprV::Int(v2))),
        ),
    ]
}

proof fn lemma_set_element_after_declare(
    st: SemV,
    n: Seq<char>,
    v1: i64,
    i: i64,
    v2: i64,
    mutable: bool,
    ty: Option<TypeAnnotation>,
)
    requires
        st.scopes.len() >= 1,
        scope_get(st.scopes.last(), n) is None,
    ensures
        ({
            let st1 = declare(st, n, mutable)->Ok_0;
            &&& declare(st, n, mutable) is Ok
            &&& lookup(st1.scopes, n) == Some(mutable)
            &&& check_stmts(st, declare_then_set_element(n, v1, i, v2, mutable, ty)) == check_stmt(
                st1,
                declare_then_set_element(n, v1, i, v2, mutable, ty).last(),
            )
        }),
{
    let ss = declare_then_set_element(n, v1, i, v2, mutable, ty);
    let d = StmtV::VarDecl { name: n, value: ExprV::Int(v1), mutable, ty };
    let st1 = declare(st, n, mutable)->Ok_0;
    let top = st.scopes.last().push((n, mutable));
    assert(st1.scopes.last() == top);
    assert(scope_get(top, n) == Some(mutable));
    assert(ss.drop_last() =~= seq![d]);
    assert(seq![d].drop_last() =~= Seq::<StmtV>::empty());
    assert(check_expr(st, ExprV::Int(v1)) == Ok::<(), Seq<char>>(()));
    assert(check_stmt(st, d) == declare(st, n, mutable));
    assert(check_stmts(st, Seq::<StmtV>::empty()) == Ok::<SemV, Seq<char>>(st));
    assert(check_stmts(st, seq![d]) == check_stmt(st, d));
}

} // verus!
