//! What the parser guarantees of every program it accepts: `IMPORT`,
//! `STRUCT` and named `FN` declarations stand only at the top level, never
//! inside a block, a function body, a branch, a loop body or an anonymous
//! function, at any depth.
use vstd::prelude::*;
use crate::ast::{BinOp, ExprV, StmtV, UnOp};
use crate::lexer::token::{Token, TokenKind};
use crate::parser::{
    adv, is_at, is_top_only, sp_after_name, sp_and, sp_and_tail, sp_args, sp_args_tail, sp_assignment,
    sp_block, sp_block_tail, sp_comparison, sp_comparison_tail, sp_equality, sp_equality_tail, sp_expect, sp_expr,
    sp_expr_stmt, sp_factor, sp_factor_tail, sp_field_init, sp_field_names, sp_field_names_tail, sp_fields,
    sp_fields_tail, sp_fn_decl, sp_for, sp_ident, sp_if, sp_lambda, sp_names, sp_names_tail, sp_opt_annotation,
    sp_or, sp_or_tail, sp_param, sp_params, sp_params_tail, sp_postfix, sp_postfix_tail, sp_primary, sp_program_from,
    sp_stmt, sp_stmt_inner, sp_term, sp_term_tail, sp_type_name, sp_unary, sp_var_decl,
    spec_parse_program, wf_at, wf_tokens, ParseErrV, MAX_PARSE_DEPTH, PR,
};

verus! {

/// No anonymous function inside the expression holds a top-level-only
/// statement, at any depth.
pub open spec fn expr_clean(e: ExprV) -> bool
    decreases e,
{
    match e {
        ExprV::Array(items) => exprs_clean(items),
        ExprV::Index(a, i) => expr_clean(*a) && expr_clean(*i),
        ExprV::Unary(_, a) => expr_clean(*a),
        ExprV::Binary(_, a, b) => expr_clean(*a) && expr_clean(*b),
        ExprV::Call(_, args) => exprs_clean(args),
        ExprV::CallExpr(f, args) => expr_clean(*f) && exprs_clean(args),
        ExprV::Assign(_, v) => expr_clean(*v),
        ExprV::IndexAssign(a, i, v) => expr_clean(*a) && expr_clean(*i) && expr_clean(*v),
        ExprV::Lambda { body, .. } => block_clean(body),
        ExprV::StructLit { fields, .. } => fields_clean(fields),
        ExprV::FieldAccess(o, _) => expr_clean(*o),
        ExprV::FieldAssign(o, _, v) => expr_clean(*o) && expr_clean(*v),
        ExprV::MethodCall(o, _, args) => expr_clean(*o) && exprs_clean(args),
        _ => true,
    }
}

/// Every expression of the list satisfies `expr_clean`.
pub open spec fn exprs_clean(es: Seq<ExprV>) -> bool
    decreases es,
{
    es.len() == 0 || (exprs_clean(es.drop_last()) && expr_clean(es.last()))
}

/// Every field value of a struct literal satisfies `expr_clean`.
pub open spec fn fields_clean(fs: Seq<(Seq<char>, ExprV)>) -> bool
    decreases fs,
{
    fs.len() == 0 || (fields_clean(fs.drop_last()) && expr_clean(fs.last().1))
}

/// No statement of the block is top-level-only, and each is clean inside.
pub open spec fn block_clean(b: Seq<StmtV>) -> bool
    decreases b,
{
    b.len() == 0 || (block_clean(b.drop_last()) && !is_top_only(b.last()) && stmt_clean(b.last()))
}

/// No block, body or expression inside the statement holds a
/// top-level-only statement, at any depth.
pub open spec fn stmt_clean(st: StmtV) -> bool
    decreases st,
{
    match st {
        StmtV::VarDecl { value, .. } => expr_clean(value),
        StmtV::ExprStmt(e) => expr_clean(e),
        StmtV::Print(args) => exprs_clean(args),
        StmtV::If { cond, then_branch, else_branch } => expr_clean(cond) && block_clean(then_branch) && match else_branch {
            Some(b) => block_clean(b),
            None => true,
        },
        StmtV::While { cond, body } => expr_clean(cond) && block_clean(body),
        StmtV::ForIn { start, end, body, .. } => expr_clean(start) && expr_clean(end) && block_clean(body),
        StmtV::FnDecl { body, .. } => block_clean(body),
        StmtV::Return(r) => match r {
            Some(e) => expr_clean(e),
            None => true,
        },
        StmtV::Block(b) => block_clean(b),
        _ => true,
    }
}

// ------------------------------------------------------------------ positions

proof fn lemma_names_tail_pos(t: Seq<Token>, p: nat, acc: Seq<Seq<char>>)
    requires
        wf_at(t, p),
    ensures
        sp_names_tail(t, p, acc) matches Ok((_, q)) ==> q < t.len(),
    decreases t.len() - p,
{
    if is_at(t, p, TokenKind::Comma) {
        match sp_ident(t, adv(t, p)) {
            Ok((x, p2)) => if p < p2 && p2 < t.len() {
                lemma_names_tail_pos(t, p2, acc.push(x));
            },
            Err(_) => {},
        }
    }
}

proof fn lemma_names_pos(t: Seq<Token>, p: nat)
    requires
        wf_at(t, p),
    ensures
        sp_names(t, p) matches Ok((_, q)) ==> q < t.len(),
{
    if !is_at(t, p, TokenKind::RParen) {
        match sp_ident(t, p) {
            Ok((x, p2)) => lemma_names_tail_pos(t, p2, seq![x]),
            Err(_) => {},
        }
    }
}

proof fn lemma_params_tail_pos(t: Seq<Token>, p: nat, acc: Seq<crate::ast::ParamV>)
    requires
        wf_at(t, p),
    ensures
        sp_params_tail(t, p, acc) matches Ok((_, q)) ==> q < t.len(),
    decreases t.len() - p,
{
    if is_at(t, p, TokenKind::Comma) {
        match sp_param(t, adv(t, p)) {
            Ok((x, p2)) => if p < p2 && p2 < t.len() {
                lemma_params_tail_pos(t, p2, acc.push(x));
            },
            Err(_) => {},
        }
    }
}

proof fn lemma_params_pos(t: Seq<Token>, p: nat)
    requires
        wf_at(t, p),
    ensures
        sp_params(t, p) matches Ok((_, q)) ==> q < t.len(),
{
    if !is_at(t, p, TokenKind::RParen) {
        match sp_param(t, p) {
            Ok((x, p2)) => lemma_params_tail_pos(t, p2, seq![x]),
            Err(_) => {},
        }
    }
}

proof fn lemma_field_names_tail_pos(t: Seq<Token>, p: nat, acc: Seq<Seq<char>>)
    requires
        wf_at(t, p),
    ensures
        sp_field_names_tail(t, p, acc) matches Ok((_, q)) ==> q < t.len(),
    decreases t.len() - p,
{
    if is_at(t, p, TokenKind::Comma) {
        let p1 = adv(t, p);
        if !is_at(t, p1, TokenKind::RBrace) {
            match sp_ident(t, p1) {
                Ok((x, p2)) => if p < p2 && p2 < t.len() {
                    lemma_field_names_tail_pos(t, p2, acc.push(x));
                },
                Err(_) => {},
            }
        }
    }
}

proof fn lemma_field_names_pos(t: Seq<Token>, p: nat)
    requires
        wf_at(t, p),
    ensures
        sp_field_names(t, p) matches Ok((_, q)) ==> q < t.len(),
{
    if !is_at(t, p, TokenKind::RBrace) {
        match sp_ident(t, p) {
            Ok((x, p2)) => lemma_field_names_tail_pos(t, p2, seq![x]),
            Err(_) => {},
        }
    }
}

// ------------------------------------------------------------------ results

/// An expression result: clean, and ending inside the tokens.
pub open spec fn ok_expr(r: PR<ExprV>, n: nat) -> bool {
    r matches Ok((e, q)) ==> expr_clean(e) && q < n
}

/// An expression-list result: clean, and ending inside the tokens.
pub open spec fn ok_exprs(r: PR<Seq<ExprV>>, n: nat) -> bool {
    r matches Ok((es, q)) ==> exprs_clean(es) && q < n
}

/// A struct-literal field result: clean, and ending inside the tokens.
pub open spec fn ok_field(r: PR<(Seq<char>, ExprV)>, n: nat) -> bool {
    r matches Ok((f, q)) ==> expr_clean(f.1) && q < n
}

/// A struct-literal fields result: clean, and ending inside the tokens.
pub open spec fn ok_fields(r: PR<Seq<(Seq<char>, ExprV)>>, n: nat) -> bool {
    r matches Ok((fs, q)) ==> fields_clean(fs) && q < n
}

/// A block result: clean, and ending inside the tokens.
pub open spec fn ok_block(r: PR<Seq<StmtV>>, n: nat) -> bool {
    r matches Ok((b, q)) ==> block_clean(b) && q < n
}

/// A statement result: clean inside, not top-level-only unless read at the
/// top level, an `IF` when it starts with `IF`, and ending inside the
/// tokens.
pub open spec fn ok_stmt(r: PR<StmtV>, n: nat, top: bool, starts_if: bool) -> bool {
    r matches Ok((st, q)) ==> stmt_clean(st) && (!top ==> !is_top_only(st)) && (starts_if ==> st is If) && q < n
}


proof fn lemma_or_clean(t: Seq<Token>, p: nat, d: nat)
    requires
        wf_at(t, p),
        d <= MAX_PARSE_DEPTH,
    ensures
        ok_expr(sp_or(t, p, d), t.len()),
    decreases 2 * (MAX_PARSE_DEPTH - d) + 1, 29int, t.len() - p,
{
    lemma_and_clean(t, p, d);
    match sp_and(t, p, d) {
        Ok((l, p1)) => lemma_or_tail_clean(t, p1, d, l),
        Err(_) => {},
    }
}

proof fn lemma_or_tail_clean(t: Seq<Token>, p: nat, d: nat, l: ExprV)
    requires
        wf_at(t, p),
        d <= MAX_PARSE_DEPTH,
        expr_clean(l),
    ensures
        ok_expr(sp_or_tail(t, p, d, l), t.len()),
    decreases 2 * (MAX_PARSE_DEPTH - d) + 1, 28int, t.len() - p,
{
    if is_at(t, p, TokenKind::Or) {
        let op = BinOp::Or;
        lemma_and_clean(t, adv(t, p), d);
        match sp_and(t, adv(t, p), d) {
            Ok((r, p2)) => if p < p2 && p2 < t.len() {
                lemma_or_tail_clean(t, p2, d, ExprV::Binary(op, Box::new(l), Box::new(r)));
            },
            Err(_) => {},
        }
    }
}

proof fn lemma_and_clean(t: Seq<Token>, p: nat, d: nat)
    requires
        wf_at(t, p),
        d <= MAX_PARSE_DEPTH,
    ensures
        ok_expr(sp_and(t, p, d), t.len()),
    decreases 2 * (MAX_PARSE_DEPTH - d) + 1, 27int, t.len() - p,
{
    lemma_equality_clean(t, p, d);
    match sp_equality(t, p, d) {
        Ok((l, p1)) => lemma_and_tail_clean(t, p1, d, l),
        Err(_) => {},
    }
}

proof fn lemma_and_tail_clean(t: Seq<Token>, p: nat, d: nat, l: ExprV)
    requires
        wf_at(t, p),
        d <= MAX_PARSE_DEPTH,
        expr_clean(l),
    ensures
        ok_expr(sp_and_tail(t, p, d, l), t.len()),
    decreases 2 * (MAX_PARSE_DEPTH - d) + 1, 26int, t.len() - p,
{
    if is_at(t, p, TokenKind::And) {
        let op = BinOp::And;
        lemma_equality_clean(t, adv(t, p), d);
        match sp_equality(t, adv(t, p), d) {
            Ok((r, p2)) => if p < p2 && p2 < t.len() {
                lemma_and_tail_clean(t, p2, d, ExprV::Binary(op, Box::new(l), Box::new(r)));
            },
            Err(_) => {},
        }
    }
}

proof fn lemma_equality_clean(t: Seq<Token>, p: nat, d: nat)
    requires
        wf_at(t, p),
        d <= MAX_PARSE_DEPTH,
    ensures
        ok_expr(sp_equality(t, p, d), t.len()),
    decreases 2 * (MAX_PARSE_DEPTH - d) + 1, 25int, t.len() - p,
{
    lemma_comparison_clean(t, p, d);
    match sp_comparison(t, p, d) {
        Ok((l, p1)) => lemma_equality_tail_clean(t, p1, d, l),
        Err(_) => {},
    }
}

proof fn lemma_equality_tail_clean(t: Seq<Token>, p: nat, d: nat, l: ExprV)
    requires
        wf_at(t, p),
        d <= MAX_PARSE_DEPTH,
        expr_clean(l),
    ensures
        ok_expr(sp_equality_tail(t, p, d, l), t.len()),
    decreases 2 * (MAX_PARSE_DEPTH - d) + 1, 24int, t.len() - p,
{
    if is_at(t, p, TokenKind::Eq) || is_at(t, p, TokenKind::NotEq) {
        let op = if is_at(t, p, TokenKind::Eq) { BinOp::Eq } else { BinOp::NotEq };
        lemma_comparison_clean(t, adv(t, p), d);
        match sp_comparison(t, adv(t, p), d) {
            Ok((r, p2)) => if p < p2 && p2 < t.len() {
                lemma_equality_tail_clean(t, p2, d, ExprV::Binary(op, Box::new(l), Box::new(r)));
            },
            Err(_) => {},
        }
    }
}

proof fn lemma_comparison_clean(t: Seq<Token>, p: nat, d: nat)
    requires
        wf_at(t, p),
        d <= MAX_PARSE_DEPTH,
    ensures
        ok_expr(sp_comparison(t, p, d), t.len()),
    decreases 2 * (MAX_PARSE_DEPTH - d) + 1, 23int, t.len() - p,
{
    lemma_term_clean(t, p, d);
    match sp_term(t, p, d) {
        Ok((l, p1)) => lemma_comparison_tail_clean(t, p1, d, l),
        Err(_) => {},
    }
}

proof fn lemma_comparison_tail_clean(t: Seq<Token>, p: nat, d: nat, l: ExprV)
    requires
        wf_at(t, p),
        d <= MAX_PARSE_DEPTH,
        expr_clean(l),
    ensures
        ok_expr(sp_comparison_tail(t, p, d, l), t.len()),
    decreases 2 * (MAX_PARSE_DEPTH - d) + 1, 22int, t.len() - p,
{
    if is_at(t, p, TokenKind::Lt) || is_at(t, p, TokenKind::Gt) || is_at(t, p, TokenKind::LtEq) || is_at(t, p, TokenKind::GtEq) {
        let op = if is_at(t, p, TokenKind::Lt) { BinOp::Lt } else if is_at(t, p, TokenKind::Gt) { BinOp::Gt } else if is_at(t, p, TokenKind::LtEq) { BinOp::LtEq } else { BinOp::GtEq };
        lemma_term_clean(t, adv(t, p), d);
        match sp_term(t, adv(t, p), d) {
            Ok((r, p2)) => if p < p2 && p2 < t.len() {
                lemma_comparison_tail_clean(t, p2, d, ExprV::Binary(op, Box::new(l), Box::new(r)));
            },
            Err(_) => {},
        }
    }
}

proof fn lemma_term_clean(t: Seq<Token>, p: nat, d: nat)
    requires
        wf_at(t, p),
        d <= MAX_PARSE_DEPTH,
    ensures
        ok_expr(sp_term(t, p, d), t.len()),
    decreases 2 * (MAX_PARSE_DEPTH - d) + 1, 21int, t.len() - p,
{
    lemma_factor_clean(t, p, d);
    match sp_factor(t, p, d) {
        Ok((l, p1)) => lemma_term_tail_clean(t, p1, d, l),
        Err(_) => {},
    }
}

proof fn lemma_term_tail_clean(t: Seq<Token>, p: nat, d: nat, l: ExprV)
    requires
        wf_at(t, p),
        d <= MAX_PARSE_DEPTH,
        expr_clean(l),
    ensures
        ok_expr(sp_term_tail(t, p, d, l), t.len()),
    decreases 2 * (MAX_PARSE_DEPTH - d) + 1, 20int, t.len() - p,
{
    if is_at(t, p, TokenKind::Plus) || is_at(t, p, TokenKind::Minus) {
        let op = if is_at(t, p, TokenKind::Plus) { BinOp::Add } else { BinOp::Sub };
        lemma_factor_clean(t, adv(t, p), d);
        match sp_factor(t, adv(t, p), d) {
            Ok((r, p2)) => if p < p2 && p2 < t.len() {
                lemma_term_tail_clean(t, p2, d, ExprV::Binary(op, Box::new(l), Box::new(r)));
            },
            Err(_) => {},
        }
    }
}

proof fn lemma_factor_clean(t: Seq<Token>, p: nat, d: nat)
    requires
        wf_at(t, p),
        d <= MAX_PARSE_DEPTH,
    ensures
        ok_expr(sp_factor(t, p, d), t.len()),
    decreases 2 * (MAX_PARSE_DEPTH - d) + 1, 19int, t.len() - p,
{
    lemma_unary_clean(t, p, d);
    match sp_unary(t, p, d) {
        Ok((l, p1)) => lemma_factor_tail_clean(t, p1, d, l),
        Err(_) => {},
    }
}

proof fn lemma_factor_tail_clean(t: Seq<Token>, p: nat, d: nat, l: ExprV)
    requires
        wf_at(t, p),
        d <= MAX_PARSE_DEPTH,
        expr_clean(l),
    ensures
        ok_expr(sp_factor_tail(t, p, d, l), t.len()),
    decreases 2 * (MAX_PARSE_DEPTH - d) + 1, 18int, t.len() - p,
{
    if is_at(t, p, TokenKind::Star) || is_at(t, p, TokenKind::Slash) || is_at(t, p, TokenKind::Percent) {
        let op = if is_at(t, p, TokenKind::Star) { BinOp::Mul } else if is_at(t, p, TokenKind::Slash) { BinOp::Div } else { BinOp::Mod };
        lemma_unary_clean(t, adv(t, p), d);
        match sp_unary(t, adv(t, p), d) {
            Ok((r, p2)) => if p < p2 && p2 < t.len() {
                lemma_factor_tail_clean(t, p2, d, ExprV::Binary(op, Box::new(l), Box::new(r)));
            },
            Err(_) => {},
        }
    }
}

proof fn lemma_exprs_push(acc: Seq<ExprV>, a: ExprV)
    requires
        exprs_clean(acc),
        expr_clean(a),
    ensures
        exprs_clean(acc.push(a)),
{
    assert(acc.push(a).drop_last() =~= acc);
}

proof fn lemma_fields_push(acc: Seq<(Seq<char>, ExprV)>, f: (Seq<char>, ExprV))
    requires
        fields_clean(acc),
        expr_clean(f.1),
    ensures
        fields_clean(acc.push(f)),
{
    assert(acc.push(f).drop_last() =~= acc);
}

proof fn lemma_block_push(acc: Seq<StmtV>, st: StmtV)
    requires
        block_clean(acc),
        !is_top_only(st),
        stmt_clean(st),
    ensures
        block_clean(acc.push(st)),
{
    assert(acc.push(st).drop_last() =~= acc);
}

proof fn lemma_expr_clean(t: Seq<Token>, p: nat, d: nat)
    requires
        wf_at(t, p),
        d <= MAX_PARSE_DEPTH,
    ensures
        ok_expr(sp_expr(t, p, d), t.len()),
    decreases 2 * (MAX_PARSE_DEPTH - d) + 0, 1int, t.len() - p,
{
    if d + 1 <= MAX_PARSE_DEPTH {
        lemma_assignment_clean(t, p, d + 1);
    }
}

proof fn lemma_assignment_clean(t: Seq<Token>, p: nat, d: nat)
    requires
        wf_at(t, p),
        d <= MAX_PARSE_DEPTH,
    ensures
        ok_expr(sp_assignment(t, p, d), t.len()),
    decreases 2 * (MAX_PARSE_DEPTH - d) + 1, 30int, t.len() - p,
{
    lemma_or_clean(t, p, d);
    match sp_or(t, p, d) {
        Ok((e, p1)) => if is_at(t, p1, TokenKind::Assign) {
            let p2 = adv(t, p1);
            if p < p2 && p2 < t.len() {
                lemma_assignment_clean(t, p2, d);
            }
        },
        Err(_) => {},
    }
}

proof fn lemma_unary_clean(t: Seq<Token>, p: nat, d: nat)
    requires
        wf_at(t, p),
        d <= MAX_PARSE_DEPTH,
    ensures
        ok_expr(sp_unary(t, p, d), t.len()),
    decreases 2 * (MAX_PARSE_DEPTH - d) + 1, 17int, t.len() - p,
{
    if is_at(t, p, TokenKind::Minus) || is_at(t, p, TokenKind::Not) {
        assert(adv(t, p) > p);
        lemma_unary_clean(t, adv(t, p), d);
    } else {
        lemma_postfix_clean(t, p, d);
    }
}

proof fn lemma_postfix_clean(t: Seq<Token>, p: nat, d: nat)
    requires
        wf_at(t, p),
        d <= MAX_PARSE_DEPTH,
    ensures
        ok_expr(sp_postfix(t, p, d), t.len()),
    decreases 2 * (MAX_PARSE_DEPTH - d) + 1, 16int, t.len() - p,
{
    lemma_primary_clean(t, p, d);
    match sp_primary(t, p, d) {
        Ok((e, p1)) => lemma_postfix_tail_clean(t, p1, d, e),
        Err(_) => {},
    }
}

proof fn lemma_postfix_tail_clean(t: Seq<Token>, p: nat, d: nat, e: ExprV)
    requires
        wf_at(t, p),
        d <= MAX_PARSE_DEPTH,
        expr_clean(e),
    ensures
        ok_expr(sp_postfix_tail(t, p, d, e), t.len()),
    decreases 2 * (MAX_PARSE_DEPTH - d) + 1, 15int, t.len() - p,
{
    if is_at(t, p, TokenKind::LBracket) {
        lemma_expr_clean(t, adv(t, p), d);
        match sp_expr(t, adv(t, p), d) {
            Ok((i, p2)) => match sp_expect(t, p2, TokenKind::RBracket, "']'"@) {
                Ok(p3) => if p < p3 && p3 < t.len() {
                    lemma_postfix_tail_clean(t, p3, d, ExprV::Index(Box::new(e), Box::new(i)));
                },
                Err(_) => {},
            },
            Err(_) => {},
        }
    } else if is_at(t, p, TokenKind::Dot) && !crate::parser::next_is_dot(t, p) {
        match sp_ident(t, adv(t, p)) {
            Ok((f, p2)) => if is_at(t, p2, TokenKind::LParen) {
                lemma_args_clean(t, adv(t, p2), d, TokenKind::RParen);
                match sp_args(t, adv(t, p2), d, TokenKind::RParen) {
                    Ok((args, p3)) => match sp_expect(t, p3, TokenKind::RParen, "')'"@) {
                        Ok(p4) => if p < p4 && p4 < t.len() {
                            lemma_postfix_tail_clean(t, p4, d, ExprV::MethodCall(Box::new(e), f, args));
                        },
                        Err(_) => {},
                    },
                    Err(_) => {},
                }
            } else if p < p2 && p2 < t.len() {
                lemma_postfix_tail_clean(t, p2, d, ExprV::FieldAccess(Box::new(e), f));
            },
            Err(_) => {},
        }
    } else if is_at(t, p, TokenKind::LParen) {
        lemma_args_clean(t, adv(t, p), d, TokenKind::RParen);
        match sp_args(t, adv(t, p), d, TokenKind::RParen) {
            Ok((args, p2)) => match sp_expect(t, p2, TokenKind::RParen, "')'"@) {
                Ok(p3) => if p < p3 && p3 < t.len() {
                    lemma_postfix_tail_clean(t, p3, d, ExprV::CallExpr(Box::new(e), args));
                },
                Err(_) => {},
            },
            Err(_) => {},
        }
    }
}

proof fn lemma_args_clean(t: Seq<Token>, p: nat, d: nat, close: TokenKind)
    requires
        wf_at(t, p),
        d <= MAX_PARSE_DEPTH,
    ensures
        ok_exprs(sp_args(t, p, d, close), t.len()),
    decreases 2 * (MAX_PARSE_DEPTH - d) + 0, 4int, t.len() - p,
{
    if !is_at(t, p, close) {
        lemma_expr_clean(t, p, d);
        match sp_expr(t, p, d) {
            Ok((a, p1)) => {
                lemma_exprs_push(Seq::empty(), a);
                assert(seq![a] =~= Seq::<ExprV>::empty().push(a));
                lemma_args_tail_clean(t, p1, d, seq![a]);
            },
            Err(_) => {},
        }
    }
}

proof fn lemma_args_tail_clean(t: Seq<Token>, p: nat, d: nat, acc: Seq<ExprV>)
    requires
        wf_at(t, p),
        d <= MAX_PARSE_DEPTH,
        exprs_clean(acc),
    ensures
        ok_exprs(sp_args_tail(t, p, d, acc), t.len()),
    decreases 2 * (MAX_PARSE_DEPTH - d) + 0, 3int, t.len() - p,
{
    if is_at(t, p, TokenKind::Comma) {
        lemma_expr_clean(t, adv(t, p), d);
        match sp_expr(t, adv(t, p), d) {
            Ok((a, p2)) => if p < p2 && p2 < t.len() {
                lemma_exprs_push(acc, a);
                lemma_args_tail_clean(t, p2, d, acc.push(a));
            },
            Err(_) => {},
        }
    }
}

proof fn lemma_field_init_clean(t: Seq<Token>, p: nat, d: nat, what: Seq<char>)
    requires
        wf_at(t, p),
        d <= MAX_PARSE_DEPTH,
    ensures
        ok_field(sp_field_init(t, p, d, what), t.len()),
    decreases 2 * (MAX_PARSE_DEPTH - d) + 0, 2int, t.len() - p,
{
    match sp_ident(t, p) {
        Ok((f, p1)) => match sp_expect(t, p1, TokenKind::Colon, what) {
            Ok(p2) => lemma_expr_clean(t, p2, d),
            Err(_) => {},
        },
        Err(_) => {},
    }
}

proof fn lemma_fields_clean(t: Seq<Token>, p: nat, d: nat)
    requires
        wf_at(t, p),
        d <= MAX_PARSE_DEPTH,
    ensures
        ok_fields(sp_fields(t, p, d), t.len()),
    decreases 2 * (MAX_PARSE_DEPTH - d) + 0, 4int, t.len() - p,
{
    if !is_at(t, p, TokenKind::RBrace) {
        let what = "':' (в литерале struct: field: value)"@;
        lemma_field_init_clean(t, p, d, what);
        match sp_field_init(t, p, d, what) {
            Ok((f, p1)) => {
                lemma_fields_push(Seq::empty(), f);
                assert(seq![f] =~= Seq::<(Seq<char>, ExprV)>::empty().push(f));
                lemma_fields_tail_clean(t, p1, d, seq![f]);
            },
            Err(_) => {},
        }
    }
}

proof fn lemma_fields_tail_clean(t: Seq<Token>, p: nat, d: nat, acc: Seq<(Seq<char>, ExprV)>)
    requires
        wf_at(t, p),
        d <= MAX_PARSE_DEPTH,
        fields_clean(acc),
    ensures
        ok_fields(sp_fields_tail(t, p, d, acc), t.len()),
    decreases 2 * (MAX_PARSE_DEPTH - d) + 0, 3int, t.len() - p,
{
    if is_at(t, p, TokenKind::Comma) {
        let p1 = adv(t, p);
        if !is_at(t, p1, TokenKind::RBrace) {
            lemma_field_init_clean(t, p1, d, "':'"@);
            match sp_field_init(t, p1, d, "':'"@) {
                Ok((f, p2)) => if p < p2 && p2 < t.len() {
                    lemma_fields_push(acc, f);
                    lemma_fields_tail_clean(t, p2, d, acc.push(f));
                },
                Err(_) => {},
            }
        }
    }
}

proof fn lemma_lambda_clean(t: Seq<Token>, p: nat, d: nat)
    requires
        wf_at(t, p),
        d <= MAX_PARSE_DEPTH,
    ensures
        ok_expr(sp_lambda(t, p, d), t.len()),
    decreases 2 * (MAX_PARSE_DEPTH - d) + 1, 13int, t.len() - p,
{
    match sp_expect(t, p, TokenKind::LParen, "'(' (анонимная функция: 'FN(параметры) { тело }', без имени)"@) {
        Ok(p1) => {
            lemma_names_pos(t, p1);
            match sp_names(t, p1) {
                Ok((params, p2)) => match sp_expect(t, p2, TokenKind::RParen, "')'"@) {
                    Ok(p3) => {
                        if is_at(t, p3, TokenKind::Arrow) {
                            match sp_type_name(t, adv(t, p3)) {
                                Ok((_, p4)) => lemma_block_clean(t, p4, d),
                                Err(_) => {},
                            }
                        } else {
                            lemma_block_clean(t, p3, d);
                        }
                    },
                    Err(_) => {},
                },
                Err(_) => {},
            }
        },
        Err(_) => {},
    }
}

proof fn lemma_after_name_clean(t: Seq<Token>, p: nat, d: nat, name: Seq<char>)
    requires
        wf_at(t, p),
        d <= MAX_PARSE_DEPTH,
    ensures
        ok_expr(sp_after_name(t, p, d, name), t.len()),
    decreases 2 * (MAX_PARSE_DEPTH - d) + 1, 12int, t.len() - p,
{
    if is_at(t, p, TokenKind::LParen) {
        lemma_args_clean(t, adv(t, p), d, TokenKind::RParen);
    } else if is_at(t, p, TokenKind::LBrace) && crate::parser::struct_lit_ahead(t, p) {
        lemma_fields_clean(t, adv(t, p), d);
    }
}

proof fn lemma_primary_clean(t: Seq<Token>, p: nat, d: nat)
    requires
        wf_at(t, p),
        d <= MAX_PARSE_DEPTH,
    ensures
        ok_expr(sp_primary(t, p, d), t.len()),
    decreases 2 * (MAX_PARSE_DEPTH - d) + 1, 14int, t.len() - p,
{
    match t[p as int].kind {
        TokenKind::Fn => lemma_lambda_clean(t, adv(t, p), d),
        TokenKind::Ident(name) => lemma_after_name_clean(t, adv(t, p), d, name@),
        TokenKind::LBracket => lemma_args_clean(t, adv(t, p), d, TokenKind::RBracket),
        TokenKind::LParen => lemma_expr_clean(t, adv(t, p), d),
        _ => {},
    }
}

proof fn lemma_block_clean(t: Seq<Token>, p: nat, d: nat)
    requires
        wf_at(t, p),
        d <= MAX_PARSE_DEPTH,
    ensures
        ok_block(sp_block(t, p, d), t.len()),
    decreases 2 * (MAX_PARSE_DEPTH - d) + 0, 4int, t.len() - p,
{
    match sp_expect(t, p, TokenKind::LBrace, "'{'"@) {
        Ok(p1) => lemma_block_tail_clean(t, p1, d, Seq::empty()),
        Err(_) => {},
    }
}

proof fn lemma_block_tail_clean(t: Seq<Token>, p: nat, d: nat, acc: Seq<StmtV>)
    requires
        wf_at(t, p),
        d <= MAX_PARSE_DEPTH,
        block_clean(acc),
    ensures
        ok_block(sp_block_tail(t, p, d, acc), t.len()),
    decreases 2 * (MAX_PARSE_DEPTH - d) + 0, 3int, t.len() - p,
{
    if !is_at(t, p, TokenKind::RBrace) && !is_at(t, p, TokenKind::Eof) {
        lemma_stmt_clean(t, p, d, false);
        match sp_stmt(t, p, d, false) {
            Ok((st, p1)) => if p < p1 && p1 < t.len() {
                lemma_block_push(acc, st);
                lemma_block_tail_clean(t, p1, d, acc.push(st));
            },
            Err(_) => {},
        }
    }
}

proof fn lemma_stmt_clean(t: Seq<Token>, p: nat, d: nat, top: bool)
    requires
        wf_at(t, p),
        d <= MAX_PARSE_DEPTH,
    ensures
        ok_stmt(sp_stmt(t, p, d, top), t.len(), top, is_at(t, p, TokenKind::If)),
    decreases 2 * (MAX_PARSE_DEPTH - d) + 0, 1int, t.len() - p,
{
    if d + 1 <= MAX_PARSE_DEPTH {
        lemma_stmt_inner_clean(t, p, d + 1, top);
    }
}

proof fn lemma_var_decl_clean(t: Seq<Token>, p: nat, d: nat, mutable: bool)
    requires
        wf_at(t, p),
        d <= MAX_PARSE_DEPTH,
    ensures
        ok_stmt(sp_var_decl(t, p, d, mutable), t.len(), false, false),
    decreases 2 * (MAX_PARSE_DEPTH - d) + 1, 39int, t.len() - p,
{
    match sp_ident(t, p) {
        Ok((name, p1)) => match sp_opt_annotation(t, p1) {
            Ok((ty, p2)) => match sp_expect(t, p2, TokenKind::Assign, "'='"@) {
                Ok(p3) => lemma_expr_clean(t, p3, d),
                Err(_) => {},
            },
            Err(_) => {},
        },
        Err(_) => {},
    }
}

proof fn lemma_if_clean(t: Seq<Token>, p: nat, d: nat, top: bool)
    requires
        wf_at(t, p),
        d <= MAX_PARSE_DEPTH,
    ensures
        ok_stmt(sp_if(t, p, d, top), t.len(), false, true),
    decreases 2 * (MAX_PARSE_DEPTH - d) + 1, 38int, t.len() - p,
{
    lemma_expr_clean(t, p, d);
    match sp_expr(t, p, d) {
        Ok((cond, p1)) => {
            lemma_block_clean(t, p1, d);
            match sp_block(t, p1, d) {
                Ok((then_branch, p2)) => if is_at(t, p2, TokenKind::Else) {
                    let p3 = adv(t, p2);
                    if is_at(t, p3, TokenKind::If) {
                        lemma_stmt_clean(t, p3, d, top);
                        match sp_stmt(t, p3, d, top) {
                            Ok((st, p4)) => {
                                lemma_block_push(Seq::empty(), st);
                                assert(seq![st] =~= Seq::<StmtV>::empty().push(st));
                            },
                            Err(_) => {},
                        }
                    } else {
                        lemma_block_clean(t, p3, d);
                    }
                },
                Err(_) => {},
            }
        },
        Err(_) => {},
    }
}

proof fn lemma_for_clean(t: Seq<Token>, p: nat, d: nat)
    requires
        wf_at(t, p),
        d <= MAX_PARSE_DEPTH,
    ensures
        ok_stmt(sp_for(t, p, d), t.len(), false, false),
    decreases 2 * (MAX_PARSE_DEPTH - d) + 1, 37int, t.len() - p,
{
    match sp_ident(t, p) {
        Ok((var, p1)) => match sp_expect(t, p1, TokenKind::In, "'IN' (SGA)"@) {
            Ok(p2) => {
                lemma_expr_clean(t, p2, d);
                match sp_expr(t, p2, d) {
                    Ok((start, p3)) => match sp_expect(t, p3, TokenKind::Dot, "'.'"@) {
                        Ok(p4) => match sp_expect(t, p4, TokenKind::Dot, "'.' (диапазон '..')"@) {
                            Ok(p5) => {
                                lemma_expr_clean(t, p5, d);
                                match sp_expr(t, p5, d) {
                                    Ok((end, p6)) => lemma_block_clean(t, p6, d),
                                    Err(_) => {},
                                }
                            },
                            Err(_) => {},
                        },
                        Err(_) => {},
                    },
                    Err(_) => {},
                }
            },
            Err(_) => {},
        },
        Err(_) => {},
    }
}

proof fn lemma_fn_decl_clean(t: Seq<Token>, p: nat, d: nat)
    requires
        wf_at(t, p),
        d <= MAX_PARSE_DEPTH,
    ensures
        ok_stmt(sp_fn_decl(t, p, d), t.len(), true, false),
    decreases 2 * (MAX_PARSE_DEPTH - d) + 1, 36int, t.len() - p,
{
    match sp_ident(t, p) {
        Ok((name, p1)) => match sp_expect(t, p1, TokenKind::LParen, "'('"@) {
            Ok(p2) => {
                lemma_params_pos(t, p2);
                match sp_params(t, p2) {
                    Ok((params, p3)) => match sp_expect(t, p3, TokenKind::RParen, "')'"@) {
                        Ok(p4) => {
                            if is_at(t, p4, TokenKind::Arrow) {
                                match sp_type_name(t, adv(t, p4)) {
                                    Ok((_, p5)) => lemma_block_clean(t, p5, d),
                                    Err(_) => {},
                                }
                            } else {
                                lemma_block_clean(t, p4, d);
                            }
                        },
                        Err(_) => {},
                    },
                    Err(_) => {},
                }
            },
            Err(_) => {},
        },
        Err(_) => {},
    }
}

proof fn lemma_expr_stmt_clean(t: Seq<Token>, p: nat, d: nat)
    requires
        wf_at(t, p),
        d <= MAX_PARSE_DEPTH,
    ensures
        ok_stmt(sp_expr_stmt(t, p, d), t.len(), false, false),
    decreases 2 * (MAX_PARSE_DEPTH - d) + 1, 35int, t.len() - p,
{
    lemma_expr_clean(t, p, d);
}

proof fn lemma_stmt_inner_clean(t: Seq<Token>, p: nat, d: nat, top: bool)
    requires
        wf_at(t, p),
        d <= MAX_PARSE_DEPTH,
    ensures
        ok_stmt(sp_stmt_inner(t, p, d, top), t.len(), top, is_at(t, p, TokenKind::If)),
    decreases 2 * (MAX_PARSE_DEPTH - d) + 1, 40int, t.len() - p,
{
    let p1 = adv(t, p);
    match t[p as int].kind {
        TokenKind::Let => lemma_var_decl_clean(t, p1, d, false),
        TokenKind::Var => lemma_var_decl_clean(t, p1, d, true),
        TokenKind::Const => lemma_var_decl_clean(t, p1, d, false),
        TokenKind::Print => match sp_expect(t, p1, TokenKind::LParen, "'('"@) {
            Ok(p2) => lemma_args_clean(t, p2, d, TokenKind::RParen),
            Err(_) => {},
        },
        TokenKind::If => lemma_if_clean(t, p1, d, top),
        TokenKind::While => {
            lemma_expr_clean(t, p1, d);
            match sp_expr(t, p1, d) {
                Ok((cond, p2)) => lemma_block_clean(t, p2, d),
                Err(_) => {},
            }
        },
        TokenKind::For => lemma_for_clean(t, p1, d),
        TokenKind::Struct => {
            match sp_ident(t, p1) {
                Ok((name, q1)) => match sp_expect(t, q1, TokenKind::LBrace, "'{'"@) {
                    Ok(q2) => lemma_field_names_pos(t, q2),
                    Err(_) => {},
                },
                Err(_) => {},
            }
        },
        TokenKind::Fn => if p + 1 < t.len() && t[p + 1int].kind is Ident {
            if top {
                lemma_fn_decl_clean(t, p1, d);
            }
        } else {
            lemma_expr_stmt_clean(t, p, d);
        },
        TokenKind::Return => if !(is_at(t, p1, TokenKind::Semicolon) || is_at(t, p1, TokenKind::RBrace)) {
            lemma_expr_clean(t, p1, d);
        },
        TokenKind::LBrace => lemma_block_clean(t, p, d),
        TokenKind::Import => {},
        TokenKind::Break => {},
        TokenKind::Continue => {},
        _ => lemma_expr_stmt_clean(t, p, d),
    }
}

proof fn lemma_program_from_clean(t: Seq<Token>, p: nat, d: nat, acc: Seq<StmtV>)
    requires
        wf_at(t, p),
        d <= MAX_PARSE_DEPTH,
        forall|i: int| 0 <= i < acc.len() ==> stmt_clean(#[trigger] acc[i]),
    ensures
        sp_program_from(t, p, d, acc) matches Ok(v) ==> forall|i: int| 0 <= i < v.len() ==> stmt_clean(#[trigger] v[i]),
    decreases t.len() - p,
{
    if !is_at(t, p, TokenKind::Eof) {
        lemma_stmt_clean(t, p, d, true);
        match sp_stmt(t, p, d, true) {
            Ok((st, p1)) => if p < p1 && p1 < t.len() {
                let acc2 = acc.push(st);
                assert forall|i: int| 0 <= i < acc2.len() implies stmt_clean(#[trigger] acc2[i]) by {
                    if i < acc.len() {
                        assert(acc2[i] == acc[i]);
                    }
                }
                lemma_program_from_clean(t, p1, d, acc2);
            },
            Err(_) => {},
        }
    }
}

/// In every program the parser accepts, `IMPORT`, `STRUCT` and named `FN`
/// declarations stand only at the top level: no block, function body,
/// branch, loop body or anonymous function holds one, at any depth.
pub proof fn lemma_top_only_at_top(t: Seq<Token>)
    requires
        wf_tokens(t),
    ensures
        spec_parse_program(t) matches Ok(v) ==> forall|i: int| 0 <= i < v.len() ==> stmt_clean(#[trigger] v[i]),
{
    lemma_program_from_clean(t, 0, 0, Seq::empty());
}


/// Two operands around one operator of this level read as a binary node of
/// the operator the token spells: `OR` gives `Or`.
pub proof fn lemma_or_operator(t: Seq<Token>, p: nat, d: nat, l: ExprV, p1: nat, r: ExprV, p2: nat)
    requires
        wf_at(t, p),
        d <= MAX_PARSE_DEPTH,
        sp_and(t, p, d) == Ok::<(ExprV, nat), ParseErrV>((l, p1)),
        p1 < p2 < t.len(),
        (is_at(t, p1, TokenKind::Or)),
        sp_and(t, adv(t, p1), d) == Ok::<(ExprV, nat), ParseErrV>((r, p2)),
        !(is_at(t, p2, TokenKind::Or)),
    ensures
        is_at(t, p1, TokenKind::Or) ==> sp_or(t, p, d) == Ok::<(ExprV, nat), ParseErrV>(
            (ExprV::Binary(BinOp::Or, Box::new(l), Box::new(r)), p2),
        ),
{
}

/// Two operands around one operator of this level read as a binary node of
/// the operator the token spells: `AND` gives `And`.
pub proof fn lemma_and_operator(t: Seq<Token>, p: nat, d: nat, l: ExprV, p1: nat, r: ExprV, p2: nat)
    requires
        wf_at(t, p),
        d <= MAX_PARSE_DEPTH,
        sp_equality(t, p, d) == Ok::<(ExprV, nat), ParseErrV>((l, p1)),
        p1 < p2 < t.len(),
        (is_at(t, p1, TokenKind::And)),
        sp_equality(t, adv(t, p1), d) == Ok::<(ExprV, nat), ParseErrV>((r, p2)),
        !(is_at(t, p2, TokenKind::And)),
    ensures
        is_at(t, p1, TokenKind::And) ==> sp_and(t, p, d) == Ok::<(ExprV, nat), ParseErrV>(
            (ExprV::Binary(BinOp::And, Box::new(l), Box::new(r)), p2),
        ),
{
}

/// Two operands around one operator of this level read as a binary node of
/// the operator the token spells: `==` gives `Eq` and `!=` gives `NotEq`.
pub proof fn lemma_equality_operator(t: Seq<Token>, p: nat, d: nat, l: ExprV, p1: nat, r: ExprV, p2: nat)
    requires
        wf_at(t, p),
        d <= MAX_PARSE_DEPTH,
        sp_comparison(t, p, d) == Ok::<(ExprV, nat), ParseErrV>((l, p1)),
        p1 < p2 < t.len(),
        (is_at(t, p1, TokenKind::Eq) || is_at(t, p1, TokenKind::NotEq)),
        sp_comparison(t, adv(t, p1), d) == Ok::<(ExprV, nat), ParseErrV>((r, p2)),
        !(is_at(t, p2, TokenKind::Eq) || is_at(t, p2, TokenKind::NotEq)),
    ensures
        is_at(t, p1, TokenKind::Eq) ==> sp_equality(t, p, d) == Ok::<(ExprV, nat), ParseErrV>(
            (ExprV::Binary(BinOp::Eq, Box::new(l), Box::new(r)), p2),
        ),
        is_at(t, p1, TokenKind::NotEq) ==> sp_equality(t, p, d) == Ok::<(ExprV, nat), ParseErrV>(
            (ExprV::Binary(BinOp::NotEq, Box::new(l), Box::new(r)), p2),
        ),
{
}

/// Two operands around one operator of this level read as a binary node of
/// the operator the token spells: `<` gives `Lt`, `>` gives `Gt`, `<=` gives `LtEq` and `>=` gives `GtEq`.
pub proof fn lemma_comparison_operator(t: Seq<Token>, p: nat, d: nat, l: ExprV, p1: nat, r: ExprV, p2: nat)
    requires
        wf_at(t, p),
        d <= MAX_PARSE_DEPTH,
        sp_term(t, p, d) == Ok::<(ExprV, nat), ParseErrV>((l, p1)),
        p1 < p2 < t.len(),
        (is_at(t, p1, TokenKind::Lt) || is_at(t, p1, TokenKind::Gt) || is_at(t, p1, TokenKind::LtEq) || is_at(t, p1, TokenKind::GtEq)),
        sp_term(t, adv(t, p1), d) == Ok::<(ExprV, nat), ParseErrV>((r, p2)),
        !(is_at(t, p2, TokenKind::Lt) || is_at(t, p2, TokenKind::Gt) || is_at(t, p2, TokenKind::LtEq) || is_at(t, p2, TokenKind::GtEq)),
    ensures
        is_at(t, p1, TokenKind::Lt) ==> sp_comparison(t, p, d) == Ok::<(ExprV, nat), ParseErrV>(
            (ExprV::Binary(BinOp::Lt, Box::new(l), Box::new(r)), p2),
        ),
        is_at(t, p1, TokenKind::Gt) ==> sp_comparison(t, p, d) == Ok::<(ExprV, nat), ParseErrV>(
            (ExprV::Binary(BinOp::Gt, Box::new(l), Box::new(r)), p2),
        ),
        is_at(t, p1, TokenKind::LtEq) ==> sp_comparison(t, p, d) == Ok::<(ExprV, nat), ParseErrV>(
            (ExprV::Binary(BinOp::LtEq, Box::new(l), Box::new(r)), p2),
        ),
        is_at(t, p1, TokenKind::GtEq) ==> sp_comparison(t, p, d) == Ok::<(ExprV, nat), ParseErrV>(
            (ExprV::Binary(BinOp::GtEq, Box::new(l), Box::new(r)), p2),
        ),
{
}

/// Two operands around one operator of this level read as a binary node of
/// the operator the token spells: `+` gives `Add` and `-` gives `Sub`.
pub proof fn lemma_term_operator(t: Seq<Token>, p: nat, d: nat, l: ExprV, p1: nat, r: ExprV, p2: nat)
    requires
        wf_at(t, p),
        d <= MAX_PARSE_DEPTH,
        sp_factor(t, p, d) == Ok::<(ExprV, nat), ParseErrV>((l, p1)),
        p1 < p2 < t.len(),
        (is_at(t, p1, TokenKind::Plus) || is_at(t, p1, TokenKind::Minus)),
        sp_factor(t, adv(t, p1), d) == Ok::<(ExprV, nat), ParseErrV>((r, p2)),
        !(is_at(t, p2, TokenKind::Plus) || is_at(t, p2, TokenKind::Minus)),
    ensures
        is_at(t, p1, TokenKind::Plus) ==> sp_term(t, p, d) == Ok::<(ExprV, nat), ParseErrV>(
            (ExprV::Binary(BinOp::Add, Box::new(l), Box::new(r)), p2),
        ),
        is_at(t, p1, TokenKind::Minus) ==> sp_term(t, p, d) == Ok::<(ExprV, nat), ParseErrV>(
            (ExprV::Binary(BinOp::Sub, Box::new(l), Box::new(r)), p2),
        ),
{
}

/// Two operands around one operator of this level read as a binary node of
/// the operator the token spells: `*` gives `Mul`, `/` gives `Div` and `%` gives `Mod`.
pub proof fn lemma_factor_operator(t: Seq<Token>, p: nat, d: nat, l: ExprV, p1: nat, r: ExprV, p2: nat)
    requires
        wf_at(t, p),
        d <= MAX_PARSE_DEPTH,
        sp_unary(t, p, d) == Ok::<(ExprV, nat), ParseErrV>((l, p1)),
        p1 < p2 < t.len(),
        (is_at(t, p1, TokenKind::Star) || is_at(t, p1, TokenKind::Slash) || is_at(t, p1, TokenKind::Percent)),
        sp_unary(t, adv(t, p1), d) == Ok::<(ExprV, nat), ParseErrV>((r, p2)),
        !(is_at(t, p2, TokenKind::Star) || is_at(t, p2, TokenKind::Slash) || is_at(t, p2, TokenKind::Percent)),
    ensures
        is_at(t, p1, TokenKind::Star) ==> sp_factor(t, p, d) == Ok::<(ExprV, nat), ParseErrV>(
            (ExprV::Binary(BinOp::Mul, Box::new(l), Box::new(r)), p2),
        ),
        is_at(t, p1, TokenKind::Slash) ==> sp_factor(t, p, d) == Ok::<(ExprV, nat), ParseErrV>(
            (ExprV::Binary(BinOp::Div, Box::new(l), Box::new(r)), p2),
        ),
        is_at(t, p1, TokenKind::Percent) ==> sp_factor(t, p, d) == Ok::<(ExprV, nat), ParseErrV>(
            (ExprV::Binary(BinOp::Mod, Box::new(l), Box::new(r)), p2),
        ),
{
}

/// A prefix `-` reads as a negation and a prefix `NOT` as a logical not of
/// the operand after it.
pub proof fn lemma_unary_operator(t: Seq<Token>, p: nat, d: nat, e: ExprV, q: nat)
    requires
        wf_at(t, p),
        d <= MAX_PARSE_DEPTH,
        is_at(t, p, TokenKind::Minus) || is_at(t, p, TokenKind::Not),
        sp_unary(t, adv(t, p), d) == Ok::<(ExprV, nat), ParseErrV>((e, q)),
    ensures
        is_at(t, p, TokenKind::Minus) ==> sp_unary(t, p, d) == Ok::<(ExprV, nat), ParseErrV>(
            (ExprV::Unary(UnOp::Neg, Box::new(e)), q),
        ),
        is_at(t, p, TokenKind::Not) ==> sp_unary(t, p, d) == Ok::<(ExprV, nat), ParseErrV>(
            (ExprV::Unary(UnOp::Not, Box::new(e)), q),
        ),
{
}


/// Each statement keyword starts the statement it names: `LET` and `CONST`
/// declare an immutable variable and `VAR` a mutable one; `IF`, `WHILE`,
/// `PRINT` and `RETURN` read as those statements; `BREAK` and `CONTINUE`
/// always read as themselves.
pub proof fn lemma_statement_keywords(t: Seq<Token>, p: nat, d: nat, top: bool)
    requires
        wf_at(t, p),
        d < MAX_PARSE_DEPTH,
    ensures
        is_at(t, p, TokenKind::Let) ==> (sp_stmt(t, p, d, top) matches Ok((s, _)) ==> (s matches StmtV::VarDecl {
            mutable,
            ..
        } && !mutable)),
        is_at(t, p, TokenKind::Const) ==> (sp_stmt(t, p, d, top) matches Ok((s, _)) ==> (s matches StmtV::VarDecl {
            mutable,
            ..
        } && !mutable)),
        is_at(t, p, TokenKind::Var) ==> (sp_stmt(t, p, d, top) matches Ok((s, _)) ==> (s matches StmtV::VarDecl {
            mutable,
            ..
        } && mutable)),
        is_at(t, p, TokenKind::If) ==> (sp_stmt(t, p, d, top) matches Ok((s, _)) ==> s is If),
        is_at(t, p, TokenKind::While) ==> (sp_stmt(t, p, d, top) matches Ok((s, _)) ==> s is While),
        is_at(t, p, TokenKind::Print) ==> (sp_stmt(t, p, d, top) matches Ok((s, _)) ==> s is Print),
        is_at(t, p, TokenKind::Return) ==> (sp_stmt(t, p, d, top) matches Ok((s, _)) ==> s is Return),
        is_at(t, p, TokenKind::Break) ==> (sp_stmt(t, p, d, top) matches Ok((s, _)) && s is Break),
        is_at(t, p, TokenKind::Continue) ==> (sp_stmt(t, p, d, top) matches Ok((s, _)) && s is Continue),
{
    if is_at(t, p, TokenKind::If) {
        assert(sp_stmt(t, p, d, top) == sp_if(t, adv(t, p), d + 1, top));
    }
}

} // verus!
