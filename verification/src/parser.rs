//! Recursive-descent parser: tokens -> AST.
//!
//! Expressions and nested blocks/statements share one recursion-depth budget
//! (`MAX_PARSE_DEPTH`): deeper nesting is a parse error, not a stack
//! overflow. `FN name(...)`, `IMPORT` and `STRUCT` are accepted only at the
//! top level of a program.
use vstd::prelude::*;
use crate::ast::{lemma_exprs_view_push, lemma_stmts_view_push, lemma_fields_view_push, BinOp, Expr, ExprV, Param, ParamV, Stmt, StmtV, TypeAnnotation, UnOp, expr_view, exprs_view, fields_view, names_view, params_view, stmt_view, stmts_view};
use crate::lexer::token::{debug_kind, is_plain, kind_debug, kind_is, Token, TokenKind};
use crate::text::{decimal, push_str, usize_to_string};

verus! {

/// The maximal nesting depth of expressions and statements together.
pub const MAX_PARSE_DEPTH: usize = 80;

/// A parse error: the message and the position of the token where it was
/// found.
#[derive(Debug, Clone)]
pub struct ParseError {
    pub message: String,
    pub line: usize,
    pub col: usize,
}

/// The mathematical value of a parse error.
pub struct ParseErrV {
    pub message: Seq<char>,
    pub line: nat,
    pub col: nat,
}

impl View for ParseError {
    type V = ParseErrV;

    open spec fn view(&self) -> ParseErrV {
        ParseErrV { message: self.message@, line: self.line as nat, col: self.col as nat }
    }
}

/// A parse error as it is shown to the user.
pub open spec fn parse_error_text(e: ParseErrV) -> Seq<char> {
    "["@ + decimal(e.line) + ":"@ + decimal(e.col) + "] ошибка парсера: "@ + e.message
}

impl ParseError {
    /// The error as it is shown to the user: `[line:col] ошибка парсера: ...`.
    pub fn describe(&self) -> (r: String)
        ensures
            r@ == parse_error_text(self@),
    {
        let mut m = String::new();
        push_str(&mut m, "[");
        push_str(&mut m, usize_to_string(self.line).as_str());
        push_str(&mut m, ":");
        push_str(&mut m, usize_to_string(self.col).as_str());
        push_str(&mut m, "] ошибка парсера: ");
        push_str(&mut m, self.message.as_str());
        m
    }
}

/// The result of parsing one construct: its value and the position after it.
pub type PR<T> = Result<(T, nat), ParseErrV>;

// ------------------------------------------------------------------ tokens

/// A token sequence the parser accepts: not empty, ending with `Eof`.
pub open spec fn wf_tokens(t: Seq<Token>) -> bool {
    t.len() > 0 && t.last().kind == TokenKind::Eof
}

/// A well-formed token sequence and a position inside it.
pub open spec fn wf_at(t: Seq<Token>, p: nat) -> bool {
    wf_tokens(t) && p < t.len()
}

/// Whether the token at `p` is of kind `k`.
pub open spec fn is_at(t: Seq<Token>, p: nat, k: TokenKind) -> bool {
    t[p as int].kind == k
}

/// The position after the token at `p`; the final `Eof` is never passed.
pub open spec fn adv(t: Seq<Token>, p: nat) -> nat {
    if p + 1 < t.len() {
        (p + 1) as nat
    } else {
        p
    }
}

/// A parse error at the token at `p`.
pub open spec fn perr(t: Seq<Token>, p: nat, m: Seq<char>) -> ParseErrV {
    ParseErrV { message: m, line: t[p as int].line as nat, col: t[p as int].col as nat }
}

/// The outcome of a repetition that consumed no token. Every parsing step
/// consumes at least one token, so parsing never produces it; it only makes
/// the termination of these definitions evident.
pub open spec fn stalled<T>(t: Seq<Token>, p: nat) -> PR<T> {
    Err(ParseErrV { message: Seq::empty(), line: 0, col: 0 })
}

/// The message for a token that is not the one expected.
pub open spec fn msg_expected(what: Seq<char>, k: TokenKind) -> Seq<char> {
    "ожидался "@ + what + ", получено "@ + debug_kind(k)
}

/// Consumes a token of kind `k`, described as `what` in the error message.
pub open spec fn sp_expect(t: Seq<Token>, p: nat, k: TokenKind, what: Seq<char>) -> Result<nat, ParseErrV> {
    if is_at(t, p, k) {
        Ok(adv(t, p))
    } else {
        Err(perr(t, p, msg_expected(what, t[p as int].kind)))
    }
}

/// Skips an optional semicolon.
pub open spec fn skip_semi(t: Seq<Token>, p: nat) -> nat {
    if is_at(t, p, TokenKind::Semicolon) {
        adv(t, p)
    } else {
        p
    }
}

/// An identifier.
pub open spec fn sp_ident(t: Seq<Token>, p: nat) -> PR<Seq<char>> {
    match t[p as int].kind {
        TokenKind::Ident(s) => Ok((s@, adv(t, p))),
        k => Err(perr(t, p, "ожидался идентификатор, получено "@ + debug_kind(k))),
    }
}

/// ASCII lower-casing of a word.
pub open spec fn ascii_lower(s: Seq<char>) -> Seq<char> {
    s.map_values(|c: char| if 'A' <= c && c <= 'Z' { ((c as u32) + 32) as char } else { c })
}

/// The annotation named by a (lower-cased) type name.
pub open spec fn type_of_name(n: Seq<char>) -> Option<TypeAnnotation> {
    if n == seq!['i', 'n', 't'] {
        Some(TypeAnnotation::Int)
    } else if n == seq!['f', 'l', 'o', 'a', 't'] {
        Some(TypeAnnotation::Float)
    } else if n == seq!['b', 'o', 'o', 'l'] {
        Some(TypeAnnotation::Bool)
    } else if n == seq!['s', 't', 'r', 'i', 'n', 'g'] {
        Some(TypeAnnotation::String)
    } else if n == seq!['a', 'r', 'r', 'a', 'y'] {
        Some(TypeAnnotation::Array)
    } else if n == seq!['a', 'n', 'y'] {
        Some(TypeAnnotation::Any)
    } else if n == seq!['c', 'l', 'o', 's', 'u', 'r', 'e'] {
        Some(TypeAnnotation::Closure)
    } else {
        None
    }
}

/// A type name after `:` or `->`: `NIL`, or an ASCII name (any case).
pub open spec fn sp_type_name(t: Seq<Token>, p: nat) -> PR<TypeAnnotation> {
    match t[p as int].kind {
        TokenKind::Nil => Ok((TypeAnnotation::Nil, adv(t, p))),
        TokenKind::Ident(s) => match type_of_name(ascii_lower(s@)) {
            Some(ty) => Ok((ty, adv(t, p))),
            None => Err(perr(t, adv(t, p), "неизвестное имя типа '"@ + ascii_lower(s@)
                + "'. Допустимые: int, float, bool, string, array, closure, any, nil"@)),
        },
        k => Err(perr(t, p, "ожидалось имя типа, получено "@ + debug_kind(k))),
    }
}

/// An optional `: type` annotation.
pub open spec fn sp_opt_annotation(t: Seq<Token>, p: nat) -> PR<Option<TypeAnnotation>> {
    if is_at(t, p, TokenKind::Colon) {
        match sp_type_name(t, adv(t, p)) {
            Ok((ty, p2)) => Ok((Some(ty), p2)),
            Err(e) => Err(e),
        }
    } else {
        Ok((None, p))
    }
}

/// A parameter of a named function: `[MUT] name [: type]`.
pub open spec fn sp_param(t: Seq<Token>, p: nat) -> PR<ParamV> {
    let mutable = is_at(t, p, TokenKind::Mut);
    let p1 = if mutable { adv(t, p) } else { p };
    match sp_ident(t, p1) {
        Ok((name, p2)) => match sp_opt_annotation(t, p2) {
            Ok((ty, p3)) => Ok((ParamV { name, ty, mutable }, p3)),
            Err(e) => Err(e),
        },
        Err(e) => Err(e),
    }
}

/// More parameters after the first ones (`acc`), each after a comma.
pub open spec fn sp_params_tail(t: Seq<Token>, p: nat, acc: Seq<ParamV>) -> PR<Seq<ParamV>>
    decreases t.len() - p
        when wf_at(t, p)
{
    if is_at(t, p, TokenKind::Comma) {
        match sp_param(t, adv(t, p)) {
            Ok((x, p2)) => if p < p2 && p2 < t.len() {
                sp_params_tail(t, p2, acc.push(x))
            } else {
                stalled(t, p2)
            },
            Err(e) => Err(e),
        }
    } else {
        Ok((acc, p))
    }
}

/// A possibly empty comma-separated parameter list, up to (not including) `)`.
pub open spec fn sp_params(t: Seq<Token>, p: nat) -> PR<Seq<ParamV>> {
    if is_at(t, p, TokenKind::RParen) {
        Ok((Seq::empty(), p))
    } else {
        match sp_param(t, p) {
            Ok((x, p2)) => sp_params_tail(t, p2, seq![x]),
            Err(e) => Err(e),
        }
    }
}

/// More names after the first ones (`acc`), each after a comma.
pub open spec fn sp_names_tail(t: Seq<Token>, p: nat, acc: Seq<Seq<char>>) -> PR<Seq<Seq<char>>>
    decreases t.len() - p
        when wf_at(t, p)
{
    if is_at(t, p, TokenKind::Comma) {
        match sp_ident(t, adv(t, p)) {
            Ok((x, p2)) => if p < p2 && p2 < t.len() {
                sp_names_tail(t, p2, acc.push(x))
            } else {
                stalled(t, p2)
            },
            Err(e) => Err(e),
        }
    } else {
        Ok((acc, p))
    }
}

/// A possibly empty comma-separated list of names, up to `)`.
pub open spec fn sp_names(t: Seq<Token>, p: nat) -> PR<Seq<Seq<char>>> {
    if is_at(t, p, TokenKind::RParen) {
        Ok((Seq::empty(), p))
    } else {
        match sp_ident(t, p) {
            Ok((x, p2)) => sp_names_tail(t, p2, seq![x]),
            Err(e) => Err(e),
        }
    }
}

/// More field names of a `STRUCT` declaration; a trailing comma is allowed.
pub open spec fn sp_field_names_tail(t: Seq<Token>, p: nat, acc: Seq<Seq<char>>) -> PR<Seq<Seq<char>>>
    decreases t.len() - p
        when wf_at(t, p)
{
    if is_at(t, p, TokenKind::Comma) {
        let p1 = adv(t, p);
        if is_at(t, p1, TokenKind::RBrace) {
            Ok((acc, p1))
        } else {
            match sp_ident(t, p1) {
                Ok((x, p2)) => if p < p2 && p2 < t.len() {
                    sp_field_names_tail(t, p2, acc.push(x))
                } else {
                    stalled(t, p2)
                },
                Err(e) => Err(e),
            }
        }
    } else {
        Ok((acc, p))
    }
}

/// The field names of a `STRUCT` declaration, up to `}`.
pub open spec fn sp_field_names(t: Seq<Token>, p: nat) -> PR<Seq<Seq<char>>> {
    if is_at(t, p, TokenKind::RBrace) {
        Ok((Seq::empty(), p))
    } else {
        match sp_ident(t, p) {
            Ok((x, p2)) => sp_field_names_tail(t, p2, seq![x]),
            Err(e) => Err(e),
        }
    }
}

/// Whether the token after `p` is a `.` (so `p` starts a `..` range).
pub open spec fn next_is_dot(t: Seq<Token>, p: nat) -> bool {
    p + 1 < t.len() && t[p + 1int].kind == TokenKind::Dot
}

/// At `{` after a name: whether a struct literal follows (`{}` or `{ x :`).
pub open spec fn struct_lit_ahead(t: Seq<Token>, p: nat) -> bool {
    if p + 1 < t.len() {
        match t[p + 1int].kind {
            TokenKind::RBrace => true,
            TokenKind::Ident(_) => p + 2 < t.len() && t[p + 2int].kind == TokenKind::Colon,
            _ => false,
        }
    } else {
        false
    }
}

/// The message for nesting deeper than `MAX_PARSE_DEPTH`.
pub open spec fn msg_too_deep(what: Seq<char>) -> Seq<char> {
    "превышена максимальная глубина вложенности "@ + what + " (80) — защита от stack overflow"@
}

// ------------------------------------------------------------------ expressions

/// An expression; entering one costs one level of the nesting budget.
pub open spec fn sp_expr(t: Seq<Token>, p: nat, d: nat) -> PR<ExprV>
    decreases 2 * (MAX_PARSE_DEPTH - d) + 0, 1int, t.len() - p
        when wf_at(t, p) && d <= MAX_PARSE_DEPTH
{
    if d + 1 > MAX_PARSE_DEPTH {
        Err(perr(t, p, msg_too_deep("выражения"@)))
    } else {
        sp_assignment(t, p, d + 1)
    }
}

/// The message for an assignment to something that is not assignable.
pub open spec fn msg_bad_target() -> Seq<char> {
    "недопустимая левая часть присваивания (ожидалось имя переменной, индексное выражение или доступ к полю)"@
}

/// An assignment (right-associative) or an `or` chain.
pub open spec fn sp_assignment(t: Seq<Token>, p: nat, d: nat) -> PR<ExprV>
    decreases 2 * (MAX_PARSE_DEPTH - d) + 1, 30int, t.len() - p
        when wf_at(t, p) && d <= MAX_PARSE_DEPTH
{
    match sp_or(t, p, d) {
        Ok((e, p1)) => if is_at(t, p1, TokenKind::Assign) {
            let p2 = adv(t, p1);
            if p < p2 && p2 < t.len() {
                match sp_assignment(t, p2, d) {
                    Ok((v, p3)) => match e {
                        ExprV::Ident(n) => Ok((ExprV::Assign(n, Box::new(v)), p3)),
                        ExprV::Index(a, i) => Ok((ExprV::IndexAssign(a, i, Box::new(v)), p3)),
                        ExprV::FieldAccess(o, f) => Ok((ExprV::FieldAssign(o, f, Box::new(v)), p3)),
                        _ => Err(perr(t, p3, msg_bad_target())),
                    },
                    Err(err) => Err(err),
                }
            } else {
                stalled(t, p2)
            }
        } else {
            Ok((e, p1))
        },
        Err(err) => Err(err),
    }
}

/// `or`: a chain of `and` operands joined by its operators, left-associative.
pub open spec fn sp_or(t: Seq<Token>, p: nat, d: nat) -> PR<ExprV>
    decreases 2 * (MAX_PARSE_DEPTH - d) + 1, 29int, t.len() - p
        when wf_at(t, p) && d <= MAX_PARSE_DEPTH
{
    match sp_and(t, p, d) {
        Ok((l, p1)) => sp_or_tail(t, p1, d, l),
        Err(e) => Err(e),
    }
}

/// The rest of a `or` chain after its left operand `l`.
pub open spec fn sp_or_tail(t: Seq<Token>, p: nat, d: nat, l: ExprV) -> PR<ExprV>
    decreases 2 * (MAX_PARSE_DEPTH - d) + 1, 28int, t.len() - p
        when wf_at(t, p) && d <= MAX_PARSE_DEPTH
{
    if is_at(t, p, TokenKind::Or) {
        let op = { BinOp::Or };
        match sp_and(t, adv(t, p), d) {
            Ok((r, p2)) => if p < p2 && p2 < t.len() {
                sp_or_tail(t, p2, d, ExprV::Binary(op, Box::new(l), Box::new(r)))
            } else {
                stalled(t, p2)
            },
            Err(e) => Err(e),
        }
    } else {
        Ok((l, p))
    }
}

/// `and`: a chain of `equality` operands joined by its operators, left-associative.
pub open spec fn sp_and(t: Seq<Token>, p: nat, d: nat) -> PR<ExprV>
    decreases 2 * (MAX_PARSE_DEPTH - d) + 1, 27int, t.len() - p
        when wf_at(t, p) && d <= MAX_PARSE_DEPTH
{
    match sp_equality(t, p, d) {
        Ok((l, p1)) => sp_and_tail(t, p1, d, l),
        Err(e) => Err(e),
    }
}

/// The rest of a `and` chain after its left operand `l`.
pub open spec fn sp_and_tail(t: Seq<Token>, p: nat, d: nat, l: ExprV) -> PR<ExprV>
    decreases 2 * (MAX_PARSE_DEPTH - d) + 1, 26int, t.len() - p
        when wf_at(t, p) && d <= MAX_PARSE_DEPTH
{
    if is_at(t, p, TokenKind::And) {
        let op = { BinOp::And };
        match sp_equality(t, adv(t, p), d) {
            Ok((r, p2)) => if p < p2 && p2 < t.len() {
                sp_and_tail(t, p2, d, ExprV::Binary(op, Box::new(l), Box::new(r)))
            } else {
                stalled(t, p2)
            },
            Err(e) => Err(e),
        }
    } else {
        Ok((l, p))
    }
}

/// `equality`: a chain of `comparison` operands joined by its operators, left-associative.
pub open spec fn sp_equality(t: Seq<Token>, p: nat, d: nat) -> PR<ExprV>
    decreases 2 * (MAX_PARSE_DEPTH - d) + 1, 25int, t.len() - p
        when wf_at(t, p) && d <= MAX_PARSE_DEPTH
{
    match sp_comparison(t, p, d) {
        Ok((l, p1)) => sp_equality_tail(t, p1, d, l),
        Err(e) => Err(e),
    }
}

/// The rest of a `equality` chain after its left operand `l`.
pub open spec fn sp_equality_tail(t: Seq<Token>, p: nat, d: nat, l: ExprV) -> PR<ExprV>
    decreases 2 * (MAX_PARSE_DEPTH - d) + 1, 24int, t.len() - p
        when wf_at(t, p) && d <= MAX_PARSE_DEPTH
{
    if is_at(t, p, TokenKind::Eq) || is_at(t, p, TokenKind::NotEq) {
        let op = if is_at(t, p, TokenKind::Eq) { BinOp::Eq } else { BinOp::NotEq };
        match sp_comparison(t, adv(t, p), d) {
            Ok((r, p2)) => if p < p2 && p2 < t.len() {
                sp_equality_tail(t, p2, d, ExprV::Binary(op, Box::new(l), Box::new(r)))
            } else {
                stalled(t, p2)
            },
            Err(e) => Err(e),
        }
    } else {
        Ok((l, p))
    }
}

/// `comparison`: a chain of `term` operands joined by its operators, left-associative.
pub open spec fn sp_comparison(t: Seq<Token>, p: nat, d: nat) -> PR<ExprV>
    decreases 2 * (MAX_PARSE_DEPTH - d) + 1, 23int, t.len() - p
        when wf_at(t, p) && d <= MAX_PARSE_DEPTH
{
    match sp_term(t, p, d) {
        Ok((l, p1)) => sp_comparison_tail(t, p1, d, l),
        Err(e) => Err(e),
    }
}

/// The rest of a `comparison` chain after its left operand `l`.
pub open spec fn sp_comparison_tail(t: Seq<Token>, p: nat, d: nat, l: ExprV) -> PR<ExprV>
    decreases 2 * (MAX_PARSE_DEPTH - d) + 1, 22int, t.len() - p
        when wf_at(t, p) && d <= MAX_PARSE_DEPTH
{
    if is_at(t, p, TokenKind::Lt) || is_at(t, p, TokenKind::Gt) || is_at(t, p, TokenKind::LtEq) || is_at(t, p, TokenKind::GtEq) {
        let op = if is_at(t, p, TokenKind::Lt) { BinOp::Lt } else if is_at(t, p, TokenKind::Gt) { BinOp::Gt } else if is_at(t, p, TokenKind::LtEq) { BinOp::LtEq } else { BinOp::GtEq };
        match sp_term(t, adv(t, p), d) {
            Ok((r, p2)) => if p < p2 && p2 < t.len() {
                sp_comparison_tail(t, p2, d, ExprV::Binary(op, Box::new(l), Box::new(r)))
            } else {
                stalled(t, p2)
            },
            Err(e) => Err(e),
        }
    } else {
        Ok((l, p))
    }
}

/// `term`: a chain of `factor` operands joined by its operators, left-associative.
pub open spec fn sp_term(t: Seq<Token>, p: nat, d: nat) -> PR<ExprV>
    decreases 2 * (MAX_PARSE_DEPTH - d) + 1, 21int, t.len() - p
        when wf_at(t, p) && d <= MAX_PARSE_DEPTH
{
    match sp_factor(t, p, d) {
        Ok((l, p1)) => sp_term_tail(t, p1, d, l),
        Err(e) => Err(e),
    }
}

/// The rest of a `term` chain after its left operand `l`.
pub open spec fn sp_term_tail(t: Seq<Token>, p: nat, d: nat, l: ExprV) -> PR<ExprV>
    decreases 2 * (MAX_PARSE_DEPTH - d) + 1, 20int, t.len() - p
        when wf_at(t, p) && d <= MAX_PARSE_DEPTH
{
    if is_at(t, p, TokenKind::Plus) || is_at(t, p, TokenKind::Minus) {
        let op = if is_at(t, p, TokenKind::Plus) { BinOp::Add } else { BinOp::Sub };
        match sp_factor(t, adv(t, p), d) {
            Ok((r, p2)) => if p < p2 && p2 < t.len() {
                sp_term_tail(t, p2, d, ExprV::Binary(op, Box::new(l), Box::new(r)))
            } else {
                stalled(t, p2)
            },
            Err(e) => Err(e),
        }
    } else {
        Ok((l, p))
    }
}

/// `factor`: a chain of `unary` operands joined by its operators, left-associative.
pub open spec fn sp_factor(t: Seq<Token>, p: nat, d: nat) -> PR<ExprV>
    decreases 2 * (MAX_PARSE_DEPTH - d) + 1, 19int, t.len() - p
        when wf_at(t, p) && d <= MAX_PARSE_DEPTH
{
    match sp_unary(t, p, d) {
        Ok((l, p1)) => sp_factor_tail(t, p1, d, l),
        Err(e) => Err(e),
    }
}

/// The rest of a `factor` chain after its left operand `l`.
pub open spec fn sp_factor_tail(t: Seq<Token>, p: nat, d: nat, l: ExprV) -> PR<ExprV>
    decreases 2 * (MAX_PARSE_DEPTH - d) + 1, 18int, t.len() - p
        when wf_at(t, p) && d <= MAX_PARSE_DEPTH
{
    if is_at(t, p, TokenKind::Star) || is_at(t, p, TokenKind::Slash) || is_at(t, p, TokenKind::Percent) {
        let op = if is_at(t, p, TokenKind::Star) { BinOp::Mul } else if is_at(t, p, TokenKind::Slash) { BinOp::Div } else { BinOp::Mod };
        match sp_unary(t, adv(t, p), d) {
            Ok((r, p2)) => if p < p2 && p2 < t.len() {
                sp_factor_tail(t, p2, d, ExprV::Binary(op, Box::new(l), Box::new(r)))
            } else {
                stalled(t, p2)
            },
            Err(e) => Err(e),
        }
    } else {
        Ok((l, p))
    }
}

/// A prefix `-` or `NOT`, or a postfix expression.
pub open spec fn sp_unary(t: Seq<Token>, p: nat, d: nat) -> PR<ExprV>
    decreases 2 * (MAX_PARSE_DEPTH - d) + 1, 17int, t.len() - p
        when wf_at(t, p) && d <= MAX_PARSE_DEPTH
{
    if is_at(t, p, TokenKind::Minus) || is_at(t, p, TokenKind::Not) {
        let op = if is_at(t, p, TokenKind::Minus) { UnOp::Neg } else { UnOp::Not };
        match sp_unary(t, adv(t, p), d) {
            Ok((e, p2)) => Ok((ExprV::Unary(op, Box::new(e)), p2)),
            Err(err) => Err(err),
        }
    } else {
        sp_postfix(t, p, d)
    }
}

/// A primary expression followed by indexing, field accesses, method calls
/// and calls.
pub open spec fn sp_postfix(t: Seq<Token>, p: nat, d: nat) -> PR<ExprV>
    decreases 2 * (MAX_PARSE_DEPTH - d) + 1, 16int, t.len() - p
        when wf_at(t, p) && d <= MAX_PARSE_DEPTH
{
    match sp_primary(t, p, d) {
        Ok((e, p1)) => sp_postfix_tail(t, p1, d, e),
        Err(err) => Err(err),
    }
}

/// The postfix operations after the expression `e`.
pub open spec fn sp_postfix_tail(t: Seq<Token>, p: nat, d: nat, e: ExprV) -> PR<ExprV>
    decreases 2 * (MAX_PARSE_DEPTH - d) + 1, 15int, t.len() - p
        when wf_at(t, p) && d <= MAX_PARSE_DEPTH
{
    if is_at(t, p, TokenKind::LBracket) {
        match sp_expr(t, adv(t, p), d) {
            Ok((i, p2)) => match sp_expect(t, p2, TokenKind::RBracket, "']'"@) {
                Ok(p3) => if p < p3 && p3 < t.len() {
                    sp_postfix_tail(t, p3, d, ExprV::Index(Box::new(e), Box::new(i)))
                } else {
                    stalled(t, p3)
                },
                Err(err) => Err(err),
            },
            Err(err) => Err(err),
        }
    } else if is_at(t, p, TokenKind::Dot) && !next_is_dot(t, p) {
        match sp_ident(t, adv(t, p)) {
            Ok((f, p2)) => if is_at(t, p2, TokenKind::LParen) {
                match sp_args(t, adv(t, p2), d, TokenKind::RParen) {
                    Ok((args, p3)) => match sp_expect(t, p3, TokenKind::RParen, "')'"@) {
                        Ok(p4) => if p < p4 && p4 < t.len() {
                            sp_postfix_tail(t, p4, d, ExprV::MethodCall(Box::new(e), f, args))
                        } else {
                            stalled(t, p4)
                        },
                        Err(err) => Err(err),
                    },
                    Err(err) => Err(err),
                }
            } else if p < p2 && p2 < t.len() {
                sp_postfix_tail(t, p2, d, ExprV::FieldAccess(Box::new(e), f))
            } else {
                stalled(t, p2)
            },
            Err(err) => Err(err),
        }
    } else if is_at(t, p, TokenKind::LParen) {
        match sp_args(t, adv(t, p), d, TokenKind::RParen) {
            Ok((args, p2)) => match sp_expect(t, p2, TokenKind::RParen, "')'"@) {
                Ok(p3) => if p < p3 && p3 < t.len() {
                    sp_postfix_tail(t, p3, d, ExprV::CallExpr(Box::new(e), args))
                } else {
                    stalled(t, p3)
                },
                Err(err) => Err(err),
            },
            Err(err) => Err(err),
        }
    } else {
        Ok((e, p))
    }
}

/// A possibly empty comma-separated list of expressions, up to (not
/// including) the token `close`.
pub open spec fn sp_args(t: Seq<Token>, p: nat, d: nat, close: TokenKind) -> PR<Seq<ExprV>>
    decreases 2 * (MAX_PARSE_DEPTH - d) + 0, 4int, t.len() - p
        when wf_at(t, p) && d <= MAX_PARSE_DEPTH
{
    if is_at(t, p, close) {
        Ok((Seq::empty(), p))
    } else {
        match sp_expr(t, p, d) {
            Ok((a, p1)) => sp_args_tail(t, p1, d, seq![a]),
            Err(err) => Err(err),
        }
    }
}

/// More expressions after the first ones (`acc`), each after a comma.
pub open spec fn sp_args_tail(t: Seq<Token>, p: nat, d: nat, acc: Seq<ExprV>) -> PR<Seq<ExprV>>
    decreases 2 * (MAX_PARSE_DEPTH - d) + 0, 3int, t.len() - p
        when wf_at(t, p) && d <= MAX_PARSE_DEPTH
{
    if is_at(t, p, TokenKind::Comma) {
        match sp_expr(t, adv(t, p), d) {
            Ok((a, p2)) => if p < p2 && p2 < t.len() {
                sp_args_tail(t, p2, d, acc.push(a))
            } else {
                stalled(t, p2)
            },
            Err(err) => Err(err),
        }
    } else {
        Ok((acc, p))
    }
}

/// One `name: expr` field of a struct literal.
pub open spec fn sp_field_init(t: Seq<Token>, p: nat, d: nat, what: Seq<char>) -> PR<(Seq<char>, ExprV)>
    decreases 2 * (MAX_PARSE_DEPTH - d) + 0, 2int, t.len() - p
        when wf_at(t, p) && d <= MAX_PARSE_DEPTH
{
    match sp_ident(t, p) {
        Ok((f, p1)) => match sp_expect(t, p1, TokenKind::Colon, what) {
            Ok(p2) => match sp_expr(t, p2, d) {
                Ok((v, p3)) => Ok(((f, v), p3)),
                Err(err) => Err(err),
            },
            Err(err) => Err(err),
        },
        Err(err) => Err(err),
    }
}

/// The fields of a struct literal, up to `}`; a trailing comma is allowed.
pub open spec fn sp_fields(t: Seq<Token>, p: nat, d: nat) -> PR<Seq<(Seq<char>, ExprV)>>
    decreases 2 * (MAX_PARSE_DEPTH - d) + 0, 4int, t.len() - p
        when wf_at(t, p) && d <= MAX_PARSE_DEPTH
{
    if is_at(t, p, TokenKind::RBrace) {
        Ok((Seq::empty(), p))
    } else {
        match sp_field_init(t, p, d, "':' (в литерале struct: field: value)"@) {
            Ok((f, p1)) => sp_fields_tail(t, p1, d, seq![f]),
            Err(err) => Err(err),
        }
    }
}

/// More fields of a struct literal after the first ones (`acc`).
pub open spec fn sp_fields_tail(t: Seq<Token>, p: nat, d: nat, acc: Seq<(Seq<char>, ExprV)>) -> PR<Seq<(Seq<char>, ExprV)>>
    decreases 2 * (MAX_PARSE_DEPTH - d) + 0, 3int, t.len() - p
        when wf_at(t, p) && d <= MAX_PARSE_DEPTH
{
    if is_at(t, p, TokenKind::Comma) {
        let p1 = adv(t, p);
        if is_at(t, p1, TokenKind::RBrace) {
            Ok((acc, p1))
        } else {
            match sp_field_init(t, p1, d, "':'"@) {
                Ok((f, p2)) => if p < p2 && p2 < t.len() {
                    sp_fields_tail(t, p2, d, acc.push(f))
                } else {
                    stalled(t, p2)
                },
                Err(err) => Err(err),
            }
        }
    } else {
        Ok((acc, p))
    }
}

/// The message for a token that cannot start an expression.
pub open spec fn msg_unexpected_token(k: TokenKind) -> Seq<char> {
    "неожиданный токен в выражении: "@ + debug_kind(k)
}

/// An anonymous function after `FN`: `(names) [-> type] { body }`; the
/// return type is read and dropped.
pub open spec fn sp_lambda(t: Seq<Token>, p: nat, d: nat) -> PR<ExprV>
    decreases 2 * (MAX_PARSE_DEPTH - d) + 1, 13int, t.len() - p
        when wf_at(t, p) && d <= MAX_PARSE_DEPTH
{
    match sp_expect(t, p, TokenKind::LParen, "'(' (анонимная функция: 'FN(параметры) { тело }', без имени)"@) {
        Ok(p1) => match sp_names(t, p1) {
            Ok((params, p2)) => match sp_expect(t, p2, TokenKind::RParen, "')'"@) {
                Ok(p3) => {
                    let ret = if is_at(t, p3, TokenKind::Arrow) {
                        match sp_type_name(t, adv(t, p3)) {
                            Ok((_, p4)) => Ok(p4),
                            Err(err) => Err(err),
                        }
                    } else {
                        Ok(p3)
                    };
                    match ret {
                        Ok(p4) => match sp_block(t, p4, d) {
                            Ok((body, p5)) => Ok((ExprV::Lambda { params, body }, p5)),
                            Err(err) => Err(err),
                        },
                        Err(err) => Err(err),
                    }
                },
                Err(err) => Err(err),
            },
            Err(err) => Err(err),
        },
        Err(err) => Err(err),
    }
}

/// What follows a name: a call, a struct literal, or the name itself.
pub open spec fn sp_after_name(t: Seq<Token>, p: nat, d: nat, name: Seq<char>) -> PR<ExprV>
    decreases 2 * (MAX_PARSE_DEPTH - d) + 1, 12int, t.len() - p
        when wf_at(t, p) && d <= MAX_PARSE_DEPTH
{
    if is_at(t, p, TokenKind::LParen) {
        match sp_args(t, adv(t, p), d, TokenKind::RParen) {
            Ok((args, p2)) => match sp_expect(t, p2, TokenKind::RParen, "')'"@) {
                Ok(p3) => Ok((ExprV::Call(name, args), p3)),
                Err(err) => Err(err),
            },
            Err(err) => Err(err),
        }
    } else if is_at(t, p, TokenKind::LBrace) && struct_lit_ahead(t, p) {
        match sp_fields(t, adv(t, p), d) {
            Ok((fields, p2)) => match sp_expect(t, p2, TokenKind::RBrace, "'}'"@) {
                Ok(p3) => Ok((ExprV::StructLit { struct_name: name, fields }, p3)),
                Err(err) => Err(err),
            },
            Err(err) => Err(err),
        }
    } else {
        Ok((ExprV::Ident(name), p))
    }
}

/// A literal, a name (with a call or a struct literal), an anonymous
/// function, an array literal or a parenthesized expression.
pub open spec fn sp_primary(t: Seq<Token>, p: nat, d: nat) -> PR<ExprV>
    decreases 2 * (MAX_PARSE_DEPTH - d) + 1, 14int, t.len() - p
        when wf_at(t, p) && d <= MAX_PARSE_DEPTH
{
    match t[p as int].kind {
        TokenKind::IntLit(v) => Ok((ExprV::Int(v), adv(t, p))),
        TokenKind::FloatLit(s) => Ok((ExprV::Float(s@), adv(t, p))),
        TokenKind::StringLit(s) => Ok((ExprV::Str(s@), adv(t, p))),
        TokenKind::True => Ok((ExprV::Bool(true), adv(t, p))),
        TokenKind::False => Ok((ExprV::Bool(false), adv(t, p))),
        TokenKind::Nil => Ok((ExprV::Nil, adv(t, p))),
        TokenKind::Fn => sp_lambda(t, adv(t, p), d),
        TokenKind::Ident(name) => sp_after_name(t, adv(t, p), d, name@),
        TokenKind::LBracket => match sp_args(t, adv(t, p), d, TokenKind::RBracket) {
            Ok((items, p2)) => match sp_expect(t, p2, TokenKind::RBracket, "']'"@) {
                Ok(p3) => Ok((ExprV::Array(items), p3)),
                Err(err) => Err(err),
            },
            Err(err) => Err(err),
        },
        TokenKind::LParen => match sp_expr(t, adv(t, p), d) {
            Ok((e, p2)) => match sp_expect(t, p2, TokenKind::RParen, "')'"@) {
                Ok(p3) => Ok((e, p3)),
                Err(err) => Err(err),
            },
            Err(err) => Err(err),
        },
        k => Err(perr(t, p, msg_unexpected_token(k))),
    }
}

// ------------------------------------------------------------------ statements

/// A block `{ statements }`.
pub open spec fn sp_block(t: Seq<Token>, p: nat, d: nat) -> PR<Seq<StmtV>>
    decreases 2 * (MAX_PARSE_DEPTH - d) + 0, 4int, t.len() - p
        when wf_at(t, p) && d <= MAX_PARSE_DEPTH
{
    match sp_expect(t, p, TokenKind::LBrace, "'{'"@) {
        Ok(p1) => sp_block_tail(t, p1, d, Seq::empty()),
        Err(err) => Err(err),
    }
}

/// The statements of a block after the ones already read (`acc`), and its
/// closing `}`.
pub open spec fn sp_block_tail(t: Seq<Token>, p: nat, d: nat, acc: Seq<StmtV>) -> PR<Seq<StmtV>>
    decreases 2 * (MAX_PARSE_DEPTH - d) + 0, 3int, t.len() - p
        when wf_at(t, p) && d <= MAX_PARSE_DEPTH
{
    if !is_at(t, p, TokenKind::RBrace) && !is_at(t, p, TokenKind::Eof) {
        match sp_stmt(t, p, d, false) {
            Ok((st, p1)) => if p < p1 && p1 < t.len() {
                sp_block_tail(t, p1, d, acc.push(st))
            } else {
                stalled(t, p1)
            },
            Err(err) => Err(err),
        }
    } else {
        match sp_expect(t, p, TokenKind::RBrace, "'}'"@) {
            Ok(p2) => Ok((acc, p2)),
            Err(err) => Err(err),
        }
    }
}

/// A statement (`top`: directly in the program, not in a block); entering one
/// costs one level of the nesting budget.
pub open spec fn sp_stmt(t: Seq<Token>, p: nat, d: nat, top: bool) -> PR<StmtV>
    decreases 2 * (MAX_PARSE_DEPTH - d) + 0, 1int, t.len() - p
        when wf_at(t, p) && d <= MAX_PARSE_DEPTH
{
    if d + 1 > MAX_PARSE_DEPTH {
        Err(perr(t, p, msg_too_deep("блоков/операторов"@)))
    } else {
        sp_stmt_inner(t, p, d + 1, top)
    }
}

/// `name [: type] = expr [;]` after `LET`/`VAR`/`CONST`.
pub open spec fn sp_var_decl(t: Seq<Token>, p: nat, d: nat, mutable: bool) -> PR<StmtV>
    decreases 2 * (MAX_PARSE_DEPTH - d) + 1, 39int, t.len() - p
        when wf_at(t, p) && d <= MAX_PARSE_DEPTH
{
    match sp_ident(t, p) {
        Ok((name, p1)) => match sp_opt_annotation(t, p1) {
            Ok((ty, p2)) => match sp_expect(t, p2, TokenKind::Assign, "'='"@) {
                Ok(p3) => match sp_expr(t, p3, d) {
                    Ok((value, p4)) => Ok((StmtV::VarDecl { name, value, mutable, ty }, skip_semi(t, p4))),
                    Err(err) => Err(err),
                },
                Err(err) => Err(err),
            },
            Err(err) => Err(err),
        },
        Err(err) => Err(err),
    }
}

/// `IF cond { ... } [ELSE IF ... | ELSE { ... }]` after `IF`.
pub open spec fn sp_if(t: Seq<Token>, p: nat, d: nat, top: bool) -> PR<StmtV>
    decreases 2 * (MAX_PARSE_DEPTH - d) + 1, 38int, t.len() - p
        when wf_at(t, p) && d <= MAX_PARSE_DEPTH
{
    match sp_expr(t, p, d) {
        Ok((cond, p1)) => match sp_block(t, p1, d) {
            Ok((then_branch, p2)) => if is_at(t, p2, TokenKind::Else) {
                let p3 = adv(t, p2);
                if is_at(t, p3, TokenKind::If) {
                    match sp_stmt(t, p3, d, top) {
                        Ok((st, p4)) => Ok((StmtV::If { cond, then_branch, else_branch: Some(seq![st]) }, p4)),
                        Err(err) => Err(err),
                    }
                } else {
                    match sp_block(t, p3, d) {
                        Ok((b, p4)) => Ok((StmtV::If { cond, then_branch, else_branch: Some(b) }, p4)),
                        Err(err) => Err(err),
                    }
                }
            } else {
                Ok((StmtV::If { cond, then_branch, else_branch: None }, p2))
            },
            Err(err) => Err(err),
        },
        Err(err) => Err(err),
    }
}

/// `FOR var IN start..end { ... }` after `FOR`.
pub open spec fn sp_for(t: Seq<Token>, p: nat, d: nat) -> PR<StmtV>
    decreases 2 * (MAX_PARSE_DEPTH - d) + 1, 37int, t.len() - p
        when wf_at(t, p) && d <= MAX_PARSE_DEPTH
{
    match sp_ident(t, p) {
        Ok((var, p1)) => match sp_expect(t, p1, TokenKind::In, "'IN' (SGA)"@) {
            Ok(p2) => match sp_expr(t, p2, d) {
                Ok((start, p3)) => match sp_expect(t, p3, TokenKind::Dot, "'.'"@) {
                    Ok(p4) => match sp_expect(t, p4, TokenKind::Dot, "'.' (диапазон '..')"@) {
                        Ok(p5) => match sp_expr(t, p5, d) {
                            Ok((end, p6)) => match sp_block(t, p6, d) {
                                Ok((body, p7)) => Ok((StmtV::ForIn { var, start, end, body }, p7)),
                                Err(err) => Err(err),
                            },
                            Err(err) => Err(err),
                        },
                        Err(err) => Err(err),
                    },
                    Err(err) => Err(err),
                },
                Err(err) => Err(err),
            },
            Err(err) => Err(err),
        },
        Err(err) => Err(err),
    }
}

/// `name { fields }` after `STRUCT`.
pub open spec fn sp_struct_decl(t: Seq<Token>, p: nat) -> PR<StmtV> {
    match sp_ident(t, p) {
        Ok((name, p1)) => match sp_expect(t, p1, TokenKind::LBrace, "'{'"@) {
            Ok(p2) => match sp_field_names(t, p2) {
                Ok((fields, p3)) => match sp_expect(t, p3, TokenKind::RBrace, "'}'"@) {
                    Ok(p4) => Ok((StmtV::StructDecl { name, fields }, p4)),
                    Err(err) => Err(err),
                },
                Err(err) => Err(err),
            },
            Err(err) => Err(err),
        },
        Err(err) => Err(err),
    }
}

/// `"path" [;]` after `IMPORT`.
pub open spec fn sp_import(t: Seq<Token>, p: nat) -> PR<StmtV> {
    match t[p as int].kind {
        TokenKind::StringLit(s) => Ok((StmtV::Import(s@), skip_semi(t, adv(t, p)))),
        k => Err(perr(t, p, "ожидался строковый литерал с путём после IMPORT, получено "@ + debug_kind(k))),
    }
}

/// `name(params) [-> type] { body }` after `FN`.
pub open spec fn sp_fn_decl(t: Seq<Token>, p: nat, d: nat) -> PR<StmtV>
    decreases 2 * (MAX_PARSE_DEPTH - d) + 1, 36int, t.len() - p
        when wf_at(t, p) && d <= MAX_PARSE_DEPTH
{
    match sp_ident(t, p) {
        Ok((name, p1)) => match sp_expect(t, p1, TokenKind::LParen, "'('"@) {
            Ok(p2) => match sp_params(t, p2) {
                Ok((params, p3)) => match sp_expect(t, p3, TokenKind::RParen, "')'"@) {
                    Ok(p4) => {
                        let ret = if is_at(t, p4, TokenKind::Arrow) {
                            match sp_type_name(t, adv(t, p4)) {
                                Ok((ty, p5)) => Ok((Some(ty), p5)),
                                Err(err) => Err(err),
                            }
                        } else {
                            Ok((None, p4))
                        };
                        match ret {
                            Ok((return_ty, p5)) => match sp_block(t, p5, d) {
                                Ok((body, p6)) => Ok((StmtV::FnDecl { name, params, body, return_ty }, p6)),
                                Err(err) => Err(err),
                            },
                            Err(err) => Err(err),
                        }
                    },
                    Err(err) => Err(err),
                },
                Err(err) => Err(err),
            },
            Err(err) => Err(err),
        },
        Err(err) => Err(err),
    }
}

/// An expression used as a statement, with an optional `;`.
pub open spec fn sp_expr_stmt(t: Seq<Token>, p: nat, d: nat) -> PR<StmtV>
    decreases 2 * (MAX_PARSE_DEPTH - d) + 1, 35int, t.len() - p
        when wf_at(t, p) && d <= MAX_PARSE_DEPTH
{
    match sp_expr(t, p, d) {
        Ok((e, p1)) => Ok((StmtV::ExprStmt(e), skip_semi(t, p1))),
        Err(err) => Err(err),
    }
}

/// The message for a nested `STRUCT`.
pub open spec fn msg_nested_struct() -> Seq<char> {
    "STRUCT допустим только на верхнем уровне программы"@
}

/// The message for a nested `IMPORT`.
pub open spec fn msg_nested_import() -> Seq<char> {
    "IMPORT допустим только на верхнем уровне программы (как и именованный FN) — импорт внутри блока/функции не поддерживается"@
}

/// The message for a nested named `FN`.
pub open spec fn msg_nested_fn() -> Seq<char> {
    "вложенные объявления функций (FN имя(...)) не поддерживаются — функции объявляются только на верхнем уровне программы; для анонимной функции внутри блока используйте 'FN(...) { ... }' без имени"@
}

/// A statement, chosen by its first token.
pub open spec fn sp_stmt_inner(t: Seq<Token>, p: nat, d: nat, top: bool) -> PR<StmtV>
    decreases 2 * (MAX_PARSE_DEPTH - d) + 1, 40int, t.len() - p
        when wf_at(t, p) && d <= MAX_PARSE_DEPTH
{
    let p1 = adv(t, p);
    match t[p as int].kind {
        TokenKind::Let => sp_var_decl(t, p1, d, false),
        TokenKind::Var => sp_var_decl(t, p1, d, true),
        TokenKind::Const => sp_var_decl(t, p1, d, false),
        TokenKind::Print => match sp_expect(t, p1, TokenKind::LParen, "'('"@) {
            Ok(p2) => match sp_args(t, p2, d, TokenKind::RParen) {
                Ok((args, p3)) => match sp_expect(t, p3, TokenKind::RParen, "')'"@) {
                    Ok(p4) => Ok((StmtV::Print(args), skip_semi(t, p4))),
                    Err(err) => Err(err),
                },
                Err(err) => Err(err),
            },
            Err(err) => Err(err),
        },
        TokenKind::If => sp_if(t, p1, d, top),
        TokenKind::While => match sp_expr(t, p1, d) {
            Ok((cond, p2)) => match sp_block(t, p2, d) {
                Ok((body, p3)) => Ok((StmtV::While { cond, body }, p3)),
                Err(err) => Err(err),
            },
            Err(err) => Err(err),
        },
        TokenKind::For => sp_for(t, p1, d),
        TokenKind::Struct => if !top {
            Err(perr(t, p, msg_nested_struct()))
        } else {
            sp_struct_decl(t, p1)
        },
        TokenKind::Import => if !top {
            Err(perr(t, p, msg_nested_import()))
        } else {
            sp_import(t, p1)
        },
        TokenKind::Fn => if p + 1 < t.len() && t[p + 1int].kind is Ident {
            if !top {
                Err(perr(t, p, msg_nested_fn()))
            } else {
                sp_fn_decl(t, p1, d)
            }
        } else {
            sp_expr_stmt(t, p, d)
        },
        TokenKind::Return => if is_at(t, p1, TokenKind::Semicolon) || is_at(t, p1, TokenKind::RBrace) {
            Ok((StmtV::Return(None), skip_semi(t, p1)))
        } else {
            match sp_expr(t, p1, d) {
                Ok((e, p2)) => Ok((StmtV::Return(Some(e)), skip_semi(t, p2))),
                Err(err) => Err(err),
            }
        },
        TokenKind::Break => Ok((StmtV::Break, skip_semi(t, p1))),
        TokenKind::Continue => Ok((StmtV::Continue, skip_semi(t, p1))),
        TokenKind::LBrace => match sp_block(t, p, d) {
            Ok((b, p2)) => Ok((StmtV::Block(b), p2)),
            Err(err) => Err(err),
        },
        _ => sp_expr_stmt(t, p, d),
    }
}

// ------------------------------------------------------------------ programs

/// The top-level statements from `p` to `Eof`, after the ones in `acc`.
pub open spec fn sp_program_from(t: Seq<Token>, p: nat, d: nat, acc: Seq<StmtV>) -> Result<Seq<StmtV>, ParseErrV>
    decreases t.len() - p
        when wf_at(t, p) && d <= MAX_PARSE_DEPTH
{
    if !is_at(t, p, TokenKind::Eof) {
        match sp_stmt(t, p, d, true) {
            Ok((st, p1)) => if p < p1 && p1 < t.len() {
                sp_program_from(t, p1, d, acc.push(st))
            } else {
                Err(ParseErrV { message: Seq::empty(), line: 0, col: 0 })
            },
            Err(err) => Err(err),
        }
    } else {
        Ok(acc)
    }
}

/// The program a token sequence spells, or the first parse error.
pub open spec fn spec_parse_program(t: Seq<Token>) -> Result<Seq<StmtV>, ParseErrV> {
    sp_program_from(t, 0, 0, Seq::empty())
}


// ------------------------------------------------------------------ laws

/// A statement that may only stand at the top level of a program: `IMPORT`,
/// `STRUCT` or a named `FN`.
pub open spec fn is_top_only(st: StmtV) -> bool {
    st is Import || st is StructDecl || st is FnDecl
}

// ------------------------------------------------------------------ results

/// The value of an expression parse result ending at position `p`.
pub open spec fn res_expr(r: Result<Expr, ParseError>, p: nat) -> PR<ExprV> {
    match r {
        Ok(e) => Ok((expr_view(e), p)),
        Err(x) => Err(x@),
    }
}

/// The value of a statement parse result ending at position `p`.
pub open spec fn res_stmt(r: Result<Stmt, ParseError>, p: nat) -> PR<StmtV> {
    match r {
        Ok(s) => Ok((stmt_view(s), p)),
        Err(x) => Err(x@),
    }
}

/// The value of a block parse result ending at position `p`.
pub open spec fn res_stmts(r: Result<Vec<Stmt>, ParseError>, p: nat) -> PR<Seq<StmtV>> {
    match r {
        Ok(v) => Ok((stmts_view(v@), p)),
        Err(x) => Err(x@),
    }
}

/// The value of an expression-list parse result ending at position `p`.
pub open spec fn res_exprs(r: Result<Vec<Expr>, ParseError>, p: nat) -> PR<Seq<ExprV>> {
    match r {
        Ok(v) => Ok((exprs_view(v@), p)),
        Err(x) => Err(x@),
    }
}

/// The value of a struct-literal field parse result ending at position `p`.
pub open spec fn res_fields(r: Result<Vec<(String, Expr)>, ParseError>, p: nat) -> PR<Seq<(Seq<char>, ExprV)>> {
    match r {
        Ok(v) => Ok((fields_view(v@), p)),
        Err(x) => Err(x@),
    }
}

/// The value of a struct-literal field parse result ending at position `p`.
pub open spec fn res_field(r: Result<(String, Expr), ParseError>, p: nat) -> PR<(Seq<char>, ExprV)> {
    match r {
        Ok((f, v)) => Ok(((f@, expr_view(v)), p)),
        Err(x) => Err(x@),
    }
}

/// The value of a name parse result ending at position `p`.
pub open spec fn res_name(r: Result<String, ParseError>, p: nat) -> PR<Seq<char>> {
    match r {
        Ok(s) => Ok((s@, p)),
        Err(x) => Err(x@),
    }
}

/// The value of a name-list parse result ending at position `p`.
pub open spec fn res_names(r: Result<Vec<String>, ParseError>, p: nat) -> PR<Seq<Seq<char>>> {
    match r {
        Ok(v) => Ok((names_view(v@), p)),
        Err(x) => Err(x@),
    }
}

/// The value of a parameter-list parse result ending at position `p`.
pub open spec fn res_params(r: Result<Vec<Param>, ParseError>, p: nat) -> PR<Seq<ParamV>> {
    match r {
        Ok(v) => Ok((params_view(v@), p)),
        Err(x) => Err(x@),
    }
}

/// The value of a result that carries no value besides the position `p`.
pub open spec fn res_unit(r: Result<(), ParseError>, p: nat) -> Result<nat, ParseErrV> {
    match r {
        Ok(_) => Ok(p),
        Err(x) => Err(x@),
    }
}

// ------------------------------------------------------------------ parser

/// The parser: the tokens, the current position and the current nesting
/// depth.
pub struct Parser {
    tokens: Vec<Token>,
    pos: usize,
    depth: usize,
}

impl Parser {
    /// The tokens being parsed.
    pub closed spec fn toks(&self) -> Seq<Token> {
        self.tokens@
    }

    /// The current position.
    pub closed spec fn cur(&self) -> nat {
        self.pos as nat
    }

    /// The current nesting depth.
    pub closed spec fn level(&self) -> nat {
        self.depth as nat
    }

    /// The tokens end with `Eof`, the position is inside them and the depth
    /// within the budget.
    pub closed spec fn wf(&self) -> bool {
        wf_at(self.tokens@, self.pos as nat) && self.depth <= MAX_PARSE_DEPTH
    }

    /// `new` is a later state of `old`: same tokens and depth, not moved back.
    pub closed spec fn later(old: Parser, new: Parser) -> bool {
        &&& new.tokens@ == old.tokens@
        &&& new.depth == old.depth
        &&& new.wf()
        &&& new.pos >= old.pos
    }

    /// A parser at the start of `tokens`, at depth 0.
    pub fn new(tokens: Vec<Token>) -> (r: Self)
        ensures
            r.toks() == tokens@,
            r.cur() == 0,
            r.level() == 0,
    {
        Parser { tokens, pos: 0, depth: 0 }
    }

    fn kind(&self) -> (r: &TokenKind)
        requires
            self.wf(),
        ensures
            *r == self.tokens@[self.pos as int].kind,
    {
        &self.tokens[self.pos].kind
    }

    fn check(&self, k: &TokenKind) -> (r: bool)
        requires
            self.wf(),
            is_plain(*k),
        ensures
            r == is_at(self.tokens@, self.pos as nat, *k),
    {
        kind_is(&self.tokens[self.pos].kind, k)
    }

    fn advance(&mut self)
        requires
            old(self).wf(),
        ensures
            Parser::later(*old(self), *final(self)),
            final(self).pos == adv(old(self).tokens@, old(self).pos as nat),
    {
        if self.pos < self.tokens.len() - 1 {
            self.pos = self.pos + 1;
        }
    }

    fn err(&self, m: String) -> (r: ParseError)
        requires
            self.wf(),
        ensures
            r@ == perr(self.tokens@, self.pos as nat, m@),
    {
        ParseError { message: m, line: self.tokens[self.pos].line, col: self.tokens[self.pos].col }
    }

    fn err_str(&self, m: &str) -> (r: ParseError)
        requires
            self.wf(),
        ensures
            r@ == perr(self.tokens@, self.pos as nat, m@),
    {
        let mut s = String::new();
        push_str(&mut s, m);
        self.err(s)
    }

    fn expect(&mut self, k: &TokenKind, what: &str) -> (r: Result<(), ParseError>)
        requires
            old(self).wf(),
            is_plain(*k),
        ensures
            Parser::later(*old(self), *final(self)),
            sp_expect(old(self).tokens@, old(self).pos as nat, *k, what@) == res_unit(r, final(self).pos as nat),
    {
        if self.check(k) {
            self.advance();
            Ok(())
        } else {
            let mut m = String::new();
            push_str(&mut m, "ожидался ");
            push_str(&mut m, what);
            push_str(&mut m, ", получено ");
            let d = kind_debug(self.kind());
            push_str(&mut m, d.as_str());
            Err(self.err(m))
        }
    }

    fn match_kind(&mut self, k: &TokenKind) -> (r: bool)
        requires
            old(self).wf(),
            is_plain(*k),
        ensures
            Parser::later(*old(self), *final(self)),
            r == is_at(old(self).tokens@, old(self).pos as nat, *k),
            final(self).pos == (if r { adv(old(self).tokens@, old(self).pos as nat) } else { old(self).pos as nat }),
    {
        if self.check(k) {
            self.advance();
            true
        } else {
            false
        }
    }

    fn skip_semicolon(&mut self)
        requires
            old(self).wf(),
        ensures
            Parser::later(*old(self), *final(self)),
            final(self).pos == skip_semi(old(self).tokens@, old(self).pos as nat),
    {
        self.match_kind(&TokenKind::Semicolon);
    }

    fn next_is_dot(&self) -> (r: bool)
        requires
            self.wf(),
        ensures
            r == next_is_dot(self.tokens@, self.pos as nat),
    {
        1 < self.tokens.len() - self.pos && kind_is(&self.tokens[self.pos + 1].kind, &TokenKind::Dot)
    }

    fn next_is_ident(&self) -> (r: bool)
        requires
            self.wf(),
        ensures
            r == (self.pos + 1 < self.tokens.len() && self.tokens@[self.pos + 1].kind is Ident),
    {
        if 1 < self.tokens.len() - self.pos {
            match &self.tokens[self.pos + 1].kind {
                TokenKind::Ident(_) => true,
                _ => false,
            }
        } else {
            false
        }
    }

    fn is_struct_lit_lookahead(&self) -> (r: bool)
        requires
            self.wf(),
        ensures
            r == struct_lit_ahead(self.tokens@, self.pos as nat),
    {
        if 1 < self.tokens.len() - self.pos {
            match &self.tokens[self.pos + 1].kind {
                TokenKind::RBrace => true,
                TokenKind::Ident(_) => 2 < self.tokens.len() - self.pos
                    && kind_is(&self.tokens[self.pos + 2].kind, &TokenKind::Colon),
                _ => false,
            }
        } else {
            false
        }
    }

    fn parse_ident_name(&mut self) -> (r: Result<String, ParseError>)
        requires
            old(self).wf(),
        ensures
            Parser::later(*old(self), *final(self)),
            sp_ident(old(self).tokens@, old(self).pos as nat) == res_name(r, final(self).pos as nat),
    {
        match self.kind() {
            TokenKind::Ident(s) => {
                let name = s.clone();
                self.advance();
                Ok(name)
            },
            k => {
                let mut m = String::new();
                push_str(&mut m, "ожидался идентификатор, получено ");
                let d = kind_debug(k);
                push_str(&mut m, d.as_str());
                Err(self.err(m))
            },
        }
    }

    fn lower_chars(s: &String) -> (r: Vec<char>)
        ensures
            r@ == ascii_lower(s@),
    {
        let cs = crate::text::chars_of(s.as_str());
        let mut out: Vec<char> = Vec::new();
        let mut i: usize = 0;
        while i < cs.len()
            invariant
                i <= cs.len(),
                cs@ == s@,
                out@ == ascii_lower(cs@.take(i as int)),
            decreases cs.len() - i,
        {
            let c = cs[i];
            let l = if 'A' <= c && c <= 'Z' { ((c as u8) + 32) as char } else { c };
            out.push(l);
            assert(out@ =~= ascii_lower(cs@.take(i + 1)));
            i = i + 1;
        }
        assert(cs@.take(cs.len() as int) =~= cs@);
        out
    }

    fn type_of_chars(n: &[char]) -> (r: Option<TypeAnnotation>)
        ensures
            r == type_of_name(n@),
    {
        assert(['i', 'n', 't']@ =~= seq!['i', 'n', 't']);
        assert(['f', 'l', 'o', 'a', 't']@ =~= seq!['f', 'l', 'o', 'a', 't']);
        assert(['b', 'o', 'o', 'l']@ =~= seq!['b', 'o', 'o', 'l']);
        assert(['s', 't', 'r', 'i', 'n', 'g']@ =~= seq!['s', 't', 'r', 'i', 'n', 'g']);
        assert(['a', 'r', 'r', 'a', 'y']@ =~= seq!['a', 'r', 'r', 'a', 'y']);
        assert(['a', 'n', 'y']@ =~= seq!['a', 'n', 'y']);
        assert(['c', 'l', 'o', 's', 'u', 'r', 'e']@ =~= seq!['c', 'l', 'o', 's', 'u', 'r', 'e']);
        if crate::lexer::token::chars_eq(n, &['i', 'n', 't']) {
            Some(TypeAnnotation::Int)
        } else if crate::lexer::token::chars_eq(n, &['f', 'l', 'o', 'a', 't']) {
            Some(TypeAnnotation::Float)
        } else if crate::lexer::token::chars_eq(n, &['b', 'o', 'o', 'l']) {
            Some(TypeAnnotation::Bool)
        } else if crate::lexer::token::chars_eq(n, &['s', 't', 'r', 'i', 'n', 'g']) {
            Some(TypeAnnotation::String)
        } else if crate::lexer::token::chars_eq(n, &['a', 'r', 'r', 'a', 'y']) {
            Some(TypeAnnotation::Array)
        } else if crate::lexer::token::chars_eq(n, &['a', 'n', 'y']) {
            Some(TypeAnnotation::Any)
        } else if crate::lexer::token::chars_eq(n, &['c', 'l', 'o', 's', 'u', 'r', 'e']) {
            Some(TypeAnnotation::Closure)
        } else {
            None
        }
    }

    fn parse_type_name(&mut self) -> (r: Result<TypeAnnotation, ParseError>)
        requires
            old(self).wf(),
        ensures
            Parser::later(*old(self), *final(self)),
            sp_type_name(old(self).tokens@, old(self).pos as nat) == match r {
                Ok(ty) => Ok::<(TypeAnnotation, nat), ParseErrV>((ty, final(self).pos as nat)),
                Err(x) => Err(x@),
            },
    {
        match self.kind() {
            TokenKind::Nil => {
                self.advance();
                Ok(TypeAnnotation::Nil)
            },
            TokenKind::Ident(s) => {
                let lowered = Self::lower_chars(s);
                self.advance();
                match Self::type_of_chars(lowered.as_slice()) {
                    Some(ty) => Ok(ty),
                    None => {
                        let mut m = String::new();
                        push_str(&mut m, "неизвестное имя типа '");
                        let l = crate::text::string_of(lowered.as_slice());
                        push_str(&mut m, l.as_str());
                        push_str(&mut m, "'. Допустимые: int, float, bool, string, array, closure, any, nil");
                        Err(self.err(m))
                    },
                }
            },
            k => {
                let mut m = String::new();
                push_str(&mut m, "ожидалось имя типа, получено ");
                let d = kind_debug(k);
                push_str(&mut m, d.as_str());
                Err(self.err(m))
            },
        }
    }

    fn parse_opt_annotation(&mut self) -> (r: Result<Option<TypeAnnotation>, ParseError>)
        requires
            old(self).wf(),
        ensures
            Parser::later(*old(self), *final(self)),
            sp_opt_annotation(old(self).tokens@, old(self).pos as nat) == match r {
                Ok(ty) => Ok::<(Option<TypeAnnotation>, nat), ParseErrV>((ty, final(self).pos as nat)),
                Err(x) => Err(x@),
            },
    {
        if self.match_kind(&TokenKind::Colon) {
            match self.parse_type_name() {
                Ok(ty) => Ok(Some(ty)),
                Err(e) => Err(e),
            }
        } else {
            Ok(None)
        }
    }

    /// A parameter of a named function: `[MUT] name [: type]`.
    fn parse_param(&mut self) -> (r: Result<Param, ParseError>)
        requires
            old(self).wf(),
        ensures
            Parser::later(*old(self), *final(self)),
            sp_param(old(self).tokens@, old(self).pos as nat) == match r {
                Ok(x) => Ok::<(ParamV, nat), ParseErrV>((x@, final(self).pos as nat)),
                Err(x) => Err(x@),
            },
            r is Ok ==> final(self).pos > old(self).pos,
    {
        let mutable = self.match_kind(&TokenKind::Mut);
        let name = match self.parse_ident_name() {
            Ok(n) => n,
            Err(e) => return Err(e),
        };
        let ty = match self.parse_opt_annotation() {
            Ok(t) => t,
            Err(e) => return Err(e),
        };
        Ok(Param { name, ty, mutable })
    }

    fn parse_params(&mut self) -> (r: Result<Vec<Param>, ParseError>)
        requires
            old(self).wf(),
        ensures
            Parser::later(*old(self), *final(self)),
            sp_params(old(self).tokens@, old(self).pos as nat) == res_params(r, final(self).pos as nat),
    {
        let mut params: Vec<Param> = Vec::new();
        if self.check(&TokenKind::RParen) {
            assert(params_view(params@) =~= Seq::empty());
            return Ok(params);
        }
        match self.parse_param() {
            Ok(x) => params.push(x),
            Err(e) => return Err(e),
        }
        let ghost t = self.tokens@;
        let ghost target = sp_params(old(self).tokens@, old(self).pos as nat);
        assert(params_view(params@) =~= seq![params@[0]@]);
        loop
            invariant
                Parser::later(*old(self), *self),
                t == self.tokens@,
                target == sp_params(old(self).tokens@, old(self).pos as nat),
                sp_params_tail(t, self.pos as nat, params_view(params@)) == target,
            decreases self.tokens.len() - self.pos,
        {
            let ghost p = self.pos as nat;
            let ghost before = params_view(params@);
            if !self.match_kind(&TokenKind::Comma) {
                return Ok(params);
            }
            match self.parse_param() {
                Ok(x) => {
                    params.push(x);
                    assert(params_view(params@) =~= before.push(x@));
                },
                Err(e) => return Err(e),
            }
        }
    }

    fn parse_names(&mut self) -> (r: Result<Vec<String>, ParseError>)
        requires
            old(self).wf(),
        ensures
            Parser::later(*old(self), *final(self)),
            sp_names(old(self).tokens@, old(self).pos as nat) == res_names(r, final(self).pos as nat),
    {
        let mut names: Vec<String> = Vec::new();
        if self.check(&TokenKind::RParen) {
            assert(names_view(names@) =~= Seq::empty());
            return Ok(names);
        }
        match self.parse_ident_name() {
            Ok(x) => names.push(x),
            Err(e) => return Err(e),
        }
        let ghost t = self.tokens@;
        let ghost target = sp_names(old(self).tokens@, old(self).pos as nat);
        assert(names_view(names@) =~= seq![names@[0]@]);
        loop
            invariant
                Parser::later(*old(self), *self),
                t == self.tokens@,
                target == sp_names(old(self).tokens@, old(self).pos as nat),
                sp_names_tail(t, self.pos as nat, names_view(names@)) == target,
            decreases self.tokens.len() - self.pos,
        {
            let ghost before = names_view(names@);
            if !self.match_kind(&TokenKind::Comma) {
                return Ok(names);
            }
            match self.parse_ident_name() {
                Ok(x) => {
                    names.push(x);
                    assert(names_view(names@) =~= before.push(x@));
                },
                Err(e) => return Err(e),
            }
        }
    }

    fn parse_field_names(&mut self) -> (r: Result<Vec<String>, ParseError>)
        requires
            old(self).wf(),
        ensures
            Parser::later(*old(self), *final(self)),
            sp_field_names(old(self).tokens@, old(self).pos as nat) == res_names(r, final(self).pos as nat),
    {
        let mut names: Vec<String> = Vec::new();
        if self.check(&TokenKind::RBrace) {
            assert(names_view(names@) =~= Seq::empty());
            return Ok(names);
        }
        match self.parse_ident_name() {
            Ok(x) => names.push(x),
            Err(e) => return Err(e),
        }
        let ghost t = self.tokens@;
        let ghost target = sp_field_names(old(self).tokens@, old(self).pos as nat);
        assert(names_view(names@) =~= seq![names@[0]@]);
        loop
            invariant
                Parser::later(*old(self), *self),
                t == self.tokens@,
                target == sp_field_names(old(self).tokens@, old(self).pos as nat),
                sp_field_names_tail(t, self.pos as nat, names_view(names@)) == target,
            decreases self.tokens.len() - self.pos,
        {
            let ghost before = names_view(names@);
            if !self.match_kind(&TokenKind::Comma) {
                return Ok(names);
            }
            if self.check(&TokenKind::RBrace) {
                return Ok(names);
            }
            match self.parse_ident_name() {
                Ok(x) => {
                    names.push(x);
                    assert(names_view(names@) =~= before.push(x@));
                },
                Err(e) => return Err(e),
            }
        }
    }

    fn parse_expr(&mut self) -> (r: Result<Expr, ParseError>)
        requires
            old(self).wf(),
        ensures
            Parser::later(*old(self), *final(self)),
            sp_expr(old(self).tokens@, old(self).pos as nat, old(self).depth as nat) == res_expr(r, final(self).pos as nat),
            r is Ok ==> final(self).pos > old(self).pos,
        decreases 2 * (MAX_PARSE_DEPTH - old(self).depth) + 0, 1int, old(self).tokens.len() - old(self).pos
    {
        self.depth = self.depth + 1;
        if self.depth > MAX_PARSE_DEPTH {
            self.depth = self.depth - 1;
            let mut m = String::new();
            push_str(&mut m, "превышена максимальная глубина вложенности ");
            push_str(&mut m, "выражения");
            push_str(&mut m, " (80) — защита от stack overflow");
            return Err(self.err(m));
        }
        let r = self.parse_assignment();
        self.depth = self.depth - 1;
        r
    }

    fn parse_assignment(&mut self) -> (r: Result<Expr, ParseError>)
        requires
            old(self).wf(),
        ensures
            Parser::later(*old(self), *final(self)),
            sp_assignment(old(self).tokens@, old(self).pos as nat, old(self).depth as nat) == res_expr(r, final(self).pos as nat),
            r is Ok ==> final(self).pos > old(self).pos,
        decreases 2 * (MAX_PARSE_DEPTH - old(self).depth) + 1, 30int, old(self).tokens.len() - old(self).pos
    {
        let e = match self.parse_or() {
            Ok(e) => e,
            Err(x) => return Err(x),
        };
        if self.check(&TokenKind::Assign) {
            self.advance();
            let value = match self.parse_assignment() {
                Ok(v) => v,
                Err(x) => return Err(x),
            };
            match e {
                Expr::Ident(name) => Ok(Expr::Assign(name, Box::new(value))),
                Expr::Index(target, idx) => Ok(Expr::IndexAssign(target, idx, Box::new(value))),
                Expr::FieldAccess(obj, field) => Ok(Expr::FieldAssign(obj, field, Box::new(value))),
                _ => Err(self.err_str(
                    "недопустимая левая часть присваивания (ожидалось имя переменной, индексное выражение или доступ к полю)",
                )),
            }
        } else {
            Ok(e)
        }
    }

    fn parse_or(&mut self) -> (r: Result<Expr, ParseError>)
        requires
            old(self).wf(),
        ensures
            Parser::later(*old(self), *final(self)),
            sp_or(old(self).tokens@, old(self).pos as nat, old(self).depth as nat) == res_expr(r, final(self).pos as nat),
            r is Ok ==> final(self).pos > old(self).pos,
        decreases 2 * (MAX_PARSE_DEPTH - old(self).depth) + 1, 29int, old(self).tokens.len() - old(self).pos
    {
        let ghost t = self.tokens@;
        let ghost d = self.depth as nat;
        let ghost p0 = self.pos as nat;
        let mut left = match self.parse_and() {
            Ok(e) => e,
            Err(x) => return Err(x),
        };
        loop
            invariant
                Parser::later(*old(self), *self),
                t == old(self).tokens@,
                d == old(self).depth,
                p0 == old(self).pos,
                self.pos > p0,
                sp_or_tail(t, self.pos as nat, d, expr_view(left)) == sp_or(t, p0, d),
            decreases self.tokens.len() - self.pos,
        {
            let op = if self.check(&TokenKind::Or) {
                BinOp::Or
            } else {
                return Ok(left);
            };
            self.advance();
            let right = match self.parse_and() {
                Ok(e) => e,
                Err(x) => return Err(x),
            };
            left = Expr::Binary(op, Box::new(left), Box::new(right));
        }
    }

    fn parse_and(&mut self) -> (r: Result<Expr, ParseError>)
        requires
            old(self).wf(),
        ensures
            Parser::later(*old(self), *final(self)),
            sp_and(old(self).tokens@, old(self).pos as nat, old(self).depth as nat) == res_expr(r, final(self).pos as nat),
            r is Ok ==> final(self).pos > old(self).pos,
        decreases 2 * (MAX_PARSE_DEPTH - old(self).depth) + 1, 27int, old(self).tokens.len() - old(self).pos
    {
        let ghost t = self.tokens@;
        let ghost d = self.depth as nat;
        let ghost p0 = self.pos as nat;
        let mut left = match self.parse_equality() {
            Ok(e) => e,
            Err(x) => return Err(x),
        };
        loop
            invariant
                Parser::later(*old(self), *self),
                t == old(self).tokens@,
                d == old(self).depth,
                p0 == old(self).pos,
                self.pos > p0,
                sp_and_tail(t, self.pos as nat, d, expr_view(left)) == sp_and(t, p0, d),
            decreases self.tokens.len() - self.pos,
        {
            let op = if self.check(&TokenKind::And) {
                BinOp::And
            } else {
                return Ok(left);
            };
            self.advance();
            let right = match self.parse_equality() {
                Ok(e) => e,
                Err(x) => return Err(x),
            };
            left = Expr::Binary(op, Box::new(left), Box::new(right));
        }
    }

    fn parse_equality(&mut self) -> (r: Result<Expr, ParseError>)
        requires
            old(self).wf(),
        ensures
            Parser::later(*old(self), *final(self)),
            sp_equality(old(self).tokens@, old(self).pos as nat, old(self).depth as nat) == res_expr(r, final(self).pos as nat),
            r is Ok ==> final(self).pos > old(self).pos,
        decreases 2 * (MAX_PARSE_DEPTH - old(self).depth) + 1, 25int, old(self).tokens.len() - old(self).pos
    {
        let ghost t = self.tokens@;
        let ghost d = self.depth as nat;
        let ghost p0 = self.pos as nat;
        let mut left = match self.parse_comparison() {
            Ok(e) => e,
            Err(x) => return Err(x),
        };
        loop
            invariant
                Parser::later(*old(self), *self),
                t == old(self).tokens@,
                d == old(self).depth,
                p0 == old(self).pos,
                self.pos > p0,
                sp_equality_tail(t, self.pos as nat, d, expr_view(left)) == sp_equality(t, p0, d),
            decreases self.tokens.len() - self.pos,
        {
            let op = if self.check(&TokenKind::Eq) {
                BinOp::Eq
            } else if self.check(&TokenKind::NotEq) {
                BinOp::NotEq
            } else {
                return Ok(left);
            };
            self.advance();
            let right = match self.parse_comparison() {
                Ok(e) => e,
                Err(x) => return Err(x),
            };
            left = Expr::Binary(op, Box::new(left), Box::new(right));
        }
    }

    fn parse_comparison(&mut self) -> (r: Result<Expr, ParseError>)
        requires
            old(self).wf(),
        ensures
            Parser::later(*old(self), *final(self)),
            sp_comparison(old(self).tokens@, old(self).pos as nat, old(self).depth as nat) == res_expr(r, final(self).pos as nat),
            r is Ok ==> final(self).pos > old(self).pos,
        decreases 2 * (MAX_PARSE_DEPTH - old(self).depth) + 1, 23int, old(self).tokens.len() - old(self).pos
    {
        let ghost t = self.tokens@;
        let ghost d = self.depth as nat;
        let ghost p0 = self.pos as nat;
        let mut left = match self.parse_term() {
            Ok(e) => e,
            Err(x) => return Err(x),
        };
        loop
            invariant
                Parser::later(*old(self), *self),
                t == old(self).tokens@,
                d == old(self).depth,
                p0 == old(self).pos,
                self.pos > p0,
                sp_comparison_tail(t, self.pos as nat, d, expr_view(left)) == sp_comparison(t, p0, d),
            decreases self.tokens.len() - self.pos,
        {
            let op = if self.check(&TokenKind::Lt) {
                BinOp::Lt
            } else if self.check(&TokenKind::Gt) {
                BinOp::Gt
            } else if self.check(&TokenKind::LtEq) {
                BinOp::LtEq
            } else if self.check(&TokenKind::GtEq) {
                BinOp::GtEq
            } else {
                return Ok(left);
            };
            self.advance();
            let right = match self.parse_term() {
                Ok(e) => e,
                Err(x) => return Err(x),
            };
            left = Expr::Binary(op, Box::new(left), Box::new(right));
        }
    }

    fn parse_term(&mut self) -> (r: Result<Expr, ParseError>)
        requires
            old(self).wf(),
        ensures
            Parser::later(*old(self), *final(self)),
            sp_term(old(self).tokens@, old(self).pos as nat, old(self).depth as nat) == res_expr(r, final(self).pos as nat),
            r is Ok ==> final(self).pos > old(self).pos,
        decreases 2 * (MAX_PARSE_DEPTH - old(self).depth) + 1, 21int, old(self).tokens.len() - old(self).pos
    {
        let ghost t = self.tokens@;
        let ghost d = self.depth as nat;
        let ghost p0 = self.pos as nat;
        let mut left = match self.parse_factor() {
            Ok(e) => e,
            Err(x) => return Err(x),
        };
        loop
            invariant
                Parser::later(*old(self), *self),
                t == old(self).tokens@,
                d == old(self).depth,
                p0 == old(self).pos,
                self.pos > p0,
                sp_term_tail(t, self.pos as nat, d, expr_view(left)) == sp_term(t, p0, d),
            decreases self.tokens.len() - self.pos,
        {
            let op = if self.check(&TokenKind::Plus) {
                BinOp::Add
            } else if self.check(&TokenKind::Minus) {
                BinOp::Sub
            } else {
                return Ok(left);
            };
            self.advance();
            let right = match self.parse_factor() {
                Ok(e) => e,
                Err(x) => return Err(x),
            };
            left = Expr::Binary(op, Box::new(left), Box::new(right));
        }
    }

    fn parse_factor(&mut self) -> (r: Result<Expr, ParseError>)
        requires
            old(self).wf(),
        ensures
            Parser::later(*old(self), *final(self)),
            sp_factor(old(self).tokens@, old(self).pos as nat, old(self).depth as nat) == res_expr(r, final(self).pos as nat),
            r is Ok ==> final(self).pos > old(self).pos,
        decreases 2 * (MAX_PARSE_DEPTH - old(self).depth) + 1, 19int, old(self).tokens.len() - old(self).pos
    {
        let ghost t = self.tokens@;
        let ghost d = self.depth as nat;
        let ghost p0 = self.pos as nat;
        let mut left = match self.parse_unary() {
            Ok(e) => e,
            Err(x) => return Err(x),
        };
        loop
            invariant
                Parser::later(*old(self), *self),
                t == old(self).tokens@,
                d == old(self).depth,
                p0 == old(self).pos,
                self.pos > p0,
                sp_factor_tail(t, self.pos as nat, d, expr_view(left)) == sp_factor(t, p0, d),
            decreases self.tokens.len() - self.pos,
        {
            let op = if self.check(&TokenKind::Star) {
                BinOp::Mul
            } else if self.check(&TokenKind::Slash) {
                BinOp::Div
            } else if self.check(&TokenKind::Percent) {
                BinOp::Mod
            } else {
                return Ok(left);
            };
            self.advance();
            let right = match self.parse_unary() {
                Ok(e) => e,
                Err(x) => return Err(x),
            };
            left = Expr::Binary(op, Box::new(left), Box::new(right));
        }
    }

    fn parse_unary(&mut self) -> (r: Result<Expr, ParseError>)
        requires
            old(self).wf(),
        ensures
            Parser::later(*old(self), *final(self)),
            sp_unary(old(self).tokens@, old(self).pos as nat, old(self).depth as nat) == res_expr(r, final(self).pos as nat),
            r is Ok ==> final(self).pos > old(self).pos,
        decreases 2 * (MAX_PARSE_DEPTH - old(self).depth) + 1, 17int, old(self).tokens.len() - old(self).pos
    {
        if self.check(&TokenKind::Minus) {
            self.advance();
            match self.parse_unary() {
                Ok(e) => Ok(Expr::Unary(UnOp::Neg, Box::new(e))),
                Err(x) => Err(x),
            }
        } else if self.check(&TokenKind::Not) {
            self.advance();
            match self.parse_unary() {
                Ok(e) => Ok(Expr::Unary(UnOp::Not, Box::new(e))),
                Err(x) => Err(x),
            }
        } else {
            self.parse_postfix()
        }
    }

    fn parse_postfix(&mut self) -> (r: Result<Expr, ParseError>)
        requires
            old(self).wf(),
        ensures
            Parser::later(*old(self), *final(self)),
            sp_postfix(old(self).tokens@, old(self).pos as nat, old(self).depth as nat) == res_expr(r, final(self).pos as nat),
            r is Ok ==> final(self).pos > old(self).pos,
        decreases 2 * (MAX_PARSE_DEPTH - old(self).depth) + 1, 16int, old(self).tokens.len() - old(self).pos
    {
        let ghost t = self.tokens@;
        let ghost d = self.depth as nat;
        let ghost p0 = self.pos as nat;
        let mut expr = match self.parse_primary() {
            Ok(e) => e,
            Err(x) => return Err(x),
        };
        loop
            invariant
                Parser::later(*old(self), *self),
                t == old(self).tokens@,
                d == old(self).depth,
                p0 == old(self).pos,
                self.pos > p0,
                sp_postfix_tail(t, self.pos as nat, d, expr_view(expr)) == sp_postfix(t, p0, d),
            decreases self.tokens.len() - self.pos,
        {
            if self.check(&TokenKind::LBracket) {
                self.advance();
                let idx = match self.parse_expr() {
                    Ok(e) => e,
                    Err(x) => return Err(x),
                };
                match self.expect(&TokenKind::RBracket, "']'") {
                    Ok(_) => {},
                    Err(x) => return Err(x),
                }
                expr = Expr::Index(Box::new(expr), Box::new(idx));
            } else if self.check(&TokenKind::Dot) && !self.next_is_dot() {
                self.advance();
                let field = match self.parse_ident_name() {
                    Ok(f) => f,
                    Err(x) => return Err(x),
                };
                if self.check(&TokenKind::LParen) {
                    self.advance();
                    let args = match self.parse_args(&TokenKind::RParen) {
                        Ok(a) => a,
                        Err(x) => return Err(x),
                    };
                    match self.expect(&TokenKind::RParen, "')'") {
                        Ok(_) => {},
                        Err(x) => return Err(x),
                    }
                    expr = Expr::MethodCall(Box::new(expr), field, args);
                } else {
                    expr = Expr::FieldAccess(Box::new(expr), field);
                }
            } else if self.check(&TokenKind::LParen) {
                self.advance();
                let args = match self.parse_args(&TokenKind::RParen) {
                    Ok(a) => a,
                    Err(x) => return Err(x),
                };
                match self.expect(&TokenKind::RParen, "')'") {
                    Ok(_) => {},
                    Err(x) => return Err(x),
                }
                expr = Expr::CallExpr(Box::new(expr), args);
            } else {
                return Ok(expr);
            }
        }
    }

    #[verifier::rlimit(60)]
    fn parse_args(&mut self, close: &TokenKind) -> (r: Result<Vec<Expr>, ParseError>)
        requires
            old(self).wf(),
            is_plain(*close),
        ensures
            Parser::later(*old(self), *final(self)),
            sp_args(old(self).tokens@, old(self).pos as nat, old(self).depth as nat, *close) == res_exprs(r, final(self).pos as nat),
        decreases 2 * (MAX_PARSE_DEPTH - old(self).depth) + 0, 4int, old(self).tokens.len() - old(self).pos
    {
        let ghost t = self.tokens@;
        let ghost d = self.depth as nat;
        let ghost p0 = self.pos as nat;
        let mut args: Vec<Expr> = Vec::new();
        if self.check(close) {
            assert(exprs_view(args@) =~= Seq::empty());
            return Ok(args);
        }
        match self.parse_expr() {
            Ok(e) => {
                proof { lemma_exprs_view_push(args@, e); }
                args.push(e);
                assert(exprs_view(args@) =~= seq![expr_view(e)]);
            },
            Err(x) => return Err(x),
        }
        loop
            invariant
                Parser::later(*old(self), *self),
                t == old(self).tokens@,
                d == old(self).depth,
                p0 == old(self).pos,
                !is_at(t, p0, *close),
                sp_args_tail(t, self.pos as nat, d, exprs_view(args@)) == sp_args(t, p0, d, *close),
            decreases self.tokens.len() - self.pos,
        {
            let ghost before = args@;
            if !self.match_kind(&TokenKind::Comma) {
                return Ok(args);
            }
            match self.parse_expr() {
                Ok(e) => {
                    proof { lemma_exprs_view_push(before, e); }
                    args.push(e);
                },
                Err(x) => return Err(x),
            }
        }
    }

    fn parse_field_init(&mut self, what: &str) -> (r: Result<(String, Expr), ParseError>)
        requires
            old(self).wf(),
        ensures
            Parser::later(*old(self), *final(self)),
            sp_field_init(old(self).tokens@, old(self).pos as nat, old(self).depth as nat, what@) == res_field(r, final(self).pos as nat),
            r is Ok ==> final(self).pos > old(self).pos,
        decreases 2 * (MAX_PARSE_DEPTH - old(self).depth) + 0, 2int, old(self).tokens.len() - old(self).pos
    {
        let f = match self.parse_ident_name() {
            Ok(f) => f,
            Err(x) => return Err(x),
        };
        match self.expect(&TokenKind::Colon, what) {
            Ok(_) => {},
            Err(x) => return Err(x),
        }
        match self.parse_expr() {
            Ok(v) => Ok((f, v)),
            Err(x) => Err(x),
        }
    }

    #[verifier::rlimit(60)]
    fn parse_fields(&mut self) -> (r: Result<Vec<(String, Expr)>, ParseError>)
        requires
            old(self).wf(),
        ensures
            Parser::later(*old(self), *final(self)),
            sp_fields(old(self).tokens@, old(self).pos as nat, old(self).depth as nat) == res_fields(r, final(self).pos as nat),
        decreases 2 * (MAX_PARSE_DEPTH - old(self).depth) + 0, 4int, old(self).tokens.len() - old(self).pos
    {
        let ghost t = self.tokens@;
        let ghost d = self.depth as nat;
        let ghost p0 = self.pos as nat;
        let mut fields: Vec<(String, Expr)> = Vec::new();
        if self.check(&TokenKind::RBrace) {
            assert(fields_view(fields@) =~= Seq::empty());
            return Ok(fields);
        }
        match self.parse_field_init("':' (в литерале struct: field: value)") {
            Ok(f) => {
                proof { lemma_fields_view_push(fields@, f); }
                fields.push(f);
                assert(fields_view(fields@) =~= seq![(f.0@, expr_view(f.1))]);
            },
            Err(x) => return Err(x),
        }
        loop
            invariant
                Parser::later(*old(self), *self),
                t == old(self).tokens@,
                d == old(self).depth,
                p0 == old(self).pos,
                !is_at(t, p0, TokenKind::RBrace),
                sp_fields_tail(t, self.pos as nat, d, fields_view(fields@)) == sp_fields(t, p0, d),
            decreases self.tokens.len() - self.pos,
        {
            let ghost before = fields@;
            if !self.match_kind(&TokenKind::Comma) {
                return Ok(fields);
            }
            if self.check(&TokenKind::RBrace) {
                return Ok(fields);
            }
            match self.parse_field_init("':'") {
                Ok(f) => {
                    proof { lemma_fields_view_push(before, f); }
                    fields.push(f);
                },
                Err(x) => return Err(x),
            }
        }
    }

    fn parse_lambda(&mut self) -> (r: Result<Expr, ParseError>)
        requires
            old(self).wf(),
        ensures
            Parser::later(*old(self), *final(self)),
            sp_lambda(old(self).tokens@, old(self).pos as nat, old(self).depth as nat) == res_expr(r, final(self).pos as nat),
            r is Ok ==> final(self).pos > old(self).pos,
        decreases 2 * (MAX_PARSE_DEPTH - old(self).depth) + 1, 13int, old(self).tokens.len() - old(self).pos
    {
        match self.expect(&TokenKind::LParen, "'(' (анонимная функция: 'FN(параметры) { тело }', без имени)") {
            Ok(_) => {},
            Err(x) => return Err(x),
        }
        let params = match self.parse_names() {
            Ok(ps) => ps,
            Err(x) => return Err(x),
        };
        match self.expect(&TokenKind::RParen, "')'") {
            Ok(_) => {},
            Err(x) => return Err(x),
        }
        if self.match_kind(&TokenKind::Arrow) {
            match self.parse_type_name() {
                Ok(_) => {},
                Err(x) => return Err(x),
            }
        }
        let body = match self.parse_block() {
            Ok(b) => b,
            Err(x) => return Err(x),
        };
        Ok(Expr::Lambda { params, body })
    }

    fn parse_after_name(&mut self, name: String) -> (r: Result<Expr, ParseError>)
        requires
            old(self).wf(),
        ensures
            Parser::later(*old(self), *final(self)),
            sp_after_name(old(self).tokens@, old(self).pos as nat, old(self).depth as nat, name@) == res_expr(r, final(self).pos as nat),
        decreases 2 * (MAX_PARSE_DEPTH - old(self).depth) + 1, 12int, old(self).tokens.len() - old(self).pos
    {
        if self.check(&TokenKind::LParen) {
            self.advance();
            let args = match self.parse_args(&TokenKind::RParen) {
                Ok(a) => a,
                Err(x) => return Err(x),
            };
            match self.expect(&TokenKind::RParen, "')'") {
                Ok(_) => {},
                Err(x) => return Err(x),
            }
            Ok(Expr::Call(name, args))
        } else if self.check(&TokenKind::LBrace) && self.is_struct_lit_lookahead() {
            self.advance();
            let fields = match self.parse_fields() {
                Ok(f) => f,
                Err(x) => return Err(x),
            };
            match self.expect(&TokenKind::RBrace, "'}'") {
                Ok(_) => {},
                Err(x) => return Err(x),
            }
            Ok(Expr::StructLit { struct_name: name, fields })
        } else {
            Ok(Expr::Ident(name))
        }
    }

    fn parse_primary(&mut self) -> (r: Result<Expr, ParseError>)
        requires
            old(self).wf(),
        ensures
            Parser::later(*old(self), *final(self)),
            sp_primary(old(self).tokens@, old(self).pos as nat, old(self).depth as nat) == res_expr(r, final(self).pos as nat),
            r is Ok ==> final(self).pos > old(self).pos,
        decreases 2 * (MAX_PARSE_DEPTH - old(self).depth) + 1, 14int, old(self).tokens.len() - old(self).pos
    {
        match self.kind() {
            TokenKind::IntLit(v) => {
                let v = *v;
                self.advance();
                Ok(Expr::Int(v))
            },
            TokenKind::FloatLit(s) => {
                let s = s.clone();
                self.advance();
                Ok(Expr::Float(s))
            },
            TokenKind::StringLit(s) => {
                let s = s.clone();
                self.advance();
                Ok(Expr::Str(s))
            },
            TokenKind::True => {
                self.advance();
                Ok(Expr::Bool(true))
            },
            TokenKind::False => {
                self.advance();
                Ok(Expr::Bool(false))
            },
            TokenKind::Nil => {
                self.advance();
                Ok(Expr::Nil)
            },
            TokenKind::Fn => {
                self.advance();
                self.parse_lambda()
            },
            TokenKind::Ident(name) => {
                let name = name.clone();
                self.advance();
                self.parse_after_name(name)
            },
            TokenKind::LBracket => {
                self.advance();
                let items = match self.parse_args(&TokenKind::RBracket) {
                    Ok(a) => a,
                    Err(x) => return Err(x),
                };
                match self.expect(&TokenKind::RBracket, "']'") {
                    Ok(_) => {},
                    Err(x) => return Err(x),
                }
                Ok(Expr::Array(items))
            },
            TokenKind::LParen => {
                self.advance();
                let e = match self.parse_expr() {
                    Ok(e) => e,
                    Err(x) => return Err(x),
                };
                match self.expect(&TokenKind::RParen, "')'") {
                    Ok(_) => {},
                    Err(x) => return Err(x),
                }
                Ok(e)
            },
            k => {
                let mut m = String::new();
                push_str(&mut m, "неожиданный токен в выражении: ");
                let dk = kind_debug(k);
                push_str(&mut m, dk.as_str());
                Err(self.err(m))
            },
        }
    }

    fn parse_block(&mut self) -> (r: Result<Vec<Stmt>, ParseError>)
        requires
            old(self).wf(),
        ensures
            Parser::later(*old(self), *final(self)),
            sp_block(old(self).tokens@, old(self).pos as nat, old(self).depth as nat) == res_stmts(r, final(self).pos as nat),
            r is Ok ==> final(self).pos > old(self).pos,
        decreases 2 * (MAX_PARSE_DEPTH - old(self).depth) + 0, 4int, old(self).tokens.len() - old(self).pos
    {
        match self.expect(&TokenKind::LBrace, "'{'") {
            Ok(_) => {},
            Err(x) => return Err(x),
        }
        let ghost t = self.tokens@;
        let ghost d = self.depth as nat;
        let ghost p1 = self.pos as nat;
        let mut stmts: Vec<Stmt> = Vec::new();
        assert(stmts_view(stmts@) =~= Seq::empty());
        while !self.check(&TokenKind::RBrace) && !self.check(&TokenKind::Eof)
            invariant
                Parser::later(*old(self), *self),
                t == old(self).tokens@,
                d == old(self).depth,
                p1 > old(self).pos,
                self.pos >= p1,
                sp_block(t, old(self).pos as nat, d) == sp_block_tail(t, p1, d, Seq::empty()),
                sp_block_tail(t, self.pos as nat, d, stmts_view(stmts@)) == sp_block_tail(t, p1, d, Seq::empty()),
            decreases self.tokens.len() - self.pos,
        {
            let ghost before = stmts@;
            match self.parse_stmt(false) {
                Ok(s) => {
                    proof { lemma_stmts_view_push(before, s); }
                    stmts.push(s);
                },
                Err(x) => return Err(x),
            }
        }
        match self.expect(&TokenKind::RBrace, "'}'") {
            Ok(_) => {},
            Err(x) => return Err(x),
        }
        Ok(stmts)
    }

    fn parse_stmt(&mut self, top: bool) -> (r: Result<Stmt, ParseError>)
        requires
            old(self).wf(),
        ensures
            Parser::later(*old(self), *final(self)),
            sp_stmt(old(self).tokens@, old(self).pos as nat, old(self).depth as nat, top) == res_stmt(r, final(self).pos as nat),
            r is Ok ==> final(self).pos > old(self).pos,
        decreases 2 * (MAX_PARSE_DEPTH - old(self).depth) + 0, 1int, old(self).tokens.len() - old(self).pos
    {
        self.depth = self.depth + 1;
        if self.depth > MAX_PARSE_DEPTH {
            self.depth = self.depth - 1;
            let mut m = String::new();
            push_str(&mut m, "превышена максимальная глубина вложенности ");
            push_str(&mut m, "блоков/операторов");
            push_str(&mut m, " (80) — защита от stack overflow");
            return Err(self.err(m));
        }
        let r = self.parse_stmt_inner(top);
        self.depth = self.depth - 1;
        r
    }

    fn parse_var_decl(&mut self, mutable: bool) -> (r: Result<Stmt, ParseError>)
        requires
            old(self).wf(),
        ensures
            Parser::later(*old(self), *final(self)),
            sp_var_decl(old(self).tokens@, old(self).pos as nat, old(self).depth as nat, mutable) == res_stmt(r, final(self).pos as nat),
            r is Ok ==> final(self).pos > old(self).pos,
        decreases 2 * (MAX_PARSE_DEPTH - old(self).depth) + 1, 39int, old(self).tokens.len() - old(self).pos
    {
        let name = match self.parse_ident_name() {
            Ok(v) => v,
            Err(x) => return Err(x),
        };
        let ty = match self.parse_opt_annotation() {
            Ok(v) => v,
            Err(x) => return Err(x),
        };
        match self.expect(&TokenKind::Assign, "'='") {
            Ok(_) => {},
            Err(x) => return Err(x),
        }
        let value = match self.parse_expr() {
            Ok(v) => v,
            Err(x) => return Err(x),
        };
        self.skip_semicolon();
        Ok(Stmt::VarDecl { name, value, mutable, ty })
    }

    #[verifier::rlimit(60)]
    fn parse_if(&mut self, top: bool) -> (r: Result<Stmt, ParseError>)
        requires
            old(self).wf(),
        ensures
            Parser::later(*old(self), *final(self)),
            sp_if(old(self).tokens@, old(self).pos as nat, old(self).depth as nat, top) == res_stmt(r, final(self).pos as nat),
            r is Ok ==> final(self).pos > old(self).pos,
        decreases 2 * (MAX_PARSE_DEPTH - old(self).depth) + 1, 38int, old(self).tokens.len() - old(self).pos
    {
        let cond = match self.parse_expr() {
            Ok(v) => v,
            Err(x) => return Err(x),
        };
        let then_branch = match self.parse_block() {
            Ok(v) => v,
            Err(x) => return Err(x),
        };
        let else_branch = if self.match_kind(&TokenKind::Else) {
            if self.check(&TokenKind::If) {
                let s = match self.parse_stmt(top) {
                    Ok(s) => s,
                    Err(x) => return Err(x),
                };
                let mut v: Vec<Stmt> = Vec::new();
                proof { lemma_stmts_view_push(v@, s); }
                v.push(s);
                assert(stmts_view(v@) =~= seq![stmt_view(s)]);
                Some(v)
            } else {
                let b = match self.parse_block() {
                    Ok(b) => b,
                    Err(x) => return Err(x),
                };
                Some(b)
            }
        } else {
            None
        };
        Ok(Stmt::If { cond, then_branch, else_branch })
    }

    fn parse_for(&mut self) -> (r: Result<Stmt, ParseError>)
        requires
            old(self).wf(),
        ensures
            Parser::later(*old(self), *final(self)),
            sp_for(old(self).tokens@, old(self).pos as nat, old(self).depth as nat) == res_stmt(r, final(self).pos as nat),
            r is Ok ==> final(self).pos > old(self).pos,
        decreases 2 * (MAX_PARSE_DEPTH - old(self).depth) + 1, 37int, old(self).tokens.len() - old(self).pos
    {
        let var = match self.parse_ident_name() {
            Ok(v) => v,
            Err(x) => return Err(x),
        };
        match self.expect(&TokenKind::In, "'IN' (SGA)") {
            Ok(_) => {},
            Err(x) => return Err(x),
        }
        let start = match self.parse_expr() {
            Ok(v) => v,
            Err(x) => return Err(x),
        };
        match self.expect(&TokenKind::Dot, "'.'") {
            Ok(_) => {},
            Err(x) => return Err(x),
        }
        match self.expect(&TokenKind::Dot, "'.' (диапазон '..')") {
            Ok(_) => {},
            Err(x) => return Err(x),
        }
        let end = match self.parse_expr() {
            Ok(v) => v,
            Err(x) => return Err(x),
        };
        let body = match self.parse_block() {
            Ok(v) => v,
            Err(x) => return Err(x),
        };
        Ok(Stmt::ForIn { var, start, end, body })
    }

    fn parse_struct_decl(&mut self) -> (r: Result<Stmt, ParseError>)
        requires
            old(self).wf(),
        ensures
            Parser::later(*old(self), *final(self)),
            sp_struct_decl(old(self).tokens@, old(self).pos as nat) == res_stmt(r, final(self).pos as nat),
            r is Ok ==> final(self).pos > old(self).pos,
    {
        let name = match self.parse_ident_name() {
            Ok(v) => v,
            Err(x) => return Err(x),
        };
        match self.expect(&TokenKind::LBrace, "'{'") {
            Ok(_) => {},
            Err(x) => return Err(x),
        }
        let fields = match self.parse_field_names() {
            Ok(v) => v,
            Err(x) => return Err(x),
        };
        match self.expect(&TokenKind::RBrace, "'}'") {
            Ok(_) => {},
            Err(x) => return Err(x),
        }
        Ok(Stmt::StructDecl { name, fields })
    }

    fn parse_import(&mut self) -> (r: Result<Stmt, ParseError>)
        requires
            old(self).wf(),
        ensures
            Parser::later(*old(self), *final(self)),
            sp_import(old(self).tokens@, old(self).pos as nat) == res_stmt(r, final(self).pos as nat),
            r is Ok ==> final(self).pos > old(self).pos,
    {
        match self.kind() {
            TokenKind::StringLit(s) => {
                let path = s.clone();
                self.advance();
                self.skip_semicolon();
                Ok(Stmt::Import(path))
            },
            k => {
                let mut m = String::new();
                push_str(&mut m, "ожидался строковый литерал с путём после IMPORT, получено ");
                let dk = kind_debug(k);
                push_str(&mut m, dk.as_str());
                Err(self.err(m))
            },
        }
    }

    fn parse_fn_decl(&mut self) -> (r: Result<Stmt, ParseError>)
        requires
            old(self).wf(),
        ensures
            Parser::later(*old(self), *final(self)),
            sp_fn_decl(old(self).tokens@, old(self).pos as nat, old(self).depth as nat) == res_stmt(r, final(self).pos as nat),
            r is Ok ==> final(self).pos > old(self).pos,
        decreases 2 * (MAX_PARSE_DEPTH - old(self).depth) + 1, 36int, old(self).tokens.len() - old(self).pos
    {
        let name = match self.parse_ident_name() {
            Ok(v) => v,
            Err(x) => return Err(x),
        };
        match self.expect(&TokenKind::LParen, "'('") {
            Ok(_) => {},
            Err(x) => return Err(x),
        }
        let params = match self.parse_params() {
            Ok(v) => v,
            Err(x) => return Err(x),
        };
        match self.expect(&TokenKind::RParen, "')'") {
            Ok(_) => {},
            Err(x) => return Err(x),
        }
        let return_ty = if self.match_kind(&TokenKind::Arrow) {
            match self.parse_type_name() {
                Ok(ty) => Some(ty),
                Err(x) => return Err(x),
            }
        } else {
            None
        };
        let body = match self.parse_block() {
            Ok(v) => v,
            Err(x) => return Err(x),
        };
        Ok(Stmt::FnDecl { name, params, body, return_ty })
    }

    fn parse_expr_stmt(&mut self) -> (r: Result<Stmt, ParseError>)
        requires
            old(self).wf(),
        ensures
            Parser::later(*old(self), *final(self)),
            sp_expr_stmt(old(self).tokens@, old(self).pos as nat, old(self).depth as nat) == res_stmt(r, final(self).pos as nat),
            r is Ok ==> final(self).pos > old(self).pos,
        decreases 2 * (MAX_PARSE_DEPTH - old(self).depth) + 1, 35int, old(self).tokens.len() - old(self).pos
    {
        let e = match self.parse_expr() {
            Ok(v) => v,
            Err(x) => return Err(x),
        };
        self.skip_semicolon();
        Ok(Stmt::ExprStmt(e))
    }

    fn parse_stmt_inner(&mut self, top: bool) -> (r: Result<Stmt, ParseError>)
        requires
            old(self).wf(),
        ensures
            Parser::later(*old(self), *final(self)),
            sp_stmt_inner(old(self).tokens@, old(self).pos as nat, old(self).depth as nat, top) == res_stmt(r, final(self).pos as nat),
            r is Ok ==> final(self).pos > old(self).pos,
        decreases 2 * (MAX_PARSE_DEPTH - old(self).depth) + 1, 40int, old(self).tokens.len() - old(self).pos
    {
        match self.kind() {
            TokenKind::Let => {
                self.advance();
                self.parse_var_decl(false)
            },
            TokenKind::Var => {
                self.advance();
                self.parse_var_decl(true)
            },
            TokenKind::Const => {
                self.advance();
                self.parse_var_decl(false)
            },
            TokenKind::Print => {
                self.advance();
                match self.expect(&TokenKind::LParen, "'('") {
                    Ok(_) => {},
                    Err(x) => return Err(x),
                }
                let args = match self.parse_args(&TokenKind::RParen) {
                    Ok(v) => v,
                    Err(x) => return Err(x),
                };
                match self.expect(&TokenKind::RParen, "')'") {
                    Ok(_) => {},
                    Err(x) => return Err(x),
                }
                self.skip_semicolon();
                Ok(Stmt::Print(args))
            },
            TokenKind::If => {
                self.advance();
                self.parse_if(top)
            },
            TokenKind::While => {
                self.advance();
                let cond = match self.parse_expr() {
                    Ok(v) => v,
                    Err(x) => return Err(x),
                };
                let body = match self.parse_block() {
                    Ok(v) => v,
                    Err(x) => return Err(x),
                };
                Ok(Stmt::While { cond, body })
            },
            TokenKind::For => {
                self.advance();
                self.parse_for()
            },
            TokenKind::Struct => {
                if !top {
                    return Err(self.err_str("STRUCT допустим только на верхнем уровне программы"));
                }
                self.advance();
                self.parse_struct_decl()
            },
            TokenKind::Import => {
                if !top {
                    return Err(self.err_str(
                        "IMPORT допустим только на верхнем уровне программы (как и именованный FN) — импорт внутри блока/функции не поддерживается",
                    ));
                }
                self.advance();
                self.parse_import()
            },
            TokenKind::Fn => {
                if self.next_is_ident() {
                    if !top {
                        return Err(self.err_str(
                            "вложенные объявления функций (FN имя(...)) не поддерживаются — функции объявляются только на верхнем уровне программы; для анонимной функции внутри блока используйте 'FN(...) { ... }' без имени",
                        ));
                    }
                    self.advance();
                    self.parse_fn_decl()
                } else {
                    self.parse_expr_stmt()
                }
            },
            TokenKind::Return => {
                self.advance();
                let value = if self.check(&TokenKind::Semicolon) || self.check(&TokenKind::RBrace) {
                    None
                } else {
                    match self.parse_expr() {
                        Ok(e) => Some(e),
                        Err(x) => return Err(x),
                    }
                };
                self.skip_semicolon();
                Ok(Stmt::Return(value))
            },
            TokenKind::Break => {
                self.advance();
                self.skip_semicolon();
                Ok(Stmt::Break)
            },
            TokenKind::Continue => {
                self.advance();
                self.skip_semicolon();
                Ok(Stmt::Continue)
            },
            TokenKind::LBrace => {
                match self.parse_block() {
                    Ok(b) => Ok(Stmt::Block(b)),
                    Err(x) => Err(x),
                }
            },
            _ => self.parse_expr_stmt(),
        }
    }

    /// Parses the whole program: statements up to `Eof`, or the first parse
    /// error.
    pub fn parse_program(&mut self) -> (r: Result<Vec<Stmt>, ParseError>)
        requires
            wf_at(old(self).toks(), old(self).cur()),
            old(self).level() <= MAX_PARSE_DEPTH,
        ensures
            sp_program_from(old(self).toks(), old(self).cur(), old(self).level(), Seq::empty()) == match r {
                Ok(v) => Ok::<Seq<StmtV>, ParseErrV>(stmts_view(v@)),
                Err(x) => Err(x@),
            },
    {
        let ghost t = self.tokens@;
        let ghost p0 = self.pos as nat;
        let mut stmts: Vec<Stmt> = Vec::new();
        assert(stmts_view(stmts@) =~= Seq::empty());
        while !self.check(&TokenKind::Eof)
            invariant
                self.wf(),
                self.tokens@ == t,
                t == old(self).tokens@,
                p0 == old(self).pos,
                self.depth == old(self).depth,
                sp_program_from(t, self.pos as nat, self.depth as nat, stmts_view(stmts@))
                    == sp_program_from(t, p0, self.depth as nat, Seq::empty()),
            decreases self.tokens.len() - self.pos,
        {
            let ghost before = stmts@;
            match self.parse_stmt(true) {
                Ok(s) => {
                    proof { lemma_stmts_view_push(before, s); }
                    stmts.push(s);
                },
                Err(x) => return Err(x),
            }
        }
        Ok(stmts)
    }
}

} // verus!
