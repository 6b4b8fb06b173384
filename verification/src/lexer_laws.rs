//! What each keyword, operator and punctuation character of the source
//! reads as.
use vstd::prelude::*;
use crate::lexer::{is_sga, read_token, scan_sga, step, str_body, LexPos};
use crate::sga_alphabet::spec_decode_word;
use crate::lexer::token::{KindV, TokenKind};

verus! {

/// Whether the character after the one at `p` is `x`.
pub open spec fn followed_by(s: Seq<char>, p: LexPos, x: char) -> bool {
    p.pos + 1 < s.len() && s[p.pos + 1int] == x
}

/// Whether the token read at `p` is of kind `k` and spans `n` characters.
pub open spec fn reads_as(s: Seq<char>, p: LexPos, k: TokenKind, n: nat) -> bool {
    read_token(s, p) matches Ok((t, q)) && t.kind == KindV::Plain(k) && q.pos == p.pos + n
}

/// Each operator and punctuation character reads as its own token: `+`,
/// `*`, `/`, `%`, the brackets, `,`, `;`, `:` and `.` as one-character
/// tokens; `-`, `=`, `<` and `>` as `Minus`, `Assign`, `Lt` and `Gt`, or,
/// when the next character is `>`, `=`, `=` and `=`, as the two-character
/// tokens `Arrow`, `Eq`, `LtEq` and `GtEq`; and `!=` as `NotEq`.
pub proof fn lemma_operator_tokens(s: Seq<char>, p: LexPos)
    requires
        p.pos < s.len(),
    ensures
        s[p.pos as int] == '+' ==> reads_as(s, p, TokenKind::Plus, 1),
        s[p.pos as int] == '*' ==> reads_as(s, p, TokenKind::Star, 1),
        s[p.pos as int] == '/' ==> reads_as(s, p, TokenKind::Slash, 1),
        s[p.pos as int] == '%' ==> reads_as(s, p, TokenKind::Percent, 1),
        s[p.pos as int] == '(' ==> reads_as(s, p, TokenKind::LParen, 1),
        s[p.pos as int] == ')' ==> reads_as(s, p, TokenKind::RParen, 1),
        s[p.pos as int] == '{' ==> reads_as(s, p, TokenKind::LBrace, 1),
        s[p.pos as int] == '}' ==> reads_as(s, p, TokenKind::RBrace, 1),
        s[p.pos as int] == '[' ==> reads_as(s, p, TokenKind::LBracket, 1),
        s[p.pos as int] == ']' ==> reads_as(s, p, TokenKind::RBracket, 1),
        s[p.pos as int] == ',' ==> reads_as(s, p, TokenKind::Comma, 1),
        s[p.pos as int] == ';' ==> reads_as(s, p, TokenKind::Semicolon, 1),
        s[p.pos as int] == ':' ==> reads_as(s, p, TokenKind::Colon, 1),
        s[p.pos as int] == '.' ==> reads_as(s, p, TokenKind::Dot, 1),
        s[p.pos as int] == '-' && followed_by(s, p, '>') ==> reads_as(s, p, TokenKind::Arrow, 2),
        s[p.pos as int] == '-' && !followed_by(s, p, '>') ==> reads_as(s, p, TokenKind::Minus, 1),
        s[p.pos as int] == '=' && followed_by(s, p, '=') ==> reads_as(s, p, TokenKind::Eq, 2),
        s[p.pos as int] == '=' && !followed_by(s, p, '=') ==> reads_as(s, p, TokenKind::Assign, 1),
        s[p.pos as int] == '<' && followed_by(s, p, '=') ==> reads_as(s, p, TokenKind::LtEq, 2),
        s[p.pos as int] == '<' && !followed_by(s, p, '=') ==> reads_as(s, p, TokenKind::Lt, 1),
        s[p.pos as int] == '>' && followed_by(s, p, '=') ==> reads_as(s, p, TokenKind::GtEq, 2),
        s[p.pos as int] == '>' && !followed_by(s, p, '=') ==> reads_as(s, p, TokenKind::Gt, 1),
        s[p.pos as int] == '!' && followed_by(s, p, '=') ==> reads_as(s, p, TokenKind::NotEq, 2),
{
}

/// The number of SGA letters in the run that starts at `p`.
pub open spec fn sga_run(s: Seq<char>, p: LexPos) -> nat {
    (scan_sga(s, p.pos) - p.pos) as nat
}

/// The Latin mnemonic spelled by the run of SGA letters that starts at `p`.
pub open spec fn sga_word_at(s: Seq<char>, p: LexPos) -> Seq<char> {
    spec_decode_word(s.subrange(p.pos as int, scan_sga(s, p.pos) as int))
}

/// A run of SGA letters reads, as one token, as the keyword that its Latin
/// mnemonic names: `LET`, `VAR`, `CONST`, `FN`, `RETURN`, `IF`, `ELSE`,
/// `WHILE`, `FOR`, `IN`, `TRUE`, `FALSE`, `STRUCT`, `PRINT`, `BREAK`,
/// `CONTINUE`, `AND`, `OR`, `NOT`, `NIL`, `MUT`, `IMPORT` and `MATCH`.
pub proof fn lemma_keyword_tokens(s: Seq<char>, p: LexPos)
    requires
        p.pos < s.len(),
        is_sga(s[p.pos as int]),
    ensures
        sga_word_at(s, p) == seq!['L', 'E', 'T'] ==> reads_as(s, p, TokenKind::Let, sga_run(s, p)),
        sga_word_at(s, p) == seq!['V', 'A', 'R'] ==> reads_as(s, p, TokenKind::Var, sga_run(s, p)),
        sga_word_at(s, p) == seq!['C', 'O', 'N', 'S', 'T'] ==> reads_as(s, p, TokenKind::Const, sga_run(s, p)),
        sga_word_at(s, p) == seq!['F', 'N'] ==> reads_as(s, p, TokenKind::Fn, sga_run(s, p)),
        sga_word_at(s, p) == seq!['R', 'E', 'T', 'U', 'R', 'N'] ==> reads_as(s, p, TokenKind::Return, sga_run(s, p)),
        sga_word_at(s, p) == seq!['I', 'F'] ==> reads_as(s, p, TokenKind::If, sga_run(s, p)),
        sga_word_at(s, p) == seq!['E', 'L', 'S', 'E'] ==> reads_as(s, p, TokenKind::Else, sga_run(s, p)),
        sga_word_at(s, p) == seq!['W', 'H', 'I', 'L', 'E'] ==> reads_as(s, p, TokenKind::While, sga_run(s, p)),
        sga_word_at(s, p) == seq!['F', 'O', 'R'] ==> reads_as(s, p, TokenKind::For, sga_run(s, p)),
        sga_word_at(s, p) == seq!['I', 'N'] ==> reads_as(s, p, TokenKind::In, sga_run(s, p)),
        sga_word_at(s, p) == seq!['T', 'R', 'U', 'E'] ==> reads_as(s, p, TokenKind::True, sga_run(s, p)),
        sga_word_at(s, p) == seq!['F', 'A', 'L', 'S', 'E'] ==> reads_as(s, p, TokenKind::False, sga_run(s, p)),
        sga_word_at(s, p) == seq!['S', 'T', 'R', 'U', 'C', 'T'] ==> reads_as(s, p, TokenKind::Struct, sga_run(s, p)),
        sga_word_at(s, p) == seq!['P', 'R', 'I', 'N', 'T'] ==> reads_as(s, p, TokenKind::Print, sga_run(s, p)),
        sga_word_at(s, p) == seq!['B', 'R', 'E', 'A', 'K'] ==> reads_as(s, p, TokenKind::Break, sga_run(s, p)),
        sga_word_at(s, p) == seq!['C', 'O', 'N', 'T', 'I', 'N', 'U', 'E'] ==> reads_as(s, p, TokenKind::Continue, sga_run(s, p)),
        sga_word_at(s, p) == seq!['A', 'N', 'D'] ==> reads_as(s, p, TokenKind::And, sga_run(s, p)),
        sga_word_at(s, p) == seq!['O', 'R'] ==> reads_as(s, p, TokenKind::Or, sga_run(s, p)),
        sga_word_at(s, p) == seq!['N', 'O', 'T'] ==> reads_as(s, p, TokenKind::Not, sga_run(s, p)),
        sga_word_at(s, p) == seq!['N', 'I', 'L'] ==> reads_as(s, p, TokenKind::Nil, sga_run(s, p)),
        sga_word_at(s, p) == seq!['M', 'U', 'T'] ==> reads_as(s, p, TokenKind::Mut, sga_run(s, p)),
        sga_word_at(s, p) == seq!['I', 'M', 'P', 'O', 'R', 'T'] ==> reads_as(s, p, TokenKind::Import, sga_run(s, p)),
        sga_word_at(s, p) == seq!['M', 'A', 'T', 'C', 'H'] ==> reads_as(s, p, TokenKind::Match, sga_run(s, p)),
{
}


/// How the characters of a string literal are read: a quote ends it, a
/// backslash followed by `n` or `t` stands for a line feed or a tab, a
/// backslash followed by any other character stands for that character
/// (so `\"` is a quote and `\\` a backslash), and any other character
/// stands for itself.
pub proof fn lemma_string_literal_chars(s: Seq<char>, p: LexPos, acc: Seq<char>)
    requires
        p.pos < s.len(),
    ensures
        s[p.pos as int] == '"' ==> (str_body(s, p, acc) matches Ok((b, q)) && b == acc && q.pos == p.pos + 1),
        s[p.pos as int] != '"' && s[p.pos as int] != '\\' ==> str_body(s, p, acc) == str_body(
            s,
            step(s, p),
            acc.push(s[p.pos as int]),
        ),
        s[p.pos as int] == '\\' && p.pos + 1 < s.len() ==> {
            let e = s[p.pos + 1int];
            let q = step(s, step(s, p));
            &&& e == 'n' ==> str_body(s, p, acc) == str_body(s, q, acc.push('\n'))
            &&& e == 't' ==> str_body(s, p, acc) == str_body(s, q, acc.push('\t'))
            &&& e != 'n' && e != 't' ==> str_body(s, p, acc) == str_body(s, q, acc.push(e))
        },
{
}

} // verus!
