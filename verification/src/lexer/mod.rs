//! Lexical analysis of SGA source text.
//!
//! Keywords are words of SGA letters (U+EB40..U+EB59), decoded to their ASCII
//! mnemonic and looked up in `token::keyword_from_mnemonic`. Identifiers,
//! numbers, strings and operators are ASCII. Line comments start with `//`.
use vstd::prelude::*;
use crate::sga_alphabet::{is_sga_letter, spec_decode_word, spec_sga_to_letter, decode_chars, is_upper, is_lower};
use crate::text::{decimal, push_str, push_char, string_of, usize_to_string};

pub mod token;

use token::{keyword_from_chars, spec_keyword, KindV, Token, TokenKind, TokenV};

verus! {

/// A lexical error: the message and the position (1-based line and column)
/// of the token that could not be read.
#[derive(Debug, Clone)]
pub struct LexError {
    pub message: String,
    pub line: usize,
    pub col: usize,
}

/// The mathematical value of a lexical error.
pub struct LexErrV {
    pub message: Seq<char>,
    pub line: nat,
    pub col: nat,
}

impl View for LexError {
    type V = LexErrV;

    open spec fn view(&self) -> LexErrV {
        LexErrV { message: self.message@, line: self.line as nat, col: self.col as nat }
    }
}

/// A lexical error as it is shown to the user.
pub open spec fn lex_error_text(e: LexErrV) -> Seq<char> {
    "["@ + decimal(e.line) + ":"@ + decimal(e.col) + "] ошибка лексера: "@ + e.message
}

impl LexError {
    /// The error as it is shown to the user: `[line:col] ошибка лексера: ...`.
    pub fn describe(&self) -> (r: String)
        ensures
            r@ == lex_error_text(self@),
    {
        let mut m = String::new();
        push_str(&mut m, "[");
        push_str(&mut m, usize_to_string(self.line).as_str());
        push_str(&mut m, ":");
        push_str(&mut m, usize_to_string(self.col).as_str());
        push_str(&mut m, "] ошибка лексера: ");
        push_str(&mut m, self.message.as_str());
        m
    }
}

/// A position in the source: character index, 1-based line and column.
pub struct LexPos {
    pub pos: nat,
    pub line: nat,
    pub col: nat,
}

// ------------------------------------------------------------------ classes

/// `char::is_ascii_digit`.
pub open spec fn is_digit(c: char) -> bool {
    '0' <= c && c <= '9'
}

/// `char::is_ascii_alphabetic`.
pub open spec fn is_alpha(c: char) -> bool {
    is_upper(c) || is_lower(c)
}

/// A character that continues an identifier: ASCII letter, digit or `_`.
pub open spec fn is_ident_char(c: char) -> bool {
    is_alpha(c) || is_digit(c) || c == '_'
}

/// `char::is_whitespace`: the Unicode `White_Space` property.
pub open spec fn is_ws(c: char) -> bool {
    let n = c as u32;
    (0x9 <= n && n <= 0xD) || n == 0x20 || n == 0x85 || n == 0xA0 || n == 0x1680
        || (0x2000 <= n && n <= 0x200A) || n == 0x2028 || n == 0x2029 || n == 0x202F
        || n == 0x205F || n == 0x3000
}

/// Whether the character is an SGA letter.
pub open spec fn is_sga(c: char) -> bool {
    spec_sga_to_letter(c).is_some()
}

fn char_is_ws(c: char) -> (r: bool)
    ensures
        r == is_ws(c),
{
    let n = c as u32;
    (0x9 <= n && n <= 0xD) || n == 0x20 || n == 0x85 || n == 0xA0 || n == 0x1680
        || (0x2000 <= n && n <= 0x200A) || n == 0x2028 || n == 0x2029 || n == 0x202F
        || n == 0x205F || n == 0x3000
}

fn char_is_digit(c: char) -> (r: bool)
    ensures
        r == is_digit(c),
{
    '0' <= c && c <= '9'
}

fn char_is_alpha(c: char) -> (r: bool)
    ensures
        r == is_alpha(c),
{
    ('A' <= c && c <= 'Z') || ('a' <= c && c <= 'z')
}

fn char_is_ident(c: char) -> (r: bool)
    ensures
        r == is_ident_char(c),
{
    char_is_alpha(c) || char_is_digit(c) || c == '_'
}

// ------------------------------------------------------------------ moves

/// The position after reading the character at `p`: a newline starts the
/// next line at column 1, any other character moves one column right.
pub open spec fn step(s: Seq<char>, p: LexPos) -> LexPos {
    if s[p.pos as int] == '\n' {
        LexPos { pos: p.pos + 1, line: p.line + 1, col: 1 }
    } else {
        LexPos { pos: p.pos + 1, line: p.line, col: p.col + 1 }
    }
}

/// Skips whitespace and `//` line comments (`in_comment`: inside one).
pub open spec fn skip_trivia(s: Seq<char>, p: LexPos, in_comment: bool) -> LexPos
    decreases s.len() - p.pos, (if in_comment { 1int } else { 0int }),
{
    if p.pos >= s.len() {
        p
    } else {
        let c = s[p.pos as int];
        if in_comment {
            if c == '\n' {
                skip_trivia(s, p, false)
            } else {
                skip_trivia(s, step(s, p), true)
            }
        } else if is_ws(c) {
            skip_trivia(s, step(s, p), false)
        } else if c == '/' && p.pos + 1 < s.len() && s[p.pos + 1int] == '/' {
            skip_trivia(s, step(s, p), true)
        } else {
            p
        }
    }
}

/// The end of the run of SGA letters starting at `i`.
pub open spec fn scan_sga(s: Seq<char>, i: nat) -> nat
    decreases s.len() - i,
{
    if i < s.len() && is_sga(s[i as int]) {
        scan_sga(s, i + 1)
    } else {
        i
    }
}

/// The end of the run of ASCII digits starting at `i`.
pub open spec fn scan_digits(s: Seq<char>, i: nat) -> nat
    decreases s.len() - i,
{
    if i < s.len() && is_digit(s[i as int]) {
        scan_digits(s, i + 1)
    } else {
        i
    }
}

/// The end of the run of identifier characters starting at `i`.
pub open spec fn scan_ident(s: Seq<char>, i: nat) -> nat
    decreases s.len() - i,
{
    if i < s.len() && is_ident_char(s[i as int]) {
        scan_ident(s, i + 1)
    } else {
        i
    }
}

pub proof fn lemma_scan_sga(s: Seq<char>, i: nat)
    requires
        i <= s.len(),
    ensures
        i <= scan_sga(s, i) <= s.len(),
        forall|j: int| i <= j < scan_sga(s, i) ==> is_sga(#[trigger] s[j]),
    decreases s.len() - i,
{
    if i < s.len() && is_sga(s[i as int]) {
        lemma_scan_sga(s, i + 1);
    }
}

pub proof fn lemma_scan_digits(s: Seq<char>, i: nat)
    requires
        i <= s.len(),
    ensures
        i <= scan_digits(s, i) <= s.len(),
        forall|j: int| i <= j < scan_digits(s, i) ==> is_digit(#[trigger] s[j]),
    decreases s.len() - i,
{
    if i < s.len() && is_digit(s[i as int]) {
        lemma_scan_digits(s, i + 1);
    }
}

pub proof fn lemma_scan_ident(s: Seq<char>, i: nat)
    requires
        i <= s.len(),
    ensures
        i <= scan_ident(s, i) <= s.len(),
        forall|j: int| i <= j < scan_ident(s, i) ==> is_ident_char(#[trigger] s[j]),
    decreases s.len() - i,
{
    if i < s.len() && is_ident_char(s[i as int]) {
        lemma_scan_ident(s, i + 1);
    }
}

pub proof fn lemma_skip_trivia(s: Seq<char>, p: LexPos, in_comment: bool)
    requires
        p.pos <= s.len(),
    ensures
        p.pos <= skip_trivia(s, p, in_comment).pos <= s.len(),
        skip_trivia(s, p, in_comment).line >= p.line,
        p.col >= 1 ==> skip_trivia(s, p, in_comment).col >= 1,
        skip_trivia(s, p, in_comment).line <= p.line + (skip_trivia(s, p, in_comment).pos - p.pos),
        skip_trivia(s, p, in_comment).col <= p.col + (skip_trivia(s, p, in_comment).pos - p.pos),
    decreases s.len() - p.pos, (if in_comment { 1int } else { 0int }),
{
    if p.pos < s.len() {
        let c = s[p.pos as int];
        if in_comment {
            if c == '\n' {
                lemma_skip_trivia(s, p, false);
            } else {
                lemma_skip_trivia(s, step(s, p), true);
            }
        } else if is_ws(c) {
            lemma_skip_trivia(s, step(s, p), false);
        } else if c == '/' && p.pos + 1 < s.len() && s[p.pos + 1int] == '/' {
            lemma_skip_trivia(s, step(s, p), true);
        }
    }
}


// ------------------------------------------------------------------ tokens

/// The message for an SGA word that is not a keyword.
pub open spec fn msg_unknown_keyword(m: Seq<char>) -> Seq<char> {
    "неизвестное SGA-ключевое слово (декодировано как '"@ + m
        + "'). Допустимые: LET VAR CONST FN RETURN IF ELSE WHILE FOR IN TRUE FALSE STRUCT PRINT BREAK CONTINUE AND OR NOT NIL MUT IMPORT MATCH"@
}

/// The message for an integer literal that does not fit in `i64`.
pub open spec fn msg_bad_int(raw: Seq<char>) -> Seq<char> {
    "некорректный int-литерал '"@ + raw + "'"@
}

/// The message for a character that starts no token.
pub open spec fn msg_unexpected(c: char) -> Seq<char> {
    "неожиданный символ '"@ + seq![c] + "' (U+"@ + crate::text::hex4((c as u32) as nat) + ")"@
}

/// The value of a sequence of ASCII digits.
pub open spec fn digits_value(ds: Seq<char>) -> nat
    decreases ds.len(),
{
    if ds.len() == 0 {
        0
    } else {
        digits_value(ds.drop_last()) * 10 + ((ds.last() as nat) - ('0' as nat)) as nat
    }
}

/// The character an escape sequence `\e` stands for inside a string literal.
pub open spec fn unescape(e: char) -> char {
    if e == 'n' {
        '\n'
    } else if e == 't' {
        '\t'
    } else {
        e
    }
}

/// How a string literal ended without its closing quote.
pub enum StrEnd {
    Unclosed,
    UnclosedEscape,
}

/// The rest of a string literal from `p` (after the opening quote), with the
/// characters read so far in `acc`: its contents and the position after the
/// closing quote.
pub open spec fn str_body(s: Seq<char>, p: LexPos, acc: Seq<char>) -> Result<(Seq<char>, LexPos), StrEnd>
    decreases s.len() - p.pos,
{
    if p.pos >= s.len() {
        Err(StrEnd::Unclosed)
    } else {
        let c = s[p.pos as int];
        let p1 = step(s, p);
        if c == '"' {
            Ok((acc, p1))
        } else if c == '\\' {
            if p1.pos >= s.len() {
                Err(StrEnd::UnclosedEscape)
            } else {
                str_body(s, step(s, p1), acc.push(unescape(s[p1.pos as int])))
            }
        } else {
            str_body(s, p1, acc.push(c))
        }
    }
}

/// A token of kind `k` starting at `p`, followed by position `q`.
pub open spec fn tok(k: KindV, p: LexPos, q: LexPos) -> Result<(TokenV, LexPos), LexErrV> {
    Ok((TokenV { kind: k, line: p.line, col: p.col }, q))
}

/// A lexical error at `p`.
pub open spec fn lex_err(m: Seq<char>, p: LexPos) -> Result<(TokenV, LexPos), LexErrV> {
    Err(LexErrV { message: m, line: p.line, col: p.col })
}

/// The position `n` characters to the right on the same line.
pub open spec fn right(p: LexPos, n: nat) -> LexPos {
    LexPos { pos: p.pos + n, line: p.line, col: p.col + n }
}

/// A keyword: a run of SGA letters whose decoded mnemonic is a keyword.
pub open spec fn read_keyword(s: Seq<char>, p: LexPos) -> Result<(TokenV, LexPos), LexErrV> {
    let end = scan_sga(s, p.pos);
    let m = spec_decode_word(s.subrange(p.pos as int, end as int));
    match spec_keyword(m) {
        Some(k) => tok(KindV::Plain(k), p, right(p, (end - p.pos) as nat)),
        None => lex_err(msg_unknown_keyword(m), p),
    }
}

/// A number: digits, optionally a dot followed by at least one digit and
/// more digits (a float literal).
pub open spec fn read_number(s: Seq<char>, p: LexPos) -> Result<(TokenV, LexPos), LexErrV> {
    let e1 = scan_digits(s, p.pos);
    if e1 + 1 < s.len() && s[e1 as int] == '.' && is_digit(s[e1 + 1int]) {
        let e2 = scan_digits(s, e1 + 1);
        tok(KindV::Float(s.subrange(p.pos as int, e2 as int)), p, right(p, (e2 - p.pos) as nat))
    } else {
        let raw = s.subrange(p.pos as int, e1 as int);
        if digits_value(raw) <= i64::MAX {
            tok(KindV::Plain(TokenKind::IntLit(digits_value(raw) as i64)), p, right(p, (e1 - p.pos) as nat))
        } else {
            lex_err(msg_bad_int(raw), p)
        }
    }
}

/// A string literal starting at the opening quote at `p`.
pub open spec fn read_string(s: Seq<char>, p: LexPos) -> Result<(TokenV, LexPos), LexErrV> {
    match str_body(s, step(s, p), Seq::empty()) {
        Ok((body, q)) => tok(KindV::Str(body), p, q),
        Err(StrEnd::Unclosed) => lex_err("незакрытая строка"@, p),
        Err(StrEnd::UnclosedEscape) => lex_err("незакрытый escape-символ в строке"@, p),
    }
}

/// An identifier: a run of ASCII letters, digits and underscores.
pub open spec fn read_ident(s: Seq<char>, p: LexPos) -> Result<(TokenV, LexPos), LexErrV> {
    let end = scan_ident(s, p.pos);
    tok(KindV::Ident(s.subrange(p.pos as int, end as int)), p, right(p, (end - p.pos) as nat))
}

/// An operator or punctuation token.
pub open spec fn read_operator(s: Seq<char>, p: LexPos) -> Result<(TokenV, LexPos), LexErrV> {
    let c = s[p.pos as int];
    let p1 = step(s, p);
    let next_is = |x: char| p1.pos < s.len() && s[p1.pos as int] == x;
    let one = |k: TokenKind| tok(KindV::Plain(k), p, p1);
    let two = |k: TokenKind| tok(KindV::Plain(k), p, step(s, p1));
    if c == '+' {
        one(TokenKind::Plus)
    } else if c == '-' {
        if next_is('>') { two(TokenKind::Arrow) } else { one(TokenKind::Minus) }
    } else if c == '*' {
        one(TokenKind::Star)
    } else if c == '/' {
        one(TokenKind::Slash)
    } else if c == '%' {
        one(TokenKind::Percent)
    } else if c == '=' {
        if next_is('=') { two(TokenKind::Eq) } else { one(TokenKind::Assign) }
    } else if c == '!' {
        if next_is('=') { two(TokenKind::NotEq) } else { lex_err("ожидался '=' после '!'"@, p) }
    } else if c == '<' {
        if next_is('=') { two(TokenKind::LtEq) } else { one(TokenKind::Lt) }
    } else if c == '>' {
        if next_is('=') { two(TokenKind::GtEq) } else { one(TokenKind::Gt) }
    } else if c == '(' {
        one(TokenKind::LParen)
    } else if c == ')' {
        one(TokenKind::RParen)
    } else if c == '{' {
        one(TokenKind::LBrace)
    } else if c == '}' {
        one(TokenKind::RBrace)
    } else if c == '[' {
        one(TokenKind::LBracket)
    } else if c == ']' {
        one(TokenKind::RBracket)
    } else if c == ',' {
        one(TokenKind::Comma)
    } else if c == ';' {
        one(TokenKind::Semicolon)
    } else if c == ':' {
        one(TokenKind::Colon)
    } else if c == '.' {
        one(TokenKind::Dot)
    } else {
        lex_err(msg_unexpected(c), p)
    }
}

/// The token starting at `p` (which is not whitespace nor a comment).
pub open spec fn read_token(s: Seq<char>, p: LexPos) -> Result<(TokenV, LexPos), LexErrV> {
    let c = s[p.pos as int];
    if is_sga(c) {
        read_keyword(s, p)
    } else if is_digit(c) {
        read_number(s, p)
    } else if c == '"' {
        read_string(s, p)
    } else if is_alpha(c) || c == '_' {
        read_ident(s, p)
    } else {
        read_operator(s, p)
    }
}

pub proof fn lemma_str_body(s: Seq<char>, p: LexPos, acc: Seq<char>)
    requires
        p.pos <= s.len(),
    ensures
        str_body(s, p, acc) matches Ok((b, q)) ==> p.pos < q.pos <= s.len()
            && (p.col >= 1 ==> q.col >= 1) && q.line >= p.line
            && q.line <= p.line + (q.pos - p.pos) && q.col <= p.col + (q.pos - p.pos),
    decreases s.len() - p.pos,
{
    if p.pos < s.len() {
        let c = s[p.pos as int];
        let p1 = step(s, p);
        if c == '\\' {
            if p1.pos < s.len() {
                lemma_str_body(s, step(s, p1), acc.push(unescape(s[p1.pos as int])));
            }
        } else if c != '"' {
            lemma_str_body(s, p1, acc.push(c));
        }
    }
}

/// Reading a token consumes at least one character, and moves the line and
/// column by no more than the characters consumed.
pub proof fn lemma_read_token(s: Seq<char>, p: LexPos)
    requires
        p.pos < s.len(),
    ensures
        read_token(s, p) matches Ok((t, q)) ==> p.pos < q.pos <= s.len()
            && (p.col >= 1 ==> q.col >= 1) && q.line >= p.line
            && q.line <= p.line + (q.pos - p.pos) && q.col <= p.col + (q.pos - p.pos)
            && t.line == p.line && t.col == p.col,
{
    let c = s[p.pos as int];
    if is_sga(c) {
        lemma_scan_sga(s, p.pos + 1);
        assert(scan_sga(s, p.pos) == scan_sga(s, p.pos + 1));
    } else if is_digit(c) {
        lemma_scan_digits(s, p.pos + 1);
        assert(scan_digits(s, p.pos) == scan_digits(s, p.pos + 1));
        let e1 = scan_digits(s, p.pos);
        if e1 + 1 < s.len() && s[e1 as int] == '.' && is_digit(s[e1 + 1int]) {
            lemma_scan_digits(s, e1 + 1);
        }
    } else if c == '"' {
        lemma_str_body(s, step(s, p), Seq::empty());
    } else if is_alpha(c) || c == '_' {
        lemma_scan_ident(s, p.pos + 1);
        assert(scan_ident(s, p.pos) == scan_ident(s, p.pos + 1));
    }
}

/// The tokens from `p` on, after the tokens `acc` already read; the last
/// token is always `Eof`.
pub open spec fn tok_loop(s: Seq<char>, p: LexPos, acc: Seq<TokenV>) -> Result<Seq<TokenV>, LexErrV>
    decreases s.len() - p.pos,
{
    let q = skip_trivia(s, p, false);
    if q.pos >= s.len() {
        Ok(acc.push(TokenV { kind: KindV::Plain(TokenKind::Eof), line: q.line, col: q.col }))
    } else {
        match read_token(s, q) {
            Err(e) => Err(e),
            Ok((t, r)) => {
                proof {
                    if p.pos <= s.len() {
                        lemma_skip_trivia(s, p, false);
                    }
                    lemma_read_token(s, q);
                }
                tok_loop(s, r, acc.push(t))
            },
        }
    }
}

/// The tokens of a whole source text, or the first lexical error.
pub open spec fn spec_tokenize(s: Seq<char>) -> Result<Seq<TokenV>, LexErrV> {
    tok_loop(s, LexPos { pos: 0, line: 1, col: 1 }, Seq::empty())
}

/// Whether a token is `Eof`.
pub open spec fn is_eof(t: TokenV) -> bool {
    t.kind == KindV::Plain(TokenKind::Eof)
}

/// Tokenizing ends with exactly one `Eof` token, the last one.
pub proof fn lemma_tok_loop_eof(s: Seq<char>, p: LexPos, acc: Seq<TokenV>)
    requires
        forall|i: int| 0 <= i < acc.len() ==> !is_eof(#[trigger] acc[i]),
    ensures
        tok_loop(s, p, acc) matches Ok(ts) ==> ts.len() >= 1 && is_eof(ts.last())
            && forall|i: int| 0 <= i < ts.len() - 1 ==> !is_eof(#[trigger] ts[i]),
    decreases s.len() - p.pos,
{
    let q = skip_trivia(s, p, false);
    if q.pos < s.len() {
        if let Ok((t, r)) = read_token(s, q) {
            if p.pos <= s.len() {
                lemma_skip_trivia(s, p, false);
            }
            lemma_read_token(s, q);
            assert(!is_eof(t)) by {
                let c = s[q.pos as int];
                if is_sga(c) {
                    let end = scan_sga(s, q.pos);
                    let m = spec_decode_word(s.subrange(q.pos as int, end as int));
                }
            }
            lemma_tok_loop_eof(s, r, acc.push(t));
        }
    }
}

/// The tokens of any source text end with one `Eof` token, and no other
/// token is `Eof`.
pub proof fn lemma_tokenize_ends_with_eof(s: Seq<char>)
    ensures
        spec_tokenize(s) matches Ok(ts) ==> ts.len() >= 1 && is_eof(ts.last())
            && forall|i: int| 0 <= i < ts.len() - 1 ==> !is_eof(#[trigger] ts[i]),
{
    lemma_tok_loop_eof(s, LexPos { pos: 0, line: 1, col: 1 }, Seq::empty());
}

/// The views of a sequence of tokens.
pub open spec fn tokens_view(v: Seq<Token>) -> Seq<TokenV> {
    v.map_values(|t: Token| t@)
}

// ------------------------------------------------------------------ lexer

/// The lexer: the source characters and the current position.
pub struct Lexer {
    chars: Vec<char>,
    pos: usize,
    line: usize,
    col: usize,
}

impl Lexer {
    /// The source characters.
    pub closed spec fn src(&self) -> Seq<char> {
        self.chars@
    }

    /// The current position.
    pub closed spec fn at(&self) -> LexPos {
        LexPos { pos: self.pos as nat, line: self.line as nat, col: self.col as nat }
    }

    /// The position is within the source, lines and columns count from 1 and
    /// grow by at most one per character read.
    pub closed spec fn wf(&self) -> bool {
        &&& self.pos <= self.chars.len()
        &&& self.chars.len() < usize::MAX
        &&& 1 <= self.line <= self.pos + 1
        &&& 1 <= self.col <= self.pos + 1
    }

    /// A lexer at the start (line 1, column 1) of `source`.
    pub fn new(source: &str) -> (r: Self)
        requires
            source@.len() < usize::MAX,
        ensures
            r.wf(),
            r.src() == source@,
            r.at() == (LexPos { pos: 0, line: 1, col: 1 }),
    {
        Lexer { chars: crate::text::chars_of(source), pos: 0, line: 1, col: 1 }
    }

    fn peek(&self) -> (r: Option<char>)
        requires
            self.wf(),
        ensures
            r == (if self.pos < self.chars.len() { Some(self.chars@[self.pos as int]) } else { None }),
    {
        if self.pos < self.chars.len() {
            Some(self.chars[self.pos])
        } else {
            None
        }
    }

    /// Whether the character right after the current one is `c`.
    fn next_is(&self, c: char) -> (r: bool)
        requires
            self.wf(),
        ensures
            r == (self.pos + 1 < self.chars.len() && self.chars@[self.pos + 1] == c),
    {
        self.pos < self.chars.len() && 1 < self.chars.len() - self.pos && self.chars[self.pos + 1] == c
    }

    fn advance(&mut self) -> (r: Option<char>)
        requires
            old(self).wf(),
        ensures
            final(self).wf(),
            final(self).chars@ == old(self).chars@,
            old(self).pos < old(self).chars.len() ==> final(self).at() == step(old(self).src(), old(self).at())
                && r == Some(old(self).chars@[old(self).pos as int]),
            old(self).pos >= old(self).chars.len() ==> final(self).at() == old(self).at() && r is None,
    {
        if self.pos >= self.chars.len() {
            return None;
        }
        let c = self.chars[self.pos];
        self.pos = self.pos + 1;
        if c == '\n' {
            self.line = self.line + 1;
            self.col = 1;
        } else {
            self.col = self.col + 1;
        }
        Some(c)
    }

    fn skip_whitespace_and_comments(&mut self)
        requires
            old(self).wf(),
        ensures
            final(self).wf(),
            final(self).chars@ == old(self).chars@,
            final(self).at() == skip_trivia(old(self).src(), old(self).at(), false),
    {
        let ghost s = self.chars@;
        let ghost target = skip_trivia(s, self.at(), false);
        loop
            invariant
                self.wf(),
                self.chars@ == s,
                s == old(self).chars@,
                target == skip_trivia(old(self).src(), old(self).at(), false),
                skip_trivia(s, self.at(), false) == target,
            decreases self.chars.len() - self.pos,
        {
            match self.peek() {
                Some(c) => {
                    if char_is_ws(c) {
                        self.advance();
                    } else if c == '/' && self.next_is('/') {
                        let ghost before = self.pos;
                        self.advance();
                        while self.pos < self.chars.len() && self.chars[self.pos] != '\n'
                            invariant
                                self.pos > before,
                                self.wf(),
                                self.chars@ == s,
                                skip_trivia(s, self.at(), true) == target,
                            decreases self.chars.len() - self.pos,
                        {
                            self.advance();
                        }
                    } else {
                        return;
                    }
                },
                None => {
                    return;
                },
            }
        }
    }

    fn read_sga_keyword(&mut self, line: usize, col: usize) -> (r: Result<Token, LexError>)
        requires
            old(self).wf(),
            old(self).pos < old(self).chars.len(),
            is_sga(old(self).chars@[old(self).pos as int]),
            line == old(self).line,
            col == old(self).col,
        ensures
            final(self).wf(),
            final(self).chars@ == old(self).chars@,
            match read_keyword(old(self).src(), old(self).at()) {
                Ok((t, q)) => r matches Ok(x) && x@ == t && final(self).at() == q,
                Err(e) => r matches Err(x) && x@ == e,
            },
    {
        let ghost s = self.chars@;
        let ghost p0 = self.at();
        let start = self.pos;
        let mut raw: Vec<char> = Vec::new();
        proof { lemma_scan_sga(s, p0.pos); }
        while self.pos < self.chars.len() && is_sga_letter(self.chars[self.pos])
            invariant
                self.wf(),
                self.chars@ == s,
                start == p0.pos,
                start <= self.pos <= scan_sga(s, p0.pos),
                scan_sga(s, self.pos as nat) == scan_sga(s, p0.pos),
                raw@ == s.subrange(start as int, self.pos as int),
                self.at() == right(p0, (self.pos - start) as nat),
            decreases self.chars.len() - self.pos,
        {
            let c = self.chars[self.pos];
            raw.push(c);
            self.advance();
            proof { lemma_scan_sga(s, self.pos as nat); }
            assert(raw@ =~= s.subrange(start as int, self.pos as int));
        }
        let mnemonic = decode_chars(raw.as_slice());
        match token::keyword_from_mnemonic(mnemonic.as_str()) {
            Some(kind) => Ok(Token { kind, line, col }),
            None => {
                let mut m = String::new();
                push_str(&mut m, "неизвестное SGA-ключевое слово (декодировано как '");
                push_str(&mut m, mnemonic.as_str());
                push_str(&mut m, "'). Допустимые: LET VAR CONST FN RETURN IF ELSE WHILE FOR IN TRUE FALSE STRUCT PRINT BREAK CONTINUE AND OR NOT NIL MUT IMPORT MATCH");
                Err(LexError { message: m, line, col })
            },
        }
    }

    fn read_number(&mut self, line: usize, col: usize) -> (r: Result<Token, LexError>)
        requires
            old(self).wf(),
            old(self).pos < old(self).chars.len(),
            is_digit(old(self).chars@[old(self).pos as int]),
            line == old(self).line,
            col == old(self).col,
        ensures
            final(self).wf(),
            final(self).chars@ == old(self).chars@,
            match read_number(old(self).src(), old(self).at()) {
                Ok((t, q)) => r matches Ok(x) && x@ == t && final(self).at() == q,
                Err(e) => r matches Err(x) && x@ == e,
            },
    {
        let ghost s = self.chars@;
        let ghost p0 = self.at();
        let start = self.pos;
        let mut raw: Vec<char> = Vec::new();
        let mut value: u64 = 0;
        let mut overflow = false;
        proof { lemma_scan_digits(s, p0.pos); }
        while self.pos < self.chars.len() && char_is_digit(self.chars[self.pos])
            invariant
                self.wf(),
                self.chars@ == s,
                start == p0.pos,
                start <= self.pos <= scan_digits(s, p0.pos),
                scan_digits(s, self.pos as nat) == scan_digits(s, p0.pos),
                raw@ == s.subrange(start as int, self.pos as int),
                self.at() == right(p0, (self.pos - start) as nat),
                overflow == (digits_value(raw@) > i64::MAX),
                !overflow ==> value == digits_value(raw@),
            decreases self.chars.len() - self.pos,
        {
            let c = self.chars[self.pos];
            let d = (c as u32 - '0' as u32) as u64;
            let ghost old_raw = raw@;
            raw.push(c);
            assert(raw@.drop_last() == old_raw);
            assert(digits_value(raw@) == digits_value(old_raw) * 10 + d);
            if !overflow {
                if value > 922337203685477580 || (value == 922337203685477580 && d > 7) {
                    overflow = true;
                } else {
                    value = value * 10 + d;
                }
            }
            self.advance();
            proof { lemma_scan_digits(s, self.pos as nat); }
            assert(raw@ =~= s.subrange(start as int, self.pos as int));
        }
        if self.pos < self.chars.len() && self.chars[self.pos] == '.' && self.next_is_digit() {
            raw.push('.');
            self.advance();
            let e1 = self.pos;
            proof { lemma_scan_digits(s, e1 as nat); }
            while self.pos < self.chars.len() && char_is_digit(self.chars[self.pos])
                invariant
                    self.wf(),
                    self.chars@ == s,
                    start == p0.pos,
                    e1 <= self.pos <= scan_digits(s, e1 as nat),
                    start < e1,
                    scan_digits(s, self.pos as nat) == scan_digits(s, e1 as nat),
                    raw@ == s.subrange(start as int, self.pos as int),
                    self.at() == right(p0, (self.pos - start) as nat),
                decreases self.chars.len() - self.pos,
            {
                let c = self.chars[self.pos];
                raw.push(c);
                self.advance();
                proof { lemma_scan_digits(s, self.pos as nat); }
                assert(raw@ =~= s.subrange(start as int, self.pos as int));
            }
            return Ok(Token { kind: TokenKind::FloatLit(string_of(raw.as_slice())), line, col });
        }
        if overflow {
            let mut m = String::new();
            push_str(&mut m, "некорректный int-литерал '");
            let r = string_of(raw.as_slice());
            push_str(&mut m, r.as_str());
            push_str(&mut m, "'");
            Err(LexError { message: m, line, col })
        } else {
            Ok(Token { kind: TokenKind::IntLit(value as i64), line, col })
        }
    }

    /// Whether the character after the current one is an ASCII digit.
    fn next_is_digit(&self) -> (r: bool)
        requires
            self.wf(),
        ensures
            r == (self.pos + 1 < self.chars.len() && is_digit(self.chars@[self.pos + 1])),
    {
        self.pos < self.chars.len() && 1 < self.chars.len() - self.pos && char_is_digit(self.chars[self.pos + 1])
    }

    fn read_string(&mut self, line: usize, col: usize) -> (r: Result<Token, LexError>)
        requires
            old(self).wf(),
            old(self).pos < old(self).chars.len(),
            old(self).chars@[old(self).pos as int] == '"',
            line == old(self).line,
            col == old(self).col,
        ensures
            final(self).wf(),
            final(self).chars@ == old(self).chars@,
            match read_string(old(self).src(), old(self).at()) {
                Ok((t, q)) => r matches Ok(x) && x@ == t && final(self).at() == q,
                Err(e) => r matches Err(x) && x@ == e,
            },
    {
        let ghost s = self.chars@;
        let ghost p0 = self.at();
        self.advance();
        let ghost target = str_body(s, self.at(), Seq::empty());
        let mut acc: Vec<char> = Vec::new();
        loop
            invariant
                self.wf(),
                self.chars@ == s,
                s == old(self).chars@,
                p0 == old(self).at(),
                line == p0.line,
                col == p0.col,
                target == str_body(s, step(s, p0), Seq::empty()),
                str_body(s, self.at(), acc@) == target,
            decreases self.chars.len() - self.pos,
        {
            match self.advance() {
                None => {
                    let mut m = String::new();
                    push_str(&mut m, "незакрытая строка");
                    return Err(LexError { message: m, line, col });
                },
                Some(c) => {
                    if c == '"' {
                        return Ok(Token { kind: TokenKind::StringLit(string_of(acc.as_slice())), line, col });
                    } else if c == '\\' {
                        match self.advance() {
                            None => {
                                let mut m = String::new();
                                push_str(&mut m, "незакрытый escape-символ в строке");
                                return Err(LexError { message: m, line, col });
                            },
                            Some(e) => {
                                let u = if e == 'n' {
                                    '\n'
                                } else if e == 't' {
                                    '\t'
                                } else {
                                    e
                                };
                                acc.push(u);
                            },
                        }
                    } else {
                        acc.push(c);
                    }
                },
            }
        }
    }

    fn read_ident(&mut self, line: usize, col: usize) -> (r: Token)
        requires
            old(self).wf(),
            old(self).pos < old(self).chars.len(),
            is_ident_char(old(self).chars@[old(self).pos as int]),
            line == old(self).line,
            col == old(self).col,
        ensures
            final(self).wf(),
            final(self).chars@ == old(self).chars@,
            read_ident(old(self).src(), old(self).at()) == Ok::<(TokenV, LexPos), LexErrV>((r@, final(self).at())),
    {
        let ghost s = self.chars@;
        let ghost p0 = self.at();
        let start = self.pos;
        let mut raw: Vec<char> = Vec::new();
        proof { lemma_scan_ident(s, p0.pos); }
        while self.pos < self.chars.len() && char_is_ident(self.chars[self.pos])
            invariant
                self.wf(),
                self.chars@ == s,
                start == p0.pos,
                start <= self.pos <= scan_ident(s, p0.pos),
                scan_ident(s, self.pos as nat) == scan_ident(s, p0.pos),
                raw@ == s.subrange(start as int, self.pos as int),
                self.at() == right(p0, (self.pos - start) as nat),
            decreases self.chars.len() - self.pos,
        {
            let c = self.chars[self.pos];
            raw.push(c);
            self.advance();
            proof { lemma_scan_ident(s, self.pos as nat); }
            assert(raw@ =~= s.subrange(start as int, self.pos as int));
        }
        Token { kind: TokenKind::Ident(string_of(raw.as_slice())), line, col }
    }

    fn read_operator(&mut self, line: usize, col: usize) -> (r: Result<Token, LexError>)
        requires
            old(self).wf(),
            old(self).pos < old(self).chars.len(),
            line == old(self).line,
            col == old(self).col,
        ensures
            final(self).wf(),
            final(self).chars@ == old(self).chars@,
            match read_operator(old(self).src(), old(self).at()) {
                Ok((t, q)) => r matches Ok(x) && x@ == t && final(self).at() == q,
                Err(e) => r matches Err(x) && x@ == e,
            },
    {
        let c = self.chars[self.pos];
        self.advance();
        let kind = if c == '+' {
            TokenKind::Plus
        } else if c == '-' {
            if self.peek() == Some('>') {
                self.advance();
                TokenKind::Arrow
            } else {
                TokenKind::Minus
            }
        } else if c == '*' {
            TokenKind::Star
        } else if c == '/' {
            TokenKind::Slash
        } else if c == '%' {
            TokenKind::Percent
        } else if c == '=' {
            if self.peek() == Some('=') {
                self.advance();
                TokenKind::Eq
            } else {
                TokenKind::Assign
            }
        } else if c == '!' {
            if self.peek() == Some('=') {
                self.advance();
                TokenKind::NotEq
            } else {
                let mut m = String::new();
                push_str(&mut m, "ожидался '=' после '!'");
                return Err(LexError { message: m, line, col });
            }
        } else if c == '<' {
            if self.peek() == Some('=') {
                self.advance();
                TokenKind::LtEq
            } else {
                TokenKind::Lt
            }
        } else if c == '>' {
            if self.peek() == Some('=') {
                self.advance();
                TokenKind::GtEq
            } else {
                TokenKind::Gt
            }
        } else if c == '(' {
            TokenKind::LParen
        } else if c == ')' {
            TokenKind::RParen
        } else if c == '{' {
            TokenKind::LBrace
        } else if c == '}' {
            TokenKind::RBrace
        } else if c == '[' {
            TokenKind::LBracket
        } else if c == ']' {
            TokenKind::RBracket
        } else if c == ',' {
            TokenKind::Comma
        } else if c == ';' {
            TokenKind::Semicolon
        } else if c == ':' {
            TokenKind::Colon
        } else if c == '.' {
            TokenKind::Dot
        } else {
            let mut m = String::new();
            push_str(&mut m, "неожиданный символ '");
            let ghost m1 = m@;
            push_char(&mut m, c);
            assert(m@ =~= m1 + seq![c]);
            push_str(&mut m, "' (U+");
            let h = crate::text::hex4_string(c as u32);
            push_str(&mut m, h.as_str());
            push_str(&mut m, ")");
            assert(m@ =~= msg_unexpected(c));
            return Err(LexError { message: m, line, col });
        };
        Ok(Token { kind, line, col })
    }

    /// Reads the whole source into tokens, ending with `Eof`, or stops at the
    /// first lexical error.
    pub fn tokenize(self) -> (r: Result<Vec<Token>, LexError>)
        requires
            self.wf(),
        ensures
            match tok_loop(self.src(), self.at(), Seq::empty()) {
                Ok(ts) => r matches Ok(v) && tokens_view(v@) == ts,
                Err(e) => r matches Err(x) && x@ == e,
            },
    {
        let mut lx = self;
        let ghost s = lx.chars@;
        let ghost target = tok_loop(s, lx.at(), Seq::empty());
        let mut tokens: Vec<Token> = Vec::new();
        assert(tokens_view(tokens@) =~= Seq::empty());
        loop
            invariant
                lx.wf(),
                lx.chars@ == s,
                target == tok_loop(s, self.at(), Seq::empty()),
                s == self.src(),
                tok_loop(s, lx.at(), tokens_view(tokens@)) == target,
            decreases lx.chars.len() - lx.pos,
        {
            let ghost p = lx.at();
            lx.skip_whitespace_and_comments();
            proof { lemma_skip_trivia(s, p, false); }
            let line = lx.line;
            let col = lx.col;
            let c = match lx.peek() {
                None => {
                    let ghost before = tokens_view(tokens@);
                    tokens.push(Token { kind: TokenKind::Eof, line, col });
                    assert(tokens_view(tokens@) =~= before.push(tokens@.last()@));
                    return Ok(tokens);
                },
                Some(c) => c,
            };
            let ghost q = lx.at();
            proof { lemma_read_token(s, q); }
            let res = if is_sga_letter(c) {
                lx.read_sga_keyword(line, col)
            } else if char_is_digit(c) {
                lx.read_number(line, col)
            } else if c == '"' {
                lx.read_string(line, col)
            } else if char_is_alpha(c) || c == '_' {
                Ok(lx.read_ident(line, col))
            } else {
                lx.read_operator(line, col)
            };
            match res {
                Ok(t) => {
                    let ghost before = tokens_view(tokens@);
                    tokens.push(t);
                    assert(tokens_view(tokens@) =~= before.push(t@));
                },
                Err(e) => {
                    return Err(e);
                },
            }
        }
    }
}
} // verus!
