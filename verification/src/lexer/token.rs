//! Tokens of the SGA language.
//!
//! A keyword is any word spelled with the 26 SGA letters and listed in
//! `keyword_from_mnemonic` (`LET`, `FN`, ..., `MUT`, `IMPORT`, `MATCH`), so
//! adding a word never displaces another.
use vstd::prelude::*;

verus! {

/// The kind of a token. A float literal keeps its source text (digits, a dot,
/// digits); its numeric value is produced where floating point is evaluated.
#[derive(Debug, Clone, PartialEq)]
pub enum TokenKind {
    IntLit(i64),
    FloatLit(String),
    StringLit(String),
    Ident(String),
    Let,
    Var,
    Const,
    Fn,
    Return,
    If,
    Else,
    While,
    For,
    In,
    True,
    False,
    Struct,
    Print,
    Break,
    Continue,
    And,
    Or,
    Not,
    Nil,
    /// `MUT`: parameter modifier for a mutable borrow.
    Mut,
    /// `IMPORT`: static import of another source file.
    Import,
    /// `MATCH`: reserved keyword.
    Match,
    Plus,
    Minus,
    Star,
    Slash,
    Percent,
    Assign,
    Eq,
    NotEq,
    Lt,
    Gt,
    LtEq,
    GtEq,
    LParen,
    RParen,
    LBrace,
    RBrace,
    LBracket,
    RBracket,
    Comma,
    Semicolon,
    Colon,
    Arrow,
    Dot,
    Eof,
}

/// A token with the 1-based line and column where it starts.
#[derive(Debug, Clone, PartialEq)]
pub struct Token {
    pub kind: TokenKind,
    pub line: usize,
    pub col: usize,
}

/// The mathematical value of a token kind: text payloads as character
/// sequences, every other kind as itself.
pub enum KindV {
    Ident(Seq<char>),
    Str(Seq<char>),
    Float(Seq<char>),
    Plain(TokenKind),
}

/// The mathematical value of a token.
pub struct TokenV {
    pub kind: KindV,
    pub line: nat,
    pub col: nat,
}

impl View for TokenKind {
    type V = KindV;

    open spec fn view(&self) -> KindV {
        match self {
            TokenKind::Ident(s) => KindV::Ident(s@),
            TokenKind::StringLit(s) => KindV::Str(s@),
            TokenKind::FloatLit(s) => KindV::Float(s@),
            _ => KindV::Plain(*self),
        }
    }
}

impl View for Token {
    type V = TokenV;

    open spec fn view(&self) -> TokenV {
        TokenV { kind: self.kind@, line: self.line as nat, col: self.col as nat }
    }
}

/// A kind that carries no text payload.
pub open spec fn is_plain(k: TokenKind) -> bool {
    !(k is Ident || k is StringLit || k is FloatLit)
}

/// The keyword spelled by a decoded ASCII mnemonic, if any.
pub open spec fn spec_keyword(w: Seq<char>) -> Option<TokenKind> {
    if w == seq!['L', 'E', 'T'] {
        Some(TokenKind::Let)
    } else if w == seq!['V', 'A', 'R'] {
        Some(TokenKind::Var)
    } else if w == seq!['C', 'O', 'N', 'S', 'T'] {
        Some(TokenKind::Const)
    } else if w == seq!['F', 'N'] {
        Some(TokenKind::Fn)
    } else if w == seq!['R', 'E', 'T', 'U', 'R', 'N'] {
        Some(TokenKind::Return)
    } else if w == seq!['I', 'F'] {
        Some(TokenKind::If)
    } else if w == seq!['E', 'L', 'S', 'E'] {
        Some(TokenKind::Else)
    } else if w == seq!['W', 'H', 'I', 'L', 'E'] {
        Some(TokenKind::While)
    } else if w == seq!['F', 'O', 'R'] {
        Some(TokenKind::For)
    } else if w == seq!['I', 'N'] {
        Some(TokenKind::In)
    } else if w == seq!['T', 'R', 'U', 'E'] {
        Some(TokenKind::True)
    } else if w == seq!['F', 'A', 'L', 'S', 'E'] {
        Some(TokenKind::False)
    } else if w == seq!['S', 'T', 'R', 'U', 'C', 'T'] {
        Some(TokenKind::Struct)
    } else if w == seq!['P', 'R', 'I', 'N', 'T'] {
        Some(TokenKind::Print)
    } else if w == seq!['B', 'R', 'E', 'A', 'K'] {
        Some(TokenKind::Break)
    } else if w == seq!['C', 'O', 'N', 'T', 'I', 'N', 'U', 'E'] {
        Some(TokenKind::Continue)
    } else if w == seq!['A', 'N', 'D'] {
        Some(TokenKind::And)
    } else if w == seq!['O', 'R'] {
        Some(TokenKind::Or)
    } else if w == seq!['N', 'O', 'T'] {
        Some(TokenKind::Not)
    } else if w == seq!['N', 'I', 'L'] {
        Some(TokenKind::Nil)
    } else if w == seq!['M', 'U', 'T'] {
        Some(TokenKind::Mut)
    } else if w == seq!['I', 'M', 'P', 'O', 'R', 'T'] {
        Some(TokenKind::Import)
    } else if w == seq!['M', 'A', 'T', 'C', 'H'] {
        Some(TokenKind::Match)
    } else {
        None
    }
}

/// Whether two character sequences are equal.
pub fn chars_eq(a: &[char], b: &[char]) -> (r: bool)
    ensures
        r == (a@ == b@),
{
    if a.len() != b.len() {
        return false;
    }
    let mut i: usize = 0;
    while i < a.len()
        invariant
            i <= a.len(),
            a.len() == b.len(),
            forall|j: int| 0 <= j < i ==> a@[j] == b@[j],
        decreases a.len() - i,
    {
        if a[i] != b[i] {
            return false;
        }
        i = i + 1;
    }
    assert(a@ =~= b@);
    true
}

/// The keyword for a decoded mnemonic given as characters.
pub fn keyword_from_chars(w: &[char]) -> (r: Option<TokenKind>)
    ensures
        r == spec_keyword(w@),
{
    assert(['L', 'E', 'T']@ =~= seq!['L', 'E', 'T']);
    if chars_eq(w, &['L', 'E', 'T']) {
        return Some(TokenKind::Let);
    }
    assert(['V', 'A', 'R']@ =~= seq!['V', 'A', 'R']);
    if chars_eq(w, &['V', 'A', 'R']) {
        return Some(TokenKind::Var);
    }
    assert(['C', 'O', 'N', 'S', 'T']@ =~= seq!['C', 'O', 'N', 'S', 'T']);
    if chars_eq(w, &['C', 'O', 'N', 'S', 'T']) {
        return Some(TokenKind::Const);
    }
    assert(['F', 'N']@ =~= seq!['F', 'N']);
    if chars_eq(w, &['F', 'N']) {
        return Some(TokenKind::Fn);
    }
    assert(['R', 'E', 'T', 'U', 'R', 'N']@ =~= seq!['R', 'E', 'T', 'U', 'R', 'N']);
    if chars_eq(w, &['R', 'E', 'T', 'U', 'R', 'N']) {
        return Some(TokenKind::Return);
    }
    assert(['I', 'F']@ =~= seq!['I', 'F']);
    if chars_eq(w, &['I', 'F']) {
        return Some(TokenKind::If);
    }
    assert(['E', 'L', 'S', 'E']@ =~= seq!['E', 'L', 'S', 'E']);
    if chars_eq(w, &['E', 'L', 'S', 'E']) {
        return Some(TokenKind::Else);
    }
    assert(['W', 'H', 'I', 'L', 'E']@ =~= seq!['W', 'H', 'I', 'L', 'E']);
    if chars_eq(w, &['W', 'H', 'I', 'L', 'E']) {
        return Some(TokenKind::While);
    }
    assert(['F', 'O', 'R']@ =~= seq!['F', 'O', 'R']);
    if chars_eq(w, &['F', 'O', 'R']) {
        return Some(TokenKind::For);
    }
    assert(['I', 'N']@ =~= seq!['I', 'N']);
    if chars_eq(w, &['I', 'N']) {
        return Some(TokenKind::In);
    }
    assert(['T', 'R', 'U', 'E']@ =~= seq!['T', 'R', 'U', 'E']);
    if chars_eq(w, &['T', 'R', 'U', 'E']) {
        return Some(TokenKind::True);
    }
    assert(['F', 'A', 'L', 'S', 'E']@ =~= seq!['F', 'A', 'L', 'S', 'E']);
    if chars_eq(w, &['F', 'A', 'L', 'S', 'E']) {
        return Some(TokenKind::False);
    }
    assert(['S', 'T', 'R', 'U', 'C', 'T']@ =~= seq!['S', 'T', 'R', 'U', 'C', 'T']);
    if chars_eq(w, &['S', 'T', 'R', 'U', 'C', 'T']) {
        return Some(TokenKind::Struct);
    }
    assert(['P', 'R', 'I', 'N', 'T']@ =~= seq!['P', 'R', 'I', 'N', 'T']);
    if chars_eq(w, &['P', 'R', 'I', 'N', 'T']) {
        return Some(TokenKind::Print);
    }
    assert(['B', 'R', 'E', 'A', 'K']@ =~= seq!['B', 'R', 'E', 'A', 'K']);
    if chars_eq(w, &['B', 'R', 'E', 'A', 'K']) {
        return Some(TokenKind::Break);
    }
    assert(['C', 'O', 'N', 'T', 'I', 'N', 'U', 'E']@ =~= seq!['C', 'O', 'N', 'T', 'I', 'N', 'U', 'E']);
    if chars_eq(w, &['C', 'O', 'N', 'T', 'I', 'N', 'U', 'E']) {
        return Some(TokenKind::Continue);
    }
    assert(['A', 'N', 'D']@ =~= seq!['A', 'N', 'D']);
    if chars_eq(w, &['A', 'N', 'D']) {
        return Some(TokenKind::And);
    }
    assert(['O', 'R']@ =~= seq!['O', 'R']);
    if chars_eq(w, &['O', 'R']) {
        return Some(TokenKind::Or);
    }
    assert(['N', 'O', 'T']@ =~= seq!['N', 'O', 'T']);
    if chars_eq(w, &['N', 'O', 'T']) {
        return Some(TokenKind::Not);
    }
    assert(['N', 'I', 'L']@ =~= seq!['N', 'I', 'L']);
    if chars_eq(w, &['N', 'I', 'L']) {
        return Some(TokenKind::Nil);
    }
    assert(['M', 'U', 'T']@ =~= seq!['M', 'U', 'T']);
    if chars_eq(w, &['M', 'U', 'T']) {
        return Some(TokenKind::Mut);
    }
    assert(['I', 'M', 'P', 'O', 'R', 'T']@ =~= seq!['I', 'M', 'P', 'O', 'R', 'T']);
    if chars_eq(w, &['I', 'M', 'P', 'O', 'R', 'T']) {
        return Some(TokenKind::Import);
    }
    assert(['M', 'A', 'T', 'C', 'H']@ =~= seq!['M', 'A', 'T', 'C', 'H']);
    if chars_eq(w, &['M', 'A', 'T', 'C', 'H']) {
        return Some(TokenKind::Match);
    }
    None
}

/// The keyword spelled by a decoded ASCII mnemonic (`"LET"`, `"FN"`, ...).
pub fn keyword_from_mnemonic(word: &str) -> (r: Option<TokenKind>)
    ensures
        r == spec_keyword(word@),
{
    let cs = crate::text::chars_of(word);
    keyword_from_chars(cs.as_slice())
}


/// The escaped form of one character inside a debug-printed string.
pub open spec fn escape_char(c: char) -> Seq<char> {
    if c == '"' {
        seq!['\\', '"']
    } else if c == '\\' {
        seq!['\\', '\\']
    } else if c == '\n' {
        seq!['\\', 'n']
    } else if c == '\r' {
        seq!['\\', 'r']
    } else if c == '\t' {
        seq!['\\', 't']
    } else if c == '\0' {
        seq!['\\', '0']
    } else {
        seq![c]
    }
}

/// A string printed in debug form: quoted, with quotes, backslashes and
/// control characters escaped.
pub open spec fn debug_text(s: Seq<char>) -> Seq<char>
    decreases s.len(),
{
    if s.len() == 0 {
        Seq::empty()
    } else {
        debug_text(s.drop_last()) + escape_char(s.last())
    }
}

/// The name of a token kind without payload.
pub open spec fn plain_name(k: TokenKind) -> Seq<char> {
    match k {
        TokenKind::Let => "Let"@,
        TokenKind::Var => "Var"@,
        TokenKind::Const => "Const"@,
        TokenKind::Fn => "Fn"@,
        TokenKind::Return => "Return"@,
        TokenKind::If => "If"@,
        TokenKind::Else => "Else"@,
        TokenKind::While => "While"@,
        TokenKind::For => "For"@,
        TokenKind::In => "In"@,
        TokenKind::True => "True"@,
        TokenKind::False => "False"@,
        TokenKind::Struct => "Struct"@,
        TokenKind::Print => "Print"@,
        TokenKind::Break => "Break"@,
        TokenKind::Continue => "Continue"@,
        TokenKind::And => "And"@,
        TokenKind::Or => "Or"@,
        TokenKind::Not => "Not"@,
        TokenKind::Nil => "Nil"@,
        TokenKind::Mut => "Mut"@,
        TokenKind::Import => "Import"@,
        TokenKind::Match => "Match"@,
        TokenKind::Plus => "Plus"@,
        TokenKind::Minus => "Minus"@,
        TokenKind::Star => "Star"@,
        TokenKind::Slash => "Slash"@,
        TokenKind::Percent => "Percent"@,
        TokenKind::Assign => "Assign"@,
        TokenKind::Eq => "Eq"@,
        TokenKind::NotEq => "NotEq"@,
        TokenKind::Lt => "Lt"@,
        TokenKind::Gt => "Gt"@,
        TokenKind::LtEq => "LtEq"@,
        TokenKind::GtEq => "GtEq"@,
        TokenKind::LParen => "LParen"@,
        TokenKind::RParen => "RParen"@,
        TokenKind::LBrace => "LBrace"@,
        TokenKind::RBrace => "RBrace"@,
        TokenKind::LBracket => "LBracket"@,
        TokenKind::RBracket => "RBracket"@,
        TokenKind::Comma => "Comma"@,
        TokenKind::Semicolon => "Semicolon"@,
        TokenKind::Colon => "Colon"@,
        TokenKind::Arrow => "Arrow"@,
        TokenKind::Dot => "Dot"@,
        TokenKind::Eof => "Eof"@,
        _ => Seq::empty(),
    }
}

/// The debug form of a token kind, as used in parser messages.
pub open spec fn debug_kind(k: TokenKind) -> Seq<char> {
    match k {
        TokenKind::IntLit(v) => "IntLit("@ + crate::text::decimal_int(v as int) + ")"@,
        TokenKind::FloatLit(s) => "FloatLit("@ + s@ + ")"@,
        TokenKind::StringLit(s) => "StringLit(\""@ + debug_text(s@) + "\")"@,
        TokenKind::Ident(s) => "Ident(\""@ + debug_text(s@) + "\")"@,
        _ => plain_name(k),
    }
}

fn plain_name_str(k: &TokenKind) -> (r: &'static str)
    requires
        is_plain(*k),
        !(k is IntLit),
    ensures
        r@ == plain_name(*k),
{
    match k {
        TokenKind::Let => "Let",
        TokenKind::Var => "Var",
        TokenKind::Const => "Const",
        TokenKind::Fn => "Fn",
        TokenKind::Return => "Return",
        TokenKind::If => "If",
        TokenKind::Else => "Else",
        TokenKind::While => "While",
        TokenKind::For => "For",
        TokenKind::In => "In",
        TokenKind::True => "True",
        TokenKind::False => "False",
        TokenKind::Struct => "Struct",
        TokenKind::Print => "Print",
        TokenKind::Break => "Break",
        TokenKind::Continue => "Continue",
        TokenKind::And => "And",
        TokenKind::Or => "Or",
        TokenKind::Not => "Not",
        TokenKind::Nil => "Nil",
        TokenKind::Mut => "Mut",
        TokenKind::Import => "Import",
        TokenKind::Match => "Match",
        TokenKind::Plus => "Plus",
        TokenKind::Minus => "Minus",
        TokenKind::Star => "Star",
        TokenKind::Slash => "Slash",
        TokenKind::Percent => "Percent",
        TokenKind::Assign => "Assign",
        TokenKind::Eq => "Eq",
        TokenKind::NotEq => "NotEq",
        TokenKind::Lt => "Lt",
        TokenKind::Gt => "Gt",
        TokenKind::LtEq => "LtEq",
        TokenKind::GtEq => "GtEq",
        TokenKind::LParen => "LParen",
        TokenKind::RParen => "RParen",
        TokenKind::LBrace => "LBrace",
        TokenKind::RBrace => "RBrace",
        TokenKind::LBracket => "LBracket",
        TokenKind::RBracket => "RBracket",
        TokenKind::Comma => "Comma",
        TokenKind::Semicolon => "Semicolon",
        TokenKind::Colon => "Colon",
        TokenKind::Arrow => "Arrow",
        TokenKind::Dot => "Dot",
        TokenKind::Eof => "Eof",
        _ => "",
    }
}

fn push_escaped(out: &mut String, c: char)
    ensures
        final(out)@ == old(out)@ + escape_char(c),
{
    let ghost o = out@;
    if c == '"' {
        crate::text::push_char(out, '\\');
        crate::text::push_char(out, '"');
    } else if c == '\\' {
        crate::text::push_char(out, '\\');
        crate::text::push_char(out, '\\');
    } else if c == '\n' {
        crate::text::push_char(out, '\\');
        crate::text::push_char(out, 'n');
    } else if c == '\r' {
        crate::text::push_char(out, '\\');
        crate::text::push_char(out, 'r');
    } else if c == '\t' {
        crate::text::push_char(out, '\\');
        crate::text::push_char(out, 't');
    } else if c == '\0' {
        crate::text::push_char(out, '\\');
        crate::text::push_char(out, '0');
    } else {
        crate::text::push_char(out, c);
    }
    assert(out@ =~= o + escape_char(c));
}

fn push_debug_text(out: &mut String, s: &String)
    ensures
        final(out)@ == old(out)@ + debug_text(s@),
{
    let cs = crate::text::chars_of(s.as_str());
    let ghost o = out@;
    let mut i: usize = 0;
    while i < cs.len()
        invariant
            i <= cs.len(),
            cs@ == s@,
            out@ == o + debug_text(cs@.take(i as int)),
        decreases cs.len() - i,
    {
        assert(cs@.take(i + 1).drop_last() == cs@.take(i as int));
        push_escaped(out, cs[i]);
        assert(out@ =~= o + debug_text(cs@.take(i + 1)));
        i = i + 1;
    }
    assert(cs@.take(cs.len() as int) == cs@);
}

/// The debug form of a token kind (`Ident("x")`, `IntLit(5)`, `LParen`, ...).
pub fn kind_debug(k: &TokenKind) -> (r: String)
    ensures
        r@ == debug_kind(*k),
{
    let mut out = String::new();
    match k {
        TokenKind::IntLit(v) => {
            crate::text::push_str(&mut out, "IntLit(");
            let d = crate::text::i64_to_string(*v);
            crate::text::push_str(&mut out, d.as_str());
            crate::text::push_str(&mut out, ")");
        },
        TokenKind::FloatLit(s) => {
            crate::text::push_str(&mut out, "FloatLit(");
            crate::text::push_str(&mut out, s.as_str());
            crate::text::push_str(&mut out, ")");
        },
        TokenKind::StringLit(s) => {
            crate::text::push_str(&mut out, "StringLit(\"");
            push_debug_text(&mut out, s);
            crate::text::push_str(&mut out, "\")");
        },
        TokenKind::Ident(s) => {
            crate::text::push_str(&mut out, "Ident(\"");
            push_debug_text(&mut out, s);
            crate::text::push_str(&mut out, "\")");
        },
        _ => {
            crate::text::push_str(&mut out, plain_name_str(k));
            assert(out@ =~= plain_name(*k));
        },
    }
    out
}

/// Whether a token kind is the given kind without payload.
pub fn kind_is(k: &TokenKind, expected: &TokenKind) -> (r: bool)
    requires
        is_plain(*expected),
    ensures
        r == (*k == *expected),
{
    match (k, expected) {
        (TokenKind::Let, TokenKind::Let) => true,
        (TokenKind::Var, TokenKind::Var) => true,
        (TokenKind::Const, TokenKind::Const) => true,
        (TokenKind::Fn, TokenKind::Fn) => true,
        (TokenKind::Return, TokenKind::Return) => true,
        (TokenKind::If, TokenKind::If) => true,
        (TokenKind::Else, TokenKind::Else) => true,
        (TokenKind::While, TokenKind::While) => true,
        (TokenKind::For, TokenKind::For) => true,
        (TokenKind::In, TokenKind::In) => true,
        (TokenKind::True, TokenKind::True) => true,
        (TokenKind::False, TokenKind::False) => true,
        (TokenKind::Struct, TokenKind::Struct) => true,
        (TokenKind::Print, TokenKind::Print) => true,
        (TokenKind::Break, TokenKind::Break) => true,
        (TokenKind::Continue, TokenKind::Continue) => true,
        (TokenKind::And, TokenKind::And) => true,
        (TokenKind::Or, TokenKind::Or) => true,
        (TokenKind::Not, TokenKind::Not) => true,
        (TokenKind::Nil, TokenKind::Nil) => true,
        (TokenKind::Mut, TokenKind::Mut) => true,
        (TokenKind::Import, TokenKind::Import) => true,
        (TokenKind::Match, TokenKind::Match) => true,
        (TokenKind::Plus, TokenKind::Plus) => true,
        (TokenKind::Minus, TokenKind::Minus) => true,
        (TokenKind::Star, TokenKind::Star) => true,
        (TokenKind::Slash, TokenKind::Slash) => true,
        (TokenKind::Percent, TokenKind::Percent) => true,
        (TokenKind::Assign, TokenKind::Assign) => true,
        (TokenKind::Eq, TokenKind::Eq) => true,
        (TokenKind::NotEq, TokenKind::NotEq) => true,
        (TokenKind::Lt, TokenKind::Lt) => true,
        (TokenKind::Gt, TokenKind::Gt) => true,
        (TokenKind::LtEq, TokenKind::LtEq) => true,
        (TokenKind::GtEq, TokenKind::GtEq) => true,
        (TokenKind::LParen, TokenKind::LParen) => true,
        (TokenKind::RParen, TokenKind::RParen) => true,
        (TokenKind::LBrace, TokenKind::LBrace) => true,
        (TokenKind::RBrace, TokenKind::RBrace) => true,
        (TokenKind::LBracket, TokenKind::LBracket) => true,
        (TokenKind::RBracket, TokenKind::RBracket) => true,
        (TokenKind::Comma, TokenKind::Comma) => true,
        (TokenKind::Semicolon, TokenKind::Semicolon) => true,
        (TokenKind::Colon, TokenKind::Colon) => true,
        (TokenKind::Arrow, TokenKind::Arrow) => true,
        (TokenKind::Dot, TokenKind::Dot) => true,
        (TokenKind::Eof, TokenKind::Eof) => true,
        (TokenKind::IntLit(a), TokenKind::IntLit(b)) => *a == *b,
        _ => false,
    }
}
} // verus!
