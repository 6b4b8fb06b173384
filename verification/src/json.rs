//! JSON: a reader from text to a JSON tree, and the quoting of strings for
//! the writer.
//!
//! Numbers keep their text: an integer without `.`, `e` or `E` that fits in
//! `i64` is read as an integer, any other number as a float (its text). The
//! reader accepts whitespace (space, tab, newline, carriage return) between
//! tokens, the escapes `\" \\ \/ \n \t \r \b \f \uXXXX` in strings (not
//! surrogates), and rejects a trailing comma and anything after the root
//! value; every error names what was expected and where.
use vstd::prelude::*;
use crate::lexer::digits_value;
use crate::text::{decimal, decimal_int, i64_to_string, push_char, push_str, usize_to_string};

verus! {

/// A JSON value. A float keeps the text of its number.
#[derive(Debug, PartialEq)]
pub enum Json {
    Null,
    Bool(bool),
    Int(i64),
    Float(String),
    Str(String),
    Array(Vec<Json>),
    Object(Vec<(String, Json)>),
}

/// The mathematical value of a JSON value.
pub enum JsonV {
    Null,
    Bool(bool),
    Int(i64),
    Float(Seq<char>),
    Str(Seq<char>),
    Array(Seq<JsonV>),
    Object(Seq<(Seq<char>, JsonV)>),
}

/// The result of reading one construct: its value and the position after
/// it, or an error message.
pub type JR<T> = Result<(T, nat), Seq<char>>;

// ------------------------------------------------------------------ characters

/// JSON whitespace.
pub open spec fn is_jws(c: char) -> bool {
    c == ' ' || c == '\t' || c == '\n' || c == '\r'
}

/// An ASCII digit.
pub open spec fn is_jdigit(c: char) -> bool {
    '0' <= c && c <= '9'
}

/// The value of a hexadecimal digit (either case).
pub open spec fn hex_value(c: char) -> Option<u32> {
    if '0' <= c && c <= '9' {
        Some(((c as u32) - ('0' as u32)) as u32)
    } else if 'a' <= c && c <= 'f' {
        Some(((c as u32) - ('a' as u32) + 10) as u32)
    } else if 'A' <= c && c <= 'F' {
        Some(((c as u32) - ('A' as u32) + 10) as u32)
    } else {
        None
    }
}

/// The position after the whitespace at `p`.
pub open spec fn jws(s: Seq<char>, p: nat) -> nat
    decreases s.len() - p,
{
    if p < s.len() && is_jws(s[p as int]) {
        jws(s, p + 1)
    } else {
        p
    }
}

/// The position after the digits at `p`.
pub open spec fn jdigits(s: Seq<char>, p: nat) -> nat
    decreases s.len() - p,
{
    if p < s.len() && is_jdigit(s[p as int]) {
        jdigits(s, p + 1)
    } else {
        p
    }
}

pub proof fn lemma_jws(s: Seq<char>, p: nat)
    ensures
        p <= jws(s, p),
        p <= s.len() ==> jws(s, p) <= s.len(),
    decreases s.len() - p,
{
    if p < s.len() && is_jws(s[p as int]) {
        lemma_jws(s, p + 1);
    }
}

pub proof fn lemma_jdigits(s: Seq<char>, p: nat)
    ensures
        p <= jdigits(s, p),
        p <= s.len() ==> jdigits(s, p) <= s.len(),
    decreases s.len() - p,
{
    if p < s.len() && is_jdigit(s[p as int]) {
        lemma_jdigits(s, p + 1);
    }
}

// ------------------------------------------------------------------ messages

pub open spec fn jmsg_expected(e: char, pos: nat, got: char) -> Seq<char> {
    "json_parse: ожидался '"@ + seq![e] + "' на позиции "@ + decimal(pos) + ", получено '"@ + seq![got] + "'"@
}

pub open spec fn jmsg_end_expected(e: char) -> Seq<char> {
    "json_parse: неожиданный конец строки, ожидался '"@ + seq![e] + "'"@
}

pub open spec fn jmsg_at(what: Seq<char>, pos: nat) -> Seq<char> {
    what + decimal(pos)
}

pub open spec fn jmsg_unexpected(c: char, pos: nat) -> Seq<char> {
    "json_parse: неожиданный символ '"@ + seq![c] + "' на позиции "@ + decimal(pos)
}

pub open spec fn jmsg_sep(close: char, pos: nat, got: char) -> Seq<char> {
    "json_parse: ожидался ',' или '"@ + seq![close] + "' на позиции "@ + decimal(pos) + ", получено '"@ + seq![got]
        + "'"@
}

pub open spec fn jmsg_dangling(close: char, pos: nat) -> Seq<char> {
    "json_parse: висячая запятая перед '"@ + seq![close] + "' на позиции "@ + decimal(pos)
}

/// The message when no progress was made (which the reader never does).
pub open spec fn jmsg_stalled(pos: nat) -> Seq<char> {
    "json_parse: нет продвижения на позиции "@ + decimal(pos)
}

// ------------------------------------------------------------------ reading

/// Reads the character `e` at `p`.
pub open spec fn j_expect(s: Seq<char>, p: nat, e: char) -> Result<nat, Seq<char>> {
    if p < s.len() {
        if s[p as int] == e {
            Ok(p + 1)
        } else {
            Err(jmsg_expected(e, p, s[p as int]))
        }
    } else {
        Err(jmsg_end_expected(e))
    }
}

/// Reads the characters of `lit` from its `i`-th on, at `p`.
pub open spec fn j_literal(s: Seq<char>, p: nat, lit: Seq<char>, i: nat) -> Result<nat, Seq<char>>
    decreases lit.len() - i,
{
    if i >= lit.len() {
        Ok(p)
    } else {
        match j_expect(s, p, lit[i as int]) {
            Ok(q) => j_literal(s, q, lit, i + 1),
            Err(m) => Err(m),
        }
    }
}

/// Reads the hexadecimal digits of a `\u` escape from the `i`-th on.
pub open spec fn j_hex4(s: Seq<char>, p: nat, i: nat, acc: u32) -> JR<u32>
    decreases 4 - i,
{
    if i >= 4 {
        Ok((acc, p))
    } else if p >= s.len() {
        Err("json_parse: незавершённый \\u-escape"@)
    } else {
        match hex_value(s[p as int]) {
            Some(d) => j_hex4(s, p + 1, i + 1, (acc * 16 + d) as u32),
            None => Err("json_parse: невалидная hex-цифра '"@ + seq![s[p as int]] + "' в \\u-escape"@),
        }
    }
}

/// The character a one-character escape stands for.
pub open spec fn simple_escape(c: char) -> Option<char> {
    if c == '"' {
        Some('"')
    } else if c == '\\' {
        Some('\\')
    } else if c == '/' {
        Some('/')
    } else if c == 'n' {
        Some('\n')
    } else if c == 't' {
        Some('\t')
    } else if c == 'r' {
        Some('\r')
    } else if c == 'b' {
        Some('\u{8}')
    } else if c == 'f' {
        Some('\u{c}')
    } else {
        None
    }
}

/// Reads the rest of a string after its opening quote; `acc` holds the
/// characters read so far.
pub open spec fn j_str_body(s: Seq<char>, p: nat, acc: Seq<char>) -> JR<Seq<char>>
    decreases s.len() - p,
{
    if p >= s.len() {
        Err("json_parse: незакрытая строка"@)
    } else {
        let c = s[p as int];
        if c == '"' {
            Ok((acc, p + 1))
        } else if c == '\\' {
            if p + 1 >= s.len() {
                Err("json_parse: незакрытый escape в конце строки"@)
            } else {
                let e = s[p + 1int];
                match simple_escape(e) {
                    Some(x) => j_str_body(s, p + 2, acc.push(x)),
                    None => if e == 'u' {
                        match j_hex4(s, p + 2, 0, 0) {
                            Ok((cp, q)) => if 0xD800 <= cp && cp <= 0xDFFF {
                                Err(
                                    "json_parse: суррогатные пары \\uXXXX (символы вне BMP) не поддерживаются в v0.1"@,
                                )
                            } else if q <= p || q > s.len() {
                                Err(jmsg_stalled(p))
                            } else {
                                j_str_body(s, q, acc.push(cp as char))
                            },
                            Err(m) => Err(m),
                        }
                    } else {
                        Err("json_parse: неизвестный escape '\\"@ + seq![e] + "'"@)
                    },
                }
            }
        } else {
            j_str_body(s, p + 1, acc.push(c))
        }
    }
}

/// Reads a string at `p`.
pub open spec fn j_string(s: Seq<char>, p: nat) -> JR<Seq<char>> {
    match j_expect(s, p, '"') {
        Ok(q) => j_str_body(s, q, Seq::empty()),
        Err(m) => Err(m),
    }
}

/// The value of a decimal integer text (an optional `-`, then digits) when
/// it fits in `i64`.
pub open spec fn int_of(t: Seq<char>) -> Option<i64> {
    if t.len() > 0 && t[0] == '-' {
        let v = digits_value(t.drop_first());
        if v <= 0x8000_0000_0000_0000 {
            Some((-(v as int)) as i64)
        } else {
            None
        }
    } else {
        let v = digits_value(t);
        if v <= 0x7fff_ffff_ffff_ffff {
            Some(v as i64)
        } else {
            None
        }
    }
}

/// Reads a number at `p`.
pub open spec fn j_number(s: Seq<char>, p: nat) -> JR<JsonV> {
    let p1 = if p < s.len() && s[p as int] == '-' { p + 1 } else { p };
    let int_end: Result<nat, Seq<char>> = if p1 < s.len() && s[p1 as int] == '0' {
        Ok(p1 + 1)
    } else if p1 < s.len() && is_jdigit(s[p1 as int]) {
        Ok(jdigits(s, p1))
    } else {
        Err(jmsg_at("json_parse: ожидалась цифра на позиции "@, p1))
    };
    match int_end {
        Err(m) => Err(m),
        Ok(p2) => {
            let frac: Result<(nat, bool), Seq<char>> = if p2 < s.len() && s[p2 as int] == '.' {
                if p2 + 1 < s.len() && is_jdigit(s[p2 + 1int]) {
                    Ok((jdigits(s, p2 + 1), true))
                } else {
                    Err(jmsg_at("json_parse: ожидалась цифра после '.' на позиции "@, p2 + 1))
                }
            } else {
                Ok((p2, false))
            };
            match frac {
                Err(m) => Err(m),
                Ok((p3, f1)) => {
                    let exp: Result<(nat, bool), Seq<char>> = if p3 < s.len() && (s[p3 as int] == 'e' || s[p3 as int]
                        == 'E') {
                        let p4 = if p3 + 1 < s.len() && (s[p3 + 1int] == '+' || s[p3 + 1int] == '-') {
                            p3 + 2
                        } else {
                            p3 + 1
                        };
                        if p4 < s.len() && is_jdigit(s[p4 as int]) {
                            Ok((jdigits(s, p4), true))
                        } else {
                            Err(jmsg_at("json_parse: ожидалась цифра в экспоненте на позиции "@, p4))
                        }
                    } else {
                        Ok((p3, false))
                    };
                    match exp {
                        Err(m) => Err(m),
                        Ok((p5, f2)) => {
                            let t = s.subrange(p as int, p5 as int);
                            if f1 || f2 {
                                Ok((JsonV::Float(t), p5))
                            } else {
                                match int_of(t) {
                                    Some(i) => Ok((JsonV::Int(i), p5)),
                                    None => Ok((JsonV::Float(t), p5)),
                                }
                            }
                        },
                    }
                },
            }
        },
    }
}

/// Reads a value at `p` (after any whitespace).
pub open spec fn j_value(s: Seq<char>, p: nat) -> JR<JsonV>
    decreases s.len() - p, 2nat,
{
    let q = jws(s, p);
    proof {
        lemma_jws(s, p);
    }
    if q >= s.len() {
        Err("json_parse: неожиданный конец строки (ожидалось значение)"@)
    } else {
        let c = s[q as int];
        if c == 'n' {
            match j_literal(s, q, seq!['n', 'u', 'l', 'l'], 0) {
                Ok(r) => Ok((JsonV::Null, r)),
                Err(m) => Err(m),
            }
        } else if c == 't' {
            match j_literal(s, q, seq!['t', 'r', 'u', 'e'], 0) {
                Ok(r) => Ok((JsonV::Bool(true), r)),
                Err(m) => Err(m),
            }
        } else if c == 'f' {
            match j_literal(s, q, seq!['f', 'a', 'l', 's', 'e'], 0) {
                Ok(r) => Ok((JsonV::Bool(false), r)),
                Err(m) => Err(m),
            }
        } else if c == '"' {
            match j_string(s, q) {
                Ok((t, r)) => Ok((JsonV::Str(t), r)),
                Err(m) => Err(m),
            }
        } else if c == '[' {
            j_array(s, q)
        } else if c == '{' {
            j_object(s, q)
        } else if c == '-' || is_jdigit(c) {
            j_number(s, q)
        } else {
            Err(jmsg_unexpected(c, q))
        }
    }
}

/// Reads an array whose `[` is at `p`.
pub open spec fn j_array(s: Seq<char>, p: nat) -> JR<JsonV>
    decreases s.len() - p, 1nat,
{
    if p >= s.len() {
        Err(jmsg_end_expected('['))
    } else {
        let q = jws(s, p + 1);
        proof {
            lemma_jws(s, p + 1);
        }
        if q < s.len() && s[q as int] == ']' {
            Ok((JsonV::Array(Seq::empty()), q + 1))
        } else {
            j_items(s, p + 1, Seq::empty())
        }
    }
}

/// Reads the items of an array from `p` on; `acc` holds the items read.
pub open spec fn j_items(s: Seq<char>, p: nat, acc: Seq<JsonV>) -> JR<JsonV>
    decreases s.len() - p, 3nat,
{
    match j_value(s, p) {
        Err(m) => Err(m),
        Ok((v, r)) => if r <= p {
            Err(jmsg_stalled(p))
        } else {
            let q = jws(s, r);
            proof {
                lemma_jws(s, r);
            }
            if q >= s.len() {
                Err("json_parse: незакрытый массив"@)
            } else if s[q as int] == ',' {
                let q2 = jws(s, q + 1);
                if q2 < s.len() && s[q2 as int] == ']' {
                    Err(jmsg_dangling(']', q2))
                } else {
                    j_items(s, q + 1, acc.push(v))
                }
            } else if s[q as int] == ']' {
                Ok((JsonV::Array(acc.push(v)), q + 1))
            } else {
                Err(jmsg_sep(']', q, s[q as int]))
            }
        },
    }
}

/// Reads an object whose `{` is at `p`.
pub open spec fn j_object(s: Seq<char>, p: nat) -> JR<JsonV>
    decreases s.len() - p, 1nat,
{
    if p >= s.len() {
        Err(jmsg_end_expected('{'))
    } else {
        let q = jws(s, p + 1);
        proof {
            lemma_jws(s, p + 1);
        }
        if q < s.len() && s[q as int] == '}' {
            Ok((JsonV::Object(Seq::empty()), q + 1))
        } else {
            j_members(s, p + 1, Seq::empty())
        }
    }
}

/// Reads the members of an object from `p` on; `acc` holds the members
/// read.
pub open spec fn j_members(s: Seq<char>, p: nat, acc: Seq<(Seq<char>, JsonV)>) -> JR<JsonV>
    decreases s.len() - p, 3nat,
{
    let k0 = jws(s, p);
    match j_string(s, k0) {
        Err(m) => Err(m),
        Ok((key, r1)) => {
            let r2 = jws(s, r1);
            match j_expect(s, r2, ':') {
                Err(m) => Err(m),
                Ok(r3) => if r3 <= p {
                    Err(jmsg_stalled(p))
                } else {
                    match j_value(s, r3) {
                        Err(m) => Err(m),
                        Ok((v, r4)) => if r4 <= p {
                            Err(jmsg_stalled(p))
                        } else {
                            let q = jws(s, r4);
                            proof {
                                lemma_jws(s, r4);
                            }
                            if q >= s.len() {
                                Err("json_parse: незакрытый объект"@)
                            } else if s[q as int] == ',' {
                                let q2 = jws(s, q + 1);
                                if q2 < s.len() && s[q2 as int] == '}' {
                                    Err(jmsg_dangling('}', q2))
                                } else {
                                    j_members(s, q + 1, acc.push((key, v)))
                                }
                            } else if s[q as int] == '}' {
                                Ok((JsonV::Object(acc.push((key, v))), q + 1))
                            } else {
                                Err(jmsg_sep('}', q, s[q as int]))
                            }
                        },
                    }
                },
            }
        },
    }
}

/// Reads a whole text: one value, with only whitespace around it.
pub open spec fn spec_parse(s: Seq<char>) -> Result<JsonV, Seq<char>> {
    match j_value(s, 0) {
        Err(m) => Err(m),
        Ok((v, r)) => {
            let q = jws(s, r);
            if q != s.len() {
                Err(jmsg_at("json_parse: лишние данные после корневого значения на позиции "@, q))
            } else {
                Ok(v)
            }
        },
    }
}

// ------------------------------------------------------------------ quoting

/// A lower-case hexadecimal digit.
pub open spec fn hex_lower(d: nat) -> char {
    if d < 10 {
        (('0' as nat) + d) as char
    } else {
        (('a' as nat) + (d - 10)) as char
    }
}

/// How a character is written inside a JSON string.
pub open spec fn escape_json(c: char) -> Seq<char> {
    if c == '"' {
        seq!['\\', '"']
    } else if c == '\\' {
        seq!['\\', '\\']
    } else if c == '\n' {
        seq!['\\', 'n']
    } else if c == '\t' {
        seq!['\\', 't']
    } else if c == '\r' {
        seq!['\\', 'r']
    } else if (c as u32) < 0x20 {
        seq!['\\', 'u', '0', '0', hex_lower(((c as u32) / 16) as nat), hex_lower(((c as u32) % 16) as nat)]
    } else {
        seq![c]
    }
}

/// The escaped characters of a string, without quotes.
pub open spec fn escaped(s: Seq<char>) -> Seq<char>
    decreases s.len(),
{
    if s.len() == 0 {
        Seq::empty()
    } else {
        escaped(s.drop_last()) + escape_json(s.last())
    }
}

/// A string written as a JSON string literal.
pub open spec fn spec_quote(s: Seq<char>) -> Seq<char> {
    seq!['"'] + escaped(s) + seq!['"']
}


// ------------------------------------------------------------------ writing

/// The JSON text of a value: `null`, `true`, `false`, an integer in decimal,
/// a float as its text, a string quoted, an array as its items and an object
/// as its `"key":value` members, separated by `,` with no spaces.
pub open spec fn spec_write(v: JsonV) -> Seq<char>
    decreases v, 1nat,
{
    match v {
        JsonV::Null => seq!['n', 'u', 'l', 'l'],
        JsonV::Bool(b) => if b {
            seq!['t', 'r', 'u', 'e']
        } else {
            seq!['f', 'a', 'l', 's', 'e']
        },
        JsonV::Int(i) => decimal_int(i as int),
        JsonV::Float(t) => t,
        JsonV::Str(t) => spec_quote(t),
        JsonV::Array(items) => seq!['['] + write_items(items) + seq![']'],
        JsonV::Object(ms) => seq!['{'] + write_members(ms) + seq!['}'],
    }
}

/// The items of an array, separated by `,`.
pub open spec fn write_items(items: Seq<JsonV>) -> Seq<char>
    decreases items, 0nat,
{
    if items.len() == 0 {
        Seq::empty()
    } else if items.len() == 1 {
        spec_write(items[0])
    } else {
        write_items(items.drop_last()) + seq![','] + spec_write(items.last())
    }
}

/// One member of an object: its quoted key, `:`, its value.
pub open spec fn write_member(m: (Seq<char>, JsonV)) -> Seq<char>
    decreases m, 0nat,
{
    spec_quote(m.0) + seq![':'] + spec_write(m.1)
}

/// The members of an object, separated by `,`.
pub open spec fn write_members(ms: Seq<(Seq<char>, JsonV)>) -> Seq<char>
    decreases ms, 1nat,
{
    if ms.len() == 0 {
        Seq::empty()
    } else if ms.len() == 1 {
        write_member(ms[0])
    } else {
        write_members(ms.drop_last()) + seq![','] + write_member(ms.last())
    }
}

// ------------------------------------------------------------------ views

/// The value of a JSON value.
pub open spec fn json_view(j: Json) -> JsonV
    decreases j, 0nat,
{
    match j {
        Json::Null => JsonV::Null,
        Json::Bool(b) => JsonV::Bool(b),
        Json::Int(i) => JsonV::Int(i),
        Json::Float(t) => JsonV::Float(t@),
        Json::Str(t) => JsonV::Str(t@),
        Json::Array(items) => JsonV::Array(jsons_view(items@)),
        Json::Object(members) => JsonV::Object(members_view(members@)),
    }
}

/// The values of a list of JSON values.
pub open spec fn jsons_view(js: Seq<Json>) -> Seq<JsonV>
    decreases js, 0nat,
{
    if js.len() == 0 {
        Seq::empty()
    } else {
        jsons_view(js.drop_last()).push(json_view(js.last()))
    }
}

/// The values of the members of an object.
pub open spec fn members_view(ms: Seq<(String, Json)>) -> Seq<(Seq<char>, JsonV)>
    decreases ms, 0nat,
{
    if ms.len() == 0 {
        Seq::empty()
    } else {
        members_view(ms.drop_last()).push((ms.last().0@, json_view(ms.last().1)))
    }
}

/// A reading result ending at position `p`.
pub open spec fn jres(r: Result<Json, String>, p: nat) -> JR<JsonV> {
    match r {
        Ok(j) => Ok((json_view(j), p)),
        Err(m) => Err(m@),
    }
}

// ------------------------------------------------------------------ reader

fn append_char(m: &mut String, c: char)
    ensures
        final(m)@ == old(m)@ + seq![c],
        final(m)@ == old(m)@.push(c),
{
    push_char(m, c);
    assert(final(m)@ =~= old(m)@ + seq![c]);
}

fn msg_with_pos(what: &str, pos: usize) -> (r: String)
    ensures
        r@ == jmsg_at(what@, pos as nat),
{
    let mut m = String::new();
    push_str(&mut m, what);
    push_str(&mut m, usize_to_string(pos).as_str());
    m
}

fn msg_expected(e: char, pos: usize, got: char) -> (r: String)
    ensures
        r@ == jmsg_expected(e, pos as nat, got),
{
    let mut m = String::new();
    push_str(&mut m, "json_parse: ожидался '");
    append_char(&mut m, e);
    push_str(&mut m, "' на позиции ");
    push_str(&mut m, usize_to_string(pos).as_str());
    push_str(&mut m, ", получено '");
    append_char(&mut m, got);
    push_str(&mut m, "'");
    m
}

fn msg_sep(close: char, pos: usize, got: char) -> (r: String)
    ensures
        r@ == jmsg_sep(close, pos as nat, got),
{
    let mut m = String::new();
    push_str(&mut m, "json_parse: ожидался ',' или '");
    append_char(&mut m, close);
    push_str(&mut m, "' на позиции ");
    push_str(&mut m, usize_to_string(pos).as_str());
    push_str(&mut m, ", получено '");
    append_char(&mut m, got);
    push_str(&mut m, "'");
    m
}

fn msg_dangling(close: char, pos: usize) -> (r: String)
    ensures
        r@ == jmsg_dangling(close, pos as nat),
{
    let mut m = String::new();
    push_str(&mut m, "json_parse: висячая запятая перед '");
    append_char(&mut m, close);
    push_str(&mut m, "' на позиции ");
    push_str(&mut m, usize_to_string(pos).as_str());
    m
}

fn text_of(s: &str) -> (r: String)
    ensures
        r@ == s@,
{
    let mut m = String::new();
    push_str(&mut m, s);
    m
}

struct JsonReader {
    chars: Vec<char>,
    pos: usize,
}

impl JsonReader {
    spec fn src(&self) -> Seq<char> {
        self.chars@
    }

    spec fn wf(&self) -> bool {
        self.pos <= self.chars.len()
    }

    fn peek(&self) -> (r: Option<char>)
        requires
            self.wf(),
        ensures
            r == (if self.pos < self.chars.len() { Some(self.chars@[self.pos as int]) } else { None }),
    {
        if self.pos < self.chars.len() {
            Some(self.chars[self.pos])
        } else {
            None
        }
    }

    fn skip_ws(&mut self)
        requires
            old(self).wf(),
        ensures
            final(self).wf(),
            final(self).chars@ == old(self).chars@,
            final(self).pos as nat == jws(old(self).chars@, old(self).pos as nat),
    {
        while self.pos < self.chars.len() && (self.chars[self.pos] == ' ' || self.chars[self.pos] == '\t'
            || self.chars[self.pos] == '\n' || self.chars[self.pos] == '\r')
            invariant
                self.wf(),
                self.chars@ == old(self).chars@,
                jws(self.chars@, self.pos as nat) == jws(old(self).chars@, old(self).pos as nat),
            decreases self.chars.len() - self.pos,
        {
            self.pos = self.pos + 1;
        }
    }

    fn skip_digits(&mut self)
        requires
            old(self).wf(),
        ensures
            final(self).wf(),
            final(self).chars@ == old(self).chars@,
            final(self).pos as nat == jdigits(old(self).chars@, old(self).pos as nat),
    {
        while self.pos < self.chars.len() && '0' <= self.chars[self.pos] && self.chars[self.pos] <= '9'
            invariant
                self.wf(),
                self.chars@ == old(self).chars@,
                jdigits(self.chars@, self.pos as nat) == jdigits(old(self).chars@, old(self).pos as nat),
            decreases self.chars.len() - self.pos,
        {
            self.pos = self.pos + 1;
        }
    }

    fn expect(&mut self, e: char) -> (r: Result<(), String>)
        requires
            old(self).wf(),
        ensures
            final(self).wf(),
            final(self).chars@ == old(self).chars@,
            j_expect(old(self).chars@, old(self).pos as nat, e) == match r {
                Ok(_) => Ok::<nat, Seq<char>>(final(self).pos as nat),
                Err(m) => Err(m@),
            },
    {
        if self.pos < self.chars.len() {
            let c = self.chars[self.pos];
            if c == e {
                self.pos = self.pos + 1;
                Ok(())
            } else {
                Err(msg_expected(e, self.pos, c))
            }
        } else {
            let mut m = String::new();
            push_str(&mut m, "json_parse: неожиданный конец строки, ожидался '");
            append_char(&mut m, e);
            push_str(&mut m, "'");
            Err(m)
        }
    }

    fn literal(&mut self, lit: &[char]) -> (r: Result<(), String>)
        requires
            old(self).wf(),
        ensures
            final(self).wf(),
            final(self).chars@ == old(self).chars@,
            j_literal(old(self).chars@, old(self).pos as nat, lit@, 0) == match r {
                Ok(_) => Ok::<nat, Seq<char>>(final(self).pos as nat),
                Err(m) => Err(m@),
            },
            r is Ok ==> final(self).pos == old(self).pos + lit.len(),
    {
        let mut i: usize = 0;
        while i < lit.len()
            invariant
                i <= lit.len(),
                self.wf(),
                self.chars@ == old(self).chars@,
                j_literal(old(self).chars@, old(self).pos as nat, lit@, 0) == j_literal(
                    self.chars@,
                    self.pos as nat,
                    lit@,
                    i as nat,
                ),
                self.pos == old(self).pos + i,
            decreases lit.len() - i,
        {
            match self.expect(lit[i]) {
                Ok(_) => {},
                Err(m) => return Err(m),
            }
            i = i + 1;
        }
        Ok(())
    }

    fn hex4(&mut self) -> (r: Result<u32, String>)
        requires
            old(self).wf(),
        ensures
            final(self).wf(),
            final(self).chars@ == old(self).chars@,
            j_hex4(old(self).chars@, old(self).pos as nat, 0, 0) == match r {
                Ok(cp) => Ok::<(u32, nat), Seq<char>>((cp, final(self).pos as nat)),
                Err(m) => Err(m@),
            },
            r matches Ok(cp) ==> cp <= 0xFFFF && final(self).pos == old(self).pos + 4,
    {
        let mut acc: u32 = 0;
        let mut i: usize = 0;
        while i < 4
            invariant
                i <= 4,
                self.wf(),
                self.chars@ == old(self).chars@,
                acc < hex_bound(i as nat),
                self.pos == old(self).pos + i,
                j_hex4(old(self).chars@, old(self).pos as nat, 0, 0) == j_hex4(
                    self.chars@,
                    self.pos as nat,
                    i as nat,
                    acc,
                ),
            decreases 4 - i,
        {
            if self.pos >= self.chars.len() {
                return Err(text_of("json_parse: незавершённый \\u-escape"));
            }
            let c = self.chars[self.pos];
            let d: u32 = if '0' <= c && c <= '9' {
                (c as u32) - ('0' as u32)
            } else if 'a' <= c && c <= 'f' {
                (c as u32) - ('a' as u32) + 10
            } else if 'A' <= c && c <= 'F' {
                (c as u32) - ('A' as u32) + 10
            } else {
                let mut m = String::new();
                push_str(&mut m, "json_parse: невалидная hex-цифра '");
                append_char(&mut m, c);
                push_str(&mut m, "' в \\u-escape");
                return Err(m);
            };
            assert(hex_value(c) == Some(d));
            assert(acc * 16 + d < 16 * hex_bound(i as nat)) by (nonlinear_arith)
                requires
                    acc < hex_bound(i as nat),
                    d < 16,
            ;
            acc = acc * 16 + d;
            self.pos = self.pos + 1;
            i = i + 1;
        }
        Ok(acc)
    }
}

/// `16` to the power `n`, for `n` up to 4.
pub open spec fn hex_bound(n: nat) -> nat {
    if n == 0 {
        1
    } else if n == 1 {
        16
    } else if n == 2 {
        256
    } else if n == 3 {
        4096
    } else {
        65536
    }
}


/// Every character from `p` up to `jdigits(s, p)` is a digit.
pub proof fn lemma_jdigits_all(s: Seq<char>, p: nat)
    ensures
        forall|k: int| p <= k < jdigits(s, p) ==> is_jdigit(#[trigger] s[k]),
    decreases s.len() - p,
{
    if p < s.len() && is_jdigit(s[p as int]) {
        lemma_jdigits_all(s, p + 1);
    }
}

/// The value of the digits `s[from..to]`, when `s[lo..to]` is an optional
/// `-` followed by them, as an `i64` if it fits.
fn int_value(cs: &Vec<char>, lo: usize, to: usize) -> (r: Option<i64>)
    requires
        lo <= to <= cs.len(),
        forall|k: int| lo <= k < to && !(k == lo && cs@[k] == '-') ==> is_jdigit(#[trigger] cs@[k]),
    ensures
        r == int_of(cs@.subrange(lo as int, to as int)),
{
    let ghost t = cs@.subrange(lo as int, to as int);
    let neg = lo < to && cs[lo] == '-';
    let from = if neg {
        lo + 1
    } else {
        lo
    };
    let ghost ds = cs@.subrange(from as int, to as int);
    assert(neg ==> ds =~= t.drop_first());
    assert(!neg ==> ds =~= t);
    let mut acc: u64 = 0;
    let mut over = false;
    let mut i = from;
    assert(cs@.subrange(from as int, from as int) =~= Seq::<char>::empty());
    while i < to
        invariant
            from <= i <= to <= cs.len(),
            forall|k: int| from <= k < to ==> is_jdigit(#[trigger] cs@[k]),
            !over ==> acc as nat == digits_value(cs@.subrange(from as int, i as int)),
            over ==> digits_value(cs@.subrange(from as int, i as int)) > u64::MAX,
        decreases to - i,
    {
        let ghost prev = cs@.subrange(from as int, i as int);
        let ghost next = cs@.subrange(from as int, i + 1);
        assert(next.drop_last() =~= prev);
        assert(next.last() == cs@[i as int]);
        assert(is_jdigit(cs@[i as int]));
        let d = (cs[i] as u32 - '0' as u32) as u64;
        assert(digits_value(next) == digits_value(prev) * 10 + d);
        if over {
            assert(digits_value(prev) * 10 + d >= digits_value(prev)) by (nonlinear_arith);
        } else {
            match acc.checked_mul(10) {
                Some(a10) => match a10.checked_add(d) {
                    Some(v) => {
                        acc = v;
                    },
                    None => {
                        over = true;
                    },
                },
                None => {
                    over = true;
                },
            }
        }
        i = i + 1;
    }
    assert(cs@.subrange(from as int, to as int) == ds);
    if neg {
        if over || acc > 0x8000_0000_0000_0000u64 {
            None
        } else if acc == 0x8000_0000_0000_0000u64 {
            Some(i64::MIN)
        } else {
            Some(-(acc as i64))
        }
    } else {
        if over || acc > 0x7fff_ffff_ffff_ffffu64 {
            None
        } else {
            Some(acc as i64)
        }
    }
}

/// The characters `cs[lo..to]` as a `String`.
fn text_between(cs: &Vec<char>, lo: usize, to: usize) -> (r: String)
    requires
        lo <= to <= cs.len(),
    ensures
        r@ == cs@.subrange(lo as int, to as int),
{
    let mut r = String::new();
    let mut i = lo;
    assert(cs@.subrange(lo as int, lo as int) =~= Seq::<char>::empty());
    while i < to
        invariant
            lo <= i <= to <= cs.len(),
            r@ == cs@.subrange(lo as int, i as int),
        decreases to - i,
    {
        append_char(&mut r, cs[i]);
        assert(r@ =~= cs@.subrange(lo as int, i + 1));
        i = i + 1;
    }
    r
}


fn is_digit_char(c: char) -> (r: bool)
    ensures
        r == is_jdigit(c),
{
    '0' <= c && c <= '9'
}

impl JsonReader {
    fn string(&mut self) -> (r: Result<String, String>)
        requires
            old(self).wf(),
        ensures
            final(self).wf(),
            final(self).chars@ == old(self).chars@,
            j_string(old(self).chars@, old(self).pos as nat) == match r {
                Ok(t) => Ok::<(Seq<char>, nat), Seq<char>>((t@, final(self).pos as nat)),
                Err(m) => Err(m@),
            },
            r is Ok ==> final(self).pos > old(self).pos,
    {
        let ghost s = self.chars@;
        let ghost p0 = self.pos as nat;
        match self.expect('"') {
            Ok(_) => {},
            Err(m) => return Err(m),
        }
        let mut acc = String::new();
        assert(acc@ =~= Seq::<char>::empty());
        loop
            invariant
                self.wf(),
                self.chars@ == s,
                s == old(self).chars@,
                p0 == old(self).pos,
                self.pos > p0,
                j_string(s, p0) == j_str_body(s, self.pos as nat, acc@),
            decreases self.chars.len() - self.pos,
        {
            let p = self.pos;
            if p >= self.chars.len() {
                return Err(text_of("json_parse: незакрытая строка"));
            }
            let c = self.chars[p];
            if c == '"' {
                self.pos = p + 1;
                return Ok(acc);
            }
            if c == '\\' {
                if p + 1 >= self.chars.len() {
                    return Err(text_of("json_parse: незакрытый escape в конце строки"));
                }
                let e = self.chars[p + 1];
                let simple: Option<char> = if e == '"' {
                    Some('"')
                } else if e == '\\' {
                    Some('\\')
                } else if e == '/' {
                    Some('/')
                } else if e == 'n' {
                    Some('\n')
                } else if e == 't' {
                    Some('\t')
                } else if e == 'r' {
                    Some('\r')
                } else if e == 'b' {
                    Some('\u{8}')
                } else if e == 'f' {
                    Some('\u{c}')
                } else {
                    None
                };
                assert(simple == simple_escape(e));
                match simple {
                    Some(x) => {
                        append_char(&mut acc, x);
                        self.pos = p + 2;
                    },
                    None => {
                        if e != 'u' {
                            let mut m = String::new();
                            push_str(&mut m, "json_parse: неизвестный escape '\\");
                            append_char(&mut m, e);
                            push_str(&mut m, "'");
                            return Err(m);
                        }
                        self.pos = p + 2;
                        let cp = match self.hex4() {
                            Ok(x) => x,
                            Err(m) => return Err(m),
                        };
                        if 0xD800 <= cp && cp <= 0xDFFF {
                            return Err(text_of(
                                "json_parse: суррогатные пары \\uXXXX (символы вне BMP) не поддерживаются в v0.1",
                            ));
                        }
                        match crate::text::char_from_u32(cp) {
                            Some(ch) => append_char(&mut acc, ch),
                            None => {
                                proof {
                                    assert(false);
                                }
                                return Err(text_of("json_parse: невалидный \\u-escape"));
                            },
                        }
                    },
                }
            } else {
                append_char(&mut acc, c);
                self.pos = p + 1;
            }
        }
    }

    #[verifier::rlimit(60)]
    fn number(&mut self) -> (r: Result<Json, String>)
        requires
            old(self).wf(),
        ensures
            final(self).wf(),
            final(self).chars@ == old(self).chars@,
            j_number(old(self).chars@, old(self).pos as nat) == jres(r, final(self).pos as nat),
            r is Ok ==> final(self).pos > old(self).pos,
    {
        let ghost s = self.chars@;
        let len = self.chars.len();
        let start = self.pos;
        if start < len && self.chars[start] == '-' {
            self.pos = start + 1;
        }
        let p1 = self.pos;
        if p1 < len && self.chars[p1] == '0' {
            self.pos = p1 + 1;
        } else if p1 < len && is_digit_char(self.chars[p1]) {
            self.skip_digits();
            proof {
                lemma_jdigits_all(s, p1 as nat);
                lemma_jdigits(s, p1 as nat);
                lemma_jdigits(s, (p1 + 1) as nat);
            }
        } else {
            return Err(msg_with_pos("json_parse: ожидалась цифра на позиции ", p1));
        }
        let p2 = self.pos;
        assert(forall|k: int| start <= k < p2 && !(k == start && s[k] == '-') ==> is_jdigit(#[trigger] s[k]));
        let mut f1 = false;
        if p2 < len && self.chars[p2] == '.' {
            if p2 + 1 < len && is_digit_char(self.chars[p2 + 1]) {
                self.pos = p2 + 1;
                self.skip_digits();
                proof {
                    lemma_jdigits(s, (p2 + 1) as nat);
                }
                f1 = true;
            } else {
                return Err(msg_with_pos("json_parse: ожидалась цифра после '.' на позиции ", p2 + 1));
            }
        }
        let p3 = self.pos;
        let mut f2 = false;
        if p3 < len && (self.chars[p3] == 'e' || self.chars[p3] == 'E') {
            let p4 = if p3 + 1 < len && (self.chars[p3 + 1] == '+' || self.chars[p3 + 1] == '-') {
                p3 + 2
            } else {
                p3 + 1
            };
            if p4 < len && is_digit_char(self.chars[p4]) {
                self.pos = p4;
                self.skip_digits();
                proof {
                    lemma_jdigits(s, p4 as nat);
                }
                f2 = true;
            } else {
                return Err(msg_with_pos("json_parse: ожидалась цифра в экспоненте на позиции ", p4));
            }
        }
        let p5 = self.pos;
        let text = text_between(&self.chars, start, p5);
        if f1 || f2 {
            Ok(Json::Float(text))
        } else {
            match int_value(&self.chars, start, p5) {
                Some(i) => Ok(Json::Int(i)),
                None => Ok(Json::Float(text)),
            }
        }
    }
}


impl JsonReader {
    fn value(&mut self) -> (r: Result<Json, String>)
        requires
            old(self).wf(),
        ensures
            final(self).wf(),
            final(self).chars@ == old(self).chars@,
            j_value(old(self).chars@, old(self).pos as nat) == jres(r, final(self).pos as nat),
            r is Ok ==> final(self).pos > old(self).pos,
        decreases old(self).chars.len() - old(self).pos, 2nat,
    {
        let ghost s = self.chars@;
        proof { lemma_jws(s, self.pos as nat); }
        self.skip_ws();
        let q = self.pos;
        if q >= self.chars.len() {
            return Err(text_of("json_parse: неожиданный конец строки (ожидалось значение)"));
        }
        let c = self.chars[q];
        if c == 'n' {
            assert(['n', 'u', 'l', 'l']@ =~= seq!['n', 'u', 'l', 'l']);
            match self.literal(&['n', 'u', 'l', 'l']) {
                Ok(_) => Ok(Json::Null),
                Err(m) => Err(m),
            }
        } else if c == 't' {
            assert(['t', 'r', 'u', 'e']@ =~= seq!['t', 'r', 'u', 'e']);
            match self.literal(&['t', 'r', 'u', 'e']) {
                Ok(_) => Ok(Json::Bool(true)),
                Err(m) => Err(m),
            }
        } else if c == 'f' {
            assert(['f', 'a', 'l', 's', 'e']@ =~= seq!['f', 'a', 'l', 's', 'e']);
            match self.literal(&['f', 'a', 'l', 's', 'e']) {
                Ok(_) => Ok(Json::Bool(false)),
                Err(m) => Err(m),
            }
        } else if c == '"' {
            match self.string() {
                Ok(t) => Ok(Json::Str(t)),
                Err(m) => Err(m),
            }
        } else if c == '[' {
            self.array()
        } else if c == '{' {
            self.object()
        } else if c == '-' || is_digit_char(c) {
            self.number()
        } else {
            let mut m = String::new();
            push_str(&mut m, "json_parse: неожиданный символ '");
            append_char(&mut m, c);
            push_str(&mut m, "' на позиции ");
            push_str(&mut m, usize_to_string(q).as_str());
            Err(m)
        }
    }

    fn array(&mut self) -> (r: Result<Json, String>)
        requires
            old(self).wf(),
        ensures
            final(self).wf(),
            final(self).chars@ == old(self).chars@,
            j_array(old(self).chars@, old(self).pos as nat) == jres(r, final(self).pos as nat),
            r is Ok ==> final(self).pos > old(self).pos,
        decreases old(self).chars.len() - old(self).pos, 1nat,
    {
        let ghost s = self.chars@;
        let p = self.pos;
        if p >= self.chars.len() {
            let mut m = String::new();
            push_str(&mut m, "json_parse: неожиданный конец строки, ожидался '");
            append_char(&mut m, '[');
            push_str(&mut m, "'");
            return Err(m);
        }
        self.pos = p + 1;
        proof { lemma_jws(s, (p + 1) as nat); }
        self.skip_ws();
        if self.pos < self.chars.len() && self.chars[self.pos] == ']' {
            self.pos = self.pos + 1;
            let r = Json::Array(Vec::new());
            assert(jsons_view(Seq::<Json>::empty()) =~= Seq::<JsonV>::empty());
            return Ok(r);
        }
        self.pos = p + 1;
        let mut items: Vec<Json> = Vec::new();
        assert(jsons_view(items@) =~= Seq::<JsonV>::empty());
        loop
            invariant
                self.wf(),
                self.chars@ == s,
                s == old(self).chars@,
                p == old(self).pos,
                p < s.len(),
                self.pos > p,
                j_array(s, p as nat) == j_items(s, self.pos as nat, jsons_view(items@)),
            decreases self.chars.len() - self.pos,
        {
            let before = self.pos;
            let v = match self.value() {
                Ok(x) => x,
                Err(m) => return Err(m),
            };
            let ghost vv = json_view(v);
            let r = self.pos;
            proof { lemma_jws(s, r as nat); }
            self.skip_ws();
            let q = self.pos;
            if q >= self.chars.len() {
                return Err(text_of("json_parse: незакрытый массив"));
            }
            if self.chars[q] == ',' {
                self.pos = q + 1;
                self.skip_ws();
                let q2 = self.pos;
                if q2 < self.chars.len() && self.chars[q2] == ']' {
                    return Err(msg_dangling(']', q2));
                }
                let ghost old_items = items@;
                items.push(v);
                proof {
                    assert(items@.drop_last() =~= old_items);
                }
                self.pos = q + 1;
            } else if self.chars[q] == ']' {
                let ghost old_items = items@;
                items.push(v);
                proof {
                    assert(items@.drop_last() =~= old_items);
                }
                self.pos = q + 1;
                return Ok(Json::Array(items));
            } else {
                return Err(msg_sep(']', q, self.chars[q]));
            }
        }
    }

    fn object(&mut self) -> (r: Result<Json, String>)
        requires
            old(self).wf(),
        ensures
            final(self).wf(),
            final(self).chars@ == old(self).chars@,
            j_object(old(self).chars@, old(self).pos as nat) == jres(r, final(self).pos as nat),
            r is Ok ==> final(self).pos > old(self).pos,
        decreases old(self).chars.len() - old(self).pos, 1nat,
    {
        let ghost s = self.chars@;
        let p = self.pos;
        if p >= self.chars.len() {
            let mut m = String::new();
            push_str(&mut m, "json_parse: неожиданный конец строки, ожидался '");
            append_char(&mut m, '{');
            push_str(&mut m, "'");
            return Err(m);
        }
        self.pos = p + 1;
        proof { lemma_jws(s, (p + 1) as nat); }
        self.skip_ws();
        if self.pos < self.chars.len() && self.chars[self.pos] == '}' {
            self.pos = self.pos + 1;
            let r = Json::Object(Vec::new());
            assert(members_view(Seq::<(String, Json)>::empty()) =~= Seq::<(Seq<char>, JsonV)>::empty());
            return Ok(r);
        }
        self.pos = p + 1;
        let mut members: Vec<(String, Json)> = Vec::new();
        assert(members_view(members@) =~= Seq::<(Seq<char>, JsonV)>::empty());
        loop
            invariant
                self.wf(),
                self.chars@ == s,
                s == old(self).chars@,
                p == old(self).pos,
                p < s.len(),
                self.pos > p,
                j_object(s, p as nat) == j_members(s, self.pos as nat, members_view(members@)),
            decreases self.chars.len() - self.pos,
        {
            let start = self.pos;
            proof { lemma_jws(s, start as nat); }
            self.skip_ws();
            let key = match self.string() {
                Ok(k) => k,
                Err(m) => return Err(m),
            };
            let r1 = self.pos;
            proof { lemma_jws(s, r1 as nat); }
            self.skip_ws();
            match self.expect(':') {
                Ok(_) => {},
                Err(m) => return Err(m),
            }
            let v = match self.value() {
                Ok(x) => x,
                Err(m) => return Err(m),
            };
            let r4 = self.pos;
            proof { lemma_jws(s, r4 as nat); }
            self.skip_ws();
            let q = self.pos;
            if q >= self.chars.len() {
                return Err(text_of("json_parse: незакрытый объект"));
            }
            if self.chars[q] == ',' {
                self.pos = q + 1;
                self.skip_ws();
                let q2 = self.pos;
                if q2 < self.chars.len() && self.chars[q2] == '}' {
                    return Err(msg_dangling('}', q2));
                }
                let ghost old_m = members@;
                members.push((key, v));
                proof {
                    assert(members@.drop_last() =~= old_m);
                }
                self.pos = q + 1;
            } else if self.chars[q] == '}' {
                let ghost old_m = members@;
                members.push((key, v));
                proof {
                    assert(members@.drop_last() =~= old_m);
                }
                self.pos = q + 1;
                return Ok(Json::Object(members));
            } else {
                return Err(msg_sep('}', q, self.chars[q]));
            }
        }
    }
}

/// Reads a JSON text: one value, with only whitespace around it.
pub fn parse(src: &str) -> (r: Result<Json, String>)
    ensures
        spec_parse(src@) == match r {
            Ok(j) => Ok::<JsonV, Seq<char>>(json_view(j)),
            Err(m) => Err(m@),
        },
{
    let mut rd = JsonReader { chars: crate::text::chars_of(src), pos: 0 };
    let v = match rd.value() {
        Ok(x) => x,
        Err(m) => return Err(m),
    };
    rd.skip_ws();
    if rd.pos != rd.chars.len() {
        return Err(msg_with_pos("json_parse: лишние данные после корневого значения на позиции ", rd.pos));
    }
    Ok(v)
}

proof fn lemma_jsons_view_len(js: Seq<Json>)
    ensures
        jsons_view(js).len() == js.len(),
    decreases js.len(),
{
    if js.len() > 0 {
        lemma_jsons_view_len(js.drop_last());
    }
}

proof fn lemma_members_view_len(ms: Seq<(String, Json)>)
    ensures
        members_view(ms).len() == ms.len(),
    decreases ms.len(),
{
    if ms.len() > 0 {
        lemma_members_view_len(ms.drop_last());
    }
}

proof fn lemma_write_items_push(w: Seq<JsonV>, x: JsonV)
    ensures
        write_items(w.push(x)) == if w.len() == 0 {
            spec_write(x)
        } else {
            write_items(w) + seq![','] + spec_write(x)
        },
{
    if w.len() > 0 {
        assert(w.push(x).drop_last() =~= w);
    }
}

proof fn lemma_write_members_push(w: Seq<(Seq<char>, JsonV)>, x: (Seq<char>, JsonV))
    ensures
        write_members(w.push(x)) == if w.len() == 0 {
            write_member(x)
        } else {
            write_members(w) + seq![','] + write_member(x)
        },
{
    if w.len() > 0 {
        assert(w.push(x).drop_last() =~= w);
    }
}

fn append_text(out: &mut String, t: &str)
    ensures
        final(out)@ == old(out)@ + t@,
{
    push_str(out, t);
}

/// Writes the JSON text of `j` at the end of `out`.
fn write_json(j: &Json, out: &mut String)
    ensures
        final(out)@ == old(out)@ + spec_write(json_view(*j)),
    decreases j,
{
    let ghost before = out@;
    match j {
        Json::Null => {
            append_char(out, 'n');
            append_char(out, 'u');
            append_char(out, 'l');
            append_char(out, 'l');
            assert(out@ =~= before + spec_write(json_view(*j)));
        },
        Json::Bool(b) => {
            if *b {
                append_char(out, 't');
                append_char(out, 'r');
                append_char(out, 'u');
                append_char(out, 'e');
            } else {
                append_char(out, 'f');
                append_char(out, 'a');
                append_char(out, 'l');
                append_char(out, 's');
                append_char(out, 'e');
            }
            assert(out@ =~= before + spec_write(json_view(*j)));
        },
        Json::Int(i) => {
            let t = i64_to_string(*i);
            append_text(out, t.as_str());
        },
        Json::Float(t) => {
            append_text(out, t.as_str());
        },
        Json::Str(t) => {
            let q = quoted(t.as_str());
            append_text(out, q.as_str());
        },
        Json::Array(items) => {
            append_char(out, '[');
            let ghost start = out@;
            let mut i: usize = 0;
            assert(items@.take(0) =~= Seq::<Json>::empty());
            while i < items.len()
                invariant
                    i <= items.len(),
                    *j == Json::Array(*items),
                    out@ == start + write_items(jsons_view(items@.take(i as int))),
                decreases items.len() - i,
            {
                let ghost mid = out@;
                if i > 0 {
                    append_char(out, ',');
                }
                proof {
                    let ghost v = (*j)->Array_0;
                    assert(decreases_to!(*j => (*j)->Array_0));
                    assert(decreases_to!(v => v@));
                    assert(decreases_to!(v@ => v@[i as int]));
                    assert(decreases_to!(*j => items@[i as int]));
                }
                write_json(&items[i], out);
                proof {
                    let w = jsons_view(items@.take(i as int));
                    lemma_jsons_view_len(items@.take(i as int));
                    assert(items@.take(i + 1).drop_last() =~= items@.take(i as int));
                    assert(jsons_view(items@.take(i + 1)) == w.push(json_view(items@[i as int])));
                    lemma_write_items_push(w, json_view(items@[i as int]));
                    assert(out@ =~= start + write_items(jsons_view(items@.take(i + 1))));
                }
                i = i + 1;
            }
            assert(items@.take(items.len() as int) =~= items@);
            append_char(out, ']');
            assert(out@ =~= before + spec_write(json_view(*j)));
        },
        Json::Object(members) => {
            append_char(out, '{');
            let ghost start = out@;
            let mut i: usize = 0;
            assert(members@.take(0) =~= Seq::<(String, Json)>::empty());
            while i < members.len()
                invariant
                    i <= members.len(),
                    *j == Json::Object(*members),
                    out@ == start + write_members(members_view(members@.take(i as int))),
                decreases members.len() - i,
            {
                if i > 0 {
                    append_char(out, ',');
                }
                let k = quoted(members[i].0.as_str());
                append_text(out, k.as_str());
                append_char(out, ':');
                proof {
                    let ghost v = (*j)->Object_0;
                    assert(decreases_to!(*j => (*j)->Object_0));
                    assert(decreases_to!(v => v@));
                    assert(decreases_to!(v@ => v@[i as int]));
                    assert(decreases_to!(v@[i as int] => v@[i as int].1));
                    assert(decreases_to!(*j => members@[i as int].1));
                }
                write_json(&members[i].1, out);
                proof {
                    let w = members_view(members@.take(i as int));
                    let m = (members@[i as int].0@, json_view(members@[i as int].1));
                    lemma_members_view_len(members@.take(i as int));
                    assert(members@.take(i + 1).drop_last() =~= members@.take(i as int));
                    assert(members_view(members@.take(i + 1)) == w.push(m));
                    lemma_write_members_push(w, m);
                    assert(out@ =~= start + write_members(members_view(members@.take(i + 1))));
                }
                i = i + 1;
            }
            assert(members@.take(members.len() as int) =~= members@);
            append_char(out, '}');
            assert(out@ =~= before + spec_write(json_view(*j)));
        },
    }
}

/// The JSON text of a value: `null`, `true`, `false`, integers in decimal,
/// floats as their text, strings quoted, arrays and objects with `,` between
/// items and `:` after keys, without spaces.
pub fn stringify(j: &Json) -> (r: String)
    ensures
        r@ == spec_write(json_view(*j)),
{
    let mut out = String::new();
    write_json(j, &mut out);
    assert(out@ =~= spec_write(json_view(*j)));
    out
}

/// A string written as a JSON string literal: quotes around it; `"`, `\`,
/// newline, tab and carriage return escaped with a backslash, other control
/// characters as `\u00xx`.
pub fn quoted(s: &str) -> (r: String)
    ensures
        r@ == spec_quote(s@),
{
    let cs = crate::text::chars_of(s);
    let mut out = String::new();
    append_char(&mut out, '"');
    let mut i: usize = 0;
    assert(cs@.take(0) =~= Seq::<char>::empty());
    while i < cs.len()
        invariant
            i <= cs.len(),
            cs@ == s@,
            out@ == seq!['"'] + escaped(cs@.take(i as int)),
        decreases cs.len() - i,
    {
        let c = cs[i];
        let ghost before = out@;
        if c == '"' {
            append_char(&mut out, '\\');
            append_char(&mut out, '"');
        } else if c == '\\' {
            append_char(&mut out, '\\');
            append_char(&mut out, '\\');
        } else if c == '\n' {
            append_char(&mut out, '\\');
            append_char(&mut out, 'n');
        } else if c == '\t' {
            append_char(&mut out, '\\');
            append_char(&mut out, 't');
        } else if c == '\r' {
            append_char(&mut out, '\\');
            append_char(&mut out, 'r');
        } else if (c as u32) < 0x20 {
            let v = c as u32;
            let hi = lower_hex_digit(v / 16);
            let lo = lower_hex_digit(v % 16);
            append_char(&mut out, '\\');
            append_char(&mut out, 'u');
            append_char(&mut out, '0');
            append_char(&mut out, '0');
            append_char(&mut out, hi);
            append_char(&mut out, lo);
            assert(out@ =~= before + escape_json(c));
        } else {
            append_char(&mut out, c);
        }
        assert(cs@.take(i + 1).drop_last() =~= cs@.take(i as int));
        assert(out@ =~= before + escape_json(c));
        i = i + 1;
    }
    assert(cs@.take(cs.len() as int) =~= cs@);
    append_char(&mut out, '"');
    out
}

fn lower_hex_digit(d: u32) -> (r: char)
    requires
        d < 16,
    ensures
        r == hex_lower(d as nat),
{
    if d < 10 {
        ((d as u8) + 48) as char
    } else {
        ((d as u8) + 87) as char
    }
}

} // verus!
