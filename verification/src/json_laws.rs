//! What the JSON writer and reader promise of each other: a value written
//! out reads back as the same value.
use vstd::prelude::*;
use crate::json::{
    escape_json, escaped, hex_lower, hex_value, int_of, is_jdigit, is_jws, j_array, j_expect, j_hex4, j_items,
    j_literal, j_members, j_number, j_object, j_str_body, j_string, j_value, jdigits, jws, lemma_jdigits, lemma_jws,
    simple_escape, spec_parse, spec_quote, spec_write, write_items, write_member, write_members, JsonV,
};
use crate::lexer::digits_value;
use crate::text::{decimal, decimal_int, digit_char};

verus! {

/// A float's text that reads back as that float: a JSON number with a
/// fraction or an exponent (or an integer too large for `i64`).
pub open spec fn float_text_ok(t: Seq<char>) -> bool {
    j_number(t, 0) == Ok::<(JsonV, nat), Seq<char>>((JsonV::Float(t), t.len()))
}

/// Every float of a value has a text that reads back as that float.
pub open spec fn json_ok(v: JsonV) -> bool
    decreases v, 1nat,
{
    match v {
        JsonV::Float(t) => float_text_ok(t),
        JsonV::Array(items) => items_ok(items),
        JsonV::Object(ms) => members_ok(ms),
        _ => true,
    }
}

/// Every item of an array satisfies `json_ok`.
pub open spec fn items_ok(items: Seq<JsonV>) -> bool
    decreases items, 0nat,
{
    items.len() == 0 || (json_ok(items[0]) && items_ok(items.drop_first()))
}

/// Every member value of an object satisfies `json_ok`.
pub open spec fn members_ok(ms: Seq<(Seq<char>, JsonV)>) -> bool
    decreases ms, 0nat,
{
    ms.len() == 0 || (json_ok(ms[0].1) && members_ok(ms.drop_first()))
}

/// The decimal text of a natural number: digits only, no leading zero, and
/// its value is the number.
proof fn lemma_decimal(n: nat)
    ensures
        decimal(n).len() > 0,
        forall|k: int| 0 <= k < decimal(n).len() ==> is_jdigit(#[trigger] decimal(n)[k]),
        n > 0 ==> decimal(n)[0] != '0',
        digits_value(decimal(n)) == n,
    decreases n,
{
    if n < 10 {
        assert(decimal(n) == seq![digit_char(n)]);
        assert(decimal(n).drop_last() =~= Seq::<char>::empty());
        assert((digit_char(n) as nat) == ('0' as nat) + n);
        assert(digits_value(Seq::<char>::empty()) == 0);
    } else {
        lemma_decimal(n / 10);
        let d = decimal(n / 10);
        assert(decimal(n) == d.push(digit_char(n % 10)));
        assert(decimal(n).drop_last() =~= d);
        assert(decimal(n)[0] == d[0]);
        assert(n / 10 > 0);
        assert((n / 10) * 10 + n % 10 == n);
        assert((digit_char(n % 10) as nat) == ('0' as nat) + n % 10);
    }
}

/// `jdigits` on a text `t` placed at `p` in `s`, where what follows `t` in
/// `s` is not a digit.
proof fn lemma_jdigits_frame(s: Seq<char>, t: Seq<char>, p: nat, x: nat)
    requires
        p + t.len() <= s.len(),
        forall|k: int| 0 <= k < t.len() ==> s[p + k] == #[trigger] t[k],
        p + t.len() == s.len() || !is_jdigit(s[(p + t.len()) as int]),
        x <= t.len(),
    ensures
        jdigits(s, p + x) == p + jdigits(t, x),
    decreases t.len() - x,
{
    if x < t.len() {
        assert(s[(p + x) as int] == t[x as int]);
        if is_jdigit(t[x as int]) {
            lemma_jdigits_frame(s, t, p, x + 1);
        }
    }
}

/// What may follow a number in a text: the end, or a character that is not
/// a digit, `.`, `e`, `E`, `+` or `-`.
pub open spec fn ends_number(s: Seq<char>, r: nat) -> bool {
    r == s.len() || (r < s.len() && !is_jdigit(s[r as int]) && s[r as int] != '.' && s[r as int] != 'e'
        && s[r as int] != 'E' && s[r as int] != '+' && s[r as int] != '-')
}

/// A number read on its own text `t` reads the same from `t` placed at `p`
/// in `s`, when what follows it there cannot continue a number.
#[verifier::rlimit(40)]
proof fn lemma_number_frame(s: Seq<char>, t: Seq<char>, p: nat)
    requires
        p + t.len() <= s.len(),
        forall|k: int| 0 <= k < t.len() ==> s[p + k] == #[trigger] t[k],
        ends_number(s, p + t.len()),
        j_number(t, 0) matches Ok((_, e)) && e == t.len(),
    ensures
        j_number(s, p) == (match j_number(t, 0) {
            Ok((x, e)) => Ok((x, p + e)),
            Err(m) => Err(m),
        }),
{
    let n = t.len();
    let p1: nat = if 0 < n && t[0] == '-' { 1 } else { 0 };
    assert(n > 0);
    assert(s[p as int] == t[0]);
    // the integer part
    if p1 < n && t[p1 as int] == '0' {
        assert(s[(p + p1) as int] == t[p1 as int]);
    } else {
        assert(p1 < n && is_jdigit(t[p1 as int]));
        assert(s[(p + p1) as int] == t[p1 as int]);
        lemma_jdigits_frame(s, t, p, p1);
        lemma_jdigits(t, p1);
    }
    let p2: nat = if p1 < n && t[p1 as int] == '0' { p1 + 1 } else { jdigits(t, p1) };
    assert(p2 <= n);
    // the fraction
    if p2 < n {
        assert(s[(p + p2) as int] == t[p2 as int]);
        if t[p2 as int] == '.' {
            assert(p2 + 1 < n);
            assert(s[(p + p2 + 1) as int] == t[p2 + 1int]);
            lemma_jdigits_frame(s, t, p, p2 + 1);
            lemma_jdigits(t, p2 + 1);
        }
    }
    let p3: nat = if p2 < n && t[p2 as int] == '.' { jdigits(t, p2 + 1) } else { p2 };
    assert(p3 <= n);
    // the exponent
    if p3 < n {
        assert(s[(p + p3) as int] == t[p3 as int]);
        if t[p3 as int] == 'e' || t[p3 as int] == 'E' {
            assert(p3 + 1 < n);
            assert(s[(p + p3 + 1) as int] == t[p3 + 1int]);
            let p4: nat = if t[p3 + 1int] == '+' || t[p3 + 1int] == '-' { p3 + 2 } else { p3 + 1 };
            assert(p4 < n);
            assert(s[(p + p4) as int] == t[p4 as int]);
            lemma_jdigits_frame(s, t, p, p4);
            lemma_jdigits(t, p4);
        }
    }
    assert(s.subrange(p as int, (p + n) as int) =~= t.subrange(0, n as int));
}

/// `jdigits` from `x` on a text of digits only reaches its end.
proof fn lemma_jdigits_to_end(t: Seq<char>, x: nat)
    requires
        x <= t.len(),
        forall|k: int| x <= k < t.len() ==> is_jdigit(#[trigger] t[k]),
    ensures
        jdigits(t, x) == t.len(),
    decreases t.len() - x,
{
    if x < t.len() {
        lemma_jdigits_to_end(t, x + 1);
    }
}

/// The decimal text of an integer reads back as that integer.
proof fn lemma_int_text(i: i64)
    ensures
        j_number(decimal_int(i as int), 0) == Ok::<(JsonV, nat), Seq<char>>(
            (JsonV::Int(i), decimal_int(i as int).len()),
        ),
{
    let t = decimal_int(i as int);
    assert(t.subrange(0, t.len() as int) =~= t);
    if i >= 0 {
        lemma_decimal(i as nat);
        assert(t == decimal(i as nat));
        if i == 0 {
            assert(t.len() == 1);
        } else {
            lemma_jdigits_to_end(t, 0);
        }
        assert(digits_value(t) == i);
    } else {
        let m = (-(i as int)) as nat;
        lemma_decimal(m);
        let d = decimal(m);
        assert(t == seq!['-'].add(d));
        assert(t[0] == '-');
        assert forall|k: int| 1 <= k < t.len() implies is_jdigit(#[trigger] t[k]) by {
            assert(t[k] == d[k - 1]);
        }
        assert(t[1] == d[0]);
        lemma_jdigits_to_end(t, 1);
        assert(t.drop_first() =~= d);
        assert(m <= 0x8000_0000_0000_0000);
    }
}

/// The escaped text of a string, read from its first character.
proof fn lemma_escaped_front(t: Seq<char>)
    requires
        t.len() > 0,
    ensures
        escaped(t) == escape_json(t[0]) + escaped(t.drop_first()),
    decreases t.len(),
{
    if t.len() == 1 {
        assert(t.drop_last() =~= Seq::<char>::empty());
        assert(t.drop_first() =~= Seq::<char>::empty());
        assert(escaped(Seq::<char>::empty()) == Seq::<char>::empty());
        assert(t.last() == t[0]);
        assert(escaped(t) == escaped(t.drop_last()) + escape_json(t.last()));
        assert(escaped(t) =~= escape_json(t[0]));
        assert(escape_json(t[0]) + escaped(t.drop_first()) =~= escape_json(t[0]));
    } else {
        lemma_escaped_front(t.drop_last());
        assert(t.drop_first().drop_last() =~= t.drop_last().drop_first());
        assert(t.drop_last()[0] == t[0]);
        assert(t.drop_first().last() == t.last());
        assert(escaped(t) =~= escape_json(t[0]) + escaped(t.drop_first()));
    }
}

/// A lower-case hexadecimal digit reads back as its value.
proof fn lemma_hex_lower(d: nat)
    requires
        d < 16,
    ensures
        hex_value(hex_lower(d)) == Some(d as u32),
{
}

/// The escape of one character, placed at `p` in `s`, reads back as the
/// character.
proof fn lemma_escape_step(s: Seq<char>, p: nat, c: char, acc: Seq<char>)
    requires
        p + escape_json(c).len() < s.len(),
        forall|k: int| 0 <= k < escape_json(c).len() ==> s[p + k] == #[trigger] escape_json(c)[k],
    ensures
        j_str_body(s, p, acc) == j_str_body(s, p + escape_json(c).len(), acc.push(c)),
{
    let e = escape_json(c);
    assert(s[p as int] == e[0]);
    if c == '"' || c == '\\' || c == '\n' || c == '\t' || c == '\r' {
        assert(s[p + 1int] == e[1]);
    } else if (c as u32) < 0x20 {
        let v = c as u32;
        let hi = (v / 16) as nat;
        let lo = (v % 16) as nat;
        assert(s[p + 1int] == e[1]);
        assert(s[p + 2int] == e[2]);
        assert(s[p + 3int] == e[3]);
        assert(s[p + 4int] == e[4]);
        assert(s[p + 5int] == e[5]);
        assert(simple_escape('u') is None);
        lemma_hex_lower(hi);
        lemma_hex_lower(lo);
        lemma_hex_lower(0);
        assert(j_hex4(s, p + 6, 4, (hi * 16 + lo) as u32) == Ok::<(u32, nat), Seq<char>>(((hi * 16 + lo) as u32, p + 6)));
        assert(j_hex4(s, p + 5, 3, hi as u32) == j_hex4(s, p + 6, 4, (hi * 16 + lo) as u32));
        assert(j_hex4(s, p + 4, 2, 0) == j_hex4(s, p + 5, 3, hi as u32));
        assert(j_hex4(s, p + 3, 1, 0) == j_hex4(s, p + 4, 2, 0));
        assert(j_hex4(s, p + 2, 0, 0) == j_hex4(s, p + 3, 1, 0));
        assert(hi * 16 + lo == v);
        assert((v as char) == c);
    } else {
    }
}

/// The escaped text of a string, followed by a quote, read from `p`.
proof fn lemma_str_body_frame(s: Seq<char>, p: nat, t: Seq<char>, acc: Seq<char>)
    requires
        p + escaped(t).len() < s.len(),
        forall|k: int| 0 <= k < escaped(t).len() ==> s[p + k] == #[trigger] escaped(t)[k],
        s[(p + escaped(t).len()) as int] == '"',
    ensures
        j_str_body(s, p, acc) == Ok::<(Seq<char>, nat), Seq<char>>((acc + t, p + escaped(t).len() + 1)),
    decreases t.len(),
{
    if t.len() == 0 {
        assert(escaped(t) == Seq::<char>::empty());
        assert(acc + t =~= acc);
    } else {
        let c = t[0];
        let e = escape_json(c);
        let rest = t.drop_first();
        lemma_escaped_front(t);
        assert forall|k: int| 0 <= k < e.len() implies s[p + k] == #[trigger] e[k] by {
            assert(escaped(t)[k] == e[k]);
        }
        lemma_escape_step(s, p, c, acc);
        assert forall|k: int| 0 <= k < escaped(rest).len() implies s[p + e.len() + k] == #[trigger] escaped(rest)[k] by {
            assert(escaped(t)[e.len() + k] == escaped(rest)[k]);
        }
        lemma_str_body_frame(s, p + e.len(), rest, acc.push(c));
        assert(acc.push(c) + rest =~= acc + t);
    }
}

/// A quoted string placed at `p` in `s` reads back as the string.
proof fn lemma_string_frame(s: Seq<char>, p: nat, t: Seq<char>)
    requires
        p + spec_quote(t).len() <= s.len(),
        forall|k: int| 0 <= k < spec_quote(t).len() ==> s[p + k] == #[trigger] spec_quote(t)[k],
    ensures
        j_string(s, p) == Ok::<(Seq<char>, nat), Seq<char>>((t, p + spec_quote(t).len())),
{
    let q = spec_quote(t);
    let e = escaped(t);
    assert(s[p as int] == q[0]);
    assert forall|k: int| 0 <= k < e.len() implies s[p + 1 + k] == #[trigger] e[k] by {
        assert(q[1 + k] == e[k]);
    }
    assert(s[(p + 1 + e.len()) as int] == q[(1 + e.len()) as int]);
    lemma_str_body_frame(s, p + 1, t, Seq::empty());
    assert(Seq::<char>::empty() + t =~= t);
}

/// A character a written value can start with.
pub open spec fn starts_value(c: char) -> bool {
    c == 'n' || c == 't' || c == 'f' || c == '"' || c == '[' || c == '{' || c == '-' || is_jdigit(c)
}

/// A written value is not empty and starts with a character that opens a
/// value.
proof fn lemma_write_first(v: JsonV)
    requires
        json_ok(v),
    ensures
        spec_write(v).len() > 0,
        starts_value(spec_write(v)[0]),
{
    match v {
        JsonV::Int(i) => {
            if i >= 0 {
                lemma_decimal(i as nat);
            } else {
                lemma_decimal((-(i as int)) as nat);
            }
        },
        JsonV::Float(t) => {},
        JsonV::Str(t) => {},
        JsonV::Array(items) => {},
        JsonV::Object(ms) => {},
        _ => {},
    }
}

/// The items of an array written, read from the first.
proof fn lemma_write_items_front(w: Seq<JsonV>)
    requires
        w.len() > 0,
    ensures
        write_items(w) == if w.len() == 1 {
            spec_write(w[0])
        } else {
            spec_write(w[0]) + seq![','] + write_items(w.drop_first())
        },
    decreases w.len(),
{
    if w.len() > 2 {
        lemma_write_items_front(w.drop_last());
        assert(w.drop_first().drop_last() =~= w.drop_last().drop_first());
        assert(w.drop_last()[0] == w[0]);
        assert(w.drop_first().last() == w.last());
        let a = spec_write(w[0]);
        let m = write_items(w.drop_last().drop_first());
        let z = spec_write(w.last());
        assert(write_items(w) == write_items(w.drop_last()) + seq![','] + z);
        assert(write_items(w.drop_last()) == a + seq![','] + m);
        assert(write_items(w.drop_first()) == m + seq![','] + z);
        assert(write_items(w) =~= a + seq![','] + (m + seq![','] + z));
    } else if w.len() == 2 {
        assert(w.drop_last() =~= seq![w[0]]);
        assert(w.drop_first() =~= seq![w[1]]);
        assert(w.drop_first()[0] == w.last());
        assert(write_items(w.drop_last()) == spec_write(w[0]));
        assert(write_items(w.drop_first()) == spec_write(w[1]));
        assert(write_items(w) == write_items(w.drop_last()) + seq![','] + spec_write(w.last()));
    }
}

/// The members of an object written, read from the first.
proof fn lemma_write_members_front(w: Seq<(Seq<char>, JsonV)>)
    requires
        w.len() > 0,
    ensures
        write_members(w) == if w.len() == 1 {
            write_member(w[0])
        } else {
            write_member(w[0]) + seq![','] + write_members(w.drop_first())
        },
    decreases w.len(),
{
    if w.len() > 2 {
        lemma_write_members_front(w.drop_last());
        assert(w.drop_first().drop_last() =~= w.drop_last().drop_first());
        assert(w.drop_last()[0] == w[0]);
        assert(w.drop_first().last() == w.last());
        let a = write_member(w[0]);
        let m = write_members(w.drop_last().drop_first());
        let z = write_member(w.last());
        assert(write_members(w) == write_members(w.drop_last()) + seq![','] + z);
        assert(write_members(w.drop_last()) == a + seq![','] + m);
        assert(write_members(w.drop_first()) == m + seq![','] + z);
        assert(write_members(w) =~= a + seq![','] + (m + seq![','] + z));
    } else if w.len() == 2 {
        assert(w.drop_last() =~= seq![w[0]]);
        assert(w.drop_first() =~= seq![w[1]]);
        assert(w.drop_first()[0] == w.last());
        assert(write_members(w.drop_last()) == write_member(w[0]));
        assert(write_members(w.drop_first()) == write_member(w[1]));
        assert(write_members(w) == write_members(w.drop_last()) + seq![','] + write_member(w.last()));
    }
}

/// A literal placed at `p` in `s` is read from its `i`-th character on.
proof fn lemma_literal_frame(s: Seq<char>, p: nat, lit: Seq<char>, i: nat)
    requires
        i <= lit.len(),
        p + lit.len() - i <= s.len(),
        forall|k: int| i <= k < lit.len() ==> s[p + k - i] == #[trigger] lit[k],
    ensures
        j_literal(s, p, lit, i) == Ok::<nat, Seq<char>>((p + lit.len() - i) as nat),
    decreases lit.len() - i,
{
    if i < lit.len() {
        assert(s[p as int] == lit[i as int]);
        lemma_literal_frame(s, p + 1, lit, i + 1);
    }
}

/// `s` holds `t` at position `p`.
pub open spec fn holds_at(s: Seq<char>, p: nat, t: Seq<char>) -> bool {
    p + t.len() <= s.len() && forall|k: int| 0 <= k < t.len() ==> s[p + k] == #[trigger] t[k]
}

/// What may follow a value in a written text: the end, `,`, `]` or `}`.
pub open spec fn ends_value(s: Seq<char>, r: nat) -> bool {
    r == s.len() || (r < s.len() && (s[r as int] == ',' || s[r as int] == ']' || s[r as int] == '}'))
}

proof fn lemma_holds_split(s: Seq<char>, p: nat, a: Seq<char>, b: Seq<char>)
    requires
        holds_at(s, p, a + b),
    ensures
        holds_at(s, p, a),
        holds_at(s, p + a.len(), b),
{
    assert forall|k: int| 0 <= k < a.len() implies s[p + k] == #[trigger] a[k] by {
        assert((a + b)[k] == a[k]);
    }
    assert forall|k: int| 0 <= k < b.len() implies s[p + a.len() + k] == #[trigger] b[k] by {
        assert((a + b)[a.len() + k] == b[k]);
    }
}

/// A written value placed at `p` in `s`, followed by the end or by `,`,
/// `]` or `}`, reads back as the value.
#[verifier::spinoff_prover]
#[verifier::rlimit(60)]
proof fn lemma_value_frame(s: Seq<char>, p: nat, v: JsonV)
    requires
        json_ok(v),
        holds_at(s, p, spec_write(v)),
        ends_value(s, p + spec_write(v).len()),
    ensures
        j_value(s, p) == Ok::<(JsonV, nat), Seq<char>>((v, p + spec_write(v).len())),
    decreases v, 2nat,
{
    let w = spec_write(v);
    lemma_write_first(v);
    assert(s[(p + 0) as int] == w[0]);
    assert(jws(s, p) == p);
    match v {
        JsonV::Null => {
            lemma_literal_frame(s, p, seq!['n', 'u', 'l', 'l'], 0);
        },
        JsonV::Bool(b) => {
            if b {
                lemma_literal_frame(s, p, seq!['t', 'r', 'u', 'e'], 0);
            } else {
                lemma_literal_frame(s, p, seq!['f', 'a', 'l', 's', 'e'], 0);
            }
        },
        JsonV::Int(i) => {
            lemma_int_text(i);
            lemma_number_frame(s, decimal_int(i as int), p);
        },
        JsonV::Float(t) => {
            lemma_number_frame(s, t, p);
        },
        JsonV::Str(t) => {
            lemma_string_frame(s, p, t);
        },
        JsonV::Array(items) => {
            lemma_array_frame(s, p, items);
        },
        JsonV::Object(ms) => {
            lemma_object_frame(s, p, ms);
        },
    }
}

/// A written array placed at `p` in `s` reads back as the array.
proof fn lemma_array_frame(s: Seq<char>, p: nat, items: Seq<JsonV>)
    requires
        items_ok(items),
        holds_at(s, p, seq!['['] + write_items(items) + seq![']']),
    ensures
        j_array(s, p) == Ok::<(JsonV, nat), Seq<char>>(
            (JsonV::Array(items), p + write_items(items).len() + 2),
        ),
    decreases items, 1nat,
{
    let wi = write_items(items);
    lemma_holds_split(s, p, seq!['['] + wi, seq![']']);
    lemma_holds_split(s, p, seq!['['], wi);
    assert(seq!['['][0] == '[');
    assert(seq![']'][0] == ']');
    assert((seq!['['] + wi).len() == 1 + wi.len());
    assert(s[(p + 0) as int] == '[');
    assert(s[(p + 1 + wi.len()) as int] == ']');
    if items.len() == 0 {
        assert(wi.len() == 0);
        assert(jws(s, p + 1) == p + 1);
        assert(items =~= Seq::<JsonV>::empty());
    } else {
        lemma_write_items_front(items);
        lemma_write_first(items[0]);
        assert(s[(p + 1 + 0) as int] == wi[0]);
        assert(wi[0] == spec_write(items[0])[0]);
        assert(jws(s, p + 1) == p + 1);
        lemma_items_frame(s, p + 1, items, Seq::empty());
        assert(Seq::<JsonV>::empty() + items =~= items);
    }
}

/// The written items of an array placed at `x` in `s`, followed by `]`,
/// read back as the items after those in `acc`.
proof fn lemma_items_frame(s: Seq<char>, x: nat, items: Seq<JsonV>, acc: Seq<JsonV>)
    requires
        items.len() > 0,
        items_ok(items),
        holds_at(s, x, write_items(items)),
        x + write_items(items).len() < s.len(),
        s[(x + write_items(items).len()) as int] == ']',
    ensures
        j_items(s, x, acc) == Ok::<(JsonV, nat), Seq<char>>(
            (JsonV::Array(acc + items), x + write_items(items).len() + 1),
        ),
    decreases items, 0nat,
{
    let wi = write_items(items);
    let w0 = spec_write(items[0]);
    lemma_write_items_front(items);
    lemma_write_first(items[0]);
    let r = x + w0.len();
    if items.len() == 1 {
        lemma_value_frame(s, x, items[0]);
        assert(jws(s, r) == r);
        assert(acc.push(items[0]) =~= acc + items);
    } else {
        let rest = items.drop_first();
        let wr = write_items(rest);
        lemma_holds_split(s, x, w0 + seq![','], wr);
        lemma_holds_split(s, x, w0, seq![',']);
        assert(seq![','][0] == ',');
        assert((w0 + seq![',']).len() == w0.len() + 1);
        assert(s[(r + 0) as int] == ',');
        lemma_value_frame(s, x, items[0]);
        assert(jws(s, r) == r);
        lemma_write_items_front(rest);
        assert(items_ok(rest));
        assert(json_ok(rest[0]));
        lemma_write_first(rest[0]);
        assert(s[(r + 1 + 0) as int] == wr[0]);
        assert(wr[0] == spec_write(rest[0])[0]);
        assert(jws(s, r + 1) == r + 1);
        lemma_items_frame(s, r + 1, rest, acc.push(items[0]));
        assert(acc.push(items[0]) + rest =~= acc + items);
    }
}

/// A written object placed at `p` in `s` reads back as the object.
proof fn lemma_object_frame(s: Seq<char>, p: nat, ms: Seq<(Seq<char>, JsonV)>)
    requires
        members_ok(ms),
        holds_at(s, p, seq!['{'] + write_members(ms) + seq!['}']),
    ensures
        j_object(s, p) == Ok::<(JsonV, nat), Seq<char>>(
            (JsonV::Object(ms), p + write_members(ms).len() + 2),
        ),
    decreases ms, 1nat,
{
    let wm = write_members(ms);
    lemma_holds_split(s, p, seq!['{'] + wm, seq!['}']);
    lemma_holds_split(s, p, seq!['{'], wm);
    assert(seq!['{'][0] == '{');
    assert(seq!['}'][0] == '}');
    assert((seq!['{'] + wm).len() == 1 + wm.len());
    assert(s[(p + 0) as int] == '{');
    assert(s[(p + 1 + wm.len()) as int] == '}');
    if ms.len() == 0 {
        assert(wm.len() == 0);
        assert(jws(s, p + 1) == p + 1);
        assert(ms =~= Seq::<(Seq<char>, JsonV)>::empty());
    } else {
        lemma_write_members_front(ms);
        assert(s[(p + 1 + 0) as int] == wm[0]);
        assert(wm[0] == '"');
        assert(jws(s, p + 1) == p + 1);
        lemma_members_frame(s, p + 1, ms, Seq::empty());
        assert(Seq::<(Seq<char>, JsonV)>::empty() + ms =~= ms);
    }
}

/// The written members of an object placed at `x` in `s`, followed by
/// `}`, read back as the members after those in `acc`.
proof fn lemma_members_frame(s: Seq<char>, x: nat, ms: Seq<(Seq<char>, JsonV)>, acc: Seq<(Seq<char>, JsonV)>)
    requires
        ms.len() > 0,
        members_ok(ms),
        holds_at(s, x, write_members(ms)),
        x + write_members(ms).len() < s.len(),
        s[(x + write_members(ms).len()) as int] == '}',
    ensures
        j_members(s, x, acc) == Ok::<(JsonV, nat), Seq<char>>(
            (JsonV::Object(acc + ms), x + write_members(ms).len() + 1),
        ),
    decreases ms, 0nat,
{
    let wm = write_members(ms);
    let m0 = ms[0];
    let q = spec_quote(m0.0);
    let wv = spec_write(m0.1);
    let w0 = write_member(m0);
    lemma_write_members_front(ms);
    lemma_write_first(m0.1);
    assert(w0 == q + seq![':'] + wv);
    let r1 = x + q.len();
    let r3 = r1 + 1;
    let r4 = r3 + wv.len();
    assert(w0.len() == q.len() + 1 + wv.len());
    if ms.len() == 1 {
        lemma_holds_split(s, x, q + seq![':'], wv);
        lemma_holds_split(s, x, q, seq![':']);
    } else {
        let rest = ms.drop_first();
        lemma_holds_split(s, x, w0 + seq![','], write_members(rest));
        lemma_holds_split(s, x, w0, seq![',']);
        lemma_holds_split(s, x, q + seq![':'], wv);
        lemma_holds_split(s, x, q, seq![':']);
        assert(seq![','][0] == ',');
        assert((w0 + seq![',']).len() == w0.len() + 1);
        assert(s[(r4 + 0) as int] == ',');
    }
    assert(seq![':'][0] == ':');
    assert((q + seq![':']).len() == q.len() + 1);
    assert(s[(x + 0) as int] == q[0]);
    assert(jws(s, x) == x);
    lemma_string_frame(s, x, m0.0);
    assert(s[(r1 + 0) as int] == ':');
    assert(jws(s, r1) == r1);
    assert(j_expect(s, r1, ':') == Ok::<nat, Seq<char>>(r3));
    assert(decreases_to!(ms => ms[0]));
    assert(decreases_to!(ms[0] => ms[0].1));
    lemma_value_frame(s, r3, m0.1);
    assert(jws(s, r4) == r4);
    if ms.len() == 1 {
        assert(acc.push(m0) =~= acc + ms);
    } else {
        let rest = ms.drop_first();
        let wr = write_members(rest);
        lemma_write_members_front(rest);
        assert(s[(r4 + 1 + 0) as int] == wr[0]);
        assert(wr[0] == '"');
        assert(jws(s, r4 + 1) == r4 + 1);
        lemma_members_frame(s, r4 + 1, rest, acc.push(m0));
        assert(acc.push(m0) + rest =~= acc + ms);
    }
}

/// A value written out reads back as the same value, whenever the text of
/// each of its floats reads back as that float.
pub proof fn lemma_write_then_read(v: JsonV)
    requires
        json_ok(v),
    ensures
        spec_parse(spec_write(v)) == Ok::<JsonV, Seq<char>>(v),
{
    let w = spec_write(v);
    lemma_value_frame(w, 0, v);
}

/// `jdigits` from `x` stops at `k` when the characters from `x` up to `k`
/// are digits and the one at `k` is not.
proof fn lemma_jdigits_to(t: Seq<char>, x: nat, k: nat)
    requires
        x <= k < t.len(),
        forall|i: int| x <= i < k ==> is_jdigit(#[trigger] t[i]),
        !is_jdigit(t[k as int]),
    ensures
        jdigits(t, x) == k,
    decreases k - x,
{
    if x < k {
        lemma_jdigits_to(t, x + 1, k);
    }
}

/// A float written in decimal with its point at `k`: an optional `-`, an
/// integer part without a leading zero (unless it is `0`), `.`, and one or
/// more digits.
pub open spec fn decimal_float_at(t: Seq<char>, k: int) -> bool {
    let p1: int = if t.len() > 0 && t[0] == '-' { 1 } else { 0 };
    &&& p1 < k < t.len() - 1
    &&& t[k] == '.'
    &&& forall|i: int| p1 <= i < k ==> is_jdigit(#[trigger] t[i])
    &&& forall|i: int| k < i < t.len() ==> is_jdigit(#[trigger] t[i])
    &&& (k - p1 == 1 || t[p1] != '0')
}

/// A float written in decimal with a point (`-12.5`, `0.25`, `3.0`).
pub open spec fn decimal_float_text(t: Seq<char>) -> bool {
    exists|k: int| decimal_float_at(t, k)
}

/// A float written in decimal with a point reads back as that float.
pub proof fn lemma_decimal_float_reads_back(t: Seq<char>)
    requires
        decimal_float_text(t),
    ensures
        float_text_ok(t),
{
    let k = choose|k: int| decimal_float_at(t, k);
    let p1: nat = if t.len() > 0 && t[0] == '-' { 1 } else { 0 };
    if t[p1 as int] != '0' {
        lemma_jdigits_to(t, p1, k as nat);
    }
    assert(!is_jdigit(t[k]));
    lemma_jdigits_to_end(t, (k + 1) as nat);
    assert(t.subrange(0, t.len() as int) =~= t);
}

/// Every float of a value is written in decimal with a point.
pub open spec fn decimal_floats(v: JsonV) -> bool
    decreases v, 1nat,
{
    match v {
        JsonV::Float(t) => decimal_float_text(t),
        JsonV::Array(items) => items_decimal(items),
        JsonV::Object(ms) => members_decimal(ms),
        _ => true,
    }
}

/// Every item satisfies `decimal_floats`.
pub open spec fn items_decimal(items: Seq<JsonV>) -> bool
    decreases items, 0nat,
{
    items.len() == 0 || (decimal_floats(items[0]) && items_decimal(items.drop_first()))
}

/// Every member value satisfies `decimal_floats`.
pub open spec fn members_decimal(ms: Seq<(Seq<char>, JsonV)>) -> bool
    decreases ms, 0nat,
{
    ms.len() == 0 || (decimal_floats(ms[0].1) && members_decimal(ms.drop_first()))
}

proof fn lemma_decimal_ok(v: JsonV)
    requires
        decimal_floats(v),
    ensures
        json_ok(v),
    decreases v, 1nat,
{
    match v {
        JsonV::Float(t) => lemma_decimal_float_reads_back(t),
        JsonV::Array(items) => lemma_items_decimal_ok(items),
        JsonV::Object(ms) => lemma_members_decimal_ok(ms),
        _ => {},
    }
}

proof fn lemma_items_decimal_ok(items: Seq<JsonV>)
    requires
        items_decimal(items),
    ensures
        items_ok(items),
    decreases items, 0nat,
{
    if items.len() > 0 {
        lemma_decimal_ok(items[0]);
        lemma_items_decimal_ok(items.drop_first());
    }
}

proof fn lemma_members_decimal_ok(ms: Seq<(Seq<char>, JsonV)>)
    requires
        members_decimal(ms),
    ensures
        members_ok(ms),
    decreases ms, 0nat,
{
    if ms.len() > 0 {
        assert(decreases_to!(ms => ms[0]));
        assert(decreases_to!(ms[0] => ms[0].1));
        lemma_decimal_ok(ms[0].1);
        lemma_members_decimal_ok(ms.drop_first());
    }
}

/// A value whose floats are written in decimal with a point (as the
/// machine writes them) is read back as itself.
pub proof fn lemma_decimal_write_then_read(v: JsonV)
    requires
        decimal_floats(v),
    ensures
        spec_parse(spec_write(v)) == Ok::<JsonV, Seq<char>>(v),
{
    lemma_decimal_ok(v);
    lemma_write_then_read(v);
}

/// One of the four characters that JSON counts as whitespace: space, tab,
/// line feed and carriage return.
pub open spec fn ws_char(c: char) -> bool {
    c == ' ' || c == '\t' || c == '\n' || c == '\r'
}

/// Skipping whitespace from `p` passes exactly the run of spaces, tabs, line
/// feeds and carriage returns that starts at `p`: every character passed is
/// one of the four, and the character where it stops, if any, is none of
/// them.
pub proof fn lemma_whitespace_run(s: Seq<char>, p: nat)
    requires
        p <= s.len(),
    ensures
        p <= jws(s, p) <= s.len(),
        forall|i: int| p <= i < jws(s, p) ==> ws_char(#[trigger] s[i]),
        jws(s, p) < s.len() ==> !ws_char(s[jws(s, p) as int]),
    decreases s.len() - p,
{
    if p < s.len() && is_jws(s[p as int]) {
        lemma_whitespace_run(s, p + 1);
    }
}

/// Where every character from `p` to the end is JSON whitespace, skipping
/// whitespace from `p` reaches the end.
proof fn lemma_whitespace_to_end(s: Seq<char>, p: nat)
    requires
        p <= s.len(),
        forall|i: int| p <= i < s.len() ==> ws_char(#[trigger] s[i]),
    ensures
        jws(s, p) == s.len(),
    decreases s.len() - p,
{
    if p < s.len() {
        lemma_whitespace_to_end(s, p + 1);
    }
}

/// A space, tab, line feed or carriage return in front of a value changes
/// nothing: the value read at its position is the value read just after
/// it, with the same end.
pub proof fn lemma_value_skips_whitespace(s: Seq<char>, p: nat)
    requires
        p < s.len(),
        ws_char(s[p as int]),
    ensures
        j_value(s, p) == j_value(s, p + 1),
{
    assert(jws(s, p) == jws(s, p + 1));
}

/// Whitespace after the root value is accepted: where a value is read from
/// the start of the text and only spaces, tabs, line feeds and carriage
/// returns follow it, the text parses as that value.
pub proof fn lemma_trailing_whitespace(s: Seq<char>, v: JsonV, r: nat)
    requires
        j_value(s, 0) == Ok::<(JsonV, nat), Seq<char>>((v, r)),
        r <= s.len(),
        forall|i: int| r <= i < s.len() ==> ws_char(#[trigger] s[i]),
    ensures
        spec_parse(s) == Ok::<JsonV, Seq<char>>(v),
{
    lemma_whitespace_to_end(s, r);
}


/// How the characters of a JSON string are read: a quote ends the string,
/// a backslash and one of `"`, `\`, `/`, `n`, `t`, `r`, `b`, `f` stand for
/// a quote, a backslash, a slash, a line feed, a tab, a carriage return, a
/// backspace (U+0008) and a form feed (U+000C), and any other character
/// stands for itself.
pub proof fn lemma_string_escapes(s: Seq<char>, p: nat, acc: Seq<char>)
    requires
        p < s.len(),
    ensures
        s[p as int] == '"' ==> j_str_body(s, p, acc) == Ok::<(Seq<char>, nat), Seq<char>>((acc, p + 1)),
        s[p as int] != '"' && s[p as int] != '\\' ==> j_str_body(s, p, acc) == j_str_body(s, p + 1, acc.push(s[p as int])),
        s[p as int] == '\\' && p + 1 < s.len() ==> {
            let e = s[p + 1int];
            &&& e == '"' ==> j_str_body(s, p, acc) == j_str_body(s, p + 2, acc.push('"'))
            &&& e == '\\' ==> j_str_body(s, p, acc) == j_str_body(s, p + 2, acc.push('\\'))
            &&& e == '/' ==> j_str_body(s, p, acc) == j_str_body(s, p + 2, acc.push('/'))
            &&& e == 'n' ==> j_str_body(s, p, acc) == j_str_body(s, p + 2, acc.push('\n'))
            &&& e == 't' ==> j_str_body(s, p, acc) == j_str_body(s, p + 2, acc.push('\t'))
            &&& e == 'r' ==> j_str_body(s, p, acc) == j_str_body(s, p + 2, acc.push('\r'))
            &&& e == 'b' ==> j_str_body(s, p, acc) == j_str_body(s, p + 2, acc.push('\u{8}'))
            &&& e == 'f' ==> j_str_body(s, p, acc) == j_str_body(s, p + 2, acc.push('\u{c}'))
        },
{
}


/// Reading a literal's characters from the `i`-th on ends just after them.
proof fn lemma_literal_advances(s: Seq<char>, p: nat, lit: Seq<char>, i: nat)
    requires
        i <= lit.len(),
    ensures
        j_literal(s, p, lit, i) matches Ok(r) ==> r == p + (lit.len() - i),
    decreases lit.len() - i,
{
    if i < lit.len() {
        if let Ok(q) = j_expect(s, p, lit[i as int]) {
            lemma_literal_advances(s, q, lit, i + 1);
        }
    }
}

/// Reading the rest of a string ends after its start.
proof fn lemma_str_body_advances(s: Seq<char>, p: nat, acc: Seq<char>)
    ensures
        j_str_body(s, p, acc) matches Ok((_, r)) ==> r > p,
    decreases s.len() - p,
{
    if p < s.len() {
        let c = s[p as int];
        if c == '\\' && p + 1 < s.len() {
            let e = s[p + 1int];
            match simple_escape(e) {
                Some(x) => lemma_str_body_advances(s, p + 2, acc.push(x)),
                None => if e == 'u' {
                    if let Ok((cp, q)) = j_hex4(s, p + 2, 0, 0) {
                        if !(0xD800 <= cp && cp <= 0xDFFF) && !(q <= p || q > s.len()) {
                            lemma_str_body_advances(s, q, acc.push(cp as char));
                        }
                    }
                },
            }
        } else if c != '"' && c != '\\' {
            lemma_str_body_advances(s, p + 1, acc.push(c));
        }
    }
}

/// Reading the items of an array ends after where it started.
proof fn lemma_items_advances(s: Seq<char>, p: nat, acc: Seq<JsonV>)
    ensures
        j_items(s, p, acc) matches Ok((_, r)) ==> r > p,
    decreases s.len() - p,
{
    if let Ok((v, r)) = j_value(s, p) {
        if r > p {
            lemma_jws(s, r);
            let q = jws(s, r);
            if q < s.len() && s[q as int] == ',' {
                lemma_items_advances(s, q + 1, acc.push(v));
            }
        }
    }
}

/// Reading the members of an object ends after where it started.
proof fn lemma_members_advances(s: Seq<char>, p: nat, acc: Seq<(Seq<char>, JsonV)>)
    ensures
        j_members(s, p, acc) matches Ok((_, r)) ==> r > p,
    decreases s.len() - p,
{
    let k0 = jws(s, p);
    if let Ok((key, r1)) = j_string(s, k0) {
        let r2 = jws(s, r1);
        if let Ok(r3) = j_expect(s, r2, ':') {
            if r3 > p {
                if let Ok((v, r4)) = j_value(s, r3) {
                    if r4 > p {
                        lemma_jws(s, r4);
                        let q = jws(s, r4);
                        if q < s.len() && s[q as int] == ',' {
                            lemma_members_advances(s, q + 1, acc.push((key, v)));
                        }
                    }
                }
            }
        }
    }
}

/// A value read at `p` ends after the whitespace in front of it.
proof fn lemma_value_advances(s: Seq<char>, p: nat)
    ensures
        j_value(s, p) matches Ok((_, r)) ==> r > jws(s, p),
{
    lemma_jws(s, p);
    let q = jws(s, p);
    if q < s.len() {
        let c = s[q as int];
        if c == 'n' {
            lemma_literal_advances(s, q, seq!['n', 'u', 'l', 'l'], 0);
        } else if c == 't' {
            lemma_literal_advances(s, q, seq!['t', 'r', 'u', 'e'], 0);
        } else if c == 'f' {
            lemma_literal_advances(s, q, seq!['f', 'a', 'l', 's', 'e'], 0);
        } else if c == '"' {
            lemma_str_body_advances(s, q + 1, Seq::empty());
        } else if c == '[' {
            lemma_jws(s, q + 1);
            lemma_items_advances(s, q + 1, Seq::empty());
        } else if c == '{' {
            lemma_jws(s, q + 1);
            lemma_members_advances(s, q + 1, Seq::empty());
        } else if c == '-' || is_jdigit(c) {
            let p1: nat = if s[q as int] == '-' { q + 1 } else { q };
            if p1 < s.len() {
                lemma_jdigits(s, p1 + 1);
            }
            let p2: nat = if p1 < s.len() && s[p1 as int] == '0' {
                p1 + 1
            } else {
                jdigits(s, p1)
            };
            lemma_jdigits(s, p2 + 1);
            let p3: nat = if p2 < s.len() && s[p2 as int] == '.' { jdigits(s, p2 + 1) } else { p2 };
            lemma_jdigits(s, p3 + 1);
            lemma_jdigits(s, p3 + 2);
        }
    }
}

/// Whitespace in front of an array item is skipped: the items read from a
/// space, tab, line feed or carriage return are the items read just after
/// it, with the same end.
pub proof fn lemma_items_skip_whitespace(s: Seq<char>, p: nat, acc: Seq<JsonV>)
    requires
        p < s.len(),
        ws_char(s[p as int]),
    ensures
        j_items(s, p, acc) == j_items(s, p + 1, acc),
{
    lemma_value_skips_whitespace(s, p);
    lemma_value_advances(s, p + 1);
    lemma_jws(s, p + 1);
}

/// Whitespace in front of an object member is skipped: the members read
/// from a space, tab, line feed or carriage return are the members read
/// just after it, with the same end.
pub proof fn lemma_members_skip_whitespace(s: Seq<char>, p: nat, acc: Seq<(Seq<char>, JsonV)>)
    requires
        p < s.len(),
        ws_char(s[p as int]),
    ensures
        j_members(s, p, acc) == j_members(s, p + 1, acc),
{
    assert(jws(s, p) == jws(s, p + 1));
    lemma_jws(s, p + 1);
    let k0 = jws(s, p);
    if let Ok((key, r1)) = j_string(s, k0) {
        lemma_str_body_advances(s, k0 + 1, Seq::empty());
        lemma_jws(s, r1);
        let r2 = jws(s, r1);
        if let Ok(r3) = j_expect(s, r2, ':') {
            lemma_value_advances(s, r3);
            lemma_jws(s, r3);
        }
    }
}

} // verus!
