//! The computations of the builtin functions on plain values: integer
//! ranges and powers, and the string functions. The machine picks the
//! builtin and checks the types of its arguments; these functions compute
//! the result.
use vstd::prelude::*;
use crate::ast::names_view;
use crate::lexer::digits_value;
use crate::text::{chars_of, decimal_int, i64_to_string, push_char, push_str, string_of};

verus! {

// ------------------------------------------------------------------ searching

/// `sub` occurs in `s` at position `i`.
pub open spec fn occurs_at(s: Seq<char>, sub: Seq<char>, i: int) -> bool {
    0 <= i && i + sub.len() <= s.len() && s.subrange(i, i + sub.len()) == sub
}

/// Whether `sub` occurs in `s`.
pub open spec fn contains_text(s: Seq<char>, sub: Seq<char>) -> bool {
    exists|i: int| occurs_at(s, sub, i)
}

/// Whether `sub` occurs in `cs` at `i`.
fn occurs(cs: &Vec<char>, sub: &Vec<char>, i: usize) -> (r: bool)
    ensures
        r == occurs_at(cs@, sub@, i as int),
{
    if i > cs.len() || sub.len() > cs.len() - i {
        return false;
    }
    let mut k: usize = 0;
    while k < sub.len()
        invariant
            i + sub.len() <= cs.len(),
            k <= sub.len(),
            forall|j: int| 0 <= j < k ==> cs@[i + j] == sub@[j],
        decreases sub.len() - k,
    {
        if cs[i + k] != sub[k] {
            assert(cs@.subrange(i as int, i + sub.len())[k as int] != sub@[k as int]);
            return false;
        }
        k = k + 1;
    }
    assert(cs@.subrange(i as int, i + sub.len()) =~= sub@);
    true
}

/// Whether `sub` occurs in `s` (an empty `sub` occurs everywhere).
pub fn str_contains(s: &str, sub: &str) -> (r: bool)
    ensures
        r == contains_text(s@, sub@),
{
    let cs = chars_of(s);
    let ss = chars_of(sub);
    if ss.len() > cs.len() {
        assert forall|i: int| !occurs_at(s@, sub@, i) by {}
        return false;
    }
    let last = cs.len() - ss.len();
    let mut i: usize = 0;
    while i < last
        invariant
            cs@ == s@,
            ss@ == sub@,
            last == cs.len() - ss.len(),
            i <= last,
            forall|j: int| 0 <= j < i ==> !occurs_at(s@, sub@, j),
        decreases last - i,
    {
        if occurs(&cs, &ss, i) {
            return true;
        }
        i = i + 1;
    }
    if occurs(&cs, &ss, last) {
        return true;
    }
    assert forall|j: int| !occurs_at(s@, sub@, j) by {
        if 0 <= j && j + sub@.len() <= s@.len() {
            assert(j <= last);
        }
    }
    false
}

/// Whether `s` begins with `pre`.
pub fn str_starts_with(s: &str, pre: &str) -> (r: bool)
    ensures
        r == occurs_at(s@, pre@, 0),
{
    let cs = chars_of(s);
    let ps = chars_of(pre);
    occurs(&cs, &ps, 0)
}

/// Whether `s` ends with `suf`.
pub fn str_ends_with(s: &str, suf: &str) -> (r: bool)
    ensures
        r == (suf@.len() <= s@.len() && occurs_at(s@, suf@, s@.len() - suf@.len())),
{
    let cs = chars_of(s);
    let ss = chars_of(suf);
    if ss.len() > cs.len() {
        return false;
    }
    occurs(&cs, &ss, cs.len() - ss.len())
}

// ------------------------------------------------------------------ pieces

/// The characters of `cs` from `a` to `b`.
fn text_between(cs: &Vec<char>, a: usize, b: usize) -> (r: String)
    requires
        a <= b <= cs.len(),
    ensures
        r@ == cs@.subrange(a as int, b as int),
{
    let mut r = String::new();
    let mut k: usize = a;
    while k < b
        invariant
            a <= k <= b <= cs.len(),
            r@ == cs@.subrange(a as int, k as int),
        decreases b - k,
    {
        push_char(&mut r, cs[k]);
        assert(cs@.subrange(a as int, k + 1) =~= cs@.subrange(a as int, k as int).push(cs@[k as int]));
        k = k + 1;
    }
    r
}

/// The pieces of `s` between the occurrences of the non-empty `sep`, found
/// from the left without overlapping; the current piece began at `start`
/// and the search goes on at `i`.
pub open spec fn split_from(s: Seq<char>, sep: Seq<char>, start: nat, i: nat) -> Seq<Seq<char>>
    decreases s.len() - i,
{
    if sep.len() == 0 || i + sep.len() > s.len() {
        seq![s.subrange(start as int, s.len() as int)]
    } else if occurs_at(s, sep, i as int) {
        seq![s.subrange(start as int, i as int)] + split_from(s, sep, i + sep.len(), i + sep.len())
    } else {
        split_from(s, sep, start, i + 1)
    }
}

/// The pieces of `s` split at `sep`. An empty `sep` separates every
/// character, and the start and the end: an empty piece, one piece per
/// character, an empty piece.
pub open spec fn spec_split(s: Seq<char>, sep: Seq<char>) -> Seq<Seq<char>> {
    if sep.len() == 0 {
        seq![Seq::<char>::empty()] + s.map_values(|c: char| seq![c]) + seq![Seq::<char>::empty()]
    } else {
        split_from(s, sep, 0, 0)
    }
}

/// `s` split at `sep` (`str::split` with a string pattern).
pub fn str_split(s: &str, sep: &str) -> (r: Vec<String>)
    ensures
        names_view(r@) == spec_split(s@, sep@),
{
    let cs = chars_of(s);
    let ss = chars_of(sep);
    let mut out: Vec<String> = Vec::new();
    if ss.len() == 0 {
        out.push(String::new());
        let mut i: usize = 0;
        while i < cs.len()
            invariant
                i <= cs.len(),
                cs@ == s@,
                names_view(out@) == seq![Seq::<char>::empty()] + cs@.take(i as int).map_values(|c: char| seq![c]),
            decreases cs.len() - i,
        {
            let one = text_between(&cs, i, i + 1);
            let ghost before = names_view(out@);
            out.push(one);
            assert(cs@.subrange(i as int, i + 1) =~= seq![cs@[i as int]]);
            assert(names_view(out@) =~= before.push(seq![cs@[i as int]]));
            assert(cs@.take(i + 1).map_values(|c: char| seq![c]) =~= cs@.take(i as int).map_values(|c: char| seq![c]).push(seq![cs@[i as int]]));
            i = i + 1;
        }
        let ghost before = names_view(out@);
        out.push(String::new());
        assert(cs@.take(cs.len() as int) =~= cs@);
        assert(names_view(out@) =~= before.push(Seq::<char>::empty()));
        return out;
    }
    let mut start: usize = 0;
    let mut i: usize = 0;
    while i < cs.len() && ss.len() <= cs.len() - i
        invariant
            cs@ == s@,
            ss@ == sep@,
            ss.len() > 0,
            start <= i <= cs.len(),
            names_view(out@) + split_from(s@, sep@, start as nat, i as nat) == spec_split(s@, sep@),
        decreases cs.len() - i,
    {
        if occurs(&cs, &ss, i) {
            let piece = text_between(&cs, start, i);
            let ghost before = names_view(out@);
            out.push(piece);
            assert(names_view(out@) =~= before.push(s@.subrange(start as int, i as int)));
            let ghost rest = split_from(s@, sep@, (i + ss.len()) as nat, (i + ss.len()) as nat);
            assert(names_view(out@) + rest =~= before + (seq![s@.subrange(start as int, i as int)] + rest));
            i = i + ss.len();
            start = i;
        } else {
            i = i + 1;
        }
    }
    let piece = text_between(&cs, start, cs.len());
    let ghost before = names_view(out@);
    out.push(piece);
    assert(names_view(out@) =~= before.push(s@.subrange(start as int, s@.len() as int)));
    assert(names_view(out@) =~= before + seq![s@.subrange(start as int, s@.len() as int)]);
    out
}

/// `s` from `i` on, with the occurrences of the non-empty `from`, found
/// from the left without overlapping, replaced by `to`.
pub open spec fn replace_from(s: Seq<char>, from: Seq<char>, to: Seq<char>, i: nat) -> Seq<char>
    decreases s.len() - i,
{
    if i >= s.len() {
        Seq::empty()
    } else if from.len() > 0 && occurs_at(s, from, i as int) {
        to + replace_from(s, from, to, i + from.len())
    } else {
        seq![s[i as int]] + replace_from(s, from, to, i + 1)
    }
}

/// The characters of `s` from `i` on, each followed by `to`.
pub open spec fn interleave_from(s: Seq<char>, to: Seq<char>, i: nat) -> Seq<char>
    decreases s.len() - i,
{
    if i >= s.len() {
        Seq::empty()
    } else {
        seq![s[i as int]] + to + interleave_from(s, to, i + 1)
    }
}

/// `s` with every occurrence of `from` replaced by `to`; an empty `from`
/// occurs before every character and at the end.
pub open spec fn spec_replace(s: Seq<char>, from: Seq<char>, to: Seq<char>) -> Seq<char> {
    if from.len() == 0 {
        to + interleave_from(s, to, 0)
    } else {
        replace_from(s, from, to, 0)
    }
}

/// `s` with every occurrence of `from` replaced by `to` (`str::replace`).
pub fn str_replace(s: &str, from: &str, to: &str) -> (r: String)
    ensures
        r@ == spec_replace(s@, from@, to@),
{
    let cs = chars_of(s);
    let fs = chars_of(from);
    let mut out = String::new();
    let mut i: usize = 0;
    if fs.len() == 0 {
        push_str(&mut out, to);
        while i < cs.len()
            invariant
                i <= cs.len(),
                cs@ == s@,
                fs@ == from@,
                fs.len() == 0,
                out@ + interleave_from(s@, to@, i as nat) == spec_replace(s@, from@, to@),
            decreases cs.len() - i,
        {
            let ghost before = out@;
            push_char(&mut out, cs[i]);
            push_str(&mut out, to);
            assert(out@ + interleave_from(s@, to@, (i + 1) as nat) =~= before + interleave_from(s@, to@, i as nat));
            i = i + 1;
        }
        assert(out@ + Seq::<char>::empty() =~= out@);
        return out;
    }
    while i < cs.len()
        invariant
            i <= cs.len(),
            cs@ == s@,
            fs@ == from@,
            fs.len() > 0,
            out@ + replace_from(s@, from@, to@, i as nat) == spec_replace(s@, from@, to@),
        decreases cs.len() - i,
    {
        let ghost before = out@;
        if occurs(&cs, &fs, i) {
            push_str(&mut out, to);
            assert(out@ + replace_from(s@, from@, to@, (i + fs.len()) as nat) =~= before + replace_from(
                s@,
                from@,
                to@,
                i as nat,
            ));
            i = i + fs.len();
        } else {
            push_char(&mut out, cs[i]);
            assert(out@ + replace_from(s@, from@, to@, (i + 1) as nat) =~= before + replace_from(
                s@,
                from@,
                to@,
                i as nat,
            ));
            i = i + 1;
        }
    }
    assert(out@ + Seq::<char>::empty() =~= out@);
    out
}

// ------------------------------------------------------------------ trimming and numbers

/// A character with the Unicode `White_Space` property.
pub open spec fn is_unicode_ws(c: char) -> bool {
    let n = c as u32;
    (0x9 <= n && n <= 0xD) || n == 0x20 || n == 0x85 || n == 0xA0 || n == 0x1680 || (0x2000 <= n && n <= 0x200A)
        || n == 0x2028 || n == 0x2029 || n == 0x202F || n == 0x205F || n == 0x3000
}

fn is_ws_char(c: char) -> (r: bool)
    ensures
        r == is_unicode_ws(c),
{
    let n = c as u32;
    (0x9 <= n && n <= 0xD) || n == 0x20 || n == 0x85 || n == 0xA0 || n == 0x1680 || (0x2000 <= n && n <= 0x200A)
        || n == 0x2028 || n == 0x2029 || n == 0x202F || n == 0x205F || n == 0x3000
}

/// The position of the first character at or after `i` that is not
/// whitespace, or the end.
pub open spec fn ws_end(s: Seq<char>, i: nat) -> nat
    decreases s.len() - i,
{
    if i < s.len() && is_unicode_ws(s[i as int]) {
        ws_end(s, i + 1)
    } else {
        i
    }
}

/// The position after the last character before `j`, and not before `lo`,
/// that is not whitespace, or `lo`.
pub open spec fn ws_start(s: Seq<char>, j: nat, lo: nat) -> nat
    decreases j,
{
    if j > lo && is_unicode_ws(s[j - 1]) {
        ws_start(s, (j - 1) as nat, lo)
    } else {
        j
    }
}

pub proof fn lemma_ws_bounds(s: Seq<char>, i: nat)
    ensures
        i <= ws_end(s, i),
        i <= s.len() ==> ws_end(s, i) <= s.len(),
    decreases s.len() - i,
{
    if i < s.len() && is_unicode_ws(s[i as int]) {
        lemma_ws_bounds(s, i + 1);
    }
}

pub proof fn lemma_ws_start_bounds(s: Seq<char>, j: nat, lo: nat)
    requires
        lo <= j,
    ensures
        lo <= ws_start(s, j, lo) <= j,
    decreases j,
{
    if j > lo && is_unicode_ws(s[j - 1]) {
        lemma_ws_start_bounds(s, (j - 1) as nat, lo);
    }
}

/// `s` without its leading and trailing whitespace.
pub open spec fn spec_trim(s: Seq<char>) -> Seq<char> {
    let a = ws_end(s, 0);
    s.subrange(a as int, ws_start(s, s.len(), a) as int)
}

/// `s` without its leading and trailing whitespace (`str::trim`).
pub fn str_trim(s: &str) -> (r: String)
    ensures
        r@ == spec_trim(s@),
{
    let cs = chars_of(s);
    let mut a: usize = 0;
    proof { lemma_ws_bounds(s@, 0); }
    while a < cs.len() && is_ws_char(cs[a])
        invariant
            cs@ == s@,
            a <= cs.len(),
            ws_end(s@, a as nat) == ws_end(s@, 0),
        decreases cs.len() - a,
    {
        a = a + 1;
    }
    let mut b: usize = cs.len();
    while b > a && is_ws_char(cs[b - 1])
        invariant
            cs@ == s@,
            a <= b <= cs.len(),
            a == ws_end(s@, 0),
            ws_start(s@, b as nat, a as nat) == ws_start(s@, s@.len(), a as nat),
        decreases b,
    {
        b = b - 1;
    }
    text_between(&cs, a, b)
}

/// Whether every character is an ASCII digit.
pub open spec fn all_digits(ds: Seq<char>) -> bool {
    forall|k: int| 0 <= k < ds.len() ==> '0' <= #[trigger] ds[k] && ds[k] <= '9'
}

/// The `i64` a text spells (`i64::from_str`): an optional `+` or `-`, then
/// one or more ASCII digits, within the range of `i64`.
pub open spec fn parse_i64(t: Seq<char>) -> Option<i64> {
    let signed = t.len() > 0 && (t[0] == '+' || t[0] == '-');
    let ds = if signed { t.drop_first() } else { t };
    if ds.len() == 0 || !all_digits(ds) {
        None
    } else if signed && t[0] == '-' {
        if digits_value(ds) <= 0x8000_0000_0000_0000 {
            Some((-(digits_value(ds) as int)) as i64)
        } else {
            None
        }
    } else if digits_value(ds) <= 0x7fff_ffff_ffff_ffff {
        Some(digits_value(ds) as i64)
    } else {
        None
    }
}

/// The integer that `s`, without its surrounding whitespace, spells
/// (`s.trim().parse::<i64>()`).
pub fn parse_int(s: &str) -> (r: Option<i64>)
    ensures
        r == parse_i64(spec_trim(s@)),
{
    let trimmed = str_trim(s);
    let t = chars_of(trimmed.as_str());
    let ghost tv = t@;
    let signed = t.len() > 0 && (t[0] == '+' || t[0] == '-');
    let neg = signed && t[0] == '-';
    let first: usize = if signed { 1 } else { 0 };
    let ghost ds = if signed { tv.drop_first() } else { tv };
    if t.len() == first {
        return None;
    }
    let limit: u64 = 0x8000_0000_0000_0000;
    let mut v: u64 = 0;
    let mut big = false;
    let mut k: usize = first;
    while k < t.len()
        invariant
            t@ == tv,
            first <= k <= t.len(),
            first == (if signed { 1nat } else { 0nat }),
            ds == tv.subrange(first as int, tv.len() as int),
            tv == spec_trim(s@),
            signed == (tv.len() > 0 && (tv[0] == '+' || tv[0] == '-')),
            neg == (signed && tv[0] == '-'),
            ds == (if signed { tv.drop_first() } else { tv }),
            all_digits(ds.take(k - first)),
            !big ==> v == digits_value(ds.take(k - first)) && v <= limit,
            big ==> digits_value(ds.take(k - first)) > limit,
            limit == 0x8000_0000_0000_0000u64,
        decreases t.len() - k,
    {
        let c = t[k];
        if !('0' <= c && c <= '9') {
            assert(ds[k - first] == c);
            assert(!all_digits(ds));
            return None;
        }
        let d = (c as u32 - '0' as u32) as u64;
        let ghost prev = ds.take(k - first);
        assert(ds.take(k + 1 - first).drop_last() =~= prev);
        assert(ds.take(k + 1 - first).last() == c);
        assert(digits_value(ds.take(k + 1 - first)) == digits_value(prev) * 10 + d);
        if !big {
            if v > (limit - d) / 10 {
                big = true;
            } else {
                v = v * 10 + d;
            }
        }
        assert(all_digits(ds.take(k + 1 - first))) by {
            assert forall|j: int| 0 <= j < ds.take(k + 1 - first).len() implies '0' <= #[trigger] ds.take(
                k + 1 - first,
            )[j] && ds.take(k + 1 - first)[j] <= '9' by {
                if j < k - first {
                    assert(ds.take(k + 1 - first)[j] == prev[j]);
                }
            }
        }
        k = k + 1;
    }
    assert(ds.take(t.len() - first) =~= ds);
    if big {
        return None;
    }
    if neg {
        if v == limit {
            Some(i64::MIN)
        } else {
            Some(-(v as i64))
        }
    } else if v <= 0x7fff_ffff_ffff_ffff {
        Some(v as i64)
    } else {
        None
    }
}

// ------------------------------------------------------------------ ranges

/// The largest number of items a range may have.
pub const MAX_RANGE: i64 = 10_000_000;

/// The integers from `a` up to, not including, `b`.
pub open spec fn int_range(a: int, b: int) -> Seq<i64> {
    Seq::new(if a < b { (b - a) as nat } else { 0 }, |k: int| (a + k) as i64)
}

/// The integers from `start` up to `end` (`end` excluded) as a vector.
fn range_vec(start: i64, end: i64) -> (r: Vec<i64>)
    requires
        start <= end,
    ensures
        r@ == int_range(start as int, end as int),
{
    let mut v: Vec<i64> = Vec::new();
    let mut x: i64 = start;
    while x < end
        invariant
            start <= x <= end,
            v@ == int_range(start as int, x as int),
        decreases end - x,
    {
        v.push(x);
        assert(v@ =~= int_range(start as int, x + 1));
        x = x + 1;
    }
    v
}

/// The message for a range that is too long.
pub open spec fn msg_range_too_long(args: Seq<char>) -> Seq<char> {
    "range("@ + args + ") превышает максимальный размер 10000000"@
}

/// `range(end)`: the integers from 0 up to `end`; a negative `end`, or one
/// above `MAX_RANGE`, is an error.
pub fn range_to(end: i64) -> (r: Result<Vec<i64>, String>)
    ensures
        end < 0 ==> (r matches Err(m) && m@ == "range() получил отрицательный конец: "@ + decimal_int(end as int)),
        end > MAX_RANGE ==> (r matches Err(m) && m@ == msg_range_too_long(decimal_int(end as int))),
        0 <= end <= MAX_RANGE ==> (r matches Ok(v) && v@ == int_range(0, end as int)),
{
    if end < 0 {
        let mut m = String::new();
        push_str(&mut m, "range() получил отрицательный конец: ");
        push_str(&mut m, i64_to_string(end).as_str());
        return Err(m);
    }
    if end > MAX_RANGE {
        let mut m = String::new();
        push_str(&mut m, "range(");
        push_str(&mut m, i64_to_string(end).as_str());
        push_str(&mut m, ") превышает максимальный размер 10000000");
        return Err(m);
    }
    Ok(range_vec(0, end))
}

/// `range(start, end)`: the integers from `start` up to `end`; empty when
/// `start >= end`, an error when there would be more than `MAX_RANGE`
/// (however far apart the two ends are).
pub fn range_between(start: i64, end: i64) -> (r: Result<Vec<i64>, String>)
    ensures
        end - start > MAX_RANGE ==> (r matches Err(m) && m@ == msg_range_too_long(
            decimal_int(start as int) + ", "@ + decimal_int(end as int),
        )),
        end - start <= MAX_RANGE ==> (r matches Ok(v) && v@ == int_range(start as int, end as int)),
{
    if start >= end {
        let v: Vec<i64> = Vec::new();
        assert(v@ =~= int_range(start as int, end as int));
        return Ok(v);
    }
    let too_long = match end.checked_sub(start) {
        Some(d) => d > MAX_RANGE,
        None => true,
    };
    if too_long {
        let mut m = String::new();
        push_str(&mut m, "range(");
        push_str(&mut m, i64_to_string(start).as_str());
        push_str(&mut m, ", ");
        push_str(&mut m, i64_to_string(end).as_str());
        push_str(&mut m, ") превышает максимальный размер 10000000");
        return Err(m);
    }
    Ok(range_vec(start, end))
}

// ------------------------------------------------------------------ powers

/// `b` to the power `e`.
pub open spec fn power(b: int, e: nat) -> int
    decreases e,
{
    if e == 0 {
        1
    } else {
        b * power(b, (e - 1) as nat)
    }
}

/// Whether an integer is in the range of `i64`.
pub open spec fn fits_i64(x: int) -> bool {
    i64::MIN <= x <= i64::MAX
}

proof fn lemma_power_small(b: int, e: nat)
    requires
        -1 <= b <= 1,
    ensures
        b == 0 ==> power(b, e) == (if e == 0 { 1int } else { 0int }),
        b == 1 ==> power(b, e) == 1,
        b == -1 ==> power(b, e) == (if e % 2 == 0 { 1int } else { -1int }),
    decreases e,
{
    if e > 0 {
        lemma_power_small(b, (e - 1) as nat);
    }
}

/// With `|b| >= 2`, each further factor at least doubles the magnitude.
proof fn lemma_power_grows(b: int, k: nat, e: nat)
    requires
        b >= 2 || b <= -2,
        k <= e,
    ensures
        k < e ==> 2 * abs(power(b, k)) <= abs(power(b, e)),
        abs(power(b, k)) <= abs(power(b, e)),
    decreases e - k,
{
    if k < e {
        lemma_power_grows(b, k, (e - 1) as nat);
        let p = power(b, (e - 1) as nat);
        assert(abs(b * p) == abs(b) * abs(p)) by (nonlinear_arith);
        assert(abs(b) * abs(p) >= 2 * abs(p)) by (nonlinear_arith)
            requires
                abs(b) >= 2;
    }
}

/// The absolute value.
pub open spec fn abs(x: int) -> int {
    if x < 0 {
        -x
    } else {
        x
    }
}

/// The message for an integer power out of range.
pub open spec fn msg_pow_overflow(base: i64, exp: i64) -> Seq<char> {
    "переполнение int в pow("@ + decimal_int(base as int) + ", "@ + decimal_int(exp as int) + ")"@
}

/// `pow(base, exp)` on integers: a negative exponent, or one above
/// `u32::MAX`, is an error, and so is a power outside the range of `i64`.
pub fn int_pow(base: i64, exp: i64) -> (r: Result<i64, String>)
    ensures
        exp < 0 ==> (r matches Err(m) && m@
            == "pow() с целым отрицательным экспонентом не поддерживается; используйте to_float() для обоих аргументов"@),
        exp > u32::MAX ==> (r matches Err(m) && m@ == "pow() экспонента "@ + decimal_int(exp as int) + " слишком велика"@),
        0 <= exp <= u32::MAX && fits_i64(power(base as int, exp as nat)) ==> r == Ok::<i64, String>(
            power(base as int, exp as nat) as i64,
        ),
        0 <= exp <= u32::MAX && !fits_i64(power(base as int, exp as nat)) ==> (r matches Err(m) && m@ == msg_pow_overflow(
            base,
            exp,
        )),
{
    if exp < 0 {
        let mut m = String::new();
        push_str(
            &mut m,
            "pow() с целым отрицательным экспонентом не поддерживается; используйте to_float() для обоих аргументов",
        );
        return Err(m);
    }
    if exp > 0xffff_ffff {
        let mut m = String::new();
        push_str(&mut m, "pow() экспонента ");
        push_str(&mut m, i64_to_string(exp).as_str());
        push_str(&mut m, " слишком велика");
        return Err(m);
    }
    let ghost e = exp as nat;
    if -1 <= base && base <= 1 {
        proof { lemma_power_small(base as int, e); }
        if base == 0 {
            return Ok(if exp == 0 { 1 } else { 0 });
        } else if base == 1 {
            return Ok(1);
        } else {
            return Ok(if exp % 2 == 0 { 1 } else { -1 });
        }
    }
    let mut acc: i64 = 1;
    let mut k: i64 = 0;
    while k < exp
        invariant
            0 <= k <= exp <= 0xffff_ffff,
            e == exp as nat,
            base >= 2 || base <= -2,
            acc as int == power(base as int, k as nat),
        decreases exp - k,
    {
        match acc.checked_mul(base) {
            Some(x) => {
                acc = x;
                k = k + 1;
            },
            None => {
                proof {
                    let v = power(base as int, (k + 1) as nat);
                    assert(v == base * acc);
                    lemma_power_grows(base as int, (k + 1) as nat, e);
                    assert(!fits_i64(power(base as int, e)));
                }
                let mut m = String::new();
                push_str(&mut m, "переполнение int в pow(");
                push_str(&mut m, i64_to_string(base).as_str());
                push_str(&mut m, ", ");
                push_str(&mut m, i64_to_string(exp).as_str());
                push_str(&mut m, ")");
                return Err(m);
            },
        }
    }
    Ok(acc)
}

// ------------------------------------------------------------------ case

/// What `str::to_uppercase` gives for a text: its Unicode upper-case
/// mapping, character by character (a character may map to several).
pub uninterp spec fn unicode_upper(s: Seq<char>) -> Seq<char>;

/// What `str::to_lowercase` gives for a text: its Unicode lower-case
/// mapping (a character may map to several, and a final sigma differs).
pub uninterp spec fn unicode_lower(s: Seq<char>) -> Seq<char>;

/// `str::to_uppercase`, which std documents as the upper-case equivalent of
/// the string under the Unicode `Uppercase` property. Claimed: the result
/// depends on the characters of the string alone; the mapping itself is not
/// stated.
#[verifier::external_body]
fn upper_of(s: &str) -> (r: String)
    ensures
        r@ == unicode_upper(s@),
{
    s.to_uppercase()
}

/// `str::to_lowercase`, which std documents as the lower-case equivalent of
/// the string under the Unicode `Lowercase` property. Claimed: the result
/// depends on the characters of the string alone; the mapping itself is not
/// stated.
#[verifier::external_body]
fn lower_of(s: &str) -> (r: String)
    ensures
        r@ == unicode_lower(s@),
{
    s.to_lowercase()
}

/// `str_upper`: the text in upper case.
pub fn str_upper(s: &str) -> (r: String)
    ensures
        r@ == unicode_upper(s@),
{
    upper_of(s)
}

/// `str_lower`: the text in lower case.
pub fn str_lower(s: &str) -> (r: String)
    ensures
        r@ == unicode_lower(s@),
{
    lower_of(s)
}

} // verus!
