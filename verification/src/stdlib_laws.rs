//! Laws of the string builtins: what `trim` removes, how the pieces of
//! `split` put back together give the text, and what `replace` leaves.
use vstd::prelude::*;
use crate::stdlib::{
    contains_text, is_unicode_ws, occurs_at, replace_from, spec_replace, spec_split, spec_trim, split_from, ws_end,
    ws_start,
};

verus! {

/// Skipping whitespace from `i` passes only whitespace and stops at a
/// character that is not whitespace, or at the end.
proof fn lemma_ws_end_run(s: Seq<char>, i: nat)
    requires
        i <= s.len(),
    ensures
        i <= ws_end(s, i) <= s.len(),
        forall|k: int| i <= k < ws_end(s, i) ==> is_unicode_ws(#[trigger] s[k]),
        ws_end(s, i) < s.len() ==> !is_unicode_ws(s[ws_end(s, i) as int]),
    decreases s.len() - i,
{
    if i < s.len() && is_unicode_ws(s[i as int]) {
        lemma_ws_end_run(s, i + 1);
    }
}

/// Skipping whitespace backwards from `j` down to `lo` passes only
/// whitespace and stops after a character that is not whitespace, or at
/// `lo`.
proof fn lemma_ws_start_run(s: Seq<char>, j: nat, lo: nat)
    requires
        lo <= j <= s.len(),
    ensures
        lo <= ws_start(s, j, lo) <= j,
        forall|k: int| ws_start(s, j, lo) <= k < j ==> is_unicode_ws(#[trigger] s[k]),
        ws_start(s, j, lo) > lo ==> !is_unicode_ws(s[ws_start(s, j, lo) - 1]),
    decreases j,
{
    if j > lo && is_unicode_ws(s[j - 1]) {
        lemma_ws_start_run(s, (j - 1) as nat, lo);
    }
}

/// `trim` removes exactly the leading and the trailing whitespace: its
/// result is the part of the text between a run of whitespace at the start
/// and a run of whitespace at the end, and that part neither starts nor
/// ends with whitespace.
pub proof fn lemma_trim_removes_outer_whitespace(s: Seq<char>)
    ensures
        exists|a: int, b: int|
            #![trigger s.subrange(a, b)]
            0 <= a <= b <= s.len() && spec_trim(s) == s.subrange(a, b) && (forall|k: int|
                0 <= k < a ==> is_unicode_ws(#[trigger] s[k])) && (forall|k: int|
                b <= k < s.len() ==> is_unicode_ws(#[trigger] s[k])) && (a < b ==> !is_unicode_ws(s[a])
                && !is_unicode_ws(s[b - 1])),
{
    lemma_ws_end_run(s, 0);
    let a = ws_end(s, 0);
    lemma_ws_start_run(s, s.len(), a);
    let b = ws_start(s, s.len(), a);
    assert(spec_trim(s) == s.subrange(a as int, b as int));
}

/// The pieces joined back with the separator between each two.
pub open spec fn join_with(pieces: Seq<Seq<char>>, sep: Seq<char>) -> Seq<char>
    decreases pieces.len(),
{
    if pieces.len() == 0 {
        Seq::empty()
    } else if pieces.len() == 1 {
        pieces[0]
    } else {
        pieces[0] + sep + join_with(pieces.drop_first(), sep)
    }
}

proof fn lemma_split_from_joins(s: Seq<char>, sep: Seq<char>, start: nat, i: nat)
    requires
        sep.len() > 0,
        start <= i <= s.len(),
    ensures
        split_from(s, sep, start, i).len() >= 1,
        join_with(split_from(s, sep, start, i), sep) == s.subrange(start as int, s.len() as int),
    decreases s.len() - i,
{
    if i + sep.len() > s.len() {
    } else if occurs_at(s, sep, i as int) {
        let j = i + sep.len();
        lemma_split_from_joins(s, sep, j, j);
        let rest = split_from(s, sep, j, j);
        let ps = seq![s.subrange(start as int, i as int)] + rest;
        assert(ps.drop_first() =~= rest);
        assert(ps[0] == s.subrange(start as int, i as int));
        assert(s.subrange(start as int, s.len() as int) =~= s.subrange(start as int, i as int) + sep + s.subrange(
            j as int,
            s.len() as int,
        ));
    } else {
        lemma_split_from_joins(s, sep, start, i + 1);
    }
}

/// Splitting a text at a non-empty separator and joining the pieces back
/// with that separator gives the text again; there is always at least one
/// piece.
pub proof fn lemma_split_then_join(s: Seq<char>, sep: Seq<char>)
    requires
        sep.len() > 0,
    ensures
        spec_split(s, sep).len() >= 1,
        join_with(spec_split(s, sep), sep) == s,
{
    lemma_split_from_joins(s, sep, 0, 0);
    assert(s.subrange(0, s.len() as int) =~= s);
}

proof fn lemma_replace_same_from(s: Seq<char>, f: Seq<char>, i: nat)
    requires
        f.len() > 0,
        i <= s.len(),
    ensures
        replace_from(s, f, f, i) == s.subrange(i as int, s.len() as int),
    decreases s.len() - i,
{
    if i < s.len() {
        if occurs_at(s, f, i as int) {
            lemma_replace_same_from(s, f, i + f.len());
            assert(s.subrange(i as int, s.len() as int) =~= f + s.subrange(i + f.len() as int, s.len() as int));
        } else {
            lemma_replace_same_from(s, f, i + 1);
            assert(s.subrange(i as int, s.len() as int) =~= seq![s[i as int]] + s.subrange(i + 1int, s.len() as int));
        }
    } else {
        assert(s.subrange(i as int, s.len() as int) =~= Seq::<char>::empty());
    }
}

proof fn lemma_replace_absent_from(s: Seq<char>, f: Seq<char>, t: Seq<char>, i: nat)
    requires
        f.len() > 0,
        i <= s.len(),
        forall|k: int| 0 <= k < s.len() ==> !occurs_at(s, f, k),
    ensures
        replace_from(s, f, t, i) == s.subrange(i as int, s.len() as int),
    decreases s.len() - i,
{
    if i < s.len() {
        lemma_replace_absent_from(s, f, t, i + 1);
        assert(s.subrange(i as int, s.len() as int) =~= seq![s[i as int]] + s.subrange(i + 1int, s.len() as int));
    } else {
        assert(s.subrange(i as int, s.len() as int) =~= Seq::<char>::empty());
    }
}

/// Replacing a non-empty text by itself changes nothing, and a text in
/// which the non-empty `from` does not occur is left as it is, whatever it
/// would be replaced by.
pub proof fn lemma_replace_identities(s: Seq<char>, f: Seq<char>, t: Seq<char>)
    requires
        f.len() > 0,
    ensures
        spec_replace(s, f, f) == s,
        (forall|k: int| 0 <= k < s.len() ==> !occurs_at(s, f, k)) ==> spec_replace(s, f, t) == s,
{
    lemma_replace_same_from(s, f, 0);
    assert(s.subrange(0, s.len() as int) =~= s);
    if forall|k: int| 0 <= k < s.len() ==> !occurs_at(s, f, k) {
        lemma_replace_absent_from(s, f, t, 0);
    }
}


/// A part `s[a..e]` of a text holds the separator only where the text
/// holds it.
proof fn lemma_part_occurrence(s: Seq<char>, sep: Seq<char>, a: int, e: int, o: int)
    requires
        0 <= a <= e <= s.len(),
        occurs_at(s.subrange(a, e), sep, o),
    ensures
        occurs_at(s, sep, a + o),
        a + o + sep.len() <= e,
{
    assert(s.subrange(a + o, a + o + sep.len()) =~= s.subrange(a, e).subrange(o, o + sep.len()));
}

proof fn lemma_split_from_pieces(s: Seq<char>, sep: Seq<char>, start: nat, i: nat)
    requires
        sep.len() > 0,
        start <= i <= s.len(),
        forall|k: int| start <= k < i ==> !occurs_at(s, sep, k),
    ensures
        forall|j: int| 0 <= j < split_from(s, sep, start, i).len() ==> !contains_text(#[trigger] split_from(s, sep, start, i)[j], sep),
    decreases s.len() - i,
{
    if i + sep.len() > s.len() {
        let piece = s.subrange(start as int, s.len() as int);
        assert forall|o: int| !occurs_at(piece, sep, o) by {
            if occurs_at(piece, sep, o) {
                lemma_part_occurrence(s, sep, start as int, s.len() as int, o);
            }
        }
        assert(!contains_text(piece, sep));
        assert(split_from(s, sep, start, i) == seq![piece]);
        assert(split_from(s, sep, start, i)[0] == piece);
    } else if occurs_at(s, sep, i as int) {
        let j = i + sep.len();
        lemma_split_from_pieces(s, sep, j, j);
        let piece = s.subrange(start as int, i as int);
        let rest = split_from(s, sep, j, j);
        assert forall|o: int| !occurs_at(piece, sep, o) by {
            if occurs_at(piece, sep, o) {
                lemma_part_occurrence(s, sep, start as int, i as int, o);
            }
        }
        assert forall|m: int| 0 <= m < split_from(s, sep, start, i).len() implies !contains_text(
            #[trigger] split_from(s, sep, start, i)[m],
            sep,
        ) by {
            if m > 0 {
                assert(split_from(s, sep, start, i)[m] == rest[m - 1]);
            } else {
                assert(split_from(s, sep, start, i)[m] == piece);
            }
        }
    } else {
        lemma_split_from_pieces(s, sep, start, i + 1);
        assert(split_from(s, sep, start, i) == split_from(s, sep, start, i + 1));
    }
}

/// No piece of a text split at a non-empty separator holds the separator:
/// the text is cut at every occurrence, from the left.
pub proof fn lemma_split_pieces_hold_no_separator(s: Seq<char>, sep: Seq<char>)
    requires
        sep.len() > 0,
    ensures
        forall|j: int| 0 <= j < spec_split(s, sep).len() ==> !contains_text(#[trigger] spec_split(s, sep)[j], sep),
{
    lemma_split_from_pieces(s, sep, 0, 0);
}

/// Every occurrence is replaced, not only the first: a text made of the
/// non-empty `from` twice becomes `to` twice.
pub proof fn lemma_replace_every_occurrence(f: Seq<char>, t: Seq<char>)
    requires
        f.len() > 0,
    ensures
        spec_replace(f + f, f, t) == t + t,
{
    let s = f + f;
    assert(s.subrange(0, f.len() as int) =~= f);
    assert(s.subrange(f.len() as int, 2 * f.len() as int) =~= f);
    assert(occurs_at(s, f, 0));
    assert(occurs_at(s, f, f.len() as int));
    assert(replace_from(s, f, t, 2 * f.len()) == Seq::<char>::empty());
    assert(replace_from(s, f, t, f.len()) == t + Seq::<char>::empty());
    assert(t + Seq::<char>::empty() =~= t);
}

} // verus!
