//! Transliteration of source written with ASCII keyword mnemonics (`let`,
//! `fn`, `if`, ... in any case) into SGA source: each ASCII word that spells
//! a keyword becomes the SGA letters of its upper-case mnemonic. String
//! literals (with their `\` escapes) and `//` comments are copied unchanged,
//! and so is every other word and character.
//!
//! The transliteration works on words, not on syntax: an identifier that
//! spells a keyword is replaced too.
use vstd::prelude::*;
use crate::lexer::token::{keyword_from_mnemonic, spec_keyword};
use crate::sga_alphabet::{
    ascii_upper, encode_word, is_lower, is_upper, lemma_decode_encode, spec_decode_word, spec_encode_word,
    spec_letter_to_sga, to_ascii_upper, upper_letters,
};
use crate::lexer::is_sga;
use crate::text::{push_char, push_str, string_of};

verus! {

/// An ASCII letter or `_`: the start of a word.
pub open spec fn is_word_start(c: char) -> bool {
    is_upper(c) || is_lower(c) || c == '_'
}

/// An ASCII letter, digit or `_`: a character of a word.
pub open spec fn is_word_char(c: char) -> bool {
    is_word_start(c) || ('0' <= c && c <= '9')
}

/// The end of the word that goes on at `i`.
pub open spec fn word_end(s: Seq<char>, i: nat) -> nat
    decreases s.len() - i,
{
    if i < s.len() && is_word_char(s[i as int]) {
        word_end(s, i + 1)
    } else {
        i
    }
}

/// The end of a string literal whose opening quote is before `i`: after its
/// closing quote, or the end of the text. A `\` escapes the character after
/// it.
pub open spec fn string_end(s: Seq<char>, i: nat) -> nat
    decreases s.len() - i,
{
    if i >= s.len() {
        i
    } else if s[i as int] == '\\' && i + 1 < s.len() {
        string_end(s, i + 2)
    } else if s[i as int] == '"' {
        i + 1
    } else {
        string_end(s, i + 1)
    }
}

/// The position of the first newline at or after `i`, or the end.
pub open spec fn line_end(s: Seq<char>, i: nat) -> nat
    decreases s.len() - i,
{
    if i < s.len() && s[i as int] != '\n' {
        line_end(s, i + 1)
    } else {
        i
    }
}

pub proof fn lemma_word_end(s: Seq<char>, i: nat)
    ensures
        i <= word_end(s, i),
        i <= s.len() ==> word_end(s, i) <= s.len(),
        forall|k: int| i <= k < word_end(s, i) ==> is_word_char(#[trigger] s[k]),
    decreases s.len() - i,
{
    if i < s.len() && is_word_char(s[i as int]) {
        lemma_word_end(s, i + 1);
    }
}

pub proof fn lemma_string_end(s: Seq<char>, i: nat)
    ensures
        i <= string_end(s, i),
        i <= s.len() ==> string_end(s, i) <= s.len(),
    decreases s.len() - i,
{
    if i < s.len() {
        if s[i as int] == '\\' && i + 1 < s.len() {
            lemma_string_end(s, i + 2);
        } else if s[i as int] != '"' {
            lemma_string_end(s, i + 1);
        }
    }
}

pub proof fn lemma_line_end(s: Seq<char>, i: nat)
    ensures
        i <= line_end(s, i),
        i <= s.len() ==> line_end(s, i) <= s.len(),
    decreases s.len() - i,
{
    if i < s.len() && s[i as int] != '\n' {
        lemma_line_end(s, i + 1);
    }
}

/// A word with its ASCII letters in upper case.
pub open spec fn upper_text(w: Seq<char>) -> Seq<char> {
    w.map_values(|c: char| ascii_upper(c))
}

/// A word transliterated: a keyword mnemonic (in any case) becomes the SGA
/// letters of its upper-case form; any other word stays as it is.
pub open spec fn translit_word(w: Seq<char>) -> Seq<char> {
    if spec_keyword(upper_text(w)) is Some {
        spec_encode_word(upper_text(w))
    } else {
        w
    }
}

/// The transliteration of `s` from position `i` on.
pub open spec fn translit_from(s: Seq<char>, i: nat) -> Seq<char>
    decreases s.len() - i,
{
    if i >= s.len() {
        Seq::empty()
    } else if s[i as int] == '"' {
        let e = string_end(s, i + 1);
        proof {
            lemma_string_end(s, i + 1);
        }
        s.subrange(i as int, e as int) + translit_from(s, e)
    } else if s[i as int] == '/' && i + 1 < s.len() && s[i + 1int] == '/' {
        let e = line_end(s, i);
        proof {
            lemma_line_end(s, i);
            assert(line_end(s, i) == line_end(s, i + 1));
            lemma_line_end(s, i + 1);
        }
        s.subrange(i as int, e as int) + translit_from(s, e)
    } else if is_word_start(s[i as int]) {
        let e = word_end(s, i);
        proof {
            lemma_word_end(s, i + 1);
        }
        translit_word(s.subrange(i as int, e as int)) + translit_from(s, e)
    } else {
        seq![s[i as int]] + translit_from(s, i + 1)
    }
}

/// The transliteration of a whole text.
pub open spec fn spec_translit(s: Seq<char>) -> Seq<char> {
    translit_from(s, 0)
}

fn is_word_start_char(c: char) -> (r: bool)
    ensures
        r == is_word_start(c),
{
    ('A' <= c && c <= 'Z') || ('a' <= c && c <= 'z') || c == '_'
}

fn is_word_char_char(c: char) -> (r: bool)
    ensures
        r == is_word_char(c),
{
    is_word_start_char(c) || ('0' <= c && c <= '9')
}

/// The transliteration of one word.
fn translit_word_exec(w: &[char]) -> (r: String)
    ensures
        r@ == translit_word(w@),
{
    let mut up: Vec<char> = Vec::new();
    let mut i: usize = 0;
    while i < w.len()
        invariant
            i <= w.len(),
            up@ == upper_text(w@.take(i as int)),
        decreases w.len() - i,
    {
        up.push(to_ascii_upper(w[i]));
        assert(upper_text(w@.take(i + 1)) =~= upper_text(w@.take(i as int)).push(ascii_upper(w@[i as int])));
        i = i + 1;
    }
    assert(w@.take(w.len() as int) =~= w@);
    let upper = string_of(up.as_slice());
    if keyword_from_mnemonic(upper.as_str()).is_some() {
        encode_word(upper.as_str())
    } else {
        string_of(w)
    }
}

/// Transliterates source written with ASCII keyword mnemonics into SGA
/// source.
pub fn translit(source: &str) -> (r: String)
    ensures
        r@ == spec_translit(source@),
{
    let chars = crate::text::chars_of(source);
    let ghost s = source@;
    let n = chars.len();
    let mut out = String::new();
    let mut i: usize = 0;
    while i < n
        invariant
            n == chars.len(),
            chars@ == s,
            i <= n,
            out@ + translit_from(s, i as nat) == spec_translit(s),
        decreases n - i,
    {
        let c = chars[i];
        let ghost before = out@;
        let ghost start = i as int;
        if c == '"' {
            push_char(&mut out, c);
            i = i + 1;
            let mut done = false;
            while i < n && !done
                invariant
                    n == chars.len(),
                    chars@ == s,
                    0 <= start,
                    start + 1 <= i <= n,
                    done ==> i == string_end(s, (start + 1) as nat),
                    !done ==> string_end(s, i as nat) == string_end(s, (start + 1) as nat),
                    out@ == before + s.subrange(start, i as int),
                decreases n - i,
            {
                let d = chars[i];
                push_char(&mut out, d);
                if d == '\\' && i + 1 < n {
                    push_char(&mut out, chars[i + 1]);
                    i = i + 2;
                } else {
                    i = i + 1;
                    if d == '"' {
                        done = true;
                    }
                }
                assert(out@ =~= before + s.subrange(start, i as int));
            }
            proof {
                lemma_string_end(s, (start + 1) as nat);
                let e = string_end(s, (start + 1) as nat);
                assert(i == e);
                assert(translit_from(s, start as nat) == s.subrange(start, e as int) + translit_from(s, e));
                assert(out@ + translit_from(s, i as nat) =~= before + translit_from(s, start as nat));
            }
        } else if c == '/' && i + 1 < n && chars[i + 1] == '/' {
            while i < n && chars[i] != '\n'
                invariant
                    n == chars.len(),
                    chars@ == s,
                    0 <= start <= i <= n,
                    line_end(s, i as nat) == line_end(s, start as nat),
                    out@ == before + s.subrange(start, i as int),
                decreases n - i,
            {
                push_char(&mut out, chars[i]);
                i = i + 1;
                assert(out@ =~= before + s.subrange(start, i as int));
            }
            proof {
                let e = line_end(s, start as nat);
                assert(i == e);
                assert(translit_from(s, start as nat) == s.subrange(start, e as int) + translit_from(s, e));
                assert(out@ + translit_from(s, i as nat) =~= before + translit_from(s, start as nat));
            }
        } else if is_word_start_char(c) {
            let mut word: Vec<char> = Vec::new();
            while i < n && is_word_char_char(chars[i])
                invariant
                    n == chars.len(),
                    chars@ == s,
                    0 <= start <= i <= n,
                    word_end(s, i as nat) == word_end(s, start as nat),
                    word@ == s.subrange(start, i as int),
                decreases n - i,
            {
                word.push(chars[i]);
                i = i + 1;
                assert(word@ =~= s.subrange(start, i as int));
            }
            let t = translit_word_exec(word.as_slice());
            push_str(&mut out, t.as_str());
            proof {
                let e = word_end(s, start as nat);
                assert(i == e);
                assert(translit_from(s, start as nat) == translit_word(s.subrange(start, e as int)) + translit_from(s, e));
                assert(out@ + translit_from(s, i as nat) =~= before + translit_from(s, start as nat));
            }
        } else {
            push_char(&mut out, c);
            i = i + 1;
            proof {
                assert(translit_from(s, start as nat) == seq![c] + translit_from(s, i as nat));
                assert(out@ + translit_from(s, i as nat) =~= before + translit_from(s, start as nat));
            }
        }
    }
    assert(out@ + Seq::<char>::empty() =~= out@);
    out
}


/// The upper-case letters of a word made of upper-case letters are the word.
proof fn lemma_upper_letters_of_upper(u: Seq<char>)
    requires
        forall|i: int| 0 <= i < u.len() ==> is_upper(#[trigger] u[i]),
    ensures
        upper_letters(u) == u,
        forall|i: int| 0 <= i < spec_encode_word(u).len() ==> is_sga(#[trigger] spec_encode_word(u)[i]),
        spec_encode_word(u).len() == u.len(),
    decreases u.len(),
{
    if u.len() > 0 {
        lemma_upper_letters_of_upper(u.drop_last());
        assert(u.drop_last().push(u.last()) =~= u);
        let rest = spec_encode_word(u.drop_last());
        assert(is_upper(u.last()));
        let x = spec_letter_to_sga(u.last())->Some_0;
        assert(spec_encode_word(u) == rest.push(x));
        assert(is_sga(x));
        assert forall|i: int| 0 <= i < spec_encode_word(u).len() implies is_sga(#[trigger] spec_encode_word(u)[i]) by {
            if i < rest.len() {
                assert(spec_encode_word(u)[i] == rest[i]);
            }
        }
    } else {
        assert(upper_letters(u) =~= u);
    }
}

/// A keyword mnemonic is spelled with upper-case letters only.
proof fn lemma_keyword_letters(u: Seq<char>)
    requires
        spec_keyword(u) is Some,
    ensures
        forall|i: int| 0 <= i < u.len() ==> is_upper(#[trigger] u[i]),
{
}

/// A keyword written in Latin letters, in any case, is transliterated into
/// a word of SGA letters only, one per letter, that the lexer reads back
/// as the same keyword; any other word is left as it is.
pub proof fn lemma_translit_keyword_round_trip(w: Seq<char>)
    ensures
        spec_keyword(upper_text(w)) is Some ==> {
            &&& translit_word(w).len() == w.len()
            &&& forall|i: int| 0 <= i < translit_word(w).len() ==> is_sga(#[trigger] translit_word(w)[i])
            &&& spec_keyword(spec_decode_word(translit_word(w))) == spec_keyword(upper_text(w))
        },
        spec_keyword(upper_text(w)) is None ==> translit_word(w) == w,
{
    let u = upper_text(w);
    if spec_keyword(u) is Some {
        lemma_keyword_letters(u);
        lemma_upper_letters_of_upper(u);
        lemma_decode_encode(u);
    }
}

} // verus!
