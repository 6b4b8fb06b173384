//! The Standard Galactic Alphabet (the Minecraft enchanting-table script,
//! originally drawn by Tom Hall for Commander Keen), as registered in the
//! Under-ConScript Unicode Registry block "Standard Galactic", U+EB40..U+EB5F.
//!
//! Only the keywords of the language are written in these code points;
//! identifiers, numbers, strings and operators stay ASCII/UTF-8.
use vstd::prelude::*;
use crate::text::char_from_u32;

verus! {

/// The code point of the SGA letter `A`.
pub const SGA_BASE: u32 = 0xEB40;

/// ASCII upper-case letter.
pub open spec fn is_upper(c: char) -> bool {
    'A' <= c && c <= 'Z'
}

/// ASCII lower-case letter.
pub open spec fn is_lower(c: char) -> bool {
    'a' <= c && c <= 'z'
}

/// `char::to_ascii_uppercase`: ASCII lower-case letters map to upper case,
/// every other character is unchanged.
pub open spec fn ascii_upper(c: char) -> char {
    if is_lower(c) {
        ((c as u32) - 32) as char
    } else {
        c
    }
}

/// The SGA code point of a Latin letter (either case), if it is one.
pub open spec fn spec_letter_to_sga(c: char) -> Option<char> {
    let u = ascii_upper(c);
    if is_upper(u) {
        Some((SGA_BASE + ((u as u32) - ('A' as u32))) as char)
    } else {
        None
    }
}

/// The upper-case Latin letter of an SGA code point, if it is one.
pub open spec fn spec_sga_to_letter(c: char) -> Option<char> {
    if SGA_BASE <= (c as u32) && (c as u32) < SGA_BASE + 26 {
        Some((('A' as u32) + ((c as u32) - SGA_BASE)) as char)
    } else {
        None
    }
}

/// Keeps the characters for which `f` gives `Some`, mapped through it.
pub open spec fn filter_map_chars(s: Seq<char>, f: spec_fn(char) -> Option<char>) -> Seq<char>
    decreases s.len(),
{
    if s.len() == 0 {
        Seq::empty()
    } else {
        let rest = filter_map_chars(s.drop_last(), f);
        match f(s.last()) {
            Some(x) => rest.push(x),
            None => rest,
        }
    }
}

/// The SGA encoding of a word: each Latin letter becomes its SGA code point,
/// every other character is dropped.
pub open spec fn spec_encode_word(s: Seq<char>) -> Seq<char> {
    filter_map_chars(s, |c: char| spec_letter_to_sga(c))
}

/// The decoding of an SGA word: each SGA letter becomes its upper-case Latin
/// letter, every other character is dropped.
pub open spec fn spec_decode_word(s: Seq<char>) -> Seq<char> {
    filter_map_chars(s, |c: char| spec_sga_to_letter(c))
}

/// ASCII upper-casing of one character.
pub fn to_ascii_upper(c: char) -> (r: char)
    ensures
        r == ascii_upper(c),
{
    if 'a' <= c && c <= 'z' {
        ((c as u8) - 32) as char
    } else {
        c
    }
}

/// Returns the SGA code point for a Latin letter A-Z (case-insensitive).
pub fn letter_to_sga(c: char) -> (r: Option<char>)
    ensures
        r == spec_letter_to_sga(c),
{
    let u = to_ascii_upper(c);
    if 'A' <= u && u <= 'Z' {
        let offset = (u as u32) - ('A' as u32);
        char_from_u32(SGA_BASE + offset)
    } else {
        None
    }
}

/// The reverse mapping: SGA code point -> upper-case Latin letter.
pub fn sga_to_letter(c: char) -> (r: Option<char>)
    ensures
        r == spec_sga_to_letter(c),
{
    let cp = c as u32;
    if SGA_BASE <= cp && cp < SGA_BASE + 26 {
        char_from_u32(('A' as u32) + (cp - SGA_BASE))
    } else {
        None
    }
}

/// Whether the character is one of the 26 SGA letters.
pub fn is_sga_letter(c: char) -> (r: bool)
    ensures
        r == spec_sga_to_letter(c).is_some(),
{
    sga_to_letter(c).is_some()
}

/// Encodes an ASCII word (a keyword mnemonic) into SGA code points; letters
/// are mapped case-insensitively and every other character is dropped.
pub fn encode_word(word: &str) -> (r: String)
    ensures
        r@ == spec_encode_word(word@),
{
    let cs = crate::text::chars_of(word);
    let mut out: Vec<char> = Vec::new();
    let mut i: usize = 0;
    while i < cs.len()
        invariant
            i <= cs.len(),
            cs@ == word@,
            out@ == spec_encode_word(cs@.take(i as int)),
        decreases cs.len() - i,
    {
        assert(cs@.take(i + 1).drop_last() == cs@.take(i as int));
        match letter_to_sga(cs[i]) {
            Some(x) => out.push(x),
            None => {},
        }
        i = i + 1;
    }
    assert(cs@.take(cs.len() as int) == cs@);
    crate::text::string_of(out.as_slice())
}

/// Decodes a word of SGA code points back into its ASCII mnemonic; every
/// character that is not an SGA letter is dropped.
pub fn decode_word(word: &str) -> (r: String)
    ensures
        r@ == spec_decode_word(word@),
{
    let cs = crate::text::chars_of(word);
    decode_chars(&cs)
}

/// `decode_word` over a slice of characters.
pub fn decode_chars(cs: &[char]) -> (r: String)
    ensures
        r@ == spec_decode_word(cs@),
{
    let mut out: Vec<char> = Vec::new();
    let mut i: usize = 0;
    while i < cs.len()
        invariant
            i <= cs.len(),
            out@ == spec_decode_word(cs@.take(i as int)),
        decreases cs.len() - i,
    {
        assert(cs@.take(i + 1).drop_last() == cs@.take(i as int));
        match sga_to_letter(cs[i]) {
            Some(x) => out.push(x),
            None => {},
        }
        i = i + 1;
    }
    assert(cs@.take(cs.len() as int) == cs@);
    crate::text::string_of(out.as_slice())
}

/// Every Latin letter, in either case, goes to an SGA letter and back to its
/// upper-case form; every other character has no SGA code point.
pub proof fn lemma_letter_round_trip(c: char)
    ensures
        (is_upper(c) || is_lower(c)) ==> (spec_letter_to_sga(c) matches Some(x)
            && spec_sga_to_letter(x) == Some(ascii_upper(c))),
        !(is_upper(c) || is_lower(c)) ==> spec_letter_to_sga(c).is_none(),
{
}

/// Every SGA letter goes to a Latin letter and back to itself.
pub proof fn lemma_sga_round_trip(c: char)
    ensures
        spec_sga_to_letter(c) matches Some(l) ==> is_upper(l) && spec_letter_to_sga(l) == Some(c),
{
}

/// Encoding does not depend on letter case: upper-casing a character first
/// gives the same SGA code point.
pub proof fn lemma_encode_ignores_case(c: char)
    ensures
        spec_letter_to_sga(ascii_upper(c)) == spec_letter_to_sga(c),
{
}

/// The upper-case ASCII letters of a word, in order.
pub open spec fn upper_letters(s: Seq<char>) -> Seq<char> {
    filter_map_chars(s, |c: char| if is_upper(ascii_upper(c)) { Some(ascii_upper(c)) } else { None })
}

/// Decoding an encoded word gives back its letters, upper-cased, with every
/// other character dropped.
pub proof fn lemma_decode_encode(s: Seq<char>)
    ensures
        spec_decode_word(spec_encode_word(s)) == upper_letters(s),
    decreases s.len(),
{
    if s.len() > 0 {
        lemma_decode_encode(s.drop_last());
        let rest = spec_encode_word(s.drop_last());
        let c = s.last();
        match spec_letter_to_sga(c) {
            Some(x) => {
                assert(spec_encode_word(s) == rest.push(x));
                assert(rest.push(x).drop_last() == rest);
                assert(spec_decode_word(rest.push(x)) == spec_decode_word(rest).push(ascii_upper(c)));
            },
            None => {},
        }
    }
}


/// The SGA letters are the 26 code points U+EB40..U+EB59, in alphabetical
/// order: a Latin letter of either case is written as U+EB40 plus its place
/// in the alphabet (`A` as U+EB40, `Z` as U+EB59), and a character is an
/// SGA letter exactly when its code point lies in that range.
pub proof fn lemma_sga_code_points(c: char)
    ensures
        is_upper(c) ==> (spec_letter_to_sga(c) matches Some(x) && x as u32 == 0xEB40 + ((c as u32) - 0x41)),
        is_lower(c) ==> (spec_letter_to_sga(c) matches Some(x) && x as u32 == 0xEB40 + ((c as u32) - 0x61)),
        spec_sga_to_letter(c) is Some <==> 0xEB40 <= (c as u32) <= 0xEB59,
        spec_letter_to_sga('A') == Some('\u{EB40}'),
        spec_letter_to_sga('Z') == Some('\u{EB59}'),
        spec_sga_to_letter('\u{EB40}') == Some('A'),
{
}

} // verus!
