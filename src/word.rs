//! Words as text: ASCII letters, their case folding and alphabet positions.
use crate::error::{Error, ErrorKind};
use crate::fingerprint::{rank_values, valid_rank_bytes};
use ascii::{AsAsciiStr, AsAsciiStrError};
use vstd::prelude::*;
use vstd::utf8::is_ascii_chars;

verus! {

/// The error of a failed conversion to ASCII, carried through opaque.
#[verifier::external_type_specification]
#[verifier::external_body]
pub struct ExAsAsciiStrError(AsAsciiStrError);

/// Relies on ascii's `AsAsciiStr::as_ascii_str` for `str`: it succeeds exactly
/// when every byte of the text is ASCII, that is when every character is, and
/// the ASCII string then holds the text's bytes (`AsciiStr::as_bytes`), one
/// code per character.
#[verifier::external_body]
fn ascii_codes(s: &str) -> (r: Result<Vec<u8>, AsAsciiStrError>)
    ensures
        r is Ok <==> is_ascii_chars(s@),
        r matches Ok(codes) ==> codes@ == s@.map_values(|c: char| c as u8),
{
    s.as_ascii_str().map(|a| a.as_bytes().to_vec())
}

/// An ASCII letter of either case.
pub open spec fn is_letter(c: char) -> bool {
    ('a' <= c && c <= 'z') || ('A' <= c && c <= 'Z')
}

/// The alphabet position of a letter, 0 for 'a' or 'A' up to 25 for 'z' or 'Z'.
pub open spec fn letter_rank(c: char) -> int {
    if 'a' <= c && c <= 'z' {
        c as int - 'a' as int
    } else {
        c as int - 'A' as int
    }
}

/// Every character is an ASCII letter.
pub open spec fn all_letters(s: Seq<char>) -> bool {
    forall|i: int| 0 <= i < s.len() ==> is_letter(#[trigger] s[i])
}

/// The alphabet positions of the characters, case ignored.
pub open spec fn letter_ranks(s: Seq<char>) -> Seq<int> {
    s.map_values(|c: char| letter_rank(c))
}

/// The two texts hold the same letters, each as often, case ignored.
pub open spec fn same_letters(a: Seq<char>, b: Seq<char>) -> bool {
    letter_ranks(a).to_multiset() == letter_ranks(b).to_multiset()
}

/// A single word of the comparison: not empty, and made of ASCII letters.
pub open spec fn is_single_word(s: Seq<char>) -> bool {
    s.len() > 0 && all_letters(s)
}

/// Rearranged texts hold the same letters.
pub proof fn lemma_rearranged_same_letters(s: Seq<char>, t: Seq<char>)
    requires
        s.to_multiset() == t.to_multiset(),
    ensures
        same_letters(s, t),
    decreases s.len(),
{
    broadcast use vstd::seq_lib::group_to_multiset_ensures;

    if s.len() == 0 {
        assert(t.to_multiset().len() == 0);
        assert(letter_ranks(s) =~= letter_ranks(t));
    } else {
        let x = s.last();
        let rest = s.drop_last();
        assert(rest.push(x) =~= s);
        assert(s.to_multiset().count(x) > 0);
        assert(t.contains(x));
        let i = choose|i: int| 0 <= i < t.len() && t[i] == x;
        assert(rest.to_multiset() =~= t.remove(i).to_multiset());
        lemma_rearranged_same_letters(rest, t.remove(i));
        let rt = letter_ranks(t);
        assert(letter_ranks(t.remove(i)) =~= rt.remove(i));
        assert(letter_ranks(rest).push(letter_rank(x)) =~= letter_ranks(s));
        assert(rt.to_multiset().count(rt[i]) > 0) by {
            assert(rt.contains(rt[i]));
        }
        assert(rt.to_multiset() =~= rt.remove(i).to_multiset().insert(rt[i]));
    }
}

/// An ASCII code turned to lower case; other codes stay as they are.
pub open spec fn ascii_lower(b: u8) -> u8 {
    if 65 <= b && b <= 90 {
        (b + 32) as u8
    } else {
        b
    }
}

/// The code of a letter of either case.
pub open spec fn code_is_letter(b: u8) -> bool {
    97 <= ascii_lower(b) && ascii_lower(b) <= 122
}

/// The alphabet position of a letter's code.
pub open spec fn code_rank(b: u8) -> int {
    ascii_lower(b) - 97
}

/// Whether the text holds a space.
pub fn holds_space(s: &str) -> (r: bool)
    ensures
        r == s@.contains(' '),
{
    for c in it: s.chars()
        invariant
            it.seq() == s@,
            forall|j: int| 0 <= j < it.index() ==> s@[j] != ' ',
    {
        if c == ' ' {
            return true;
        }
    }
    false
}

/// The lower-case form of an ASCII code.
pub fn to_lower_code(b: u8) -> (r: u8)
    ensures
        r == ascii_lower(b),
{
    if 65 <= b && b <= 90 {
        b + 32
    } else {
        b
    }
}

/// The alphabet positions of a sequence of ASCII codes, or `None` where one of
/// them is not a letter.
pub fn ranks_of_codes(codes: &Vec<u8>) -> (r: Option<Vec<u8>>)
    ensures
        r is Some <==> forall|i: int| 0 <= i < codes@.len() ==> code_is_letter(#[trigger] codes@[i]),
        r matches Some(ranks) ==> ranks@.len() == codes@.len() && forall|i: int|
            0 <= i < codes@.len() ==> #[trigger] ranks@[i] as int == code_rank(codes@[i]),
{
    let mut ranks: Vec<u8> = Vec::new();
    for i in 0..codes.len()
        invariant
            ranks@.len() == i,
            forall|j: int| 0 <= j < i ==> code_is_letter(#[trigger] codes@[j]),
            forall|j: int| 0 <= j < i ==> #[trigger] ranks@[j] as int == code_rank(codes@[j]),
    {
        let lower = to_lower_code(codes[i]);
        if lower < 97 || lower > 122 {
            return None;
        }
        ranks.push(lower - 97);
    }
    Some(ranks)
}

/// An ASCII character's code is a letter's code exactly when the character is
/// a letter, and then gives the same alphabet position.
proof fn lemma_ascii_code(c: char)
    requires
        c <= '\x7f',
    ensures
        code_is_letter(c as u8) == is_letter(c),
        is_letter(c) ==> code_rank(c as u8) == letter_rank(c),
{
    assert((c as u8) as int == c as int);
}

/// The alphabet positions of a word's letters, case ignored; fails with
/// `InvalidEncoding` where a character is not an ASCII letter.
pub fn word_ranks(s: &str) -> (r: Result<Vec<u8>, Error>)
    ensures
        r is Ok <==> all_letters(s@),
        r matches Err(e) ==> e.kind == ErrorKind::InvalidEncoding,
        r matches Ok(v) ==> valid_rank_bytes(v@) && rank_values(v@) == letter_ranks(s@),
{
    let codes = match ascii_codes(s) {
        Ok(codes) => codes,
        Err(_) => {
            proof {
                let i = choose|i: int| 0 <= i < s@.len() && !('\0' <= #[trigger] s@[i] <= '\x7f');
                assert(!is_letter(s@[i]));
            }
            return Err(Error::from_kind(ErrorKind::InvalidEncoding));
        },
    };
    assert forall|i: int| 0 <= i < s@.len() implies #[trigger] codes@[i] == s@[i] as u8
        && code_is_letter(codes@[i]) == is_letter(s@[i])
        && (is_letter(s@[i]) ==> code_rank(codes@[i]) == letter_rank(s@[i])) by {
        lemma_ascii_code(s@[i]);
    }
    match ranks_of_codes(&codes) {
        Some(ranks) => {
            assert forall|i: int| 0 <= i < s@.len() implies is_letter(#[trigger] s@[i]) by {
                assert(code_is_letter(codes@[i]));
            }
            assert(rank_values(ranks@) =~= letter_ranks(s@));
            Ok(ranks)
        },
        None => {
            proof {
                let i = choose|i: int| 0 <= i < codes@.len() && !code_is_letter(#[trigger] codes@[i]);
                assert(!is_letter(s@[i]));
            }
            Err(Error::from_kind(ErrorKind::InvalidEncoding))
        },
    }
}

} // verus!
