//! Comparing two words: validation, then their fingerprints.
use crate::error::{Error, ErrorKind};
use crate::fingerprint::ranks_are_anagrams;
use crate::word::{
    all_letters, holds_space, is_letter, is_single_word, lemma_rearranged_same_letters, letter_rank,
    letter_ranks, same_letters, word_ranks,
};
use vstd::string::StringSliceAdditionalSpecFns;
use vstd::utf8::is_ascii_chars_encode_utf8;
use vstd::prelude::*;

verus! {

/// What comparing `a` with `b` gives. Checked in order: the byte lengths must
/// agree, then neither may be empty or hold a space, then both must be made of
/// ASCII letters; the answer is then whether they hold the same letters, case
/// ignored.
pub open spec fn anagram_outcome(a: &str, b: &str) -> Result<bool, Error> {
    if a.len() != b.len() {
        Err(Error { kind: ErrorKind::DifferentLength })
    } else if a@.len() == 0 || b@.len() == 0 || a@.contains(' ') || b@.contains(' ') {
        Err(Error { kind: ErrorKind::NotOneWord })
    } else if !all_letters(a@) || !all_letters(b@) {
        Err(Error { kind: ErrorKind::InvalidEncoding })
    } else {
        Ok(same_letters(a@, b@))
    }
}

/// Whether `lhs` and `rhs` are anagrams of one another, or why they cannot be
/// compared.
pub fn compare_words(lhs: &str, rhs: &str) -> (r: Result<bool, Error>)
    ensures
        r == anagram_outcome(lhs, rhs),
{
    if lhs.len() != rhs.len() {
        return Err(Error::from_kind(ErrorKind::DifferentLength));
    }
    if lhs.is_empty() || rhs.is_empty() {
        return Err(Error::from_kind(ErrorKind::NotOneWord));
    }
    if holds_space(lhs) || holds_space(rhs) {
        return Err(Error::from_kind(ErrorKind::NotOneWord));
    }
    let lhs_ranks = match word_ranks(lhs) {
        Ok(ranks) => ranks,
        Err(e) => return Err(e),
    };
    let rhs_ranks = match word_ranks(rhs) {
        Ok(ranks) => ranks,
        Err(e) => return Err(e),
    };
    Ok(ranks_are_anagrams(&lhs_ranks, &rhs_ranks))
}

/// A word made of ASCII letters has one byte per character.
proof fn lemma_word_byte_len(s: &str)
    requires
        all_letters(s@),
    ensures
        s.spec_bytes().len() == s@.len(),
{
    assert forall|i: int| 0 <= i < s@.len() implies '\0' <= #[trigger] s@[i] <= '\x7f' by {
        assert(is_letter(s@[i]));
    }
    is_ascii_chars_encode_utf8(s@);
}

/// Swapping the two words gives the same result, whatever they hold.
pub proof fn lemma_anagram_symmetric(x: &str, y: &str)
    ensures
        anagram_outcome(x, y) == anagram_outcome(y, x),
{
}

/// A single word is an anagram of itself.
pub proof fn lemma_anagram_reflexive(x: &str)
    requires
        is_single_word(x@),
    ensures
        anagram_outcome(x, x) == Ok::<bool, Error>(true),
{
    assert(!x@.contains(' ')) by {
        if x@.contains(' ') {
            let i = choose|i: int| 0 <= i < x@.len() && x@[i] == ' ';
            assert(is_letter(x@[i]));
        }
    }
}

/// Inputs of different lengths fail with `DifferentLength`, whatever they hold.
pub proof fn lemma_different_length(x: &str, y: &str)
    requires
        x.len() != y.len(),
    ensures
        anagram_outcome(x, y) == Err::<bool, Error>(Error { kind: ErrorKind::DifferentLength }),
{
}

/// Any rearrangement of the characters of a single word is an anagram of it.
pub proof fn lemma_rearrangement_is_anagram(w: &str, p: &str)
    requires
        is_single_word(w@),
        p@.to_multiset() == w@.to_multiset(),
    ensures
        anagram_outcome(w, p) == Ok::<bool, Error>(true),
{
    broadcast use vstd::seq_lib::group_to_multiset_ensures;

    p@.to_multiset_ensures();
    w@.to_multiset_ensures();
    assert forall|i: int| 0 <= i < p@.len() implies is_letter(#[trigger] p@[i]) by {
        assert(p@.contains(p@[i]));
        assert(w@.to_multiset().count(p@[i]) > 0);
        let j = choose|j: int| 0 <= j < w@.len() && w@[j] == p@[i];
        assert(is_letter(w@[j]));
    }
    lemma_word_byte_len(w);
    lemma_word_byte_len(p);
    lemma_anagram_reflexive(w);
    lemma_anagram_reflexive(p);
    lemma_rearranged_same_letters(w@, p@);
}

/// Replacing one letter of a single word by a letter of another kind, case
/// ignored, gives a word that is not an anagram of the first.
pub proof fn lemma_substitution_not_anagram(w: &str, v: &str, i: int, c: char)
    requires
        is_single_word(w@),
        0 <= i < w@.len(),
        is_letter(c),
        letter_rank(c) != letter_rank(w@[i]),
        v@ == w@.update(i, c),
    ensures
        anagram_outcome(w, v) == Ok::<bool, Error>(false),
{
    broadcast use vstd::seq_lib::group_to_multiset_ensures;

    assert(all_letters(v@));
    lemma_word_byte_len(w);
    lemma_word_byte_len(v);
    lemma_anagram_reflexive(w);
    lemma_anagram_reflexive(v);
    let rw = letter_ranks(w@);
    let rv = letter_ranks(v@);
    assert(rv =~= rw.update(i, letter_rank(c)));
    assert(rv.remove(i) =~= rw.remove(i));
    let rest = rw.remove(i).to_multiset();
    assert(rw.contains(rw[i]));
    assert(rv.contains(rv[i]));
    assert(rw.to_multiset() =~= rest.insert(rw[i]));
    assert(rv.to_multiset() =~= rest.insert(letter_rank(c)));
    assert(rw.to_multiset().count(letter_rank(c)) != rv.to_multiset().count(letter_rank(c)));
}

/// Anagram comparison of a word with another.
pub trait IsAnagram {
    /// What comparing this word with `rhs` gives.
    spec fn anagram_of_spec(&self, rhs: &str) -> Result<bool, Error>;

    /// Whether this word and `rhs` are anagrams of one another, or why they
    /// cannot be compared.
    fn is_anagram_of(&self, rhs: &str) -> (r: Result<bool, Error>)
        ensures
            r == self.anagram_of_spec(rhs),
    ;
}

impl<'a> IsAnagram for &'a str {
    open spec fn anagram_of_spec(&self, rhs: &str) -> Result<bool, Error> {
        anagram_outcome(*self, rhs)
    }

    fn is_anagram_of(&self, rhs: &str) -> (r: Result<bool, Error>) {
        compare_words(*self, rhs)
    }
}

} // verus!
