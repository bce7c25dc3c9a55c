//! The fingerprint of a word: the product of its letters' primes, and the fact
//! that two words share a fingerprint exactly when they share their letters.
use crate::alphabet::{letter_prime, lemma_letter_prime_is_prime, lemma_letter_primes_distinct, prime_for_rank};
use crate::factor::{lemma_valuation_other, lemma_valuation_same, valuation};
use vstd::arithmetic::mul::{lemma_mul_is_associative, lemma_mul_is_commutative, lemma_mul_strictly_positive};
use vstd::multiset::Multiset;
use vstd::prelude::*;

verus! {

broadcast use vstd::seq_lib::group_to_multiset_ensures;

/// Every entry is an alphabet position, from 0 ('a') to 25 ('z').
pub open spec fn valid_ranks(s: Seq<int>) -> bool {
    forall|i: int| 0 <= i < s.len() ==> 0 <= #[trigger] s[i] < 26
}

/// The product of the primes of the letters at the given alphabet positions.
pub open spec fn fingerprint(s: Seq<int>) -> int
    decreases s.len(),
{
    if s.len() == 0 {
        1
    } else {
        fingerprint(s.drop_last()) * letter_prime(s.last())
    }
}

/// A fingerprint is a positive number.
pub proof fn lemma_fingerprint_positive(s: Seq<int>)
    requires
        valid_ranks(s),
    ensures
        fingerprint(s) > 0,
    decreases s.len(),
{
    if s.len() > 0 {
        lemma_fingerprint_positive(s.drop_last());
        lemma_letter_prime_is_prime(s.last());
        lemma_mul_strictly_positive(fingerprint(s.drop_last()), letter_prime(s.last()));
    }
}

/// The number of times a letter's prime divides a fingerprint is the number of
/// times the letter occurs.
pub proof fn lemma_valuation_is_count(s: Seq<int>, k: int)
    requires
        valid_ranks(s),
        0 <= k < 26,
    ensures
        valuation(letter_prime(k), fingerprint(s)) == s.to_multiset().count(k),
    decreases s.len(),
{
    lemma_letter_prime_is_prime(k);
    if s.len() == 0 {
        assert(s.to_multiset() =~= Multiset::empty());
    } else {
        let rest = s.drop_last();
        let j = s.last();
        assert(rest.push(j) =~= s);
        lemma_valuation_is_count(rest, k);
        lemma_fingerprint_positive(rest);
        if j == k {
            lemma_valuation_same(letter_prime(k), fingerprint(rest));
        } else {
            lemma_letter_prime_is_prime(j);
            lemma_letter_primes_distinct(k, j);
            lemma_valuation_other(letter_prime(k), letter_prime(j), fingerprint(rest));
        }
    }
}

/// Taking one letter out divides the fingerprint by that letter's prime.
pub proof fn lemma_fingerprint_remove(s: Seq<int>, i: int)
    requires
        0 <= i < s.len(),
    ensures
        fingerprint(s) == fingerprint(s.remove(i)) * letter_prime(s[i]),
    decreases s.len(),
{
    let rest = s.drop_last();
    if i == s.len() - 1 {
        assert(s.remove(i) =~= rest);
    } else {
        lemma_fingerprint_remove(rest, i);
        assert(s.remove(i).drop_last() =~= rest.remove(i));
        assert(s.remove(i).last() == s.last());
        let f = fingerprint(rest.remove(i));
        lemma_mul_is_associative(f, letter_prime(s[i]), letter_prime(s.last()));
        lemma_mul_is_associative(f, letter_prime(s.last()), letter_prime(s[i]));
        lemma_mul_is_commutative(letter_prime(s[i]), letter_prime(s.last()));
    }
}

/// Rearranging the letters keeps the fingerprint.
pub proof fn lemma_fingerprint_permutation(a: Seq<int>, b: Seq<int>)
    requires
        a.to_multiset() == b.to_multiset(),
    ensures
        fingerprint(a) == fingerprint(b),
    decreases a.len(),
{
    if a.len() == 0 {
        assert(b.to_multiset().len() == 0);
    } else {
        let x = a.last();
        let rest = a.drop_last();
        assert(rest.push(x) =~= a);
        assert(a.to_multiset().count(x) > 0);
        assert(b.contains(x));
        let i = choose|i: int| 0 <= i < b.len() && b[i] == x;
        assert(rest.to_multiset() =~= b.remove(i).to_multiset());
        lemma_fingerprint_permutation(rest, b.remove(i));
        lemma_fingerprint_remove(b, i);
    }
}

/// Unique factorisation over the letter primes: two words have the same
/// fingerprint exactly when they hold the same letters, each as often.
pub proof fn lemma_fingerprint_eq_iff_same_letters(a: Seq<int>, b: Seq<int>)
    requires
        valid_ranks(a),
        valid_ranks(b),
    ensures
        fingerprint(a) == fingerprint(b) <==> a.to_multiset() == b.to_multiset(),
{
    if a.to_multiset() == b.to_multiset() {
        lemma_fingerprint_permutation(a, b);
    }
    if fingerprint(a) == fingerprint(b) {
        assert forall|k: int| #[trigger] a.to_multiset().count(k) == b.to_multiset().count(k) by {
            if 0 <= k < 26 {
                lemma_valuation_is_count(a, k);
                lemma_valuation_is_count(b, k);
            } else {
                assert(!a.contains(k));
                assert(!b.contains(k));
            }
        }
        assert(a.to_multiset() =~= b.to_multiset());
    }
}

/// The alphabet positions held in bytes, as integers.
pub open spec fn rank_values(v: Seq<u8>) -> Seq<int> {
    v.map_values(|r: u8| r as int)
}

/// Every byte is an alphabet position.
pub open spec fn valid_rank_bytes(v: Seq<u8>) -> bool {
    forall|i: int| 0 <= i < v.len() ==> #[trigger] v[i] < 26
}

/// A fingerprint is at least that of any prefix.
pub proof fn lemma_fingerprint_prefix(s: Seq<int>, i: int)
    requires
        valid_ranks(s),
        0 <= i <= s.len(),
    ensures
        fingerprint(s.take(i)) <= fingerprint(s),
    decreases s.len(),
{
    if i < s.len() {
        let rest = s.drop_last();
        assert(rest.take(i) =~= s.take(i));
        lemma_fingerprint_prefix(rest, i);
        lemma_fingerprint_positive(rest);
        lemma_letter_prime_is_prime(s.last());
        vstd::arithmetic::mul::lemma_mul_increases(letter_prime(s.last()), fingerprint(rest));
        lemma_mul_is_commutative(letter_prime(s.last()), fingerprint(rest));
    } else {
        assert(s.take(i) =~= s);
    }
}

/// The fingerprint of a word given by its letters' alphabet positions, or
/// `None` where it does not fit in 64 bits.
pub fn anagram_to_prime_product(ranks: &Vec<u8>) -> (r: Option<u64>)
    requires
        valid_rank_bytes(ranks@),
    ensures
        fingerprint(rank_values(ranks@)) <= u64::MAX ==> r == Some(
            fingerprint(rank_values(ranks@)) as u64,
        ),
        fingerprint(rank_values(ranks@)) > u64::MAX ==> r is None,
{
    let ghost word = rank_values(ranks@);
    let mut product: u64 = 1;
    assert(word.take(0) =~= Seq::<int>::empty());
    for i in 0..ranks.len()
        invariant
            word == rank_values(ranks@),
            valid_rank_bytes(ranks@),
            product as int == fingerprint(word.take(i as int)),
    {
        assert(word.take(i + 1).drop_last() =~= word.take(i as int));
        let prime = prime_for_rank(ranks[i]);
        match product.checked_mul(prime) {
            Some(next) => {
                product = next;
            },
            None => {
                proof {
                    lemma_fingerprint_prefix(word, i + 1);
                }
                return None;
            },
        }
    }
    assert(word.take(ranks@.len() as int) =~= word);
    Some(product)
}

/// How often each of the 26 alphabet positions occurs.
pub fn letter_counts(ranks: &Vec<u8>) -> (r: Vec<usize>)
    requires
        valid_rank_bytes(ranks@),
    ensures
        r@.len() == 26,
        forall|k: int| 0 <= k < 26 ==> #[trigger] r@[k] as int == rank_values(ranks@).to_multiset().count(k),
{
    let ghost word = rank_values(ranks@);
    let mut counts: Vec<usize> = Vec::new();
    for k in 0..26usize
        invariant
            counts@.len() == k,
            forall|j: int| 0 <= j < k ==> #[trigger] counts@[j] == 0,
    {
        counts.push(0);
    }
    assert(word.take(0).to_multiset() =~= Multiset::empty());
    for i in 0..ranks.len()
        invariant
            word == rank_values(ranks@),
            valid_rank_bytes(ranks@),
            counts@.len() == 26,
            forall|k: int| 0 <= k < 26 ==> #[trigger] counts@[k] as int == word.take(i as int).to_multiset().count(k),
            forall|k: int| 0 <= k < 26 ==> #[trigger] counts@[k] <= i,
    {
        assert(word.take(i as int).push(word[i as int]) =~= word.take(i + 1));
        let rank = ranks[i] as usize;
        let bumped = counts[rank] + 1;
        counts.set(rank, bumped);
    }
    assert(word.take(ranks@.len() as int) =~= word);
    counts
}

/// Whether two words, given by their letters' alphabet positions, hold the same
/// letters, each as often.
pub fn ranks_are_anagrams(a: &Vec<u8>, b: &Vec<u8>) -> (r: bool)
    requires
        valid_rank_bytes(a@),
        valid_rank_bytes(b@),
    ensures
        r == (rank_values(a@).to_multiset() == rank_values(b@).to_multiset()),
{
    proof {
        assert(valid_ranks(rank_values(a@)));
        assert(valid_ranks(rank_values(b@)));
        lemma_fingerprint_eq_iff_same_letters(rank_values(a@), rank_values(b@));
        lemma_fingerprint_positive(rank_values(a@));
        lemma_fingerprint_positive(rank_values(b@));
    }
    let pa = anagram_to_prime_product(a);
    let pb = anagram_to_prime_product(b);
    match (pa, pb) {
        (Some(x), Some(y)) => x == y,
        _ => {
            let ca = letter_counts(a);
            let cb = letter_counts(b);
            let mut same = true;
            for k in 0..26usize
                invariant
                    ca@.len() == 26,
                    cb@.len() == 26,
                    same == forall|j: int| 0 <= j < k ==> #[trigger] ca@[j] == cb@[j],
            {
                same = same && ca[k] == cb[k];
            }
            proof {
                let ma = rank_values(a@).to_multiset();
                let mb = rank_values(b@).to_multiset();
                if same {
                    assert forall|k: int| #[trigger] ma.count(k) == mb.count(k) by {
                        if 0 <= k < 26 {
                            assert(ca@[k] == cb@[k]);
                        } else {
                            assert(!rank_values(a@).contains(k));
                            assert(!rank_values(b@).contains(k));
                        }
                    }
                    assert(ma =~= mb);
                } else {
                    let k = choose|k: int| 0 <= k < 26 && ca@[k] != cb@[k];
                    assert(ma.count(k) != mb.count(k));
                }
            }
            same
        },
    }
}

} // verus!
