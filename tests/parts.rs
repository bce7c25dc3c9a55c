use is_anagram::alphabet::{prime_for_rank, LETTER_PRIMES};
use is_anagram::fingerprint::{anagram_to_prime_product, letter_counts, ranks_are_anagrams};
use is_anagram::word::{holds_space, ranks_of_codes, to_lower_code, word_ranks};
use is_anagram::ErrorKind;

#[test]
fn letter_primes_table() {
    assert_eq!(prime_for_rank(0), 2);
    assert_eq!(prime_for_rank(1), 3);
    assert_eq!(prime_for_rank(25), 101);
    assert_eq!(LETTER_PRIMES.len(), 26);
}

#[test]
fn lower_codes() {
    assert_eq!(to_lower_code(b'A'), b'a');
    assert_eq!(to_lower_code(b'Z'), b'z');
    assert_eq!(to_lower_code(b'q'), b'q');
    assert_eq!(to_lower_code(b'@'), b'@');
    assert_eq!(to_lower_code(b'['), b'[');
}

#[test]
fn ranks_from_codes() {
    assert_eq!(ranks_of_codes(&vec![b'a', b'B', b'z']), Some(vec![0, 1, 25]));
    assert_eq!(ranks_of_codes(&vec![b'a', b'1']), None);
    assert_eq!(ranks_of_codes(&vec![]), Some(vec![]));
}

#[test]
fn ranks_from_words() {
    assert_eq!(word_ranks("Cab"), Ok(vec![2, 0, 1]));
    assert_eq!(word_ranks("cañ").map_err(|e| e.kind), Err(ErrorKind::InvalidEncoding));
    assert_eq!(word_ranks("c?b").map_err(|e| e.kind), Err(ErrorKind::InvalidEncoding));
}

#[test]
fn spaces_found() {
    assert!(holds_space("a b"));
    assert!(holds_space(" "));
    assert!(!holds_space("ab"));
    assert!(!holds_space(""));
}

#[test]
fn prime_products() {
    assert_eq!(anagram_to_prime_product(&vec![]), Some(1));
    assert_eq!(anagram_to_prime_product(&vec![0, 1, 2]), Some(30));
    assert_eq!(anagram_to_prime_product(&vec![25, 25]), Some(10201));
    assert_eq!(anagram_to_prime_product(&vec![25; 9]), Some(101u64.pow(9)));
    assert_eq!(anagram_to_prime_product(&vec![25; 10]), None);
}

#[test]
fn counts_of_letters() {
    let c = letter_counts(&vec![0, 25, 0]);
    assert_eq!(c.len(), 26);
    assert_eq!(c[0], 2);
    assert_eq!(c[25], 1);
    assert_eq!(c[1], 0);
}

#[test]
fn anagram_ranks() {
    assert!(ranks_are_anagrams(&vec![0, 1, 2], &vec![2, 1, 0]));
    assert!(!ranks_are_anagrams(&vec![0, 1, 2], &vec![2, 1, 1]));
    assert!(ranks_are_anagrams(&vec![25; 12], &vec![25; 12]));
    assert!(!ranks_are_anagrams(&vec![25; 12], &vec![24; 12]));
}
