//! The letter-to-prime table.
use crate::factor::{is_prime, lemma_small_prime, no_divisor_in};
use vstd::prelude::*;

verus! {

/// The primes given to the letters 'a' to 'z', in order.
pub const LETTER_PRIMES: [u64; 26] = [
    2, 3, 5, 7, 11, 13, 17, 19, 23, 29, 31, 37, 41, 43, 47, 53, 59, 61, 67, 71, 73, 79, 83, 89, 97,
    101,
];

/// The prime given to the letter of alphabet position `rank` (0 for 'a').
pub open spec fn letter_prime(rank: int) -> int {
    seq![
        2int, 3, 5, 7, 11, 13, 17, 19, 23, 29, 31, 37, 41, 43, 47, 53, 59, 61, 67, 71, 73, 79, 83,
        89, 97, 101,
    ][rank]
}

/// A position in the alphabet is one of 26 values.
proof fn lemma_rank_cases(rank: int)
    requires
        0 <= rank < 26,
    ensures
        rank == 0 || rank == 1 || rank == 2 || rank == 3 || rank == 4 || rank == 5 ||
        rank == 6 || rank == 7 || rank == 8 || rank == 9 || rank == 10 || rank == 11 ||
        rank == 12 || rank == 13 || rank == 14 || rank == 15 || rank == 16 || rank == 17 ||
        rank == 18 || rank == 19 || rank == 20 || rank == 21 || rank == 22 || rank == 23 ||
        rank == 24 || rank == 25,
{
}

/// Trial division finds no divisor of any entry of the table.
proof fn lemma_table_no_divisors()
    ensures
        no_divisor_in(2, 2, 2),
        no_divisor_in(3, 2, 3),
        no_divisor_in(5, 2, 5),
        no_divisor_in(7, 2, 7),
        no_divisor_in(11, 2, 11),
        no_divisor_in(13, 2, 11),
        no_divisor_in(17, 2, 11),
        no_divisor_in(19, 2, 11),
        no_divisor_in(23, 2, 11),
        no_divisor_in(29, 2, 11),
        no_divisor_in(31, 2, 11),
        no_divisor_in(37, 2, 11),
        no_divisor_in(41, 2, 11),
        no_divisor_in(43, 2, 11),
        no_divisor_in(47, 2, 11),
        no_divisor_in(53, 2, 11),
        no_divisor_in(59, 2, 11),
        no_divisor_in(61, 2, 11),
        no_divisor_in(67, 2, 11),
        no_divisor_in(71, 2, 11),
        no_divisor_in(73, 2, 11),
        no_divisor_in(79, 2, 11),
        no_divisor_in(83, 2, 11),
        no_divisor_in(89, 2, 11),
        no_divisor_in(97, 2, 11),
        no_divisor_in(101, 2, 11),
{
    reveal_with_fuel(no_divisor_in, 10);
}

/// Each letter's prime is indeed prime.
pub proof fn lemma_letter_prime_is_prime(rank: int)
    requires
        0 <= rank < 26,
    ensures
        is_prime(letter_prime(rank)),
{
    lemma_rank_cases(rank);
    lemma_table_no_divisors();
    lemma_small_prime(letter_prime(rank));
}

/// The table grows strictly from one letter to the next.
proof fn lemma_letter_prime_step(rank: int)
    requires
        0 <= rank < 25,
    ensures
        letter_prime(rank) < letter_prime(rank + 1),
{
    lemma_rank_cases(rank);
}

/// Distinct letters have distinct primes, neither of which divides the other.
pub proof fn lemma_letter_primes_distinct(i: int, j: int)
    requires
        0 <= i < 26,
        0 <= j < 26,
        i != j,
    ensures
        letter_prime(j) % letter_prime(i) != 0,
{
    lemma_letter_prime_is_prime(i);
    lemma_letter_prime_is_prime(j);
    if i < j {
        lemma_letter_prime_increasing(i, j);
    } else {
        lemma_letter_prime_increasing(j, i);
        vstd::arithmetic::div_mod::lemma_small_mod(letter_prime(j) as nat, letter_prime(i) as nat);
    }
}

proof fn lemma_letter_prime_increasing(i: int, j: int)
    requires
        0 <= i < j < 26,
    ensures
        1 < letter_prime(i) < letter_prime(j),
    decreases j - i,
{
    lemma_letter_prime_step(j - 1);
    if i < j - 1 {
        lemma_letter_prime_increasing(i, j - 1);
    } else {
        lemma_rank_cases(i);
    }
}

/// The prime of the letter at alphabet position `rank`.
pub fn prime_for_rank(rank: u8) -> (r: u64)
    requires
        rank < 26,
    ensures
        r == letter_prime(rank as int),
{
    LETTER_PRIMES[rank as usize]
}

} // verus!
