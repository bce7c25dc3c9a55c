//! Divisibility facts about primes: Euclid's lemma and the valuation of a
//! number at a prime.
use vstd::arithmetic::div_mod::*;
use vstd::arithmetic::mul::*;
use vstd::prelude::*;

verus! {

/// `p` is a prime number: greater than one, with no divisor strictly between
/// one and itself.
pub open spec fn is_prime(p: int) -> bool {
    p > 1 && forall|d: int| 1 < d < p ==> #[trigger] (p % d) != 0
}

/// No number from `lo` up to `hi` (excluded) divides `p`.
pub open spec fn no_divisor_in(p: int, lo: int, hi: int) -> bool
    decreases hi - lo,
{
    if lo >= hi {
        true
    } else {
        p % lo != 0 && no_divisor_in(p, lo + 1, hi)
    }
}

proof fn lemma_no_divisor_at(p: int, lo: int, hi: int, d: int)
    requires
        no_divisor_in(p, lo, hi),
        lo <= d < hi,
    ensures
        p % d != 0,
    decreases d - lo,
{
    if lo < d {
        lemma_no_divisor_at(p, lo + 1, hi, d);
    }
}

/// The bound below which a number's divisors are checked to show it prime.
pub open spec fn trial_bound(p: int) -> int {
    if p < 11 {
        p
    } else {
        11
    }
}

/// A number below 121 that none of 2 to 10 (nor below itself) divides is
/// prime: a proper divisor of it that is 11 or more would leave a cofactor
/// below 11.
pub proof fn lemma_small_prime(p: int)
    requires
        1 < p < 121,
        no_divisor_in(p, 2, trial_bound(p)),
    ensures
        is_prime(p),
{
    assert forall|d: int| 1 < d < p implies #[trigger] (p % d) != 0 by {
        if d < trial_bound(p) {
            lemma_no_divisor_at(p, 2, trial_bound(p), d);
        } else if p % d == 0 {
            let e = p / d;
            lemma_fundamental_div_mod(p, d);
            assert(1 < e < 11) by (nonlinear_arith)
                requires
                    p == d * e,
                    11 <= d < p < 121,
            ;
            lemma_mod_multiples_basic(d, e);
            lemma_no_divisor_at(p, 2, 11, e);
        }
    }
}

/// A factor smaller than the prime `p` and a number that `p` does not divide
/// have a product that `p` does not divide.
proof fn lemma_small_factor(p: int, a: int, b: int)
    requires
        is_prime(p),
        0 < a < p,
        b % p != 0,
    ensures
        (a * b) % p != 0,
    decreases a,
{
    if a > 1 {
        let k = p / a;
        let r = p % a;
        assert(r != 0);
        lemma_fundamental_div_mod(p, a);
        lemma_small_factor(p, r, b);
        if (a * b) % p == 0 {
            let m = (a * b) / p;
            lemma_fundamental_div_mod(a * b, p);
            assert(r * b == (b - k * m) * p) by (nonlinear_arith)
                requires
                    p == a * k + r,
                    a * b == p * m,
            ;
            lemma_mod_multiples_basic(b - k * m, p);
        }
    } else {
        lemma_mul_basics(b);
    }
}

/// Euclid's lemma: a prime that divides neither factor does not divide their
/// product.
pub proof fn lemma_prime_not_divides_product(p: int, a: int, b: int)
    requires
        is_prime(p),
        a % p != 0,
        b % p != 0,
    ensures
        (a * b) % p != 0,
{
    lemma_mul_mod_noop_left(a, b, p);
    lemma_small_factor(p, a % p, b);
}

/// How many times the factor `p` divides `n`.
pub open spec fn valuation(p: int, n: int) -> nat
    decreases n,
    via valuation_decreases
{
    if p > 1 && n > 0 && n % p == 0 {
        1 + valuation(p, n / p)
    } else {
        0
    }
}

#[via_fn]
proof fn valuation_decreases(p: int, n: int) {
    if p > 1 && n > 0 && n % p == 0 {
        lemma_div_decreases(n, p);
    }
}

/// Multiplying by `p` adds one to the valuation at `p`.
pub proof fn lemma_valuation_same(p: int, n: int)
    requires
        p > 1,
        n > 0,
    ensures
        valuation(p, n * p) == 1 + valuation(p, n),
{
    lemma_mul_strictly_positive(n, p);
    lemma_mod_multiples_basic(n, p);
    lemma_mul_is_commutative(n, p);
    lemma_div_multiples_vanish(n, p);
}

/// Multiplying by a number that the prime `p` does not divide leaves the
/// valuation at `p` as it was.
pub proof fn lemma_valuation_other(p: int, q: int, n: int)
    requires
        is_prime(p),
        q > 0,
        q % p != 0,
        n > 0,
    ensures
        valuation(p, n * q) == valuation(p, n),
    decreases n,
{
    lemma_mul_strictly_positive(n, q);
    if n % p == 0 {
        let m = n / p;
        lemma_fundamental_div_mod(n, p);
        assert(n * q == (m * q) * p) by (nonlinear_arith)
            requires
                n == p * m,
        ;
        assert(m > 0 && m < n) by (nonlinear_arith)
            requires
                n == p * m,
                n > 0,
                p > 1,
        ;
        lemma_valuation_other(p, q, m);
        lemma_mul_strictly_positive(m, q);
        lemma_valuation_same(p, m * q);
    } else {
        lemma_prime_not_divides_product(p, n, q);
    }
}

} // verus!
