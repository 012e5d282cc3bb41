//! Prime numbers and multiplication modulo a prime: a product of two numbers
//! is divisible by a prime only if one of them is, and what follows from it.

use vstd::arithmetic::div_mod::{
    lemma_fundamental_div_mod, lemma_mod_bound, lemma_mod_equivalence, lemma_mod_multiples_basic,
    lemma_mul_mod_noop_general, lemma_small_mod, lemma_sub_mod_noop,
};
use vstd::arithmetic::mul::lemma_mul_is_distributive_sub;
use vstd::prelude::*;

verus! {

/// `d` divides `n`.
pub open spec fn divides(d: int, n: int) -> bool {
    n % d == 0
}

/// `p` is a prime number: at least 2, and divisible by no number strictly
/// between 1 and itself.
pub open spec fn is_prime(p: int) -> bool {
    &&& p >= 2
    &&& forall|d: int| 1 < d < p ==> !#[trigger] divides(d, p)
}

/// Two numbers strictly between 0 and a prime have a product that the prime
/// does not divide.
pub proof fn lemma_residue_product_nonzero(p: int, a: int, b: int)
    requires
        is_prime(p),
        0 < a < p,
        0 < b < p,
    ensures
        (a * b) % p != 0,
    decreases a,
{
    if a == 1 {
        assert(a * b == b) by (nonlinear_arith)
            requires
                a == 1,
        ;
        lemma_small_mod(b as nat, p as nat);
    } else {
        // p = q * a + r with 0 < r < a, since a does not divide p
        let q = p / a;
        let r = p % a;
        lemma_fundamental_div_mod(p, a);
        lemma_mod_bound(p, a);
        assert(!divides(a, p));
        lemma_residue_product_nonzero(p, r, b);
        if (a * b) % p == 0 {
            // then p divides r * b = b * p - q * (a * b) as well
            assert(r * b == b * p - q * (a * b)) by (nonlinear_arith)
                requires
                    p == a * q + r,
            ;
            lemma_mod_multiples_basic(b, p);
            lemma_mul_mod_noop_general(q, a * b, p);
            assert(0int % p == 0) by {
                lemma_small_mod(0, p as nat);
            }
            lemma_sub_mod_noop(b * p, q * (a * b), p);
            assert(false);
        }
    }
}

/// Euclid's lemma: a prime that divides a product divides one of its factors.
pub proof fn lemma_prime_divides_factor(p: int, x: int, y: int)
    requires
        is_prime(p),
        (x * y) % p == 0,
    ensures
        x % p == 0 || y % p == 0,
{
    lemma_mod_bound(x, p);
    lemma_mod_bound(y, p);
    lemma_mul_mod_noop_general(x, y, p);
    if x % p != 0 && y % p != 0 {
        lemma_residue_product_nonzero(p, x % p, y % p);
    }
}

/// A factor that a prime does not divide can be cancelled modulo the prime.
pub proof fn lemma_cancel_factor(p: int, c: int, x: int, y: int)
    requires
        is_prime(p),
        c % p != 0,
        (c * x) % p == (c * y) % p,
    ensures
        x % p == y % p,
{
    lemma_mod_equivalence(c * x, c * y, p);
    lemma_mul_is_distributive_sub(c, x, y);
    lemma_prime_divides_factor(p, c, x - y);
    lemma_mod_equivalence(x, y, p);
}

} // verus!
