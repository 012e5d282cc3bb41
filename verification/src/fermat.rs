//! Fermat's little theorem: for a prime `p` and a number `a` that `p` does
//! not divide, `a` to the power `p - 1` leaves the remainder 1.
//!
//! The proof is the classical one. Multiplying the numbers `1, .., p - 1` by
//! `a` and reducing modulo `p` rearranges them, so both lists have the same
//! product, `(p - 1)!`. The product of the multiples is also congruent to
//! `a^(p-1) * (p - 1)!`, and `(p - 1)!` can be cancelled.

use crate::primes::{
    is_prime, lemma_cancel_factor, lemma_prime_divides_factor, lemma_residue_product_nonzero,
};
use vstd::arithmetic::div_mod::{
    lemma_mod_bound, lemma_mul_mod_noop_general, lemma_small_mod,
};
use vstd::arithmetic::mul::lemma_mul_is_associative;
use vstd::arithmetic::power::{lemma_pow_mod_noop, pow};
use vstd::prelude::*;
use vstd::set_lib::{lemma_int_range, lemma_len_subset, set_int_range};

verus! {

/// `n!`, the product of the numbers from 1 to `n`.
pub open spec fn factorial(n: nat) -> int
    decreases n,
{
    if n == 0 {
        1
    } else {
        n * factorial((n - 1) as nat)
    }
}

/// The product of the numbers in `s`.
pub open spec fn product(s: Seq<int>) -> int
    decreases s.len(),
{
    if s.len() == 0 {
        1
    } else {
        product(s.drop_last()) * s.last()
    }
}

/// The first `n` multiples of `a`, from `a * 1` to `a * n`, each reduced
/// modulo `p`.
pub open spec fn multiples(a: int, n: nat, p: int) -> Seq<int> {
    Seq::new(n, |i: int| (a * (i + 1)) % p)
}

/// Any one factor can be taken out of a product.
proof fn lemma_product_remove(s: Seq<int>, k: int)
    requires
        0 <= k < s.len(),
    ensures
        product(s) == s[k] * product(s.remove(k)),
    decreases s.len(),
{
    if k == s.len() - 1 {
        assert(s.remove(k) =~= s.drop_last());
        assert(product(s.drop_last()) * s.last() == s.last() * product(s.drop_last()))
            by (nonlinear_arith);
    } else {
        let front = s.drop_last();
        let rest = s.remove(k);
        lemma_product_remove(front, k);
        assert(rest.drop_last() =~= front.remove(k));
        lemma_mul_is_associative(s[k], product(front.remove(k)), s.last());
    }
}

/// A sequence that holds each of the numbers `1, .., n` once has the product
/// `n!`, in whatever order it holds them.
proof fn lemma_product_of_rearrangement(s: Seq<int>, n: nat)
    requires
        s.len() == n,
        s.no_duplicates(),
        forall|i: int| 0 <= i < n ==> 1 <= #[trigger] s[i] <= n,
    ensures
        product(s) == factorial(n),
    decreases n,
{
    if n > 0 {
        if !s.contains(n as int) {
            // n distinct numbers do not fit into 1, .., n - 1
            let below = set_int_range(1, n as int);
            s.unique_seq_to_set();
            lemma_int_range(1, n as int);
            assert forall|v: int| s.to_set().contains(v) implies below.contains(v) by {
                let i = choose|i: int| 0 <= i < s.len() && s[i] == v;
                assert(1 <= s[i] < n);
            }
            lemma_len_subset(s.to_set(), below);
            assert(false);
        }
        let k = choose|k: int| 0 <= k < s.len() && s[k] == n;
        let rest = s.remove(k);
        lemma_product_remove(s, k);
        // an entry of rest is an entry of s other than s[k]
        assert forall|i: int| 0 <= i < n - 1 implies 1 <= #[trigger] rest[i] <= n - 1 by {
            let si = if i < k { i } else { i + 1 };
            assert(rest[i] == s[si]);
        }
        assert forall|i: int, j: int|
            0 <= i < rest.len() && 0 <= j < rest.len() && i != j implies rest[i] != rest[j] by {
            let si = if i < k { i } else { i + 1 };
            let sj = if j < k { j } else { j + 1 };
            assert(rest[i] == s[si] && rest[j] == s[sj]);
        }
        lemma_product_of_rearrangement(rest, (n - 1) as nat);
    }
}

/// The product of the first `n` reduced multiples of `a` is congruent to
/// `a^n * n!`.
proof fn lemma_product_of_multiples(a: int, n: nat, p: int)
    requires
        p > 0,
    ensures
        product(multiples(a, n, p)) % p == (pow(a, n) * factorial(n)) % p,
    decreases n,
{
    reveal(pow);
    if n > 0 {
        let m = (n - 1) as nat;
        let s = multiples(a, n, p);
        assert(s.drop_last() =~= multiples(a, m, p));
        lemma_product_of_multiples(a, m, p);
        let front = product(multiples(a, m, p));
        let scaled = pow(a, m) * factorial(m);
        // front * ((a * n) % p)  ==  front * (a * n)  ==  scaled * (a * n)   (mod p)
        lemma_mul_mod_noop_general(front, a * n, p);
        lemma_mul_mod_noop_general(scaled, a * n, p);
        assert(scaled * (a * n) == pow(a, n) * factorial(n)) by (nonlinear_arith)
            requires
                scaled == pow(a, m) * factorial(m),
                pow(a, n) == a * pow(a, m),
                factorial(n) == n * factorial(m),
        ;
    }
}

/// A prime does not divide the factorial of a smaller number.
proof fn lemma_factorial_not_divisible(p: int, n: nat)
    requires
        is_prime(p),
        n < p,
    ensures
        factorial(n) % p != 0,
    decreases n,
{
    if n == 0 {
        lemma_small_mod(1, p as nat);
    } else {
        lemma_factorial_not_divisible(p, (n - 1) as nat);
        lemma_small_mod(n, p as nat);
        if factorial(n) % p == 0 {
            lemma_prime_divides_factor(p, n as int, factorial((n - 1) as nat));
        }
    }
}

/// Fermat's little theorem for a number between 0 and the prime.
proof fn lemma_fermat_residue(a: int, p: int)
    requires
        is_prime(p),
        0 < a < p,
    ensures
        pow(a, (p - 1) as nat) % p == 1,
{
    let n = (p - 1) as nat;
    let s = multiples(a, n, p);
    assert forall|i: int| 0 <= i < n implies 1 <= #[trigger] s[i] <= n by {
        lemma_mod_bound(a * (i + 1), p);
        lemma_residue_product_nonzero(p, a, i + 1);
    }
    assert forall|i: int, j: int|
        0 <= i < s.len() && 0 <= j < s.len() && i != j implies s[i] != s[j] by {
        if s[i] == s[j] {
            lemma_small_mod(a as nat, p as nat);
            lemma_cancel_factor(p, a, i + 1, j + 1);
            lemma_small_mod((i + 1) as nat, p as nat);
            lemma_small_mod((j + 1) as nat, p as nat);
        }
    }
    lemma_product_of_rearrangement(s, n);
    lemma_product_of_multiples(a, n, p);
    // a^n * n!  ==  n!  ==  1 * n!   (mod p), and n! cancels
    let f = factorial(n);
    lemma_factorial_not_divisible(p, n);
    assert(f * pow(a, n) == pow(a, n) * f) by (nonlinear_arith);
    lemma_cancel_factor(p, f, pow(a, n), 1);
    lemma_small_mod(1, p as nat);
}

/// Fermat's little theorem: a prime `p` and a number `a` that it does not
/// divide satisfy `a^(p-1) = 1` modulo `p`.
pub proof fn lemma_fermat_little(a: int, p: int)
    requires
        is_prime(p),
        a % p != 0,
    ensures
        pow(a, (p - 1) as nat) % p == 1,
{
    lemma_mod_bound(a, p);
    lemma_fermat_residue(a % p, p);
    lemma_pow_mod_noop(a, (p - 1) as nat, p);
}

} // verus!
