//! The laws of field arithmetic, proved of the model that the contracts of
//! the executable operations are stated over.

use crate::fermat::lemma_fermat_little;
use crate::model::{reduced_exponent, Element};
use crate::primes::is_prime;
use vstd::arithmetic::div_mod::{
    lemma_add_mod_noop, lemma_div_pos_is_pos, lemma_fundamental_div_mod,
    lemma_fundamental_div_mod_converse, lemma_mod_bound, lemma_mul_mod_noop_general,
    lemma_small_mod,
};
use vstd::arithmetic::mul::lemma_mul_is_associative;
use vstd::arithmetic::power::{
    lemma1_pow, lemma_pow0, lemma_pow_adds, lemma_pow_mod_noop, lemma_pow_multiplies, pow,
};
use vstd::prelude::*;

verus! {

/// Closure: the sum, the difference, the product and the quotient of two
/// elements of one field are elements of that field.
pub proof fn lemma_closure(a: Element, b: Element)
    requires
        a.valid(),
        b.valid(),
        a.prime == b.prime,
    ensures
        a.sum(b).valid(),
        a.difference(b).valid(),
        a.product(b).valid(),
        a.quotient(b).valid(),
{
    lemma_mod_bound(a.num + b.num, a.prime);
    lemma_mod_bound(a.num - b.num, a.prime);
    lemma_mod_bound(a.num * b.num, a.prime);
    lemma_mod_bound(a.num * b.power(-1).num, a.prime);
}

/// Closure of powers: every power of an element, whatever the sign of the
/// exponent, is an element of the same field.
pub proof fn lemma_power_closure(a: Element, exponent: int)
    requires
        a.valid(),
    ensures
        a.power(exponent).valid(),
        a.power(exponent).prime == a.prime,
{
    lemma_mod_bound(pow(a.num, reduced_exponent(exponent, a.prime)), a.prime);
}

/// Additive identity: adding the zero of its field leaves an element as it
/// is.
pub proof fn lemma_additive_identity(a: Element)
    requires
        a.valid(),
    ensures
        a.sum(Element::zero(a.prime)) == a,
{
    lemma_small_mod(a.num as nat, a.prime as nat);
}

/// Multiplicative identity: multiplying by the one of its field leaves an
/// element as it is.
pub proof fn lemma_multiplicative_identity(a: Element)
    requires
        a.valid(),
    ensures
        a.product(Element::one(a.prime)) == a,
{
    lemma_small_mod(a.num as nat, a.prime as nat);
}

/// The exponent `-1` reduces to `prime - 2`.
proof fn lemma_reduced_minus_one(prime: int)
    requires
        prime >= 2,
    ensures
        reduced_exponent(-1, prime) == prime - 2,
{
    if prime > 2 {
        lemma_fundamental_div_mod_converse(-1, prime - 1, -1, prime - 2);
    }
}

/// The product of an element that is not zero and its power `-1` is the
/// remainder of `num^(prime-1)`, whether `prime` is a prime or not. So the
/// power `-1` is the inverse exactly where that remainder is 1.
pub proof fn lemma_inverse_product(a: Element)
    requires
        a.valid(),
        a.num != 0,
    ensures
        a.product(a.power(-1)) == (Element {
            num: pow(a.num, (a.prime - 1) as nat) % a.prime,
            prime: a.prime,
        }),
{
    let p = a.prime;
    let e = (p - 2) as nat;
    lemma_reduced_minus_one(p);
    lemma_mul_mod_noop_general(a.num, pow(a.num, e), p);
    assert(pow(a.num, (p - 1) as nat) == a.num * pow(a.num, e)) by {
        reveal(pow);
    }
}

/// Inverse round trip: in a field of prime order, an element that is not
/// zero times its power `-1` is the one of the field.
pub proof fn lemma_inverse(a: Element)
    requires
        a.valid(),
        a.num != 0,
        is_prime(a.prime),
    ensures
        a.product(a.power(-1)) == Element::one(a.prime),
{
    lemma_inverse_product(a);
    lemma_small_mod(a.num as nat, a.prime as nat);
    lemma_fermat_little(a.num, a.prime);
}

/// In a field of at least two elements the power `-1` is the power
/// `prime - 2`.
pub proof fn lemma_inverse_exponent(a: Element)
    requires
        a.prime >= 2,
    ensures
        a.power(-1) == a.power(a.prime - 2),
{
    lemma_reduced_minus_one(a.prime);
    if a.prime > 2 {
        lemma_small_mod((a.prime - 2) as nat, (a.prime - 1) as nat);
    }
}

/// In a field of prime order, the power `prime - 1` taken `q` times over of a
/// number that is not zero leaves the remainder 1.
proof fn lemma_power_of_multiple(n: int, p: int, q: nat)
    requires
        is_prime(p),
        n % p != 0,
    ensures
        0 <= (p - 1) * q,
        pow(n, ((p - 1) * q) as nat) % p == 1,
{
    let m = (p - 1) as nat;
    lemma_fermat_little(n, p);
    lemma_pow_multiplies(n, m, q);
    lemma_pow_mod_noop(pow(n, m), q, p);
    lemma1_pow(q);
    lemma_small_mod(1, p as nat);
}

/// Reducing the exponent keeps the result: in a field of prime order, a
/// power of an element that is not zero, to an exponent that is not
/// negative, is the remainder of the power of its number.
pub proof fn lemma_power_is_plain_power(a: Element, exponent: nat)
    requires
        a.valid(),
        a.num != 0,
        is_prime(a.prime),
    ensures
        a.power(exponent as int) == (Element {
            num: pow(a.num, exponent) % a.prime,
            prime: a.prime,
        }),
{
    let p = a.prime;
    let n = a.num;
    let m = p - 1;
    let q = exponent as int / m;
    let r = exponent as int % m;
    lemma_fundamental_div_mod(exponent as int, m);
    lemma_mod_bound(exponent as int, m);
    lemma_div_pos_is_pos(exponent as int, m);
    lemma_small_mod(n as nat, p as nat);
    lemma_power_of_multiple(n, p, q as nat);
    lemma_pow_adds(n, (m * q) as nat, r as nat);
    lemma_mul_mod_noop_general(pow(n, (m * q) as nat), pow(n, r as nat), p);
}

/// The law of exponents: in a field of prime order, the product of two
/// powers of an element that is not zero is its power to the sum of the
/// exponents, whatever their signs.
pub proof fn lemma_power_of_sum(a: Element, i: int, j: int)
    requires
        a.valid(),
        a.num != 0,
        is_prime(a.prime),
    ensures
        a.power(i).product(a.power(j)) == a.power(i + j),
{
    let p = a.prime;
    let n = a.num;
    let m = p - 1;
    let ri = reduced_exponent(i, p);
    let rj = reduced_exponent(j, p);
    let r = reduced_exponent(i + j, p);
    let both = ri + rj;
    lemma_mod_bound(i, m);
    lemma_mod_bound(j, m);
    lemma_mod_bound(i + j, m);
    lemma_add_mod_noop(i, j, m);
    // ri + rj is r, or r + m
    if both >= m {
        lemma_fundamental_div_mod_converse(both as int, m, 1, both - m);
    } else {
        lemma_small_mod(both, m as nat);
    }
    lemma_mul_mod_noop_general(pow(n, ri), pow(n, rj), p);
    lemma_pow_adds(n, ri, rj);
    if both >= m {
        lemma_small_mod(n as nat, p as nat);
        lemma_power_of_multiple(n, p, 1);
        lemma_pow_adds(n, m as nat, r);
        lemma_mul_mod_noop_general(pow(n, m as nat), pow(n, r), p);
        assert(1 * pow(n, r) == pow(n, r));
    }
}

/// Division consistency: dividing by an element that is not zero is
/// multiplying by its power `-1`.
pub proof fn lemma_division(a: Element, b: Element)
    requires
        a.valid(),
        b.valid(),
        a.prime == b.prime,
        b.num != 0,
    ensures
        a.quotient(b) == a.product(b.power(-1)),
{
}

/// Division undoes multiplication: in a field of prime order, the quotient
/// of `a` by an element `b` that is not zero, times `b`, is `a`.
pub proof fn lemma_quotient_times_divisor(a: Element, b: Element)
    requires
        a.valid(),
        b.valid(),
        a.prime == b.prime,
        b.num != 0,
        is_prime(a.prime),
    ensures
        a.quotient(b).product(b) == a,
{
    let p = a.prime;
    let inverse = b.power(-1).num;
    lemma_inverse(b);
    // ((a * inverse) % p) * b  ==  a * (inverse * b)  ==  a * 1   (mod p)
    lemma_mul_mod_noop_general(a.num * inverse, b.num, p);
    lemma_mul_is_associative(a.num, inverse, b.num);
    lemma_mul_mod_noop_general(a.num, inverse * b.num, p);
    lemma_small_mod(a.num as nat, p as nat);
}

/// Fermat periodicity: the power `prime - 1` of an element that is not zero
/// is the one of the field, because the exponent reduces to 0.
pub proof fn lemma_fermat_period(a: Element)
    requires
        a.valid(),
        a.num != 0,
    ensures
        a.power(a.prime - 1) == Element::one(a.prime),
{
    let p = a.prime;
    lemma_fundamental_div_mod_converse(p - 1, p - 1, 1, 0);
    lemma_pow0(a.num);
    lemma_small_mod(1, p as nat);
}

} // verus!
