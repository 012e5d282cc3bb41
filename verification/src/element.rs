//! `FieldElement`: a number of a prime field, held as two `BigInt`s, with the
//! field operations.

use crate::integer;
use crate::integer::{decimal_text, int_value};
use crate::model::Element;
use num_bigint::BigInt;
use vstd::arithmetic::div_mod::lemma_mod_bound;
use vstd::arithmetic::power::{lemma_pow1, pow};
use vstd::prelude::*;
use vstd::std_specs::cmp::PartialEqSpecImpl;

verus! {

/// Why an operation on field elements was refused.
#[derive(Debug, Clone, Copy, PartialEq, Eq, Structural)]
pub enum FieldError {
    /// The number given to the constructor is not in `[0, prime)`.
    RangeViolation,
    /// The two operands belong to fields of different primes.
    FieldMismatch,
    /// The divisor is the zero of the field.
    DivisionByZero,
}

/// The text of a pair: `[`, the first text, a comma and a space, the second
/// text, `]`.
pub open spec fn bracketed(first: Seq<char>, second: Seq<char>) -> Seq<char> {
    seq!['['] + first + seq![',', ' '] + second + seq![']']
}

/// Writes two texts as a pair in square brackets.
pub fn bracket(first: &str, second: &str) -> (s: String)
    ensures
        s@ == bracketed(first@, second@),
{
    proof {
        reveal_strlit("[");
        reveal_strlit(", ");
        reveal_strlit("]");
    }
    let mut s = String::from_str("[");
    s.append(first);
    s.append(", ");
    s.append(second);
    s.append("]");
    assert(s@ =~= bracketed(first@, second@));
    s
}

/// An element of the field of integers modulo `prime`.
///
/// Every value satisfies `0 <= num < prime`. A value never changes: each
/// operation returns a new element.
#[derive(Debug)]
pub struct FieldElement {
    num: BigInt,
    prime: BigInt,
}

impl View for FieldElement {
    type V = Element;

    closed spec fn view(&self) -> Element {
        Element { num: int_value(self.num), prime: int_value(self.prime) }
    }
}

impl FieldElement {
    /// What holds of every element: its number lies in its field.
    #[verifier::type_invariant]
    pub open spec fn in_field(self) -> bool {
        self@.valid()
    }

    /// The element `num` of the field modulo `prime`. The number is not
    /// reduced: one outside `[0, prime)` is refused.
    pub fn new(num: BigInt, prime: BigInt) -> (r: Result<FieldElement, FieldError>)
        ensures
            match r {
                Ok(e) => 0 <= int_value(num) < int_value(prime) && e@ == (Element {
                    num: int_value(num),
                    prime: int_value(prime),
                }),
                Err(error) => !(0 <= int_value(num) < int_value(prime)) && error
                    == FieldError::RangeViolation,
            },
    {
        let zero = integer::zero();
        if !integer::less(&num, &prime) || integer::less(&num, &zero) {
            return Err(FieldError::RangeViolation);
        }
        Ok(FieldElement { num, prime })
    }

    /// The element of this field that `n` reduces to.
    fn reduce(&self, n: &BigInt) -> (r: FieldElement)
        ensures
            r@ == (Element { num: int_value(*n) % self@.prime, prime: self@.prime }),
    {
        proof {
            use_type_invariant(self);
        }
        let one = integer::one();
        let num = integer::modpow(n, &one, &self.prime);
        proof {
            lemma_pow1(int_value(*n));
            lemma_mod_bound(int_value(*n), int_value(self.prime));
        }
        FieldElement { num, prime: integer::duplicate(&self.prime) }
    }

    /// `self + other`, for two elements of one field.
    pub fn add(&self, other: &FieldElement) -> (r: Result<FieldElement, FieldError>)
        ensures
            match r {
                Ok(e) => self@.prime == other@.prime && e@ == self@.sum(other@) && e@.valid(),
                Err(error) => self@.prime != other@.prime && error == FieldError::FieldMismatch,
            },
    {
        if !integer::same(&self.prime, &other.prime) {
            return Err(FieldError::FieldMismatch);
        }
        let n = integer::plus(&self.num, &other.num);
        let e = self.reduce(&n);
        proof {
            use_type_invariant(&e);
        }
        Ok(e)
    }

    /// `self - other`, for two elements of one field.
    pub fn sub(&self, other: &FieldElement) -> (r: Result<FieldElement, FieldError>)
        ensures
            match r {
                Ok(e) => self@.prime == other@.prime && e@ == self@.difference(other@)
                    && e@.valid(),
                Err(error) => self@.prime != other@.prime && error == FieldError::FieldMismatch,
            },
    {
        if !integer::same(&self.prime, &other.prime) {
            return Err(FieldError::FieldMismatch);
        }
        let n = integer::minus(&self.num, &other.num);
        let e = self.reduce(&n);
        proof {
            use_type_invariant(&e);
        }
        Ok(e)
    }

    /// `self * other`, for two elements of one field.
    pub fn mul(&self, other: &FieldElement) -> (r: Result<FieldElement, FieldError>)
        ensures
            match r {
                Ok(e) => self@.prime == other@.prime && e@ == self@.product(other@)
                    && e@.valid(),
                Err(error) => self@.prime != other@.prime && error == FieldError::FieldMismatch,
            },
    {
        if !integer::same(&self.prime, &other.prime) {
            return Err(FieldError::FieldMismatch);
        }
        let n = integer::times(&self.num, &other.num);
        let e = self.reduce(&n);
        proof {
            use_type_invariant(&e);
        }
        Ok(e)
    }

    /// `self` raised to `exponent`, which may be any integer.
    ///
    /// The exponent is reduced modulo `prime - 1` first, which turns a
    /// negative exponent into the non-negative one that gives the inverse
    /// power when `prime` is a prime and `self` is not zero. Nothing else is
    /// checked: a power of zero is computed by the same rule whatever the
    /// sign of the exponent, and is one where the reduced exponent is 0 and
    /// zero elsewhere. In the field of one element every power is its only
    /// element.
    pub fn pow(&self, exponent: &BigInt) -> (r: FieldElement)
        ensures
            r@ == self@.power(int_value(*exponent)),
            r@.valid(),
    {
        proof {
            use_type_invariant(self);
        }
        let one = integer::one();
        let order = integer::minus(&self.prime, &one);
        let e = if integer::is_zero(&order) {
            integer::zero()
        } else {
            proof {
                lemma_pow1(int_value(*exponent));
                lemma_mod_bound(int_value(*exponent), int_value(order));
            }
            integer::modpow(exponent, &one, &order)
        };
        let num = integer::modpow(&self.num, &e, &self.prime);
        proof {
            lemma_mod_bound(pow(int_value(self.num), int_value(e) as nat), int_value(self.prime));
        }
        FieldElement { num, prime: integer::duplicate(&self.prime) }
    }

    /// The element as text, for diagnostics: `[num, prime]`, both numbers in
    /// decimal.
    pub fn to_string(&self) -> (s: String)
        ensures
            s@ == bracketed(decimal_text(self@.num), decimal_text(self@.prime)),
    {
        let num = integer::to_decimal(&self.num);
        let prime = integer::to_decimal(&self.prime);
        bracket(num.as_str(), prime.as_str())
    }

    /// `self / other`, for two elements of one field and `other` not zero:
    /// `self` times the power `-1` of `other`.
    pub fn div(&self, other: &FieldElement) -> (r: Result<FieldElement, FieldError>)
        ensures
            match r {
                Ok(e) => self@.prime == other@.prime && other@.num != 0 && e@
                    == self@.quotient(other@) && e@.valid(),
                Err(error) => if self@.prime != other@.prime {
                    error == FieldError::FieldMismatch
                } else {
                    other@.num == 0 && error == FieldError::DivisionByZero
                },
            },
    {
        if !integer::same(&self.prime, &other.prime) {
            return Err(FieldError::FieldMismatch);
        }
        if integer::is_zero(&other.num) {
            return Err(FieldError::DivisionByZero);
        }
        let minus_one = integer::from_i32(-1);
        let inverse = other.pow(&minus_one);
        self.mul(&inverse)
    }
}

impl PartialEq for FieldElement {
    /// Two elements are equal when both the number and the prime agree.
    fn eq(&self, other: &FieldElement) -> (r: bool) {
        integer::same(&self.num, &other.num) && integer::same(&self.prime, &other.prime)
    }
}

impl PartialEqSpecImpl for FieldElement {
    open spec fn obeys_eq_spec() -> bool {
        true
    }

    open spec fn eq_spec(&self, other: &FieldElement) -> bool {
        self@ == other@
    }
}

} // verus!
