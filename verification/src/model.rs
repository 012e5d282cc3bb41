//! The mathematical model of a field element: a pair of integers, and the
//! field operations as functions on such pairs. The contracts of the
//! executable operations are stated over this model.

use vstd::arithmetic::power::pow;
use vstd::prelude::*;

verus! {

/// The value of a field element: the number `num` in the field of integers
/// modulo `prime`.
pub struct Element {
    pub num: int,
    pub prime: int,
}

/// The exponent that a power in the field modulo `prime` is actually raised
/// to: `exponent` reduced into `[0, prime - 1)`, so that a negative exponent
/// becomes a non-negative one. The field of one element has no such range;
/// there the exponent is 0.
pub open spec fn reduced_exponent(exponent: int, prime: int) -> nat {
    if prime > 1 {
        (exponent % (prime - 1)) as nat
    } else {
        0
    }
}

impl Element {
    /// `num` lies in the field: `0 <= num < prime`.
    pub open spec fn valid(self) -> bool {
        0 <= self.num < self.prime
    }

    /// The additive identity of the field modulo `prime`.
    pub open spec fn zero(prime: int) -> Element {
        Element { num: 0, prime }
    }

    /// The multiplicative identity of the field modulo `prime`.
    pub open spec fn one(prime: int) -> Element {
        Element { num: 1, prime }
    }

    /// `self + other` in the field of `self`.
    pub open spec fn sum(self, other: Element) -> Element {
        Element { num: (self.num + other.num) % self.prime, prime: self.prime }
    }

    /// `self - other` in the field of `self`. The modulo is the mathematical
    /// one: a negative difference wraps around into `[0, prime)`.
    pub open spec fn difference(self, other: Element) -> Element {
        Element { num: (self.num - other.num) % self.prime, prime: self.prime }
    }

    /// `self * other` in the field of `self`.
    pub open spec fn product(self, other: Element) -> Element {
        Element { num: (self.num * other.num) % self.prime, prime: self.prime }
    }

    /// `self` raised to `exponent`, which may be negative: the exponent is
    /// first reduced modulo `prime - 1`.
    pub open spec fn power(self, exponent: int) -> Element {
        Element {
            num: pow(self.num, reduced_exponent(exponent, self.prime)) % self.prime,
            prime: self.prime,
        }
    }

    /// `self / other` in the field of `self`: the product of `self` and the
    /// power `-1` of `other`.
    pub open spec fn quotient(self, other: Element) -> Element {
        self.product(other.power(-1))
    }
}

} // verus!
