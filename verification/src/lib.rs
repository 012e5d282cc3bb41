//! Elements of a finite field of prime order, with verified arithmetic.
//!
//! A [`FieldElement`] is a pair `(num, prime)` with `0 <= num < prime`. Its
//! numbers are arbitrary-precision integers of the `num-bigint` crate; every
//! operation reduces its result modulo `prime`, and the contracts state the
//! result over the mathematical integers.
//!
//! - [`element`] holds the type and its operations;
//! - [`model`] holds the pair of integers that an element stands for, and
//!   the operations as functions on such pairs;
//! - [`algebra`] proves the field laws of that model, among them that the
//!   power `-1` is the inverse when `prime` is a prime;
//! - [`primes`] and [`fermat`] hold the number theory under those laws;
//! - [`integer`] states what is taken on trust from `num-bigint`.

pub mod algebra;
pub mod element;
pub mod fermat;
pub mod integer;
pub mod model;
pub mod primes;

pub use element::{FieldElement, FieldError};
