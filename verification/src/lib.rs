//! Exact rational numbers: a numerator/denominator pair of signed machine
//! integers with arithmetic, normalization, comparison and textual rendering,
//! each operation carrying a contract that pins its result down exactly.

pub mod gcd;
pub mod laws;
pub mod rational;
pub mod text;

pub use crate::rational::Rational;
pub use crate::rational::{int_add, int_div, int_eq, int_mul, int_partial_cmp, int_sub};
