//! Exact arithmetic on residue classes of `i64` values, with the number theory
//! it rests on and a generator of factorials, permutations and combinations.
//!
//! All values are `i64`: the remainder keeps the sign of the machine's truncating
//! `%`, so it may be negative, and `remainder_pos` / `remainder_neg` normalise it.
//! There is no unsigned width, and so no separate unsigned subtraction.
pub mod arith;
mod convert;
pub mod error;
pub mod gcd;
pub mod modulo;
pub mod factorial;
