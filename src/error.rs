//! The conditions that the number theory and the generator report to their callers.
use vstd::prelude::*;

verus! {

/// A recoverable failure of a modular operation.
#[derive(Debug, Clone, Copy)]
pub enum ModopError {
    /// A permutation or combination needs the inverse of a factorial that has none.
    CannotCalculate { object: &'static str, modulo: i64 },
    /// An operation was asked between values of different moduli.
    DifferentModulos { op: &'static str },
    /// The value shares a factor with the modulus, so it has no inverse.
    NotRelativelyPrime { remainder: i64, modulo: i64 },
}

} // verus!
