//! Conversions between integer widths, done by `num_traits`.
use vstd::prelude::*;

verus! {

/// Relies on `num_traits::ToPrimitive::to_i128` for `i64`: every `i64` fits, so the
/// result is always `Some` of the same value.
#[verifier::external_body]
pub(crate) fn widen(x: i64) -> (r: Option<i128>)
    ensures
        r == Some(x as i128),
{
    num_traits::ToPrimitive::to_i128(&x)
}

/// Relies on `num_traits::NumCast::from` from `i128` to `i64`: `Some` of the same
/// value exactly when it lies in the range of `i64`.
#[verifier::external_body]
pub(crate) fn narrow(w: i128) -> (r: Option<i64>)
    ensures
        i64::MIN <= w <= i64::MAX ==> r == Some(w as i64),
        !(i64::MIN <= w <= i64::MAX) ==> r.is_none(),
{
    <i64 as num_traits::NumCast>::from(w)
}

/// Relies on `num_traits::NumCast::from` from `usize` to `i64`: `Some` of the same
/// value exactly when it is at most `i64::MAX`.
#[verifier::external_body]
pub(crate) fn index_to_i64(i: usize) -> (r: Option<i64>)
    ensures
        i <= i64::MAX ==> r == Some(i as i64),
        i > i64::MAX ==> r.is_none(),
{
    <i64 as num_traits::NumCast>::from(i)
}

} // verus!
