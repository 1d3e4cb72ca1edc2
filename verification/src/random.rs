//! Random numbers.
use vstd::prelude::*;

verus! {

/// Draws a number with [`fastrand::u32`] over its whole range. Nothing is
/// claimed of the number.
#[verifier::external_body]
pub(crate) fn random_u32() -> (n: u32)
{
    fastrand::u32(..)
}

/// Draws a number with [`fastrand::u16`] from the range that starts at zero and
/// ends before `bound`. The contract claims that the number is in that range;
/// the function panics if the range is empty.
#[verifier::external_body]
pub(crate) fn random_below(bound: u16) -> (n: u16)
    requires
        0 < bound,
    ensures
        n < bound,
{
    fastrand::u16(0..bound)
}

} // verus!
