use vstd::prelude::*;

pub mod operators;

verus! {

/// Adds two machine-word counts; the caller guarantees the sum fits.
pub fn add(left: usize, right: usize) -> (r: usize)
    requires
        left + right <= usize::MAX,
    ensures
        r == left + right,
{
    left + right
}

} // verus!
