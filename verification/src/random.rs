use vstd::prelude::*;

verus! {

/// A uniformly drawn index below `bound`, from the thread's generator.
///
/// Calls `fastrand::usize` on the range `0..bound`. Trusted: the number drawn
/// lies in that range. The range must not be empty, as `fastrand` panics on an
/// empty one.
#[verifier::external_body]
pub(crate) fn random_index(bound: usize) -> (index: usize)
    requires
        bound > 0,
    ensures
        index < bound,
{
    fastrand::usize(0..bound)
}

} // verus!
