use vstd::prelude::*;
use rand::Rng;

verus! {

/// A number below `n`, drawn by `rand::Rng::gen_range` on the half-open range
/// from zero to `n` with the thread's generator (`rand::thread_rng`).
///
/// Trusted: `gen_range` returns a value inside the range it is given, and
/// panics on an empty range, which `n > 0` rules out. Nothing is claimed about
/// which value comes back. The thread's generator is seeded from the
/// operating system on first use; where the system cannot seed it the call
/// panics, and no argument of this function decides that.
#[verifier::external_body]
pub(crate) fn random_below(n: usize) -> (r: usize)
    requires
        n > 0,
    ensures
        r < n,
{
    rand::thread_rng().gen_range(0..n)
}

} // verus!
