use vstd::prelude::*;

use rand::Rng;

verus! {

/// Relies on `rand::Rng::gen_range` over the half-open range `0..n`:
/// the call returns a value of that range, drawn from the thread-local
/// generator. The range is nonempty (`n > 0`), so the call does not panic.
/// Nothing is assumed about which value comes back.
#[verifier::external_body]
pub(crate) fn random_below(n: usize) -> (r: usize)
    requires
        n > 0,
    ensures
        r < n,
{
    rand::thread_rng().gen_range(0..n)
}

} // verus!
