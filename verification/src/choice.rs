use vstd::prelude::*;

use rand::Rng;

verus! {

/// Relies on rand's `rng()` and `Rng::random_range`: on the non-empty range
/// `0..n` it returns a uniformly drawn value of that range. Nothing more is
/// assumed of the draw; every caller must cope with any value below `n`.
#[verifier::external_body]
fn random_below(n: usize) -> (r: usize)
    requires
        n >= 1,
    ensures
        r < n,
{
    rand::rng().random_range(0..n)
}

/// Picks a uniformly random index into a collection of `len` items; there is
/// nothing to pick exactly when the collection is empty.
pub fn choose_index(len: usize) -> (r: Option<usize>)
    ensures
        (r is Some) <==> len > 0,
        r matches Some(i) ==> i < len,
{
    if len == 0 {
        None
    } else {
        Some(random_below(len))
    }
}

} // verus!
