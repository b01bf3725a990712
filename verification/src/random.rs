use vstd::prelude::*;
use rand::Rng;

verus! {

/// Calls `rand::rng().random_range(0..n)` (rand's thread-local generator).
/// Claimed of it, as rand documents: the result lies in `0..n`. Which value
/// comes back is chance and left unsaid; the empty range, on which rand
/// panics, is ruled out.
#[verifier::external_body]
pub(crate) fn random_below(n: usize) -> (r: usize)
    requires
        n > 0,
    ensures
        r < n,
{
    rand::rng().random_range(0..n)
}

/// A uniformly drawn element of `v`, or `None` when `v` is empty.
pub fn random_element(v: &Vec<usize>) -> (r: Option<usize>)
    ensures
        match r {
            None => v@.len() == 0,
            Some(x) => v@.contains(x),
        },
{
    if v.len() == 0 {
        None
    } else {
        let i = random_below(v.len());
        assert(v@[i as int] == v@[i as int]);
        Some(v[i])
    }
}

} // verus!
