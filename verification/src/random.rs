//! The random source.  Nothing is promised of a draw beyond its range, so
//! everything downstream is verified for every value the source may hand
//! back.

use vstd::prelude::*;
use rand::Rng;

verus! {

/// Relies on rand's thread_rng and Rng::gen_range: a draw from the non-empty
/// range `0..n` lies below `n`; no more is promised of a random value.
#[verifier::external_body]
pub(crate) fn random_below(n: usize) -> (r: usize)
    requires
        n > 0,
    ensures
        r < n,
{
    rand::thread_rng().gen_range(0..n)
}

/// A random valid index into a non-empty list of candidates.
pub(crate) fn get_random_index(v: &Vec<String>) -> (r: usize)
    requires
        v@.len() > 0,
    ensures
        r < v@.len(),
{
    random_below(v.len())
}

/// One independent draw that succeeds about once in a hundred.
pub(crate) fn is_one_percent_chance() -> bool {
    random_below(100) == 1
}

} // verus!
