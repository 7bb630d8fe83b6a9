//! Trusted boundary to the process randomness source.
//!
//! Every contract here states only what holds of every possible outcome;
//! nothing about the distribution is assumed by any proof.

use vstd::prelude::*;

verus! {

/// Relies on rand::random_range over `0..n`: the result is uniform in the
/// (non-empty) range, so in particular below `n`.
#[verifier::external_body]
pub(crate) fn rand_below(n: usize) -> (r: usize)
    requires
        n >= 1,
    ensures
        r < n,
{
    rand::random_range(0..n)
}

/// Relies on rand::random_ratio: true with probability one in three.
/// Nothing can be promised of a single draw.
#[verifier::external_body]
pub(crate) fn one_in_three() -> bool {
    rand::random_ratio(1, 3)
}

/// Relies on rand::seq::index::sample: exactly `amount` distinct indices
/// drawn from `0..length` without replacement.
#[verifier::external_body]
pub(crate) fn sample_distinct(length: usize, amount: usize) -> (r: Vec<usize>)
    requires
        amount <= length,
    ensures
        r@.len() == amount,
        forall|i: int| 0 <= i < r@.len() ==> #[trigger] r@[i] < length,
        forall|i: int, j: int| 0 <= i < j < r@.len() ==> r@[i] != r@[j],
{
    rand::seq::index::sample(&mut rand::rng(), length, amount).into_vec()
}

} // verus!
