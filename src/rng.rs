//! Random draws, made by the `rand` crate's thread-local generator.
//! Nothing is promised of a draw beyond the range it falls in.

use rand::distributions::Distribution;
use rand::distributions::WeightedIndex;
use rand::Rng;
use vstd::prelude::*;

verus! {

/// Sum of a sequence of weights.
pub open spec fn weight_sum(w: Seq<u32>) -> int
    decreases w.len(),
{
    if w.len() == 0 {
        0
    } else {
        weight_sum(w.drop_last()) + w.last() as int
    }
}

/// Relies on `rand::Rng::gen_range` (rand 0.7), which returns a value in
/// `[low, high)` and panics when `low >= high`.
#[verifier::external_body]
pub(crate) fn random_range(low: i32, high: i32) -> (r: i32)
    requires
        low < high,
    ensures
        low <= r < high,
{
    rand::thread_rng().gen_range(low, high)
}

/// Relies on `rand::random::<bool>`: either value may come back.
#[verifier::external_body]
pub(crate) fn random_bool() -> bool {
    rand::random::<bool>()
}

/// Relies on `rand::distributions::WeightedIndex` (rand 0.7): `new` accepts a
/// non-empty list of weights whose total is positive (the total is summed in
/// the weight type, so it must fit there), and `sample` returns the index
/// where the uniform draw falls among the cumulative weights, hence an index
/// whose weight is positive.
#[verifier::external_body]
pub(crate) fn weighted_index(weights: &Vec<u32>) -> (r: usize)
    requires
        weights.len() > 0,
        0 < weight_sum(weights@) <= u32::MAX,
    ensures
        r < weights.len(),
        weights@[r as int] > 0,
{
    let dist = WeightedIndex::new(weights.iter()).unwrap();
    dist.sample(&mut rand::thread_rng())
}

} // verus!
