//! Random draws, made through the `rand` crate on an explicit generator.

use vstd::prelude::*;
use rand::Rng;
use rand::StdRng;
use rand::distributions::IndependentSample;

verus! {

#[verifier::external_type_specification]
#[verifier::external_body]
pub struct ExStdRng(rand::StdRng);

/// Sum of a weight table.
pub open spec fn total_weight(w: Seq<u32>) -> int
    decreases w.len(),
{
    if w.len() == 0 {
        0
    } else {
        total_weight(w.drop_last()) + w.last()
    }
}

/// Relies on `rand::Rng::gen_range` (rand 0.4): a value uniformly drawn from
/// `[low, high)`; it panics unless `low < high`.
#[verifier::external_body]
pub(crate) fn gen_range(rng: &mut StdRng, low: i32, high: i32) -> (r: i32)
    requires
        low < high,
    ensures
        low <= r < high,
{
    rng.gen_range(low, high)
}

/// Relies on `rand::Rng::gen::<bool>` (rand 0.4): a fair coin.
#[verifier::external_body]
pub(crate) fn coin_flip(rng: &mut StdRng) -> (r: bool) {
    rng.gen::<bool>()
}

/// Relies on `rand::distributions::WeightedChoice` (rand 0.4), built over the
/// positions of `weights` and sampled once: the position of one entry, and
/// never of an entry of weight zero (its search over the running totals
/// stops only where the total grows). Its constructor panics on an empty
/// table or on a total of zero or beyond `u32`.
#[verifier::external_body]
pub(crate) fn weighted_index(rng: &mut StdRng, weights: &Vec<u32>) -> (r: usize)
    requires
        weights@.len() > 0,
        0 < total_weight(weights@) <= u32::MAX,
    ensures
        r < weights@.len(),
        weights@[r as int] > 0,
{
    let mut items: Vec<rand::distributions::Weighted<usize>> = weights
        .iter()
        .enumerate()
        .map(|(i, w)| rand::distributions::Weighted { weight: *w, item: i })
        .collect();
    rand::distributions::WeightedChoice::new(&mut items).ind_sample(rng)
}

} // verus!
