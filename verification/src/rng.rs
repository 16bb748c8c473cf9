//! Trusted bindings to the `rand` crate.
//!
//! Level generation needs two operations from its random source: sampling an
//! integer from an inclusive range and shuffling a list of positions. Both
//! are provided by `rand` on a seedable `StdRng`, so deterministic testing
//! stays possible. The contracts below state only what holds of every
//! outcome; nothing about a random result is otherwise pinned down.

use vstd::prelude::*;

use rand::Rng;
use rand::seq::SliceRandom;

use crate::pos::GridPos;

verus! {

#[verifier::external_type_specification]
#[verifier::external_body]
pub struct ExStdRng(rand::rngs::StdRng);

/// Relies on `rand::Rng::gen_range` over the inclusive range `lo..=hi`: it
/// panics only on an empty range (excluded here) and returns a value inside
/// the range.
#[verifier::external_body]
pub fn sample_range(rng: &mut rand::rngs::StdRng, lo: usize, hi: usize) -> (r: usize)
    requires
        lo <= hi,
    ensures
        lo <= r <= hi,
{
    rng.gen_range(lo..=hi)
}

/// Relies on `rand::seq::SliceRandom::shuffle`: a Fisher-Yates shuffle that
/// permutes the slice in place by swaps, so exactly the same positions come
/// out, in some order.
#[verifier::external_body]
pub fn shuffle_positions(rng: &mut rand::rngs::StdRng, v: &mut Vec<GridPos>)
    ensures
        final(v)@.len() == old(v)@.len(),
        final(v)@.to_multiset() == old(v)@.to_multiset(),
{
    v.shuffle(rng);
}

} // verus!
