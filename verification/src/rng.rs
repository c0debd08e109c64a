//! Randomness for sampling, behind trusted wrappers around the `rand` crate.
//!
//! Every wrapper states only what holds of every outcome of the draw; the
//! code that consumes a draw is verified for all values the contract allows.

use vstd::prelude::*;

use std::sync::Arc;

verus! {

/// Relies on `Arc::clone`: the returned pointer shares the same
/// allocation as the argument, so it carries the same value.
#[verifier::external_body]
pub fn arc_clone<T>(v: &Arc<T>) -> (res: Arc<T>)
    ensures
        res == *v,
{
    Arc::clone(v)
}

/// Relies on `rand::Rng::gen_range` over `rand::thread_rng`: for a nonempty
/// half-open range `lo..hi` it returns a uniformly drawn value in that range.
#[verifier::external_body]
pub fn rand_range(lo: i64, hi: i64) -> (r: i64)
    requires
        lo < hi,
    ensures
        lo <= r < hi,
{
    rand::Rng::gen_range(&mut rand::thread_rng(), lo..hi)
}

/// Relies on `rand::seq::SliceRandom::shuffle` over `rand::thread_rng`: it
/// permutes the slice in place, so the multiset of entries is unchanged.
#[verifier::external_body]
pub fn shuffle_bytes(v: &mut Vec<u8>)
    ensures
        final(v)@.len() == old(v)@.len(),
        final(v)@.to_multiset() == old(v)@.to_multiset(),
{
    rand::seq::SliceRandom::shuffle(v.as_mut_slice(), &mut rand::thread_rng())
}

} // verus!
