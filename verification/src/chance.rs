//! The one source of chance: rand's thread-local generator.
use rand::Rng;
use vstd::prelude::*;

verus! {

/// A number drawn by `rand::Rng::gen_range(low, high)` on
/// `rand::thread_rng()`. rand 0.7 documents the result as lying in
/// `low..high` and panics when `low >= high`, which `requires` rules out.
/// Which number of the range comes out is left open: it is chance.
#[verifier::external_body]
pub(crate) fn roll(low: usize, high: usize) -> (r: usize)
    requires
        low < high,
    ensures
        low <= r < high,
{
    rand::thread_rng().gen_range(low, high)
}

} // verus!
