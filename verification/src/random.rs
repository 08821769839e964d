//! Uniform random numbers.
use crate::scalar::{Fixed, SCALE};
use rand::Rng;
use vstd::prelude::*;

verus! {

/// `rand::Rng::gen_range` on the generator that `rand::thread_rng` hands out,
/// for a half-open range of `i64`. Believed of it, and not proved here: for
/// `lo < hi` it returns some integer in `[lo, hi)`. Which one is left open.
/// An empty range makes `gen_range` panic and is excluded.
#[verifier::external_body]
pub(crate) fn uniform_raw(lo: i64, hi: i64) -> (r: i64)
    requires
        lo < hi,
    ensures
        lo <= r < hi,
{
    rand::thread_rng().gen_range(lo..hi)
}

/// A number drawn uniformly from `[lo, hi)`.
pub fn uniform(lo: Fixed, hi: Fixed) -> (r: Fixed)
    requires
        lo.raw < hi.raw,
    ensures
        lo.raw <= r.raw < hi.raw,
{
    Fixed { raw: uniform_raw(lo.raw, hi.raw) }
}

/// A number drawn uniformly from `[0, 1)`.
pub fn unit_interval() -> (r: Fixed)
    ensures
        0 <= r.raw < SCALE,
{
    Fixed { raw: uniform_raw(0, SCALE) }
}

/// A number drawn uniformly from `[-1, 1)`.
pub fn signed_unit_interval() -> (r: Fixed)
    ensures
        -SCALE <= r.raw < SCALE,
{
    Fixed { raw: uniform_raw(-SCALE, SCALE) }
}

} // verus!
