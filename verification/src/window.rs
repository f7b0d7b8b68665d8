//! The analysis window of the difference function.
//!
//! YIN compares each of the first `half` samples with the sample `tau`
//! places later, for every lag `tau` below `half`, where `half` is half the
//! buffer length. The window is cut so that every such pair lies inside the
//! buffer.

use vstd::prelude::*;

verus! {

/// Half the buffer length, rounded down: the number of lags examined and
/// the number of sample pairs summed for each.
pub open spec fn spec_half_window(len: usize) -> usize {
    (len / 2) as usize
}

/// The window for a buffer of `len` samples.
#[verifier::when_used_as_spec(spec_half_window)]
pub fn half_window(len: usize) -> (half: usize)
    ensures
        half == spec_half_window(len),
        half == len / 2,
{
    len / 2
}

/// Every pair that the difference function reads lies inside the buffer:
/// with the index and the lag both below the window, the later sample of
/// the pair still exists.
pub proof fn lemma_pairs_stay_inside(len: usize, index: usize, tau: usize)
    requires
        index < half_window(len),
        tau < half_window(len),
    ensures
        index + tau < len,
{
}

/// The index of the later sample of a pair, which the difference function
/// compares with the sample at `index`.
#[inline]
pub fn partner(len: usize, index: usize, tau: usize) -> (r: usize)
    requires
        index < half_window(len),
        tau < half_window(len),
    ensures
        r == index + tau,
        r < len,
{
    index + tau
}

} // verus!
