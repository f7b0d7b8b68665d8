//! From the normalised difference curve to the result record.
//!
//! The estimator's arithmetic is done on hardware numbers by the caller;
//! what is decided here is which lag is the candidate, which of its
//! neighbours feed the parabola, whether the parabola's vertex is used, and
//! what the record holds.

use vstd::prelude::*;
use crate::binary32::{spec_is_finite, spec_less_than, is_finite, ZERO};
use crate::search::{crosses, find_lag, lag_of, lemma_short_curve_has_no_lag, FIRST_LAG};
use crate::window::half_window;

verus! {

/// The outcome of one estimate. `frequency` and `clarity` are binary32
/// patterns; `detected` is 1 when a pitch was found and 0 when not, and
/// only then do the other two fields mean anything.
#[derive(Clone, Copy, Debug, PartialEq, Eq, Structural)]
pub struct PitchResult {
    pub frequency: u32,
    pub clarity: u32,
    pub detected: u32,
}

impl PitchResult {
    /// The record of a window in which no pitch was found.
    pub open spec fn spec_undetected() -> PitchResult {
        PitchResult { frequency: ZERO, clarity: ZERO, detected: 0 }
    }

    /// The record of a pitch that was found.
    pub open spec fn spec_found(frequency: u32, clarity: u32) -> PitchResult {
        PitchResult { frequency, clarity, detected: 1 }
    }

    /// The record of a window in which no pitch was found: frequency and
    /// clarity are positive zero and the flag is 0.
    #[verifier::when_used_as_spec(spec_undetected)]
    pub fn undetected() -> (r: PitchResult)
        ensures
            r == Self::spec_undetected(),
    {
        PitchResult { frequency: ZERO, clarity: ZERO, detected: 0 }
    }

    /// The record of a pitch of the given frequency and clarity; the flag
    /// is 1.
    #[verifier::when_used_as_spec(spec_found)]
    pub fn found(frequency: u32, clarity: u32) -> (r: PitchResult)
        ensures
            r == Self::spec_found(frequency, clarity),
    {
        PitchResult { frequency, clarity, detected: 1 }
    }
}

/// The lag that the threshold search settled on, with the levels that the
/// rest of the estimate reads.
#[derive(Clone, Copy, Debug, PartialEq, Eq)]
pub struct Candidate {
    /// The lag, in samples.
    pub lag: usize,
    /// The normalised level at the lag; clarity is one minus this.
    pub level: u32,
    /// The levels just before and just after the lag, where both exist;
    /// the parabola is fitted through them and `level`.
    pub neighbours: Option<(u32, u32)>,
}

/// The candidate at a given lag of a curve.
pub open spec fn candidate_at(curve: Seq<u32>, lag: int) -> Candidate {
    Candidate {
        lag: lag as usize,
        level: curve[lag],
        neighbours: if 0 < lag < curve.len() - 1 {
            Some((curve[lag - 1], curve[lag + 1]))
        } else {
            None
        },
    }
}

/// The candidate that a curve and a threshold give, if any.
pub open spec fn candidate_of(curve: Seq<u32>, threshold: u32) -> Option<Candidate> {
    match lag_of(curve, threshold) {
        Some(lag) => Some(candidate_at(curve, lag)),
        None => None,
    }
}

/// The period that the estimate settles on. `plain` is the candidate lag
/// as a number. `parabola` is absent for a candidate without both
/// neighbours; else it holds the vertex offset and the lag moved by it.
/// The moved lag is taken only where the offset is finite.
pub open spec fn spec_settle_period(plain: u32, parabola: Option<(u32, u32)>) -> u32 {
    match parabola {
        Some((shift, shifted)) => if spec_is_finite(shift) {
            shifted
        } else {
            plain
        },
        None => plain,
    }
}

/// Searches the curve and collects what the refinement needs.
///
/// Returns nothing when the threshold search reports no lag. Else the
/// candidate holds the reported lag, the level there, and both neighbouring
/// levels unless the lag is the last of the curve.
pub fn locate(curve: &Vec<u32>, threshold: u32) -> (r: Option<Candidate>)
    ensures
        r == candidate_of(curve@, threshold),
        r matches Some(c) ==> FIRST_LAG <= c.lag < curve.len() && c.level == curve[c.lag as int]
            && spec_less_than(c.level, threshold),
        r is None <==> forall|t: int| FIRST_LAG <= t ==> !#[trigger] crosses(curve@, threshold, t),
{
    match find_lag(curve, threshold) {
        None => None,
        Some(lag) => {
            let neighbours = if lag > 0 && lag < curve.len() - 1 {
                Some((curve[lag - 1], curve[lag + 1]))
            } else {
                None
            };
            Some(Candidate { lag, level: curve[lag], neighbours })
        },
    }
}

/// Chooses between the plain lag and the lag moved to the parabola's
/// vertex.
#[verifier::when_used_as_spec(spec_settle_period)]
pub fn settle_period(plain: u32, parabola: Option<(u32, u32)>) -> (r: u32)
    ensures
        r == spec_settle_period(plain, parabola),
{
    match parabola {
        Some((shift, shifted)) => {
            if is_finite(shift) {
                shifted
            } else {
                plain
            }
        },
        None => plain,
    }
}

/// A buffer of fewer than six samples yields no candidate: its window
/// holds at most two lags, and the search starts at lag 2.
pub proof fn lemma_short_buffer_has_no_candidate(samples: usize, curve: Seq<u32>, threshold: u32)
    requires
        samples < 6,
        curve.len() == half_window(samples),
    ensures
        candidate_of(curve, threshold) is None,
{
    lemma_short_curve_has_no_lag(curve, threshold);
}

} // verus!
