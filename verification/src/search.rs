//! The absolute-threshold search of YIN, with its descent into the valley.
//!
//! The input is the cumulative-mean-normalised difference curve, one
//! binary32 pattern per lag. The search walks the lags from 2 upward, stops
//! at the first level strictly below the threshold, and from there follows
//! the curve downhill for as long as the next level is strictly smaller.

use vstd::prelude::*;
use crate::binary32::{spec_less_than, less_than, at_most, spec_is_nan};

verus! {

/// The smallest lag the search ever reports: lags 0 and 1 are no periods.
pub const FIRST_LAG: usize = 2;

/// The level at `tau` exists and is strictly below the threshold.
pub open spec fn crosses(curve: Seq<u32>, threshold: u32, tau: int) -> bool {
    0 <= tau < curve.len() && spec_less_than(curve[tau], threshold)
}

/// The level after `tau` exists and is strictly smaller than the one at
/// `tau`.
pub open spec fn descends(curve: Seq<u32>, tau: int) -> bool {
    0 <= tau && tau + 1 < curve.len() && spec_less_than(curve[tau + 1], curve[tau])
}

/// The first lag at or after `from` whose level crosses the threshold.
pub open spec fn first_crossing(curve: Seq<u32>, threshold: u32, from: int) -> Option<int>
    decreases curve.len() - from,
{
    if from < 0 || from >= curve.len() {
        None
    } else if spec_less_than(curve[from], threshold) {
        Some(from)
    } else {
        first_crossing(curve, threshold, from + 1)
    }
}

/// The lag where the descent that starts at `tau` ends.
pub open spec fn valley(curve: Seq<u32>, tau: int) -> int
    decreases curve.len() - tau,
{
    if descends(curve, tau) {
        valley(curve, tau + 1)
    } else {
        tau
    }
}

/// The lag YIN reports for a curve and a threshold, if it reports one.
pub open spec fn lag_of(curve: Seq<u32>, threshold: u32) -> Option<int> {
    match first_crossing(curve, threshold, FIRST_LAG as int) {
        Some(start) => Some(valley(curve, start)),
        None => None,
    }
}

/// `start` is the first lag from 2 on whose level crosses the threshold.
pub open spec fn is_first_crossing(curve: Seq<u32>, threshold: u32, start: int) -> bool {
    &&& FIRST_LAG <= start
    &&& crosses(curve, threshold, start)
    &&& forall|t: int| FIRST_LAG <= t < start ==> !#[trigger] crosses(curve, threshold, t)
}

/// The curve falls strictly at every step from `start` to `end`, and does
/// not fall at the step after `end`.
pub open spec fn is_descent(curve: Seq<u32>, start: int, end: int) -> bool {
    &&& 0 <= start <= end < curve.len()
    &&& forall|t: int| start <= t < end ==> #[trigger] descends(curve, t)
    &&& !descends(curve, end)
}

/// `lag` is what the search must report: nothing when no level from lag 2
/// on crosses the threshold, else the end of the descent from the first
/// crossing.
pub open spec fn is_lag(curve: Seq<u32>, threshold: u32, lag: Option<int>) -> bool {
    if lag is Some {
        exists|start: int, end: int|
            lag == Some(end) && is_first_crossing(curve, threshold, start) && #[trigger] is_descent(
                curve,
                start,
                end,
            )
    } else {
        forall|t: int| FIRST_LAG <= t ==> !#[trigger] crosses(curve, threshold, t)
    }
}

/// A lag as the contracts speak of it.
pub open spec fn lag_view(lag: Option<usize>) -> Option<int> {
    match lag {
        Some(tau) => Some(tau as int),
        None => None,
    }
}

/// What `first_crossing` returns is the least crossing lag, and it returns
/// nothing exactly when no lag from `from` on crosses.
pub proof fn lemma_first_crossing(curve: Seq<u32>, threshold: u32, from: int)
    requires
        0 <= from,
    ensures
        match first_crossing(curve, threshold, from) {
            Some(start) => {
                &&& from <= start
                &&& crosses(curve, threshold, start)
                &&& forall|t: int| from <= t < start ==> !#[trigger] crosses(curve, threshold, t)
            },
            None => forall|t: int| from <= t ==> !#[trigger] crosses(curve, threshold, t),
        },
    decreases curve.len() - from,
{
    if from < curve.len() && !spec_less_than(curve[from], threshold) {
        lemma_first_crossing(curve, threshold, from + 1);
    }
}

/// What `valley` returns ends the strict descent that starts at `tau`.
pub proof fn lemma_valley(curve: Seq<u32>, tau: int)
    requires
        0 <= tau < curve.len(),
    ensures
        is_descent(curve, tau, valley(curve, tau)),
    decreases curve.len() - tau,
{
    if descends(curve, tau) {
        lemma_valley(curve, tau + 1);
    }
}

/// A descent has one end only.
pub proof fn lemma_descent_is_unique(curve: Seq<u32>, start: int, a: int, b: int)
    requires
        is_descent(curve, start, a),
        is_descent(curve, start, b),
    ensures
        a == b,
{
    if a < b {
        assert(descends(curve, a));
    } else if b < a {
        assert(descends(curve, b));
    }
}

/// Every lag on a descent leads to the same valley.
pub proof fn lemma_valley_is_shared(curve: Seq<u32>, start: int, mid: int)
    requires
        0 <= start <= mid <= valley(curve, start),
    ensures
        valley(curve, mid) == valley(curve, start),
    decreases mid - start,
{
    if start < mid {
        lemma_valley_is_shared(curve, start + 1, mid);
    }
}

/// Along a descent every level is strictly below the level it started
/// from.
pub proof fn lemma_descent_falls(curve: Seq<u32>, start: int, end: int)
    requires
        0 <= start < end < curve.len(),
        forall|t: int| start <= t < end ==> #[trigger] descends(curve, t),
    ensures
        spec_less_than(curve[end], curve[start]),
    decreases end - start,
{
    assert(descends(curve, end - 1));
    if start < end - 1 {
        lemma_descent_falls(curve, start, end - 1);
    }
}

/// The declarative reading of `lag_of`: nothing is reported exactly when
/// no level from lag 2 on is below the threshold; a reported lag ends the
/// descent from the first crossing, and its level is below the threshold.
pub proof fn lemma_lag_of(curve: Seq<u32>, threshold: u32)
    ensures
        is_lag(curve, threshold, lag_of(curve, threshold)),
        lag_of(curve, threshold) matches Some(lag) ==> {
            &&& FIRST_LAG <= lag < curve.len()
            &&& crosses(curve, threshold, lag)
            &&& !descends(curve, lag)
        },
{
    lemma_first_crossing(curve, threshold, FIRST_LAG as int);
    if let Some(start) = first_crossing(curve, threshold, FIRST_LAG as int) {
        lemma_valley(curve, start);
        let lag = valley(curve, start);
        assert(is_first_crossing(curve, threshold, start) && is_descent(curve, start, lag));
        assert(is_lag(curve, threshold, Some(lag)));
        if start < lag {
            lemma_descent_falls(curve, start, lag);
        }
    } else {
        assert(is_lag(curve, threshold, None));
    }
}

/// Runs the threshold search on a normalised difference curve.
///
/// Returns the lag where the descent from the first level below
/// `threshold` ends, or `None` when no level from lag 2 on is below it. A
/// NaN level is below nothing, and nothing is below a NaN threshold.
pub fn find_lag(curve: &Vec<u32>, threshold: u32) -> (r: Option<usize>)
    ensures
        lag_view(r) == lag_of(curve@, threshold),
        r is None <==> forall|t: int| FIRST_LAG <= t ==> !#[trigger] crosses(curve@, threshold, t),
        r matches Some(lag) ==> FIRST_LAG <= lag < curve.len() && crosses(curve@, threshold, lag as int) && !descends(
            curve@,
            lag as int,
        ),
{
    let n: usize = curve.len();
    let mut tau: usize = FIRST_LAG;
    while tau < n
        invariant
            FIRST_LAG <= tau,
            n == curve.len(),
            first_crossing(curve@, threshold, FIRST_LAG as int) == first_crossing(
                curve@,
                threshold,
                tau as int,
            ),
        decreases n - tau,
    {
        if less_than(curve[tau], threshold) {
            let mut end: usize = tau;
            while end + 1 < n && less_than(curve[end + 1], curve[end])
                invariant
                    tau <= end < n,
                    n == curve.len(),
                    valley(curve@, tau as int) == valley(curve@, end as int),
                decreases n - end,
            {
                end += 1;
            }
            proof {
                lemma_lag_of(curve@, threshold);
            }
            return Some(end);
        }
        tau += 1;
    }
    proof {
        lemma_lag_of(curve@, threshold);
    }
    None
}

/// The reported lag is a local minimum of the curve: the level after it is
/// not smaller, and from lag 3 on neither is the level before it.
pub proof fn lemma_lag_is_local_minimum(curve: Seq<u32>, threshold: u32)
    ensures
        lag_of(curve, threshold) matches Some(lag) ==> {
            &&& lag + 1 < curve.len() ==> !spec_less_than(curve[lag + 1], curve[lag])
            &&& FIRST_LAG < lag ==> !spec_less_than(curve[lag - 1], curve[lag])
        },
{
    lemma_first_crossing(curve, threshold, FIRST_LAG as int);
    if let Some(start) = first_crossing(curve, threshold, FIRST_LAG as int) {
        lemma_valley(curve, start);
        let lag = valley(curve, start);
        if start < lag {
            assert(descends(curve, lag - 1));
        } else if FIRST_LAG < lag {
            assert(!crosses(curve, threshold, lag - 1));
        }
    }
}

/// The search has one answer: two lags that both meet `is_lag` are the
/// same, so equal curves and equal thresholds give equal reports.
pub proof fn lemma_lag_is_unique(curve: Seq<u32>, threshold: u32, a: Option<int>, b: Option<int>)
    requires
        is_lag(curve, threshold, a),
        is_lag(curve, threshold, b),
    ensures
        a == b,
        a == lag_of(curve, threshold),
{
    lemma_lag_of(curve, threshold);
    lemma_is_lag_pins(curve, threshold, a);
    lemma_is_lag_pins(curve, threshold, b);
}

/// Whatever meets `is_lag` is what `lag_of` computes.
proof fn lemma_is_lag_pins(curve: Seq<u32>, threshold: u32, a: Option<int>)
    requires
        is_lag(curve, threshold, a),
    ensures
        a == lag_of(curve, threshold),
{
    lemma_first_crossing(curve, threshold, FIRST_LAG as int);
    match a {
        Some(end) => {
            let (start, same) = choose|start: int, same: int|
                a == Some(same) && is_first_crossing(curve, threshold, start) && #[trigger] is_descent(
                    curve,
                    start,
                    same,
                );
            match first_crossing(curve, threshold, FIRST_LAG as int) {
                Some(first) => {
                    assert(first == start) by {
                        if first < start {
                            assert(!crosses(curve, threshold, first));
                        }
                    }
                    lemma_valley(curve, start);
                    lemma_descent_is_unique(curve, start, end, valley(curve, start));
                },
                None => {
                    assert(!crosses(curve, threshold, start));
                },
            }
        },
        None => {
            if let Some(first) = first_crossing(curve, threshold, FIRST_LAG as int) {
                assert(!crosses(curve, threshold, first));
            }
        },
    }
}

/// A curve of two levels or fewer has no lag to report: the search starts
/// at lag 2.
pub proof fn lemma_short_curve_has_no_lag(curve: Seq<u32>, threshold: u32)
    requires
        curve.len() <= FIRST_LAG,
    ensures
        lag_of(curve, threshold) is None,
{
}

/// Where no level from lag 2 on encodes a number, nothing is reported,
/// whatever the threshold: a NaN level never counts as a crossing.
pub proof fn lemma_nan_levels_have_no_lag(curve: Seq<u32>, threshold: u32)
    requires
        forall|t: int| FIRST_LAG <= t < curve.len() ==> spec_is_nan(#[trigger] curve[t]),
    ensures
        lag_of(curve, threshold) is None,
{
    lemma_first_crossing(curve, threshold, FIRST_LAG as int);
    if let Some(first) = first_crossing(curve, threshold, FIRST_LAG as int) {
        assert(spec_is_nan(curve[first]));
    }
}

/// A NaN threshold detects nothing.
pub proof fn lemma_nan_threshold_has_no_lag(curve: Seq<u32>, threshold: u32)
    requires
        spec_is_nan(threshold),
    ensures
        lag_of(curve, threshold) is None,
{
    lemma_first_crossing(curve, threshold, FIRST_LAG as int);
}

/// Under a higher threshold the first crossing comes no later.
proof fn lemma_crossing_comes_no_later(curve: Seq<u32>, low: u32, high: u32, from: int)
    requires
        at_most(low, high),
        0 <= from,
    ensures
        first_crossing(curve, low, from) matches Some(a) ==> (first_crossing(curve, high, from) matches Some(b)
            && from <= b <= a),
    decreases curve.len() - from,
{
    lemma_first_crossing(curve, low, from);
    if from < curve.len() && !spec_less_than(curve[from], high) {
        lemma_crossing_comes_no_later(curve, low, high, from + 1);
    }
}

/// Raising the threshold only makes detection easier: what is detected
/// under `low` is detected under any `high` at or above it, and at a lag
/// that is no later.
pub proof fn lemma_higher_threshold_still_detects(curve: Seq<u32>, low: u32, high: u32)
    requires
        at_most(low, high),
    ensures
        lag_of(curve, low) matches Some(a) ==> (lag_of(curve, high) matches Some(b) && b <= a),
{
    lemma_crossing_comes_no_later(curve, low, high, FIRST_LAG as int);
    if let Some(start_low) = first_crossing(curve, low, FIRST_LAG as int) {
        let start_high = first_crossing(curve, high, FIRST_LAG as int)->0;
        lemma_first_crossing(curve, low, FIRST_LAG as int);
        lemma_valley(curve, start_low);
        if start_low <= valley(curve, start_high) {
            lemma_valley_is_shared(curve, start_high, start_low);
        }
    }
}

} // verus!
