//! YIN pitch estimation over single-precision bit patterns.
//!
//! The crate holds every decision of the estimator: how two levels of the
//! normalised difference curve compare, which lag the threshold search
//! settles on, whether the parabolic refinement applies, what the result
//! record holds, and the life cycle of result handles. All values that
//! stand for real numbers travel as IEEE 754 binary32 bit patterns in `u32`.

pub mod binary32;

pub mod search;
pub mod window;
pub mod estimate;
pub mod table;
pub mod bridge;
