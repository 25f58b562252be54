//! Fixed-point probability scores.
//!
//! The external scorer emits raw floating-point logits; the surrounding
//! application squashes each logit exactly once through the monotonic
//! sigmoid `1 / (1 + e^-x)` and scales the resulting probability from the
//! real interval `[0, 1]` into the fixed-point range `[0, SCORE_ONE]`.
//! The core only carries and compares these values, so every decision it
//! makes (thresholding, ordering, conflict resolution) is exact integer
//! arithmetic.

use vstd::prelude::*;

verus! {

/// A probability in fixed point: `0` stands for 0.0 and [`SCORE_ONE`] for 1.0.
pub type Score = u32;

/// The fixed-point representation of probability 1.0.
pub const SCORE_ONE: u32 = 1_000_000_000;

/// A well-formed score lies in `[0, SCORE_ONE]`, mirroring a probability in
/// `[0, 1]`.
pub open spec fn valid_score(s: Score) -> bool {
    s <= SCORE_ONE
}

} // verus!
