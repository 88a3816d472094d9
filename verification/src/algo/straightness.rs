//! The exact part of straightness: how a path is cut into chunks, and what
//! an undefined ratio counts as.

use crate::double::{Double, ONE_BITS};
use vstd::prelude::*;

verus! {

/// The number of points in a chunk when a trajectory's straightness is
/// summarised.
pub const CHUNK_SIZE: usize = 10;

/// The straightness that a ratio of hull perimeter to twice the path length
/// stands for: the ratio itself, and one where the ratio is undefined, as
/// it is for a path of no length.
pub fn straightness_from_ratio(ratio: Double) -> (straightness: Double)
    ensures
        !straightness.is_nan(),
        straightness.bits == if ratio.is_nan() {
            ONE_BITS
        } else {
            ratio.bits
        },
{
    if ratio.is_nan() {
        Double::one()
    } else {
        ratio
    }
}

} // verus!
