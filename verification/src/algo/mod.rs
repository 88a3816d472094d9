//! Operators over sequences of timestamped locations.

use crate::model::Coordinate;
use vstd::prelude::*;

pub mod speed;
pub mod straightness;
pub mod summary;
pub mod time;
pub mod window;

verus! {

/// What the operators need of a point: when it was recorded, and where.
///
/// Contracts speak of a point through `instant` and `position`; code reads
/// it through `timestamp` and `point`, which return the same two values.
pub trait PointInTime {
    /// The instant of the point, in whole seconds of absolute time.
    spec fn instant(&self) -> i64;

    /// The location of the point.
    spec fn position(&self) -> Coordinate;

    fn timestamp(&self) -> (t: i64)
        ensures
            t == self.instant(),
    ;

    fn point(&self) -> (p: Coordinate)
        ensures
            p == self.position(),
    ;
}

} // verus!
