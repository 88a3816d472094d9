//! Locations, timestamped points and per-author trajectories.

use crate::algo::time::{chronological, is_chronological};
use crate::algo::PointInTime;
use crate::double::Double;
use vstd::prelude::*;
use vstd::std_specs::convert::FromSpecImpl;

verus! {

/// A location in degrees on WGS-84: `x` is the longitude, `y` the latitude.
/// Neither is held to a range.
#[derive(Clone, Copy, Debug, PartialEq)]
pub struct Coordinate {
    pub x: Double,
    pub y: Double,
}

/// A location with the instant at which the author was there.
#[derive(Clone, Copy, Debug, PartialEq)]
pub struct TrajectoryPoint {
    pub point: Coordinate,
    pub timestamp: i64,
}

impl PointInTime for TrajectoryPoint {
    open spec fn instant(&self) -> i64 {
        self.timestamp
    }

    open spec fn position(&self) -> Coordinate {
        self.point
    }

    #[inline]
    fn timestamp(&self) -> (t: i64) {
        self.timestamp
    }

    #[inline]
    fn point(&self) -> (p: Coordinate) {
        self.point
    }
}

impl From<TrajectoryPoint> for Coordinate {
    fn from(tp: TrajectoryPoint) -> (c: Coordinate) {
        tp.point
    }
}

impl FromSpecImpl<TrajectoryPoint> for Coordinate {
    open spec fn obeys_from_spec() -> bool {
        true
    }

    open spec fn from_spec(tp: TrajectoryPoint) -> Coordinate {
        tp.point
    }
}

/// A timestamped location together with what the post said about itself.
/// The engine reads `point` and `timestamp` and carries the rest along.
#[derive(Clone, Debug, PartialEq)]
pub struct MovementPoint {
    pub point: Coordinate,
    /// Whether the location was posted as a coordinate, not derived from a
    /// place.
    pub is_exact_location: bool,
    pub timestamp: i64,
    pub text: String,
    pub in_reply_to_user_id: Option<u64>,
    pub lang: Option<String>,
    pub travel_speed_from_last_tweet_kmh: Option<Double>,
}

impl PointInTime for MovementPoint {
    open spec fn instant(&self) -> i64 {
        self.timestamp
    }

    open spec fn position(&self) -> Coordinate {
        self.point
    }

    #[inline]
    fn timestamp(&self) -> (t: i64) {
        self.timestamp
    }

    #[inline]
    fn point(&self) -> (p: Coordinate) {
        self.point
    }
}

impl From<MovementPoint> for Coordinate {
    fn from(tp: MovementPoint) -> (c: Coordinate) {
        tp.point
    }
}

impl FromSpecImpl<MovementPoint> for Coordinate {
    open spec fn obeys_from_spec() -> bool {
        true
    }

    open spec fn from_spec(tp: MovementPoint) -> Coordinate {
        tp.point
    }
}

/// The points of one author.
#[derive(Debug)]
pub struct UserTrajectory<P> {
    pub user_id: u64,
    pub user_name: String,
    pub user_screen_name: String,
    /// The points; chronologically sorted once the trajectory is assembled.
    pub points: Vec<P>,
}

/// The trajectory of an author whose points carry the post's own details.
pub type UserMovement = UserTrajectory<MovementPoint>;

/// A trajectory as a mathematical value.
pub struct TrajectoryView<P> {
    pub user_id: u64,
    pub user_name: Seq<char>,
    pub user_screen_name: Seq<char>,
    pub points: Seq<P>,
}

impl<P> View for UserTrajectory<P> {
    type V = TrajectoryView<P>;

    open spec fn view(&self) -> TrajectoryView<P> {
        TrajectoryView {
            user_id: self.user_id,
            user_name: self.user_name@,
            user_screen_name: self.user_screen_name@,
            points: self.points@,
        }
    }
}

impl<P: PointInTime> UserTrajectory<P> {
    /// Whether the trajectory is as the assembler emits one: at least two
    /// points, in chronological order.
    pub fn is_assembled(&self) -> (assembled: bool)
        ensures
            assembled == self@.assembled(),
    {
        self.points.len() >= 2 && is_chronological(self.points.as_slice())
    }
}

impl<P: PointInTime> TrajectoryView<P> {
    /// What holds of every trajectory that the assembler emits: at least two
    /// points, none later than its successor.
    pub open spec fn assembled(self) -> bool {
        &&& self.points.len() >= 2
        &&& chronological(self.points)
    }
}

} // verus!
