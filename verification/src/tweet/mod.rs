//! The parts of a post record that the engine reads.

use vstd::prelude::*;

pub mod datetime;

verus! {

/// The author of a post.
#[derive(Debug)]
pub struct User {
    pub id: u64,
    pub name: String,
    pub screen_name: String,
}

/// The engagement counters of a post.
#[derive(Clone, Copy, Debug, PartialEq, Eq, Structural)]
pub struct PublicMetrics {
    pub retweet_count: i64,
    pub reply_count: i64,
    pub like_count: i64,
    pub quote_count: i64,
}

/// Where the location of a post is taken from.
#[derive(Clone, Copy, Debug, PartialEq, Eq, Structural)]
pub enum LocationSource {
    /// The coordinates that the post carries.
    Coordinates,
    /// The centroid of the bounding box of the place that the post names.
    PlaceCentroid,
}

impl LocationSource {
    /// Whether the location is the one that was posted, not one derived
    /// from a place.
    pub fn is_exact(self) -> (exact: bool)
        ensures
            exact == (self == LocationSource::Coordinates),
    {
        match self {
            LocationSource::Coordinates => true,
            LocationSource::PlaceCentroid => false,
        }
    }
}

/// Picks the source of a post's location: its own coordinates if it has
/// any, else its place if it names one. A post with neither has no
/// location and enters no trajectory.
pub fn location_source(has_coordinates: bool, has_place: bool) -> (source: Option<LocationSource>)
    ensures
        source == if has_coordinates {
            Some(LocationSource::Coordinates)
        } else if has_place {
            Some(LocationSource::PlaceCentroid)
        } else {
            None
        },
{
    if has_coordinates {
        Some(LocationSource::Coordinates)
    } else if has_place {
        Some(LocationSource::PlaceCentroid)
    } else {
        None
    }
}

} // verus!
