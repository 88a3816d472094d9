//! The exact core of a trajectory analytics engine for geolocated posts.
//!
//! The crate groups timestamped locations by author, puts each author's
//! points in chronological order, cuts point sequences into sliding windows
//! and chunks, and decides which measured quantities are defined. Real
//! quantities are carried as [`double::Double`] values: the crate tests and
//! orders them, but never does arithmetic on them.

pub mod algo;
pub mod assemble;
pub mod cohort;
pub mod double;
pub mod model;
pub mod tweet;

pub use algo::PointInTime;
pub use algo::time::SortChronologically;
pub use assemble::Assembler;
pub use cohort::{Cohorts, EmptyTrainingSet, Label, Selection};
pub use double::Double;
pub use model::{Coordinate, MovementPoint, TrajectoryPoint, UserMovement, UserTrajectory};
pub use tweet::{PublicMetrics, User};
