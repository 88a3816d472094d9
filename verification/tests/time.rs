use chrono::{DateTime, Utc};
use geo_types::Point;
use tweet_trajectories::algo::speed::{elapsed_seconds, seconds_between};
use tweet_trajectories::algo::time::is_chronological;
use tweet_trajectories::{Coordinate, Double, PointInTime, SortChronologically, TrajectoryPoint};

#[derive(Clone, PartialEq, Debug)]
struct MyPit {
    p: Point<f64>,
    ts: DateTime<Utc>,
}

impl PointInTime for MyPit {
    fn instant(&self) -> i64 {
        self.ts.timestamp()
    }

    fn position(&self) -> Coordinate {
        Coordinate {
            x: Double::from_bits(self.p.x().to_bits()),
            y: Double::from_bits(self.p.y().to_bits()),
        }
    }

    fn timestamp(&self) -> i64 {
        self.ts.timestamp()
    }

    fn point(&self) -> Coordinate {
        self.position()
    }
}

fn at(lon: f64, lat: f64, timestamp: i64) -> TrajectoryPoint {
    TrajectoryPoint {
        point: Coordinate {
            x: Double::from_bits(lon.to_bits()),
            y: Double::from_bits(lat.to_bits()),
        },
        timestamp,
    }
}

#[test]
fn trajectory_point_sort_chronological() {
    let p1 = MyPit {
        p: Default::default(),
        ts: DateTime::from_timestamp(10, 0).unwrap(),
    };
    let p2 = MyPit {
        p: Default::default(),
        ts: DateTime::from_timestamp(20, 0).unwrap(),
    };
    let mut v = vec![p2.clone(), p1.clone()];
    v.sort_chronologically();
    assert_eq!(v[0], p1);
    assert_eq!(v[1], p2);
}

#[test]
fn sort_of_nothing_and_of_one_point() {
    let mut none: Vec<TrajectoryPoint> = Vec::new();
    none.sort_chronologically();
    assert!(none.is_empty());

    let mut one = vec![at(1.0, 2.0, 5)];
    one.sort_chronologically();
    assert_eq!(one, vec![at(1.0, 2.0, 5)]);
}

#[test]
fn sort_orders_by_timestamp() {
    let mut v = vec![
        at(0.0, 0.0, 50),
        at(1.0, 0.0, -3),
        at(2.0, 0.0, 20),
        at(3.0, 0.0, i64::MAX),
        at(4.0, 0.0, i64::MIN),
        at(5.0, 0.0, 0),
        at(6.0, 0.0, 7),
    ];
    v.sort_chronologically();
    let stamps: Vec<i64> = v.iter().map(|p| p.timestamp).collect();
    assert_eq!(stamps, vec![i64::MIN, -3, 0, 7, 20, 50, i64::MAX]);
    let lons: Vec<f64> = v.iter().map(|p| f64::from_bits(p.point.x.to_bits())).collect();
    assert_eq!(lons, vec![4.0, 1.0, 5.0, 6.0, 2.0, 0.0, 3.0]);
}

#[test]
fn sort_keeps_simultaneous_points_in_order() {
    let mut v = vec![
        at(0.0, 0.0, 2),
        at(1.0, 0.0, 1),
        at(2.0, 0.0, 2),
        at(3.0, 0.0, 1),
        at(4.0, 0.0, 2),
        at(5.0, 0.0, 1),
    ];
    v.sort_chronologically();
    let expected = vec![
        at(1.0, 0.0, 1),
        at(3.0, 0.0, 1),
        at(5.0, 0.0, 1),
        at(0.0, 0.0, 2),
        at(2.0, 0.0, 2),
        at(4.0, 0.0, 2),
    ];
    assert_eq!(v, expected);
}

#[test]
fn sort_of_sorted_points_changes_nothing() {
    let sorted = vec![
        at(9.0, 1.0, 1),
        at(8.0, 1.0, 1),
        at(7.0, 1.0, 3),
        at(6.0, 1.0, 4),
        at(5.0, 1.0, 4),
        at(4.0, 1.0, 9),
    ];
    let mut v = sorted.clone();
    v.sort_chronologically();
    assert_eq!(v, sorted);
    v.sort_chronologically();
    assert_eq!(v, sorted);
}

#[test]
fn sort_agrees_with_a_stable_sort_by_key() {
    let mut seed: u64 = 0x9e37_79b9_7f4a_7c15;
    let mut v: Vec<TrajectoryPoint> = Vec::new();
    for i in 0..500u32 {
        seed = seed.wrapping_mul(6364136223846793005).wrapping_add(1442695040888963407);
        let stamp: i64 = ((seed >> 33) % 40) as i64 - 20;
        v.push(at(f64::from(i), 0.0, stamp));
    }
    let mut expected = v.clone();
    expected.sort_by_key(|p| p.timestamp);
    v.sort_chronologically();
    assert_eq!(v, expected);
    assert!(is_chronological(&v));
}

#[test]
fn chronological_is_told_apart_from_unordered() {
    let none: Vec<TrajectoryPoint> = Vec::new();
    assert!(is_chronological(&none));
    assert!(is_chronological(&[at(0.0, 0.0, 1)]));
    assert!(is_chronological(&[at(0.0, 0.0, 1), at(0.0, 0.0, 1), at(0.0, 0.0, 2)]));
    assert!(!is_chronological(&[at(0.0, 0.0, 1), at(0.0, 0.0, 3), at(0.0, 0.0, 2)]));
    assert!(!is_chronological(&[at(0.0, 0.0, 2), at(0.0, 0.0, 1)]));
}

#[test]
fn seconds_between_is_absolute() {
    assert_eq!(seconds_between(10, 20), 10);
    assert_eq!(seconds_between(20, 10), 10);
    assert_eq!(seconds_between(7, 7), 0);
    assert_eq!(seconds_between(-5, 5), 10);
    assert_eq!(seconds_between(i64::MIN, i64::MAX), u64::MAX);
    assert_eq!(seconds_between(i64::MAX, i64::MIN), u64::MAX);
    assert_eq!(seconds_between(i64::MIN, 0), 1u64 << 63);
}

#[test]
fn seconds_between_agrees_with_the_duration_of_two_instants() {
    let a: DateTime<Utc> = DateTime::from_timestamp(1_600_000_000, 0).unwrap();
    let b: DateTime<Utc> = DateTime::from_timestamp(1_600_003_725, 0).unwrap();
    let expected: i64 = (b - a).num_seconds().abs();
    assert_eq!(seconds_between(a.timestamp(), b.timestamp()), expected as u64);
    assert_eq!(seconds_between(b.timestamp(), a.timestamp()), expected as u64);
    assert_eq!(expected, 3725);
}

#[test]
fn elapsed_seconds_has_one_figure_per_pair() {
    let none: Vec<TrajectoryPoint> = Vec::new();
    assert_eq!(elapsed_seconds(&none), Vec::<u64>::new());
    assert_eq!(elapsed_seconds(&[at(0.0, 0.0, 1)]), Vec::<u64>::new());
    assert_eq!(elapsed_seconds(&[at(0.0, 0.0, 10), at(0.0, 0.0, 20)]), vec![10]);
    assert_eq!(
        elapsed_seconds(&[at(0.0, 0.0, 10), at(0.0, 0.0, 20), at(0.0, 0.0, 20), at(0.0, 0.0, 5)]),
        vec![10, 0, 15]
    );
}
