use geo::convex_hull::quick_hull;
use geo::GeodesicDistance;
use geo_types::{Coord, Point};
use statrs::statistics::{Data, Median, OrderStatistics};
use tweet_trajectories::algo::speed::{elapsed_seconds, speed_max};
use tweet_trajectories::algo::straightness::{straightness_from_ratio, CHUNK_SIZE};
use tweet_trajectories::algo::summary::{positions_of_defined, retain_defined};
use tweet_trajectories::algo::window::{chunks, coordinates, windows};
use tweet_trajectories::{Coordinate, Double, TrajectoryPoint};
use uom::si::f64::{Length, Time, Velocity};
use uom::si::length::meter;
use uom::si::time::second;
use uom::si::velocity::{kilometer_per_hour, meter_per_second};

fn d(x: f64) -> Double {
    Double::from_bits(x.to_bits())
}

fn f(x: Double) -> f64 {
    f64::from_bits(x.to_bits())
}

fn coord(x: f64, y: f64) -> Coordinate {
    Coordinate { x: d(x), y: d(y) }
}

fn at(lon: f64, lat: f64, timestamp: i64) -> TrajectoryPoint {
    TrajectoryPoint { point: coord(lon, lat), timestamp }
}

fn geodesic_distance(a: &Coordinate, b: &Coordinate) -> f64 {
    Point::new(f(a.x), f(a.y)).geodesic_distance(&Point::new(f(b.x), f(b.y)))
}

fn geodesic_distance_covered(coords: &[Coordinate]) -> f64 {
    windows(coords, 2).iter().map(|w| geodesic_distance(&w[0], &w[1])).sum()
}

fn straightness(coords: &[Coordinate]) -> f64 {
    let mut copy: Vec<Coord<f64>> = coords.iter().map(|c| Coord { x: f(c.x), y: f(c.y) }).collect();
    let hull: Vec<Coordinate> = quick_hull(&mut copy).0.iter().map(|c| coord(c.x, c.y)).collect();
    let ratio = geodesic_distance_covered(&hull) / 2.0 / geodesic_distance_covered(coords);
    f(straightness_from_ratio(d(ratio)))
}

fn straightness_chunked_median(coords: &[Coordinate], chunk_size: usize) -> f64 {
    let each: Vec<f64> = chunks(coords, chunk_size).iter().map(|c| straightness(c)).collect();
    Data::new(each).median()
}

fn speeds(points: &[TrajectoryPoint]) -> Vec<Velocity> {
    let coords = coordinates(points);
    let elapsed = elapsed_seconds(points);
    windows(&coords, 2)
        .iter()
        .zip(elapsed.iter())
        .map(|(w, dt)| {
            Length::new::<meter>(geodesic_distance(&w[0], &w[1])) / Time::new::<second>(*dt as f64)
        })
        .collect()
}

fn angle_radians(window: &[Coordinate]) -> f64 {
    let a = (f(window[0].x) - f(window[1].x), f(window[0].y) - f(window[1].y));
    let b = (f(window[1].x) - f(window[2].x), f(window[1].y) - f(window[2].y));
    let magnitude_a = (a.0 * a.0 + a.1 * a.1).sqrt();
    let magnitude_b = (b.0 * b.0 + b.1 * b.1).sqrt();
    ((a.0 * b.0 + a.1 * b.1) / (magnitude_a * magnitude_b)).acos()
}

/// Angle in degrees times the length of the window in meters, for every
/// window that has an angle.
fn curviness(coords: &[Coordinate]) -> Vec<f64> {
    let triples = windows(coords, 3);
    let angles: Vec<Double> = triples.iter().map(|w| d(angle_radians(w))).collect();
    positions_of_defined(&angles)
        .iter()
        .map(|i| f(angles[*i]).to_degrees() * geodesic_distance_covered(triples[*i]))
        .collect()
}

#[test]
fn undefined_ratio_counts_as_straight() {
    assert_eq!(f(straightness_from_ratio(d(f64::NAN))), 1.0);
    assert_eq!(f(straightness_from_ratio(d(-f64::NAN))), 1.0);
    assert_eq!(f(straightness_from_ratio(d(0.0 / 0.0))), 1.0);
}

#[test]
fn defined_ratio_is_the_straightness() {
    for ratio in [0.0, 0.25, 0.999, 1.0, 1.5, f64::INFINITY, -0.0] {
        assert_eq!(straightness_from_ratio(d(ratio)).to_bits(), ratio.to_bits());
    }
}

#[test]
fn chunk_size_is_ten() {
    assert_eq!(CHUNK_SIZE, 10);
}

#[test]
fn straight_equatorial_segment() {
    let coords: Vec<Coordinate> = (0..11u32).map(|i| coord(f64::from(i), 0.0)).collect();
    let median = straightness_chunked_median(&coords, CHUNK_SIZE);
    assert!((median - 1.0).abs() < 1e-3, "{}", median);
}

#[test]
fn collinear_points_are_straight() {
    let coords = vec![coord(0.0, 0.0), coord(1.0, 0.0), coord(2.5, 0.0), coord(7.0, 0.0)];
    assert!((straightness(&coords) - 1.0).abs() < 1e-6);
    let coords = vec![coord(10.0, -5.0), coord(10.0, 0.0), coord(10.0, 20.0)];
    assert!((straightness(&coords) - 1.0).abs() < 1e-6);
}

#[test]
fn short_chunks_are_straight() {
    assert_eq!(straightness(&[coord(3.0, 4.0)]), 1.0);
    assert_eq!(straightness(&[coord(3.0, 4.0), coord(3.0, 4.0)]), 1.0);
    assert!((straightness(&[coord(3.0, 4.0), coord(5.0, 6.0)]) - 1.0).abs() < 1e-9);
}

#[test]
fn a_path_that_doubles_back_is_less_straight() {
    let coords = vec![coord(0.0, 0.0), coord(1.0, 0.0), coord(0.0, 0.0), coord(1.0, 0.0)];
    let s = straightness(&coords);
    assert!(s < 0.5, "{}", s);
    assert!(s > 0.0, "{}", s);
}

#[test]
fn duplicate_middle_point() {
    let coords = vec![coord(0.0, 0.0), coord(1.0, 1.0), coord(1.0, 1.0), coord(2.0, 2.0)];
    let angles: Vec<Double> = windows(&coords, 3).iter().map(|w| d(angle_radians(w))).collect();
    assert!(angles[1].is_nan());
    let contributions = curviness(&coords);
    assert_eq!(contributions.len(), positions_of_defined(&angles).len());
    assert!(contributions.len() < 2);
    assert!(contributions.iter().all(|c| !c.is_nan()));
    assert!(straightness(&coords).is_finite());
}

#[test]
fn curviness_coords_curviness() {
    let coords = vec![
        coord(10., 10.),
        coord(15., 11.),
        coord(20., 9.),
        coord(25., 14.),
        coord(30., 9.),
        coord(60., 10.),
    ];
    let each = curviness(&coords);
    assert_eq!(each.len(), 4);
    assert!(each.iter().all(|c| *c >= 0.0));
    let total: f64 = each.iter().sum::<f64>() / (each.len() as f64);
    println!("{:?} {:?}", total, each);
    assert!(total.is_finite());
}

#[test]
fn two_point_trajectory() {
    let points = vec![at(13.0, 52.0, 1_000), at(13.001, 52.0, 1_010)];
    let distance = geodesic_distance(&points[0].point, &points[1].point);
    assert_eq!(elapsed_seconds(&points), vec![10]);
    let speeds = speeds(&points);
    assert_eq!(speeds.len(), 1);
    assert_eq!(speeds[0].get::<meter_per_second>(), distance / 10.0);

    let kmh: Vec<Double> = speeds.iter().map(|s| d(s.get::<kilometer_per_hour>())).collect();
    let defined: Vec<f64> = retain_defined(&kmh).iter().map(|v| f(*v)).collect();
    assert_eq!(defined.len(), 1);
    let expected = Velocity::new::<meter_per_second>(distance / 10.0).get::<kilometer_per_hour>();
    let mut data = Data::new(defined);
    assert_eq!(data.percentile(10), expected);
    assert_eq!(data.percentile(50), expected);
    assert_eq!(data.percentile(80), expected);
    assert_eq!(data.percentile(100), expected);
    assert_eq!(speed_max(&kmh).map(f), Some(expected));
}

#[test]
fn simultaneous_points_have_no_finite_speed() {
    let points = vec![at(13.0, 52.0, 5), at(13.5, 52.0, 5), at(13.5, 52.0, 5), at(14.0, 52.0, 65)];
    assert_eq!(elapsed_seconds(&points), vec![0, 0, 60]);
    let mps: Vec<Double> = speeds(&points).iter().map(|s| d(s.get::<meter_per_second>())).collect();
    assert!(f(mps[0]).is_infinite());
    assert!(mps[1].is_nan());
    let defined = retain_defined(&mps);
    assert_eq!(defined.len(), 2);
    assert!(defined.iter().all(|v| f(*v) >= 0.0));
    assert_eq!(positions_of_defined(&mps), vec![0, 2]);
}

#[test]
fn nothing_defined_has_no_percentile() {
    let none: Vec<Double> = vec![d(f64::NAN), d(f64::NAN)];
    let defined: Vec<f64> = retain_defined(&none).iter().map(|v| f(*v)).collect();
    let mut data = Data::new(defined);
    assert!(data.percentile(10).is_nan());
    assert!(data.percentile(100).is_nan());
    assert!(speed_max(&none).is_none());
}

#[test]
fn defined_speeds_are_not_negative() {
    let mut points: Vec<TrajectoryPoint> = Vec::new();
    let mut seed: u64 = 7;
    for _ in 0..200u32 {
        seed = seed.wrapping_mul(6364136223846793005).wrapping_add(1442695040888963407);
        let lon = ((seed >> 11) % 3600) as f64 / 10.0 - 180.0;
        seed = seed.wrapping_mul(6364136223846793005).wrapping_add(1442695040888963407);
        let lat = ((seed >> 11) % 1800) as f64 / 10.0 - 90.0;
        seed = seed.wrapping_mul(6364136223846793005).wrapping_add(1442695040888963407);
        let stamp: i64 = ((seed >> 11) % 50) as i64;
        points.push(at(lon, lat, stamp));
    }
    let mps: Vec<Double> = speeds(&points).iter().map(|s| d(s.get::<meter_per_second>())).collect();
    assert_eq!(mps.len(), 199);
    let defined = retain_defined(&mps);
    assert!(!defined.is_empty());
    for speed in defined.iter() {
        assert!(f(*speed) >= 0.0);
        assert!(speed.key() >= 0);
    }
    let greatest = speed_max(&mps).unwrap();
    assert!(defined.iter().all(|speed| f(*speed) <= f(greatest)));
}
