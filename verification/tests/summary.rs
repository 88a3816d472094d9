use ordered_float::OrderedFloat;
use tweet_trajectories::algo::speed::speed_max;
use tweet_trajectories::algo::summary::{positions_of_defined, retain_defined};
use tweet_trajectories::Double;

fn d(x: f64) -> Double {
    Double::from_bits(x.to_bits())
}

fn doubles(values: &[f64]) -> Vec<Double> {
    values.iter().map(|x| d(*x)).collect()
}

fn bits(values: &[Double]) -> Vec<u64> {
    values.iter().map(|x| x.to_bits()).collect()
}

/// The greatest defined value, found by ordering the numbers themselves.
fn greatest_by_number(values: &[f64]) -> Option<f64> {
    values
        .iter()
        .filter_map(|v| if v.is_nan() { None } else { Some(OrderedFloat::from(*v)) })
        .max()
        .map(|v| v.0)
}

#[test]
fn retain_defined_drops_every_nan() {
    let values = doubles(&[1.0, f64::NAN, 2.5, -f64::NAN, f64::INFINITY, 0.0, f64::NAN]);
    let kept = retain_defined(&values);
    assert_eq!(bits(&kept), bits(&doubles(&[1.0, 2.5, f64::INFINITY, 0.0])));
}

#[test]
fn retain_defined_keeps_what_is_defined() {
    let values = doubles(&[3.0, -1.0, 0.0, -0.0, f64::NEG_INFINITY]);
    assert_eq!(bits(&retain_defined(&values)), bits(&values));
    let twice = retain_defined(&retain_defined(&values));
    assert_eq!(bits(&twice), bits(&values));
}

#[test]
fn retain_defined_of_nothing_defined_is_empty() {
    assert!(retain_defined(&[]).is_empty());
    assert!(retain_defined(&doubles(&[f64::NAN, f64::NAN])).is_empty());
}

#[test]
fn positions_of_defined_name_the_values_kept() {
    let values = doubles(&[f64::NAN, 1.0, f64::NAN, 2.0, 3.0, f64::NAN]);
    let positions = positions_of_defined(&values);
    assert_eq!(positions, vec![1, 3, 4]);
    let picked: Vec<Double> = positions.iter().map(|i| values[*i]).collect();
    assert_eq!(bits(&picked), bits(&retain_defined(&values)));
    assert!(positions_of_defined(&[]).is_empty());
    assert!(positions_of_defined(&doubles(&[f64::NAN])).is_empty());
}

#[test]
fn speed_max_is_the_greatest_defined_speed() {
    let speeds = doubles(&[1.5, f64::NAN, 7.25, 3.0, f64::NAN]);
    assert_eq!(speed_max(&speeds).map(|v| v.to_bits()), Some(7.25f64.to_bits()));
    let speeds = doubles(&[f64::INFINITY, 2.0]);
    assert_eq!(speed_max(&speeds).map(|v| v.to_bits()), Some(f64::INFINITY.to_bits()));
    let speeds = doubles(&[-3.0, -2.0, -9.0]);
    assert_eq!(speed_max(&speeds).map(|v| v.to_bits()), Some((-2.0f64).to_bits()));
}

#[test]
fn speed_max_of_nothing_defined_is_none() {
    assert!(speed_max(&[]).is_none());
    assert!(speed_max(&doubles(&[f64::NAN])).is_none());
    assert!(speed_max(&doubles(&[f64::NAN, -f64::NAN, f64::NAN])).is_none());
}

#[test]
fn speed_max_takes_the_last_of_equal_speeds() {
    let speeds = doubles(&[0.0, -0.0]);
    assert_eq!(speed_max(&speeds).map(|v| v.to_bits()), Some((-0.0f64).to_bits()));
    let speeds = doubles(&[-0.0, 0.0, f64::NAN]);
    assert_eq!(speed_max(&speeds).map(|v| v.to_bits()), Some(0.0f64.to_bits()));
}

#[test]
fn speed_max_agrees_with_the_order_of_the_numbers() {
    let pool: Vec<f64> = vec![
        0.0,
        -0.0,
        1.0,
        -1.0,
        5e-324,
        -5e-324,
        2.5,
        1e300,
        -1e300,
        f64::INFINITY,
        f64::NEG_INFINITY,
        f64::NAN,
        -f64::NAN,
        27.77,
    ];
    let mut seed: u64 = 12345;
    for _ in 0..2000u32 {
        let mut values: Vec<f64> = Vec::new();
        seed = seed.wrapping_mul(6364136223846793005).wrapping_add(1442695040888963407);
        let len: u64 = (seed >> 60) % 7;
        for _ in 0..len {
            seed = seed.wrapping_mul(6364136223846793005).wrapping_add(1442695040888963407);
            values.push(pool[((seed >> 33) % pool.len() as u64) as usize]);
        }
        let expected = greatest_by_number(&values).map(|v| v.to_bits());
        let found = speed_max(&doubles(&values)).map(|v| v.to_bits());
        assert_eq!(found, expected, "{:?}", values);
    }
}
