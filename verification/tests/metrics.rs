use apogeo::metrics::{
    avg_thrust, duration, max_thrust, specific_impulse, total_impulse, DerivedMetrics,
};
use apogeo::sample::Sample;

fn at(seconds: i64, newtons: i64) -> Sample {
    Sample::new(seconds * 1_000_000, newtons * 1_000_000, 0, 0)
}

#[test]
fn total_impulse_of_fewer_than_two_samples_is_zero() {
    assert_eq!(total_impulse(&[]), Some(0));
    assert_eq!(total_impulse(&[at(5, 100)]), Some(0));
}

#[test]
fn total_impulse_of_two_samples_is_the_trapezoid() {
    assert_eq!(total_impulse(&[at(0, 10), at(1, 20)]), Some(15_000_000));
    let (t0, f0, t1, f1) = (250_000i64, 3_300_000i64, 1_750_000i64, 4_100_001i64);
    let expected = ((f0 + f1) as i128 * (t1 - t0) as i128).div_euclid(2_000_000);
    assert_eq!(
        total_impulse(&[Sample::new(t0, f0, 0, 0), Sample::new(t1, f1, 0, 0)]),
        Some(expected)
    );
    assert_eq!(expected, 5_550_000);
}

#[test]
fn total_impulse_sums_the_trapezoids() {
    let series = [at(0, 0), at(1, 10), at(3, 10), at(4, 0)];
    assert_eq!(total_impulse(&series), Some(30_000_000));
}

#[test]
fn total_impulse_rounds_down() {
    let up = [Sample::new(0, 1, 0, 0), Sample::new(1, 2, 0, 0)];
    assert_eq!(total_impulse(&up), Some(0));
    let down = [Sample::new(0, -1, 0, 0), Sample::new(1, -2, 0, 0)];
    assert_eq!(total_impulse(&down), Some(-1));
    let exact = [Sample::new(0, -1_000_000, 0, 0), Sample::new(2, -1_000_000, 0, 0)];
    assert_eq!(total_impulse(&exact), Some(-2));
}

#[test]
fn total_impulse_takes_time_as_it_stands() {
    let series = [at(2, 10), at(0, 10)];
    assert_eq!(total_impulse(&series), Some(-20_000_000));
    let there_and_back = [at(0, 10), at(2, 10), at(0, 10)];
    assert_eq!(total_impulse(&there_and_back), Some(0));
}

#[test]
fn total_impulse_of_two_extreme_samples_is_defined() {
    let series = [Sample::new(i64::MIN, i64::MIN, 0, 0), Sample::new(i64::MAX, i64::MIN, 0, 0)];
    let expected = (-(1i128 << 64) / 2_000_000 * ((1i128 << 64) - 1)) as f64;
    let got = total_impulse(&series).unwrap();
    assert!(got < 0);
    assert!((got as f64 - expected).abs() / expected.abs() < 1e-6);
}

#[test]
fn total_impulse_is_none_where_the_sums_do_not_fit() {
    let low = Sample::new(i64::MIN, i64::MAX, 0, 0);
    let high = Sample::new(i64::MAX, i64::MAX, 0, 0);
    let high_back = Sample::new(i64::MAX, i64::MAX, 0, 0);
    let series = [low, high, Sample::new(i64::MIN, i64::MIN, 0, 0), high_back, low, high];
    assert_eq!(total_impulse(&series[..2]).map(|v| v > 0), Some(true));
    let mut gaining = Vec::new();
    for _ in 0..3 {
        gaining.push(low);
        gaining.push(high);
        gaining.push(Sample::new(i64::MIN, i64::MIN, 0, 0));
    }
    assert_eq!(total_impulse(&gaining), None);
}

#[test]
fn max_thrust_is_the_greatest() {
    assert_eq!(max_thrust(&[]), None);
    assert_eq!(max_thrust(&[at(0, 10), at(1, 20)]), Some(20_000_000));
    assert_eq!(max_thrust(&[at(0, -5), at(1, -7), at(2, -6)]), Some(-5_000_000));
    assert_eq!(max_thrust(&[at(0, 3), at(1, 3)]), Some(3_000_000));
    assert_eq!(max_thrust(&[Sample::new(0, i64::MIN, 0, 0)]), Some(i64::MIN));
}

#[test]
fn avg_thrust_is_the_mean_rounded_down() {
    assert_eq!(avg_thrust(&[]), None);
    assert_eq!(avg_thrust(&[at(0, 10), at(1, 20)]), Some(15_000_000));
    assert_eq!(avg_thrust(&[Sample::new(0, 1, 0, 0), Sample::new(1, 2, 0, 0)]), Some(1));
    assert_eq!(avg_thrust(&[Sample::new(0, -1, 0, 0), Sample::new(1, -2, 0, 0)]), Some(-2));
    assert_eq!(
        avg_thrust(&[Sample::new(0, i64::MAX, 0, 0), Sample::new(1, i64::MAX, 0, 0)]),
        Some(i64::MAX)
    );
    assert_eq!(
        avg_thrust(&[Sample::new(0, i64::MIN, 0, 0), Sample::new(1, i64::MIN, 0, 0)]),
        Some(i64::MIN)
    );
}

#[test]
fn duration_is_last_less_first() {
    assert_eq!(duration(&[]), None);
    assert_eq!(duration(&[at(3, 0)]), Some(0));
    assert_eq!(duration(&[at(0, 0), at(7, 0), at(1, 0)]), Some(1_000_000));
    assert_eq!(
        duration(&[Sample::new(i64::MIN, 0, 0, 0), Sample::new(i64::MAX, 0, 0, 0)]),
        Some((1i128 << 64) - 1)
    );
}

#[test]
fn specific_impulse_divides_by_standard_gravity() {
    assert_eq!(specific_impulse(0), 0);
    assert_eq!(specific_impulse(9_810_000), 1_000_000);
    assert_eq!(specific_impulse(15_000_000), 1_529_051);
    assert_eq!(specific_impulse(-15_000_000), -1_529_052);
    assert_eq!(specific_impulse(i128::MAX), (i128::MAX / 981) * 100 + ((i128::MAX % 981) * 100) / 981);
    assert!((specific_impulse(15_000_000) as f64 / 1e6 - 15.0 / 9.81).abs() < 1e-6);
}

#[test]
fn metrics_of_an_empty_series_are_undefined() {
    assert_eq!(DerivedMetrics::compute(&[]), None);
}

#[test]
fn metrics_of_one_sample() {
    let m = DerivedMetrics::compute(&[at(4, 12)]).unwrap();
    assert_eq!(m.total_impulse, Some(0));
    assert_eq!(m.max_thrust, 12_000_000);
    assert_eq!(m.avg_thrust, 12_000_000);
    assert_eq!(m.duration, 0);
}

#[test]
fn metrics_are_recomputed_from_the_series() {
    let m = DerivedMetrics::compute(&[at(0, 10), at(1, 20)]).unwrap();
    assert_eq!(
        m,
        DerivedMetrics {
            total_impulse: Some(15_000_000),
            max_thrust: 20_000_000,
            avg_thrust: 15_000_000,
            duration: 1_000_000,
        }
    );
}

#[test]
fn metrics_agree_with_floating_point_arithmetic() {
    let mut series = Vec::new();
    let mut seed: u64 = 12345;
    let mut time: i64 = 0;
    for _ in 0..500 {
        seed = seed.wrapping_mul(6364136223846793005).wrapping_add(1442695040888963407);
        time += ((seed >> 40) % 200_000) as i64 + 1_000;
        let thrust = ((seed >> 20) % 400_000_000) as i64 - 50_000_000;
        series.push(Sample::new(time, thrust, 0, 0));
    }
    let float_time: Vec<f64> = series.iter().map(|s| s.time as f64 / 1e6).collect();
    let float_thrust: Vec<f64> = series.iter().map(|s| s.thrust as f64 / 1e6).collect();
    let mut impulse = 0.0;
    for i in 1..series.len() {
        let dt = float_time[i] - float_time[i - 1];
        impulse += (float_thrust[i] + float_thrust[i - 1]) / 2.0 * dt;
    }
    let max = float_thrust.iter().fold(f64::NEG_INFINITY, |a, &b| a.max(b));
    let avg = float_thrust.iter().sum::<f64>() / float_thrust.len() as f64;
    let span = float_time[float_time.len() - 1] - float_time[0];

    let m = DerivedMetrics::compute(&series).unwrap();
    assert!((m.total_impulse.unwrap() as f64 / 1e6 - impulse).abs() < 1e-5);
    assert_eq!(m.max_thrust as f64 / 1e6, max);
    assert!((m.avg_thrust as f64 / 1e6 - avg).abs() < 1e-5);
    assert!((m.duration as f64 / 1e6 - span).abs() < 1e-9);
}
