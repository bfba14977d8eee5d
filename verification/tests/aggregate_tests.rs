use tsq::aggregate::calculate_adjustment;
use tsq::errors::TsqError;
use tsq::measure::Measurement;

const MS: i64 = 1_000_000;

fn samples(offsets_ms: &[i64], rtts_ms: &[i64]) -> Vec<Measurement> {
    offsets_ms
        .iter()
        .zip(rtts_ms.iter())
        .map(|(&o, &r)| Measurement { offset_ns: o * MS, rtt_ns: r * MS })
        .collect()
}

#[test]
fn aggregate_and_gate_literal() {
    // max-offset 500 ms, offsets 120/130/125/128/122 ms: median 125 ms,
    // stdev = floor(sqrt(13.6)) ms in nanoseconds.
    let m = samples(&[120, 130, 125, 128, 122], &[10, 12, 11, 13, 9]);
    let s = calculate_adjustment(&m, 500).unwrap();
    assert_eq!(s.median_offset_ns, 125 * MS);
    assert_eq!(s.median_rtt_ns, 11 * MS);
    // Variance is 13_600_000_000_000 ns^2; its integer square root:
    assert_eq!(s.stdev_ns, 3_687_817);
    assert!((s.stdev_ns as i128) * (s.stdev_ns as i128) <= 13_600_000_000_000);
    assert!(((s.stdev_ns + 1) as i128) * ((s.stdev_ns + 1) as i128) > 13_600_000_000_000);
}

#[test]
fn offset_too_large_fails_without_touching_anything() {
    // max-offset 100 ms, offsets 200/250/180 ms: median 200 ms > 100 ms.
    let m = samples(&[200, 250, 180], &[10, 11, 12]);
    assert_eq!(calculate_adjustment(&m, 100), Err(TsqError::OffsetTooLarge));
}

#[test]
fn negative_median_is_gated_by_magnitude() {
    let m = samples(&[-200, -250, -180], &[10, 11, 12]);
    assert_eq!(calculate_adjustment(&m, 100), Err(TsqError::OffsetTooLarge));
    let ok = calculate_adjustment(&m, 300).unwrap();
    assert_eq!(ok.median_offset_ns, -200 * MS);
}

#[test]
fn empty_sample_set_is_no_measurements() {
    let m: Vec<Measurement> = Vec::new();
    assert_eq!(calculate_adjustment(&m, 1000), Err(TsqError::NoMeasurements));
}

#[test]
fn single_sample_is_its_own_median() {
    let m = samples(&[42], &[7]);
    let s = calculate_adjustment(&m, 1000).unwrap();
    assert_eq!(s.median_offset_ns, 42 * MS);
    assert_eq!(s.median_rtt_ns, 7 * MS);
    assert_eq!(s.stdev_ns, 0);
}

#[test]
fn even_count_median_is_mean_of_middle_two() {
    let m = samples(&[10, 30, 20, 40], &[1, 2, 3, 4]);
    let s = calculate_adjustment(&m, 1000).unwrap();
    // Sorted 10/20/30/40: median (20+30)/2 = 25.
    assert_eq!(s.median_offset_ns, 25 * MS);
    // Sorted 1/2/3/4: median (2+3)/2 = 2 ms and 500 us.
    assert_eq!(s.median_rtt_ns, 2 * MS + 500_000);
}

#[test]
fn median_lies_between_min_and_max() {
    let m = samples(&[7, -3, 12, 0, 5, 5, -8], &[1, 1, 1, 1, 1, 1, 1]);
    let s = calculate_adjustment(&m, 1000).unwrap();
    assert!(-8 * MS <= s.median_offset_ns && s.median_offset_ns <= 12 * MS);
    assert_eq!(s.median_offset_ns, 5 * MS);
}
