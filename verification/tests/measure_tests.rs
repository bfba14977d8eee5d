use tsq::measure::compute_measurement;

#[test]
fn offset_formula_literal() {
    // offset = ((2000-1000) + (2100-1200)) / 2 = 950; rtt = 200 - 100 = 100.
    let m = compute_measurement(1000, 2000, 2100, 1200);
    assert_eq!(m.offset_ns, 950);
    assert_eq!(m.rtt_ns, 100);
}

#[test]
fn offset_can_be_negative() {
    // The server's clock sits behind the client's.
    let m = compute_measurement(2000, 1000, 1100, 3200);
    assert_eq!(m.offset_ns, ((1000i64 - 2000) + (1100 - 3200)) / 2);
    assert_eq!(m.rtt_ns, (3200 - 2000) - (1100 - 1000));
}

#[test]
fn zero_true_offset_stays_within_half_rtt() {
    // Symmetric-looking exchanges with the same clock on both sides.
    let cases: [(u64, u64, u64, u64); 3] = [
        (1000, 1400, 1400, 2000),
        (1000, 1001, 1001, 1002),
        (500, 500, 500, 500),
    ];
    for &(t1, t2, t3, t4) in cases.iter() {
        let m = compute_measurement(t1, t2, t3, t4);
        assert!(m.rtt_ns >= 0);
        assert!(m.offset_ns.abs() <= m.rtt_ns / 2);
    }
}
