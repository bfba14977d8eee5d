use tsq::codec::{ns_to_ntp, ntp_pair_to_ns, ntp_to_ns, NTP_MAX_NS};

#[test]
fn ntp_codec_round_trip_literal() {
    // 1_700_000_000 s after the Unix epoch: seconds field 1_700_000_000 +
    // 2_208_988_800 = 3_908_988_800 = 0xE8FE6F80, fraction 0.
    let ns: u64 = 1_700_000_000_000_000_000;
    let bytes = ns_to_ntp(ns);
    assert_eq!(bytes, vec![0xE8, 0xFE, 0x6F, 0x80, 0x00, 0x00, 0x00, 0x00]);
    let back = ntp_to_ns(&bytes);
    assert_eq!(back, ns);
}

#[test]
fn ntp_codec_round_trip_fractional() {
    let inputs: [u64; 6] = [
        0,
        1,
        999_999_999,
        1_700_000_000_123_456_789,
        NTP_MAX_NS - 1,
        987_654_321_987_654_321,
    ];
    for &ns in inputs.iter() {
        let bytes = ns_to_ntp(ns);
        let back = ntp_to_ns(&bytes);
        assert!(back <= ns && ns - back <= 1, "ns={} back={}", ns, back);
    }
}

#[test]
fn ntp_decode_pair_matches_bytes() {
    // Seconds exactly at the epoch offset decode to 0 ns.
    let r = ntp_pair_to_ns(2_208_988_800, 0);
    assert_eq!(r, 0);
    // Half a second: fraction 2^31 scales to 500_000_000 ns.
    let r = ntp_pair_to_ns(2_208_988_800, 0x8000_0000);
    assert_eq!(r, 500_000_000);
}

#[test]
fn ntp_decode_ignores_trailing_bytes() {
    let ns: u64 = 1_700_000_000_000_000_000;
    let mut bytes = ns_to_ntp(ns);
    bytes.push(0xAA);
    bytes.push(0xBB);
    assert_eq!(ntp_to_ns(&bytes), ns);
}
