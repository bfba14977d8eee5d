use tsq::responder::{append_send_ts, build_response_prefix, handle_tsq_request};
use tsq::tlv::parse_response;

const T2: u64 = 1_700_000_000_000_000_000;
const T3: u64 = 1_700_000_000_250_000_000;

fn valid_request() -> Vec<u8> {
    let mut req: Vec<u8> = vec![1, 16];
    req.extend_from_slice(&[
        0x01, 0x02, 0x03, 0x04, 0x05, 0x06, 0x07, 0x08, 0x09, 0x0A, 0x0B, 0x0C, 0x0D, 0x0E, 0x0F,
        0x10,
    ]);
    req
}

#[test]
fn request_validation_short_frame() {
    // 17 bytes starting 01 10: one byte of nonce missing.
    let mut short = valid_request();
    short.pop();
    assert_eq!(short.len(), 17);
    assert!(handle_tsq_request(&short, T2, T3).is_none());
}

#[test]
fn request_validation_wrong_type() {
    // 18 bytes starting 02 10: not a nonce record.
    let mut wrong = valid_request();
    wrong[0] = 2;
    assert_eq!(wrong.len(), 18);
    assert!(handle_tsq_request(&wrong, T2, T3).is_none());
}

#[test]
fn request_validation_wrong_length_field() {
    let mut wrong = valid_request();
    wrong[1] = 15;
    assert!(handle_tsq_request(&wrong, T2, T3).is_none());
}

#[test]
fn valid_request_yields_full_response() {
    let req = valid_request();
    let resp = handle_tsq_request(&req, T2, T3).unwrap();
    // Three records: nonce (2+16), receive timestamp (2+8), send timestamp
    // (2+8).
    assert_eq!(resp.len(), 38);
    // The nonce is echoed verbatim as the first record.
    assert_eq!(&resp[0..18], &req[0..18]);
    // The timestamps parse back, up to the codec's one nanosecond.
    let (t2, t3) = parse_response(&resp).unwrap();
    assert!(t2 <= T2 && T2 - t2 <= 1);
    assert!(t3 <= T3 && T3 - t3 <= 1);
}

#[test]
fn extra_request_records_are_ignored() {
    let mut req = valid_request();
    req.extend_from_slice(&[9, 2, 0xAA, 0xBB]);
    let resp = handle_tsq_request(&req, T2, T3).unwrap();
    assert_eq!(resp.len(), 38);
    assert_eq!(&resp[0..18], &req[0..18]);
}

#[test]
fn two_step_build_matches_single_step() {
    let req = valid_request();
    let mut resp = build_response_prefix(&req, T2).unwrap();
    assert_eq!(resp.len(), 28);
    append_send_ts(&mut resp, T3);
    assert_eq!(resp, handle_tsq_request(&req, T2, T3).unwrap());
}

#[test]
fn trailing_unknown_record_leaves_parse_unchanged() {
    let req = valid_request();
    let resp = handle_tsq_request(&req, T2, T3).unwrap();
    let plain = parse_response(&resp).unwrap();
    let mut extended = resp.clone();
    extended.extend_from_slice(&[200, 3, 1, 2, 3]);
    assert_eq!(parse_response(&extended).unwrap(), plain);
}
