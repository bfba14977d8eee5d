use tsq::errors::TsqError;
use tsq::measure::Measurement;
use tsq::probe::{build_request, ProbePhase, ProbeSession};
use tsq::responder::handle_tsq_request;

#[test]
fn build_request_is_one_nonce_record() {
    let nonce: [u8; 16] = [9; 16];
    let req = build_request(&nonce);
    assert_eq!(req.len(), 18);
    assert_eq!(req[0], 1);
    assert_eq!(req[1], 16);
    assert_eq!(&req[2..18], &nonce);
}

#[test]
fn probe_start_emits_a_fresh_request() {
    let mut session = ProbeSession::new();
    assert_eq!(session.phase, ProbePhase::Idle);
    let req = session.start().unwrap();
    assert_eq!(session.phase, ProbePhase::Sent);
    assert_eq!(req.len(), 18);
    assert_eq!(req[0], 1);
    assert_eq!(req[1], 16);
    assert_eq!(&req[2..18], session.nonce.as_slice());
}

#[test]
fn whole_probe_against_the_responder() {
    // The client's request, answered by the responder with known clock
    // readings, must close the loop into one Measurement.
    let t1: u64 = 1_700_000_000_000_000_000;
    let t2: u64 = 1_700_000_000_010_000_000;
    let t3: u64 = 1_700_000_000_010_500_000;
    let t4: u64 = 1_700_000_000_021_000_000;
    let mut session = ProbeSession::new();
    let req = session.start().unwrap();
    session.record_t1(t1);
    let resp = handle_tsq_request(&req, t2, t3).unwrap();
    let m: Measurement = session.finish(&resp, t4).unwrap();
    assert_eq!(session.phase, ProbePhase::Done);
    // The codec may round each server timestamp down by one nanosecond.
    let expect_offset = ((t2 as i64 - t1 as i64) + (t3 as i64 - t4 as i64)) / 2;
    let expect_rtt = (t4 as i64 - t1 as i64) - (t3 as i64 - t2 as i64);
    assert!((m.offset_ns - expect_offset).abs() <= 1);
    assert!((m.rtt_ns - expect_rtt).abs() <= 2);
}

#[test]
fn mismatched_nonce_discards_the_sample() {
    let mut session = ProbeSession::new();
    let req = session.start().unwrap();
    session.record_t1(1_700_000_000_000_000_000);
    let mut other = req.clone();
    other[2] = other[2].wrapping_add(1);
    let resp = handle_tsq_request(&other, 1_700_000_000_010_000_000, 1_700_000_000_010_500_000)
        .unwrap();
    assert_eq!(
        session.finish(&resp, 1_700_000_000_021_000_000),
        Err(TsqError::NonceMismatch)
    );
}

#[test]
fn garbage_datagram_is_a_decode_error() {
    let mut session = ProbeSession::new();
    let _req = session.start().unwrap();
    session.record_t1(1_700_000_000_000_000_000);
    assert_eq!(
        session.finish(&[0xDE, 0xAD, 0xBE, 0xEF], 1_700_000_000_021_000_000),
        Err(TsqError::DecodeError)
    );
}

#[test]
fn two_probes_draw_different_nonces() {
    // Sixteen bytes from the system's CSPRNG colliding twice in a row would
    // mean the randomness wrapper hands back a constant.
    let mut a = ProbeSession::new();
    let mut b = ProbeSession::new();
    let ra = a.start().unwrap();
    let rb = b.start().unwrap();
    assert_ne!(ra[2..18], rb[2..18]);
}
