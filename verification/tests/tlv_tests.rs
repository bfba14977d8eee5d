use tsq::errors::TsqError;
use tsq::tlv::{decode_tlv, encode_tlv, parse_response};

#[test]
fn encode_tlv_shape() {
    let r = encode_tlv(7, &[1, 2, 3]);
    assert_eq!(r, vec![7, 3, 1, 2, 3]);
    let empty = encode_tlv(9, &[]);
    assert_eq!(empty, vec![9, 0]);
}

#[test]
fn encode_then_decode_is_identity() {
    let value = [0u8, 255, 7, 42];
    let records = decode_tlv(&encode_tlv(33, &value));
    assert_eq!(records.len(), 1);
    assert_eq!(records[0].0, 33);
    assert_eq!(records[0].1, value.to_vec());
}

#[test]
fn decode_tlv_walks_records() {
    let data = [1u8, 2, 0xAA, 0xBB, 5, 0, 9, 1, 0xCC];
    let records = decode_tlv(&data);
    assert_eq!(records.len(), 3);
    assert_eq!(records[0].0, 1);
    assert_eq!(records[0].1, vec![0xAA, 0xBB]);
    assert_eq!(records[1].0, 5);
    assert_eq!(records[1].1, Vec::<u8>::new());
    assert_eq!(records[2].0, 9);
    assert_eq!(records[2].1, vec![0xCC]);
}

#[test]
fn decode_tlv_is_permissive_on_garbage() {
    // A claimed length overruns the buffer: the walk stops and keeps what
    // parsed cleanly.
    let overrun = [1u8, 2, 0xAA, 3, 200, 0xBB];
    let records = decode_tlv(&overrun);
    assert_eq!(records.len(), 1);
    assert_eq!(records[0].1, vec![0xAA, 3]);
    // A header straddling the end.
    let straddle = [4u8];
    assert_eq!(decode_tlv(&straddle).len(), 0);
    // Empty input.
    assert_eq!(decode_tlv(&[]).len(), 0);
    // Arbitrary byte strings never panic and never read out of bounds.
    let mut junk: Vec<u8> = Vec::new();
    let mut x: u32 = 0x12345678;
    for _ in 0..512 {
        x = x.wrapping_mul(1664525).wrapping_add(1013904223);
        junk.push((x >> 24) as u8);
        let _ = decode_tlv(&junk);
        let _ = parse_response(&junk);
    }
}

#[test]
fn parse_response_requires_both_timestamps() {
    // Only a T2 record: DecodeError.
    let mut t2_only: Vec<u8> = vec![2, 8];
    t2_only.extend_from_slice(&[0xE8, 0xFE, 0x6F, 0x80, 0, 0, 0, 0]);
    assert_eq!(parse_response(&t2_only), Err(TsqError::DecodeError));
    // Only a T3 record: DecodeError.
    let mut t3_only: Vec<u8> = vec![3, 8];
    t3_only.extend_from_slice(&[0xE8, 0xFE, 0x6F, 0x80, 0, 0, 0, 0]);
    assert_eq!(parse_response(&t3_only), Err(TsqError::DecodeError));
    // Both: the pair decodes.
    let mut both = t2_only.clone();
    both.extend_from_slice(&t3_only);
    assert_eq!(
        parse_response(&both),
        Ok((1_700_000_000_000_000_000, 1_700_000_000_000_000_000))
    );
}

#[test]
fn parse_response_takes_last_record_of_a_type() {
    let mut data: Vec<u8> = Vec::new();
    data.extend_from_slice(&[2, 8]);
    data.extend_from_slice(&[0xE8, 0xFE, 0x6F, 0x80, 0, 0, 0, 0]);
    data.extend_from_slice(&[3, 8]);
    data.extend_from_slice(&[0xE8, 0xFE, 0x6F, 0x80, 0, 0, 0, 0]);
    // A later T2 record shadows the earlier one: one second later.
    data.extend_from_slice(&[2, 8]);
    data.extend_from_slice(&[0xE8, 0xFE, 0x6F, 0x81, 0, 0, 0, 0]);
    let (t2, t3) = parse_response(&data).unwrap();
    assert_eq!(t2, 1_700_000_001_000_000_000);
    assert_eq!(t3, 1_700_000_000_000_000_000);
}

#[test]
fn parse_response_rejects_pre_epoch_seconds() {
    // Seconds below the NTP-to-Unix offset denote a time before 1970.
    let mut data: Vec<u8> = Vec::new();
    data.extend_from_slice(&[2, 8]);
    data.extend_from_slice(&[0x00, 0x00, 0x00, 0x01, 0, 0, 0, 0]);
    data.extend_from_slice(&[3, 8]);
    data.extend_from_slice(&[0xE8, 0xFE, 0x6F, 0x80, 0, 0, 0, 0]);
    assert_eq!(parse_response(&data), Err(TsqError::DecodeError));
}

#[test]
fn parse_response_ignores_wrong_length_and_unknown_types() {
    let mut data: Vec<u8> = Vec::new();
    // A type-2 record of the wrong length is not a timestamp.
    data.extend_from_slice(&[2, 4, 1, 2, 3, 4]);
    // An unknown type is skipped.
    data.extend_from_slice(&[77, 1, 0xFF]);
    data.extend_from_slice(&[2, 8]);
    data.extend_from_slice(&[0xE8, 0xFE, 0x6F, 0x80, 0, 0, 0, 0]);
    data.extend_from_slice(&[3, 8]);
    data.extend_from_slice(&[0xE8, 0xFE, 0x6F, 0x80, 0, 0, 0, 1]);
    let (t2, t3) = parse_response(&data).unwrap();
    assert_eq!(t2, 1_700_000_000_000_000_000);
    assert_eq!(t3, 1_700_000_000_000_000_000);
}
