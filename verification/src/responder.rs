//! The server side of one request: validate the frame, echo the nonce, and
//! append the receive and send timestamps.
//!
//! The caller reads the clock: T2 at the first statement of its handler,
//! before any parsing, and T3 immediately before the response is handed to
//! the transport. Building the response in two steps keeps the T3 capture
//! adjacent to the hand-off, as the protocol asks.

use vstd::prelude::*;
use crate::codec::{be32_val, ns_of_ntp_pair, ns_to_ntp, ntp_frac_of, ntp_sec_of, NTP_MAX_NS};
use crate::tlv::{
    last_ts_value, response_ts, tlv_well_formed, ts_sec_valid, T_NONCE, T_RECV_TS, T_SEND_TS,
};

verus! {

/// Whether a request frame is acceptable: at least 18 bytes whose first
/// record is a 16-byte nonce.
pub open spec fn request_valid(data: Seq<u8>) -> bool {
    data.len() >= 18 && data[0] == T_NONCE && data[1] == 16
}

/// The nonce a valid request carries.
pub open spec fn request_nonce(data: Seq<u8>) -> Seq<u8> {
    data.subrange(2, 18)
}

/// The shape of a complete response for `nonce`, `t2` and `t3`: the echoed
/// nonce record, then the receive-timestamp record, then the send-timestamp
/// record, 38 bytes in all.
pub open spec fn is_response_for(resp: Seq<u8>, nonce: Seq<u8>, t2: u64, t3: u64) -> bool {
    &&& resp.len() == 38
    &&& nonce.len() == 16
    &&& resp[0] == T_NONCE
    &&& resp[1] == 16
    &&& resp.subrange(2, 18) == nonce
    &&& resp[18] == T_RECV_TS
    &&& resp[19] == 8
    &&& be32_val(resp.subrange(20, 24)) == ntp_sec_of(t2)
    &&& be32_val(resp.subrange(24, 28)) == ntp_frac_of(t2)
    &&& resp[28] == T_SEND_TS
    &&& resp[29] == 8
    &&& be32_val(resp.subrange(30, 34)) == ntp_sec_of(t3)
    &&& be32_val(resp.subrange(34, 38)) == ntp_frac_of(t3)
}

/// Validates the request and builds the first two records of the response:
/// the echoed nonce and the receive timestamp T2. Returns nothing exactly
/// when the request is rejected.
pub fn build_response_prefix(data: &[u8], t2_ns: u64) -> (r: Option<Vec<u8>>)
    requires
        t2_ns < NTP_MAX_NS,
    ensures
        r is Some <==> request_valid(data@),
        match r {
            Some(resp) => {
                &&& resp@.len() == 28
                &&& resp@[0] == T_NONCE
                &&& resp@[1] == 16
                &&& resp@.subrange(2, 18) == request_nonce(data@)
                &&& resp@[18] == T_RECV_TS
                &&& resp@[19] == 8
                &&& be32_val(resp@.subrange(20, 24)) == ntp_sec_of(t2_ns)
                &&& be32_val(resp@.subrange(24, 28)) == ntp_frac_of(t2_ns)
            },
            None => true,
        },
{
    if data.len() < 18 {
        return None;
    }
    if data[0] != T_NONCE || data[1] != 16 {
        return None;
    }
    let mut resp: Vec<u8> = Vec::new();
    resp.push(T_NONCE);
    resp.push(16);
    let mut i: usize = 0;
    while i < 16
        invariant
            i <= 16,
            data@.len() >= 18,
            resp@ == seq![T_NONCE, 16u8] + data@.subrange(2, 2 + i),
        decreases 16 - i,
    {
        resp.push(data[2 + i]);
        i = i + 1;
        proof {
            assert(data@.subrange(2, 2 + i) =~= data@.subrange(2, 2 + (i - 1)) + seq![
                data@[2 + (i - 1)],
            ]);
            assert(resp@ =~= seq![T_NONCE, 16u8] + data@.subrange(2, 2 + i));
        }
    }
    resp.push(T_RECV_TS);
    resp.push(8);
    let ghost before_ts: Seq<u8> = resp@;
    let t2_bytes: Vec<u8> = ns_to_ntp(t2_ns);
    let mut k: usize = 0;
    while k < 8
        invariant
            k <= 8,
            t2_bytes@.len() == 8,
            resp@ == before_ts + t2_bytes@.subrange(0, k as int),
        decreases 8 - k,
    {
        resp.push(t2_bytes[k]);
        k = k + 1;
        proof {
            assert(t2_bytes@.subrange(0, k as int) =~= t2_bytes@.subrange(0, k - 1) + seq![
                t2_bytes@[k - 1],
            ]);
            assert(resp@ =~= before_ts + t2_bytes@.subrange(0, k as int));
        }
    }
    proof {
        assert(t2_bytes@.subrange(0, 8) =~= t2_bytes@);
        assert(resp@.subrange(2, 18) =~= data@.subrange(2, 18));
        assert(resp@.subrange(20, 24) =~= t2_bytes@.subrange(0, 4));
        assert(resp@.subrange(24, 28) =~= t2_bytes@.subrange(4, 8));
    }
    Some(resp)
}

/// Appends the send-timestamp record for T3 to a response under construction.
/// The caller reads T3 from the clock immediately before this call and hands
/// the result to the transport immediately after.
pub fn append_send_ts(resp: &mut Vec<u8>, t3_ns: u64)
    requires
        t3_ns < NTP_MAX_NS,
    ensures
        final(resp)@.len() == old(resp)@.len() + 10,
        final(resp)@.subrange(0, old(resp)@.len() as int) == old(resp)@,
        final(resp)@[old(resp)@.len() as int] == T_SEND_TS,
        final(resp)@[old(resp)@.len() + 1int] == 8,
        be32_val(final(resp)@.subrange(old(resp)@.len() + 2int, old(resp)@.len() + 6int)) == ntp_sec_of(
            t3_ns,
        ),
        be32_val(final(resp)@.subrange(old(resp)@.len() + 6int, old(resp)@.len() + 10int)) == ntp_frac_of(
            t3_ns,
        ),
{
    let ghost base: Seq<u8> = resp@;
    resp.push(T_SEND_TS);
    resp.push(8);
    let t3_bytes: Vec<u8> = ns_to_ntp(t3_ns);
    let ghost before_ts: Seq<u8> = resp@;
    let mut k: usize = 0;
    while k < 8
        invariant
            k <= 8,
            t3_bytes@.len() == 8,
            resp@ == before_ts + t3_bytes@.subrange(0, k as int),
        decreases 8 - k,
    {
        resp.push(t3_bytes[k]);
        k = k + 1;
        proof {
            assert(t3_bytes@.subrange(0, k as int) =~= t3_bytes@.subrange(0, k - 1) + seq![
                t3_bytes@[k - 1],
            ]);
            assert(resp@ =~= before_ts + t3_bytes@.subrange(0, k as int));
        }
    }
    proof {
        assert(t3_bytes@.subrange(0, 8) =~= t3_bytes@);
        assert(resp@.subrange(0, base.len() as int) =~= base);
        assert(resp@.subrange(base.len() + 2int, base.len() + 6int) =~= t3_bytes@.subrange(0, 4));
        assert(resp@.subrange(base.len() + 6int, base.len() + 10int) =~= t3_bytes@.subrange(4, 8));
    }
}

/// Handles one request frame in a single step: validates it and builds the
/// whole response from the two given clock readings. Returns nothing exactly
/// when the request is rejected, and the request is then dropped silently.
pub fn handle_tsq_request(data: &[u8], t2_ns: u64, t3_ns: u64) -> (r: Option<Vec<u8>>)
    requires
        t2_ns < NTP_MAX_NS,
        t3_ns < NTP_MAX_NS,
    ensures
        r is Some <==> request_valid(data@),
        match r {
            Some(resp) => is_response_for(resp@, request_nonce(data@), t2_ns, t3_ns),
            None => true,
        },
{
    match build_response_prefix(data, t2_ns) {
        Some(mut resp) => {
            append_send_ts(&mut resp, t3_ns);
            proof {
                assert(resp@.subrange(2, 18) =~= resp@.subrange(0, 28).subrange(2, 18));
                assert(resp@.subrange(20, 24) =~= resp@.subrange(0, 28).subrange(20, 24));
                assert(resp@.subrange(24, 28) =~= resp@.subrange(0, 28).subrange(24, 28));
            }
            Some(resp)
        },
        None => None,
    }
}

/// Law: a response of the shape the responder builds is a whole number of
/// records, so a future version may append records after it and a reader
/// will still walk them all.
pub proof fn lemma_response_well_formed(resp: Seq<u8>, nonce: Seq<u8>, t2: u64, t3: u64)
    requires
        is_response_for(resp, nonce, t2, t3),
    ensures
        tlv_well_formed(resp),
{
    let r1: Seq<u8> = resp.skip(18);
    let r2: Seq<u8> = resp.skip(28);
    let r3: Seq<u8> = resp.skip(38);
    assert(r3 =~= Seq::<u8>::empty());
    assert(tlv_well_formed(r3));
    assert(r2[0] == T_SEND_TS && r2[1] == 8);
    assert(r2.skip(10) =~= r3);
    assert(tlv_well_formed(r2));
    assert(r1[0] == T_RECV_TS && r1[1] == 8);
    assert(r1.skip(10) =~= r2);
    assert(tlv_well_formed(r1));
    assert(resp[1] == 16);
    assert(resp.skip(18) =~= r1);
    assert(tlv_well_formed(resp));
}

/// Law: a response of the shape the responder builds parses back on the
/// client side to the very timestamps the server encoded, up to the one
/// nanosecond the codec may round down.
pub proof fn lemma_response_parses_back(resp: Seq<u8>, nonce: Seq<u8>, t2: u64, t3: u64)
    requires
        is_response_for(resp, nonce, t2, t3),
        t2 < NTP_MAX_NS,
        t3 < NTP_MAX_NS,
    ensures
        response_ts(resp) == Some(
            (
                ns_of_ntp_pair(ntp_sec_of(t2), ntp_frac_of(t2)),
                ns_of_ntp_pair(ntp_sec_of(t3), ntp_frac_of(t3)),
            ),
        ),
        match response_ts(resp) {
            Some(p) => t2 - 1 <= p.0 <= t2 && t3 - 1 <= p.1 <= t3,
            None => false,
        },
{
    let r1: Seq<u8> = resp.skip(18);
    let r2: Seq<u8> = resp.skip(28);
    let r3: Seq<u8> = resp.skip(38);
    assert(r3 =~= Seq::<u8>::empty());
    assert(last_ts_value(r3, T_RECV_TS) is None);
    assert(last_ts_value(r3, T_SEND_TS) is None);
    assert(r2.len() == 10);
    assert(r2[0] == T_SEND_TS && r2[1] == 8);
    assert(r2.skip(10) =~= r3);
    assert(r2.subrange(2, 10) =~= resp.subrange(30, 38));
    assert(last_ts_value(r2, T_RECV_TS) is None);
    assert(last_ts_value(r2, T_SEND_TS) == Some(resp.subrange(30, 38)));
    assert(r1[0] == T_RECV_TS && r1[1] == 8);
    assert(r1.skip(10) =~= r2);
    assert(r1.subrange(2, 10) =~= resp.subrange(20, 28));
    assert(last_ts_value(r1, T_RECV_TS) == Some(resp.subrange(20, 28)));
    assert(last_ts_value(r1, T_SEND_TS) == Some(resp.subrange(30, 38)));
    assert(resp[1] == 16);
    assert(resp.skip(18) =~= r1);
    assert(last_ts_value(resp, T_RECV_TS) == Some(resp.subrange(20, 28)));
    assert(last_ts_value(resp, T_SEND_TS) == Some(resp.subrange(30, 38)));
    let b2: Seq<u8> = resp.subrange(20, 28);
    let b3: Seq<u8> = resp.subrange(30, 38);
    assert(b2.subrange(0, 4) =~= resp.subrange(20, 24));
    assert(b2.subrange(4, 8) =~= resp.subrange(24, 28));
    assert(b3.subrange(0, 4) =~= resp.subrange(30, 34));
    assert(b3.subrange(4, 8) =~= resp.subrange(34, 38));
    assert(ts_sec_valid(b2));
    assert(ts_sec_valid(b3));
    crate::codec::lemma_ntp_round_trip(t2);
    crate::codec::lemma_ntp_round_trip(t3);
}

} // verus!
