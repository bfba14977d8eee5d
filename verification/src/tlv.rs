//! The type-length-value wire format.
//!
//! A frame is a sequence of records, each an 8-bit type, an 8-bit length and
//! `length` value bytes. Reading is permissive: a record whose header or value
//! would run past the end of the input ends the walk, and whatever parsed
//! cleanly before it stands. Unknown record types are skipped.

use vstd::prelude::*;
use crate::codec::{be32_val, ns_of_ntp_pair, ntp_pair_to_ns, NTP_EPOCH_OFFSET};
use crate::errors::TsqError;

verus! {

/// Record type of the 16-byte client nonce.
pub const T_NONCE: u8 = 1;

/// Record type of the server receive timestamp (T2).
pub const T_RECV_TS: u8 = 2;

/// Record type of the server send timestamp (T3).
pub const T_SEND_TS: u8 = 3;

/// The bytes of one record: type, length, value.
pub open spec fn tlv_encoding(t: u8, v: Seq<u8>) -> Seq<u8>
    recommends
        v.len() <= 255,
{
    seq![t, v.len() as u8] + v
}

/// The records a frame holds, in order, up to the first malformed header.
pub open spec fn tlv_records(data: Seq<u8>) -> Seq<(u8, Seq<u8>)>
    decreases data.len(),
{
    if data.len() < 2 {
        seq![]
    } else {
        let l: int = data[1] as int;
        if 2 + l > data.len() {
            seq![]
        } else {
            seq![(data[0], data.subrange(2, 2 + l))] + tlv_records(data.skip(2 + l))
        }
    }
}

/// Whether the frame is a whole number of records with nothing left over.
pub open spec fn tlv_well_formed(data: Seq<u8>) -> bool
    decreases data.len(),
{
    if data.len() == 0 {
        true
    } else if data.len() < 2 {
        false
    } else if 2 + data[1] > data.len() {
        false
    } else {
        tlv_well_formed(data.skip(2 + data[1] as int))
    }
}

/// The value bytes of the last record of type `ty` with length exactly 8, if
/// the walk meets one. A later record of the same type shadows an earlier one.
pub open spec fn last_ts_value(data: Seq<u8>, ty: u8) -> Option<Seq<u8>>
    decreases data.len(),
{
    if data.len() < 2 {
        None
    } else {
        let l: int = data[1] as int;
        if 2 + l > data.len() {
            None
        } else {
            let rest: Option<Seq<u8>> = last_ts_value(data.skip(2 + l), ty);
            if rest is Some {
                rest
            } else if data[0] == ty && l == 8 {
                Some(data.subrange(2, 2 + l))
            } else {
                None
            }
        }
    }
}

/// The (seconds, fraction) pair held by 8 timestamp bytes.
pub open spec fn ts_pair_of(b: Seq<u8>) -> (int, int)
    recommends
        b.len() == 8,
{
    (be32_val(b.subrange(0, 4)), be32_val(b.subrange(4, 8)))
}

/// Whether the seconds field is not before the Unix epoch, so that the
/// timestamp denotes a representable nanosecond count.
pub open spec fn ts_sec_valid(b: Seq<u8>) -> bool {
    be32_val(b.subrange(0, 4)) >= NTP_EPOCH_OFFSET
}

/// The (seconds, fraction) pair of an optional timestamp record.
pub open spec fn ts_pairs_opt(o: Option<Seq<u8>>) -> Option<(int, int)> {
    match o {
        Some(b) => Some(ts_pair_of(b)),
        None => None,
    }
}

/// The (T2, T3) nanosecond pair a response frame denotes: the last receive and
/// send timestamp records, both present, both 8 bytes, both on or after the
/// Unix epoch.
pub open spec fn response_ts(data: Seq<u8>) -> Option<(int, int)> {
    match (last_ts_value(data, T_RECV_TS), last_ts_value(data, T_SEND_TS)) {
        (Some(b2), Some(b3)) => if ts_sec_valid(b2) && ts_sec_valid(b3) {
            Some(
                (
                    ns_of_ntp_pair(ts_pair_of(b2).0, ts_pair_of(b2).1),
                    ns_of_ntp_pair(ts_pair_of(b3).0, ts_pair_of(b3).1),
                ),
            )
        } else {
            None
        },
        _ => None,
    }
}

/// The view of the partial parse state held during the walk.
pub open spec fn pair_view(c: Option<(u32, u32)>) -> Option<(int, int)> {
    match c {
        Some(p) => Some((p.0 as int, p.1 as int)),
        None => None,
    }
}

/// The first operand if it is something, else the second: a later record
/// shadows an earlier one.
pub open spec fn or_opt(a: Option<(int, int)>, b: Option<(int, int)>) -> Option<(int, int)> {
    if a is Some {
        a
    } else {
        b
    }
}

/// Law: one encoded record walks back as exactly that record, and is a whole
/// frame with nothing left over.
pub proof fn lemma_tlv_encoding_round_trip(t: u8, v: Seq<u8>)
    requires
        v.len() <= 255,
    ensures
        tlv_records(tlv_encoding(t, v)) == seq![(t, v)],
        tlv_well_formed(tlv_encoding(t, v)),
{
    let e: Seq<u8> = tlv_encoding(t, v);
    let l: int = e[1] as int;
    assert(e[1] == v.len() as u8);
    assert(l == v.len());
    assert(e.subrange(2, 2 + l) =~= v);
    assert(e.skip(2 + l) =~= Seq::<u8>::empty());
    assert(tlv_records(e.skip(2 + l)) =~= Seq::<(u8, Seq<u8>)>::empty());
    assert(tlv_records(e) =~= seq![(t, v)]);
    assert(tlv_well_formed(e.skip(2 + l)));
}

/// Every timestamp record the walk returns holds exactly 8 bytes.
proof fn lemma_last_ts_len(data: Seq<u8>, ty: u8)
    ensures
        match last_ts_value(data, ty) {
            Some(b) => b.len() == 8,
            None => true,
        },
    decreases data.len(),
{
    if data.len() >= 2 {
        let l: int = data[1] as int;
        if 2 + l <= data.len() {
            lemma_last_ts_len(data.skip(2 + l), ty);
        }
    }
}

/// The timestamps a response denotes lie in [0, 2^62): the 32-bit seconds
/// field cannot reach further.
pub proof fn lemma_response_ts_bounded(data: Seq<u8>)
    ensures
        match response_ts(data) {
            Some(p) => 0 <= p.0 < crate::measure::TS_LIMIT_NS && 0 <= p.1
                < crate::measure::TS_LIMIT_NS,
            None => true,
        },
{
    lemma_last_ts_len(data, T_RECV_TS);
    lemma_last_ts_len(data, T_SEND_TS);
    match (last_ts_value(data, T_RECV_TS), last_ts_value(data, T_SEND_TS)) {
        (Some(b2), Some(b3)) => {
            if ts_sec_valid(b2) && ts_sec_valid(b3) {
                lemma_ts_value_bounded(b2);
                lemma_ts_value_bounded(b3);
            }
        },
        _ => {},
    }
}

/// A valid 8-byte timestamp denotes a nanosecond count in [0, 2^62).
proof fn lemma_ts_value_bounded(b: Seq<u8>)
    requires
        b.len() == 8,
        ts_sec_valid(b),
    ensures
        0 <= ns_of_ntp_pair(ts_pair_of(b).0, ts_pair_of(b).1) < crate::measure::TS_LIMIT_NS,
{
    let sec: int = be32_val(b.subrange(0, 4));
    let frac: int = be32_val(b.subrange(4, 8));
    assert(sec <= 0xFFFF_FFFF);
    assert(0 <= frac <= 0xFFFF_FFFF);
    vstd::arithmetic::div_mod::lemma_div_is_ordered(
        frac * 1_000_000_000,
        0xFFFF_FFFFint * 1_000_000_000,
        0x1_0000_0000,
    );
    vstd::arithmetic::div_mod::lemma_div_pos_is_pos(frac * 1_000_000_000, 0x1_0000_0000);
}

/// The last timestamp record of a well-formed frame is unchanged by appending
/// one whole record of a different type.
proof fn lemma_last_ts_append(data: Seq<u8>, t: u8, v: Seq<u8>, ty: u8)
    requires
        tlv_well_formed(data),
        t != ty,
        v.len() <= 255,
    ensures
        last_ts_value(data + tlv_encoding(t, v), ty) == last_ts_value(data, ty),
    decreases data.len(),
{
    let e: Seq<u8> = tlv_encoding(t, v);
    let whole: Seq<u8> = data + e;
    assert(e.len() == 2 + v.len());
    if data.len() == 0 {
        assert(whole =~= e);
        assert(last_ts_value(data, ty) is None);
        let l: int = e[1] as int;
        assert(e[1] == v.len() as u8);
        assert(l == v.len());
        assert(e.skip(2 + l) =~= Seq::<u8>::empty());
        assert(last_ts_value(e.skip(2 + l), ty) is None);
        assert(e[0] == t);
        assert(last_ts_value(e, ty) is None);
    } else {
        let l: int = data[1] as int;
        assert(whole[0] == data[0] && whole[1] == data[1]);
        assert(2 + l <= data.len());
        assert(whole.skip(2 + l) =~= data.skip(2 + l) + e);
        assert(whole.subrange(2, 2 + l) =~= data.subrange(2, 2 + l));
        lemma_last_ts_append(data.skip(2 + l), t, v, ty);
        let rest: Option<Seq<u8>> = last_ts_value(data.skip(2 + l), ty);
        assert(last_ts_value(whole.skip(2 + l), ty) == rest);
        if rest is Some {
            assert(last_ts_value(whole, ty) == rest);
            assert(last_ts_value(data, ty) == rest);
        } else if data[0] == ty && l == 8 {
            assert(last_ts_value(whole, ty) == Some(whole.subrange(2, 2 + l)));
            assert(last_ts_value(data, ty) == Some(data.subrange(2, 2 + l)));
        } else {
            assert(last_ts_value(whole, ty) is None);
            assert(last_ts_value(data, ty) is None);
        }
    }
}

/// Law: a response frame that is a whole number of records keeps the same
/// parse when one trailing record of any non-timestamp type is appended.
/// Readers ignore unknown trailing records.
pub proof fn lemma_trailing_tlv_ignored(data: Seq<u8>, t: u8, v: Seq<u8>)
    requires
        tlv_well_formed(data),
        t != T_RECV_TS,
        t != T_SEND_TS,
        v.len() <= 255,
    ensures
        response_ts(data + tlv_encoding(t, v)) == response_ts(data),
{
    lemma_last_ts_append(data, t, v, T_RECV_TS);
    lemma_last_ts_append(data, t, v, T_SEND_TS);
}

/// Encodes one record: type, length, value.
pub fn encode_tlv(t: u8, value: &[u8]) -> (r: Vec<u8>)
    requires
        value@.len() <= 255,
    ensures
        r@ == tlv_encoding(t, value@),
{
    let mut r: Vec<u8> = Vec::new();
    r.push(t);
    r.push(value.len() as u8);
    let mut i: usize = 0;
    while i < value.len()
        invariant
            i <= value@.len(),
            value@.len() <= 255,
            r@ == seq![t, value@.len() as u8] + value@.subrange(0, i as int),
        decreases value@.len() - i,
    {
        r.push(value[i]);
        i = i + 1;
        proof {
            assert(value@.subrange(0, i as int) =~= value@.subrange(0, i - 1) + seq![value@[i - 1]]);
            assert(r@ =~= seq![t, value@.len() as u8] + value@.subrange(0, i as int));
        }
    }
    proof {
        assert(value@.subrange(0, value@.len() as int) =~= value@);
    }
    r
}

/// Decodes a frame into its records, permissively: the walk stops at the first
/// malformed header and returns what parsed cleanly.
pub fn decode_tlv(data: &[u8]) -> (r: Vec<(u8, Vec<u8>)>)
    ensures
        r@.len() == tlv_records(data@).len(),
        forall|i: int|
            0 <= i < r@.len() ==> r@[i].0 == tlv_records(data@)[i].0 && r@[i].1@ == tlv_records(
                data@,
            )[i].1,
{
    let ghost whole: Seq<(u8, Seq<u8>)> = tlv_records(data@);
    let mut r: Vec<(u8, Vec<u8>)> = Vec::new();
    let mut off: usize = 0;
    proof {
        assert(data@.skip(0) =~= data@);
    }
    while data.len() - off >= 2 && (data[off + 1] as usize) <= data.len() - off - 2
        invariant
            off <= data@.len(),
            whole == tlv_records(data@),
            r@.len() + tlv_records(data@.skip(off as int)).len() == whole.len(),
            forall|i: int|
                0 <= i < r@.len() ==> r@[i].0 == whole[i].0 && r@[i].1@ == whole[i].1,
            forall|j: int|
                0 <= j < tlv_records(data@.skip(off as int)).len() ==> tlv_records(
                    data@.skip(off as int),
                )[j] == whole[r@.len() + j],
        decreases data@.len() - off,
    {
        let ghost rest: Seq<u8> = data@.skip(off as int);
        let t: u8 = data[off];
        let l: usize = data[off + 1] as usize;
        let mut v: Vec<u8> = Vec::new();
        let mut k: usize = 0;
        while k < l
            invariant
                off + 2 + l <= data@.len(),
                data@.len() <= usize::MAX,
                k <= l,
                v@ == data@.subrange(off + 2, off + 2 + k),
            decreases l - k,
        {
            v.push(data[off + 2 + k]);
            k = k + 1;
            proof {
                assert(data@.subrange(off + 2, off + 2 + k) =~= data@.subrange(
                    off + 2,
                    off + 2 + (k - 1),
                ) + seq![data@[off + 2 + (k - 1)]]);
            }
        }
        proof {
            assert(rest.skip(2 + l) =~= data@.skip(off + 2 + l as int));
            assert(rest.subrange(2, 2 + l as int) =~= data@.subrange(off + 2, off + 2 + l));
            assert(tlv_records(rest) == seq![(t, rest.subrange(2, 2 + l as int))] + tlv_records(
                rest.skip(2 + l),
            ));
        }
        let ghost old_r: Seq<(u8, Vec<u8>)> = r@;
        r.push((t, v));
        off = off + 2 + l;
        proof {
            let new_rest: Seq<u8> = data@.skip(off as int);
            assert(tlv_records(rest)[0] == (t, rest.subrange(2, 2 + l as int)));
            assert(tlv_records(rest)[0] == whole[old_r.len() as int]);
            assert forall|i: int| 0 <= i < r@.len() implies r@[i].0 == whole[i].0 && r@[i].1@
                == whole[i].1 by {
                if i < old_r.len() {
                    assert(r@[i] == old_r[i]);
                } else {
                    assert(r@[i] == (t, v));
                    assert(whole[i] == tlv_records(rest)[0]);
                }
            }
            assert forall|j: int| 0 <= j < tlv_records(new_rest).len() implies tlv_records(
                new_rest,
            )[j] == whole[r@.len() + j] by {
                assert(tlv_records(rest)[j + 1] == whole[old_r.len() + (j + 1)]);
            }
        }
    }
    proof {
        assert(tlv_records(data@.skip(off as int)) =~= Seq::<(u8, Seq<u8>)>::empty());
    }
    r
}

/// Parses a response frame into its (T2, T3) timestamps, in Unix-epoch
/// nanoseconds. Fails with `DecodeError` exactly when the frame denotes no
/// timestamp pair: a missing or malformed receive or send record, or a
/// seconds field before the Unix epoch.
pub fn parse_response(data: &[u8]) -> (r: Result<(u64, u64), TsqError>)
    ensures
        match r {
            Ok(p) => response_ts(data@) == Some((p.0 as int, p.1 as int)),
            Err(e) => response_ts(data@) is None && e == TsqError::DecodeError,
        },
{
    let mut off: usize = 0;
    let mut t2: Option<(u32, u32)> = None;
    let mut t3: Option<(u32, u32)> = None;
    proof {
        assert(data@.skip(0) =~= data@);
    }
    while data.len() - off >= 2 && (data[off + 1] as usize) <= data.len() - off - 2
        invariant
            off <= data@.len(),
            or_opt(ts_pairs_opt(last_ts_value(data@.skip(off as int), T_RECV_TS)), pair_view(t2))
                == ts_pairs_opt(last_ts_value(data@, T_RECV_TS)),
            or_opt(ts_pairs_opt(last_ts_value(data@.skip(off as int), T_SEND_TS)), pair_view(t3))
                == ts_pairs_opt(last_ts_value(data@, T_SEND_TS)),
        decreases data@.len() - off,
    {
        let t: u8 = data[off];
        let l: usize = data[off + 1] as usize;
        proof {
            let rest: Seq<u8> = data@.skip(off as int);
            assert(rest.skip(2 + l) =~= data@.skip(off + 2 + l as int));
            assert(rest.subrange(2, 2 + l as int) =~= data@.subrange(off + 2, off + 2 + l));
        }
        if l == 8 && (t == T_RECV_TS || t == T_SEND_TS) {
            let sec: u32 = crate::codec::read_be32(
                data[off + 2],
                data[off + 3],
                data[off + 4],
                data[off + 5],
            );
            let frac: u32 = crate::codec::read_be32(
                data[off + 6],
                data[off + 7],
                data[off + 8],
                data[off + 9],
            );
            proof {
                let b: Seq<u8> = data@.subrange(off + 2, off + 2 + l);
                assert(b.subrange(0, 4) =~= data@.subrange(off + 2, off + 6));
                assert(b.subrange(4, 8) =~= data@.subrange(off + 6, off + 10));
                assert(be32_val(b.subrange(0, 4)) == sec);
                assert(be32_val(b.subrange(4, 8)) == frac);
            }
            if t == T_RECV_TS {
                t2 = Some((sec, frac));
            } else {
                t3 = Some((sec, frac));
            }
        }
        off = off + 2 + l;
    }
    match (t2, t3) {
        (Some((s2, f2)), Some((s3, f3))) => {
            if s2 as u64 >= NTP_EPOCH_OFFSET && s3 as u64 >= NTP_EPOCH_OFFSET {
                let a: u64 = ntp_pair_to_ns(s2, f2);
                let b: u64 = ntp_pair_to_ns(s3, f3);
                Ok((a, b))
            } else {
                Err(TsqError::DecodeError)
            }
        },
        _ => Err(TsqError::DecodeError),
    }
}

} // verus!
