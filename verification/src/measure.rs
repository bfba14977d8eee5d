//! Per-probe offset and round-trip-time arithmetic over the four timestamps
//! T1 (client send), T2 (server receive), T3 (server send), T4 (client
//! receive), all in Unix-epoch nanoseconds.

use vstd::prelude::*;
use vstd::arithmetic::div_mod::lemma_div_is_ordered;

verus! {

/// Upper bound (2^62) under which every timestamp is taken, so that sums and
/// differences of two of them fit a signed 64-bit value. Every nanosecond
/// count the NTP seconds field can hold lies far below it.
pub const TS_LIMIT_NS: u64 = 0x4000_0000_0000_0000;

/// One probe's result.
#[derive(Clone, Copy, Debug, PartialEq, Eq, Structural)]
pub struct Measurement {
    /// Estimated clock offset of the server relative to the client.
    pub offset_ns: i64,
    /// Round-trip time with the server's processing time removed.
    pub rtt_ns: i64,
}

/// Division by two rounding toward zero, the rounding the sample arithmetic
/// uses for either sign.
pub open spec fn div2_toward_zero(x: int) -> int {
    if x >= 0 {
        x / 2
    } else {
        -((-x) / 2)
    }
}

/// The absolute value.
pub open spec fn abs_of(x: int) -> int {
    if x >= 0 {
        x
    } else {
        -x
    }
}

/// offset = ((T2 - T1) + (T3 - T4)) / 2.
pub open spec fn offset_formula(t1: int, t2: int, t3: int, t4: int) -> int {
    div2_toward_zero((t2 - t1) + (t3 - t4))
}

/// rtt = (T4 - T1) - (T3 - T2).
pub open spec fn rtt_formula(t1: int, t2: int, t3: int, t4: int) -> int {
    (t4 - t1) - (t3 - t2)
}

/// Computes one Measurement from the four timestamps.
pub fn compute_measurement(t1: u64, t2: u64, t3: u64, t4: u64) -> (m: Measurement)
    requires
        t1 < TS_LIMIT_NS,
        t2 < TS_LIMIT_NS,
        t3 < TS_LIMIT_NS,
        t4 < TS_LIMIT_NS,
    ensures
        m.offset_ns == offset_formula(t1 as int, t2 as int, t3 as int, t4 as int),
        m.rtt_ns == rtt_formula(t1 as int, t2 as int, t3 as int, t4 as int),
{
    let t1i: i64 = t1 as i64;
    let t2i: i64 = t2 as i64;
    let t3i: i64 = t3 as i64;
    let t4i: i64 = t4 as i64;
    let sum: i64 = (t2i - t1i) + (t3i - t4i);
    let offset: i64 = if sum >= 0 {
        ((sum as u64) / 2) as i64
    } else {
        let mag: u64 = (-sum) as u64;
        -((mag / 2) as i64)
    };
    let rtt: i64 = (t4i - t1i) - (t3i - t2i);
    Measurement { offset_ns: offset, rtt_ns: rtt }
}

/// Law: when the timestamps are ordered T1 <= T2 <= T3 <= T4, the round-trip
/// time is never negative.
pub proof fn lemma_rtt_nonneg(t1: int, t2: int, t3: int, t4: int)
    requires
        t1 <= t2 <= t3 <= t4,
    ensures
        rtt_formula(t1, t2, t3, t4) >= 0,
{
}

/// Law: when the two clocks agree and the server answers instantly (T2 == T3,
/// delays in either direction are not negative), the computed offset is at
/// most half the computed round-trip time in magnitude.
pub proof fn lemma_offset_within_half_rtt(t1: int, t2: int, t3: int, t4: int)
    requires
        t1 <= t2,
        t2 == t3,
        t3 <= t4,
    ensures
        abs_of(offset_formula(t1, t2, t3, t4)) <= rtt_formula(t1, t2, t3, t4) / 2,
{
    let x: int = (t2 - t1) + (t3 - t4);
    let r: int = rtt_formula(t1, t2, t3, t4);
    if x >= 0 {
        lemma_div_is_ordered(x, r, 2);
    } else {
        lemma_div_is_ordered(-x, r, 2);
    }
}

} // verus!
