//! NTP short-timestamp codec.
//!
//! Converts between Unix-epoch nanoseconds (`u64`) and the 8-byte wire form:
//! a big-endian 32-bit seconds-since-1900 field followed by a big-endian
//! 32-bit binary fraction of a second (`frac / 2^32` seconds).

use vstd::prelude::*;
use vstd::arithmetic::div_mod::{
    lemma_div_is_ordered, lemma_div_multiples_vanish, lemma_fundamental_div_mod,
    lemma_multiply_divide_lt,
};

verus! {

/// Seconds between the NTP epoch (1900-01-01) and the Unix epoch (1970-01-01).
pub const NTP_EPOCH_OFFSET: u64 = 2208988800;

/// Nanoseconds per second.
pub const NS_PER_SEC: u64 = 1_000_000_000;

/// 2^32, the denominator of the NTP fractional-seconds field.
pub const NTP_FRAC_SCALE: u64 = 0x1_0000_0000;

/// Smallest nanosecond count whose seconds part overflows the 32-bit NTP
/// seconds field: `(2^32 - NTP_EPOCH_OFFSET) * NS_PER_SEC`.
pub const NTP_MAX_NS: u64 = 2085978496000000000;

/// The value of four bytes read as a big-endian 32-bit integer.
pub open spec fn be32_val(b: Seq<u8>) -> int
    recommends
        b.len() == 4,
{
    b[0] * 0x100_0000 + b[1] * 0x1_0000 + b[2] * 0x100 + b[3]
}

/// The NTP seconds field that encodes `ns`.
pub open spec fn ntp_sec_of(ns: u64) -> int {
    ns as int / (NS_PER_SEC as int) + NTP_EPOCH_OFFSET
}

/// The NTP fraction field that encodes `ns`: the sub-second remainder scaled
/// by `2^32 / 10^9`, rounded down.
pub open spec fn ntp_frac_of(ns: u64) -> int {
    (ns as int % (NS_PER_SEC as int)) * NTP_FRAC_SCALE / (NS_PER_SEC as int)
}

/// The Unix-epoch nanosecond count denoted by an NTP (seconds, fraction) pair:
/// the inverse scaling, also rounded down.
pub open spec fn ns_of_ntp_pair(sec: int, frac: int) -> int {
    (sec - NTP_EPOCH_OFFSET) * NS_PER_SEC + frac * (NS_PER_SEC as int) / (NTP_FRAC_SCALE as int)
}

/// Appends the big-endian bytes of `v` to `out`.
pub fn push_be32(out: &mut Vec<u8>, v: u32)
    ensures
        final(out)@.len() == old(out)@.len() + 4,
        final(out)@.subrange(0, old(out)@.len() as int) == old(out)@,
        be32_val(final(out)@.subrange(old(out)@.len() as int, final(out)@.len() as int)) == v,
{
    let q1: u32 = v / 0x100;
    let r1: u32 = v % 0x100;
    let q2: u32 = q1 / 0x100;
    let r2: u32 = q1 % 0x100;
    let q3: u32 = q2 / 0x100;
    let r3: u32 = q2 % 0x100;
    out.push(q3 as u8);
    out.push(r3 as u8);
    out.push(r2 as u8);
    out.push(r1 as u8);
    proof {
        lemma_fundamental_div_mod(v as int, 0x100);
        lemma_fundamental_div_mod(q1 as int, 0x100);
        lemma_fundamental_div_mod(q2 as int, 0x100);
        assert(out@.subrange(0, old(out)@.len() as int) =~= old(out)@);
    }
}

/// The big-endian 32-bit value of four bytes.
pub fn read_be32(b0: u8, b1: u8, b2: u8, b3: u8) -> (r: u32)
    ensures
        r == (b0 as u32) * 0x100_0000 + (b1 as u32) * 0x1_0000 + (b2 as u32) * 0x100 + (b3 as u32),
{
    (b0 as u32) * 0x100_0000 + (b1 as u32) * 0x1_0000 + (b2 as u32) * 0x100 + (b3 as u32)
}

/// Encodes a Unix-epoch nanosecond count as the 8-byte NTP short timestamp.
pub fn ns_to_ntp(ns: u64) -> (r: Vec<u8>)
    requires
        ns < NTP_MAX_NS,
    ensures
        r@.len() == 8,
        be32_val(r@.subrange(0, 4)) == ntp_sec_of(ns),
        be32_val(r@.subrange(4, 8)) == ntp_frac_of(ns),
{
    let seconds: u64 = ns / NS_PER_SEC;
    let nanos: u64 = ns % NS_PER_SEC;
    let ntp_seconds: u64 = seconds + NTP_EPOCH_OFFSET;
    proof {
        lemma_div_is_ordered(ns as int, (NTP_MAX_NS - 1) as int, NS_PER_SEC as int);
    }
    let ntp_fraction: u64 = nanos * NTP_FRAC_SCALE / NS_PER_SEC;
    proof {
        lemma_multiply_divide_lt(
            (nanos * NTP_FRAC_SCALE) as int,
            NS_PER_SEC as int,
            NTP_FRAC_SCALE as int,
        );
    }
    let mut r: Vec<u8> = Vec::new();
    push_be32(&mut r, ntp_seconds as u32);
    push_be32(&mut r, ntp_fraction as u32);
    r
}

/// Decodes an NTP (seconds, fraction) pair into Unix-epoch nanoseconds.
pub fn ntp_pair_to_ns(sec: u32, frac: u32) -> (r: u64)
    requires
        sec >= NTP_EPOCH_OFFSET,
    ensures
        r == ns_of_ntp_pair(sec as int, frac as int),
{
    let unix_seconds: u64 = sec as u64 - NTP_EPOCH_OFFSET;
    let nanos: u64 = (frac as u64) * NS_PER_SEC / NTP_FRAC_SCALE;
    proof {
        lemma_div_is_ordered(
            (frac * NS_PER_SEC) as int,
            0xFFFF_FFFFu64 * NS_PER_SEC as int,
            NTP_FRAC_SCALE as int,
        );
    }
    unix_seconds * NS_PER_SEC + nanos
}

/// Decodes the first 8 bytes of `data` as an NTP short timestamp.
pub fn ntp_to_ns(data: &[u8]) -> (r: u64)
    requires
        data@.len() >= 8,
        be32_val(data@.subrange(0, 4)) >= NTP_EPOCH_OFFSET,
    ensures
        r == ns_of_ntp_pair(be32_val(data@.subrange(0, 4)), be32_val(data@.subrange(4, 8))),
{
    let sec: u32 = read_be32(data[0], data[1], data[2], data[3]);
    let frac: u32 = read_be32(data[4], data[5], data[6], data[7]);
    ntp_pair_to_ns(sec, frac)
}

/// Law: encoding then decoding loses at most one nanosecond, and never rounds
/// up, for every count the 32-bit seconds field can hold.
pub proof fn lemma_ntp_round_trip(ns: u64)
    requires
        ns < NTP_MAX_NS,
    ensures
        ns - 1 <= ns_of_ntp_pair(ntp_sec_of(ns), ntp_frac_of(ns)) <= ns,
{
    let s: int = ns as int / NS_PER_SEC as int;
    let n: int = ns as int % NS_PER_SEC as int;
    let f: int = n * NTP_FRAC_SCALE / NS_PER_SEC as int;
    let d: int = f * NS_PER_SEC / NTP_FRAC_SCALE as int;
    lemma_fundamental_div_mod(ns as int, NS_PER_SEC as int);
    // d <= n: f * NS_PER_SEC <= n * NTP_FRAC_SCALE, then divide both by the scale.
    lemma_fundamental_div_mod(n * NTP_FRAC_SCALE as int, NS_PER_SEC as int);
    lemma_div_is_ordered(f * NS_PER_SEC as int, n * NTP_FRAC_SCALE as int, NTP_FRAC_SCALE as int);
    lemma_div_multiples_vanish(n, NTP_FRAC_SCALE as int);
    // d >= n - 1: f * NS_PER_SEC >= n * NTP_FRAC_SCALE - (NS_PER_SEC - 1)
    //           >= (n - 1) * NTP_FRAC_SCALE, then divide both by the scale.
    lemma_div_is_ordered((n - 1) * NTP_FRAC_SCALE as int, f * NS_PER_SEC as int, NTP_FRAC_SCALE as int);
    lemma_div_multiples_vanish(n - 1, NTP_FRAC_SCALE as int);
}

} // verus!
