//! Reduction of a sample set to one decision: the median offset (gated by the
//! configured maximum), the standard deviation for reporting, and the median
//! round-trip time.

use vstd::prelude::*;
use vstd::relations::{sorted_by, total_ordering};
use vstd::seq_lib::lemma_sorted_unique;
use crate::errors::TsqError;
use crate::measure::{abs_of, div2_toward_zero, Measurement};

verus! {

/// Most samples one aggregation accepts; a run of `servers x queries` probes
/// stays far below it, and it keeps every intermediate sum within bounds.
pub const MAX_SAMPLES: usize = 8192;

/// Largest sample magnitude (2^56 nanoseconds, about 833 days) the aggregator
/// accepts; it keeps every squared deviation within 128 bits.
pub const MAX_ABS_NS: i64 = 0x100_0000_0000_0000;

/// The ordering by which samples are ranked.
pub open spec fn sample_le() -> spec_fn(i64, i64) -> bool {
    |a: i64, b: i64| a <= b
}

/// The samples in ascending order.
pub open spec fn sorted_version(s: Seq<i64>) -> Seq<i64> {
    s.sort_by(sample_le())
}

/// The median: the middle element of the sorted samples, or for an even count
/// the mean of the two middle elements, rounded toward zero.
pub open spec fn median_of(s: Seq<i64>) -> int
    recommends
        s.len() >= 1,
{
    let t: Seq<i64> = sorted_version(s);
    if s.len() % 2 == 1 {
        t[s.len() as int / 2] as int
    } else {
        div2_toward_zero(t[s.len() as int / 2 - 1] + t[s.len() as int / 2])
    }
}

/// The least sample.
pub open spec fn seq_min(s: Seq<i64>) -> i64
    recommends
        s.len() >= 1,
    decreases s.len(),
{
    if s.len() <= 1 {
        s[0]
    } else {
        let m: i64 = seq_min(s.drop_first());
        if s[0] <= m {
            s[0]
        } else {
            m
        }
    }
}

/// The greatest sample.
pub open spec fn seq_max(s: Seq<i64>) -> i64
    recommends
        s.len() >= 1,
    decreases s.len(),
{
    if s.len() <= 1 {
        s[0]
    } else {
        let m: i64 = seq_max(s.drop_first());
        if s[0] >= m {
            s[0]
        } else {
            m
        }
    }
}

/// The ranking order is total.
proof fn lemma_sample_le_total()
    ensures
        total_ordering(sample_le()),
{
    let leq = sample_le();
    assert forall|x: i64| #[trigger] leq(x, x) by {}
    assert forall|x: i64, y: i64| #[trigger] leq(x, y) && #[trigger] leq(y, x) implies x == y by {}
    assert forall|x: i64, y: i64, z: i64| #[trigger] leq(x, y) && #[trigger] leq(y, z) implies leq(
        x,
        z,
    ) by {}
    assert forall|x: i64, y: i64| #[trigger] leq(x, y) || #[trigger] leq(y, x) by {}
}

/// What sorting leaves in place: the same samples, in ascending order.
pub proof fn lemma_sorted_version_props(s: Seq<i64>)
    ensures
        sorted_version(s).to_multiset() == s.to_multiset(),
        sorted_by(sorted_version(s), sample_le()),
        sorted_version(s).len() == s.len(),
        forall|i: int, j: int|
            0 <= i < j < s.len() ==> sorted_version(s)[i] <= sorted_version(s)[j],
{
    broadcast use vstd::seq_lib::group_to_multiset_ensures;

    lemma_sample_le_total();
    s.lemma_sort_by_ensures(sample_le());
    assert(sorted_version(s).to_multiset().len() == s.to_multiset().len());
    assert forall|i: int, j: int|
        0 <= i < j < s.len() implies sorted_version(s)[i] <= sorted_version(s)[j] by {
        assert(sample_le()(sorted_version(s)[i], sorted_version(s)[j]));
    }
}

/// Every member of the sample set lies between its least and greatest member.
proof fn lemma_member_bounds(s: Seq<i64>, x: i64)
    requires
        s.contains(x),
    ensures
        seq_min(s) <= x <= seq_max(s),
    decreases s.len(),
{
    let i: int = choose|i: int| 0 <= i < s.len() && s[i] == x;
    if s.len() > 1 && i != 0 {
        assert(s.drop_first()[i - 1] == x);
        assert(s.drop_first().contains(x));
        lemma_member_bounds(s.drop_first(), x);
    }
}

/// Each position of the sorted samples holds a member of the sample set.
proof fn lemma_sorted_elem_member(s: Seq<i64>, i: int)
    requires
        0 <= i < s.len(),
    ensures
        s.contains(sorted_version(s)[i]),
{
    broadcast use vstd::seq_lib::group_to_multiset_ensures;
    broadcast use vstd::multiset::group_multiset_axioms;

    lemma_sorted_version_props(s);
    let t: Seq<i64> = sorted_version(s);
    assert(t.contains(t[i]));
    assert(t.to_multiset().contains(t[i]));
    assert(s.to_multiset().contains(t[i]));
}

/// Division by two toward zero is monotone.
proof fn lemma_div2_monotone(x: int, y: int)
    requires
        x <= y,
    ensures
        div2_toward_zero(x) <= div2_toward_zero(y),
{
    if x >= 0 {
        vstd::arithmetic::div_mod::lemma_div_is_ordered(x, y, 2);
    } else if y >= 0 {
        assert(div2_toward_zero(x) <= 0 <= div2_toward_zero(y));
    } else {
        vstd::arithmetic::div_mod::lemma_div_is_ordered(-y, -x, 2);
    }
}

/// Law: the median lies between the least and the greatest sample, and the
/// median of a single sample is that sample.
pub proof fn lemma_median_in_range(s: Seq<i64>)
    requires
        s.len() >= 1,
    ensures
        seq_min(s) <= median_of(s) <= seq_max(s),
        s.len() == 1 ==> median_of(s) == s[0],
{
    lemma_sorted_version_props(s);
    let t: Seq<i64> = sorted_version(s);
    let n: int = s.len() as int;
    if s.len() == 1 {
        lemma_sorted_elem_member(s, 0);
        lemma_member_bounds(s, t[0]);
        assert(s[0] == seq_min(s));
        assert(s.contains(s[0]));
        lemma_member_bounds(s, s[0]);
        assert(t[0] == s[0]);
    } else if s.len() % 2 == 1 {
        lemma_sorted_elem_member(s, n / 2);
        lemma_member_bounds(s, t[n / 2]);
    } else {
        let a: i64 = t[n / 2 - 1];
        let b: i64 = t[n / 2];
        lemma_sorted_elem_member(s, n / 2 - 1);
        lemma_sorted_elem_member(s, n / 2);
        lemma_member_bounds(s, a);
        lemma_member_bounds(s, b);
        assert(a <= b);
        lemma_div2_monotone(a + a, a + b);
        lemma_div2_monotone(a + b, b + b);
        assert(div2_toward_zero(a + a) == a as int);
        assert(div2_toward_zero(b + b) == b as int);
    }
}

/// Division rounding toward zero, for either sign of the dividend.
pub open spec fn div_toward_zero(x: int, d: int) -> int
    recommends
        d > 0,
{
    if x >= 0 {
        x / d
    } else {
        -((-x) / d)
    }
}

/// The sum of the samples.
pub open spec fn sum_of(s: Seq<i64>) -> int
    decreases s.len(),
{
    if s.len() == 0 {
        0
    } else {
        s[0] + sum_of(s.drop_first())
    }
}

/// The mean of the samples, rounded toward zero.
pub open spec fn mean_of(s: Seq<i64>) -> int
    recommends
        s.len() >= 1,
{
    div_toward_zero(sum_of(s), s.len() as int)
}

/// The sum of squared deviations from `mu`.
pub open spec fn sq_dev_sum(s: Seq<i64>, mu: int) -> int
    decreases s.len(),
{
    if s.len() == 0 {
        0
    } else {
        (s[0] - mu) * (s[0] - mu) + sq_dev_sum(s.drop_first(), mu)
    }
}

/// The population variance of the samples about their rounded mean.
pub open spec fn variance_of(s: Seq<i64>) -> int
    recommends
        s.len() >= 1,
{
    sq_dev_sum(s, mean_of(s)) / (s.len() as int)
}

/// The offsets of a sample set, in order.
pub open spec fn offsets_of(s: Seq<Measurement>) -> Seq<i64> {
    s.map_values(|m: Measurement| m.offset_ns)
}

/// The round-trip times of a sample set, in order.
pub open spec fn rtts_of(s: Seq<Measurement>) -> Seq<i64> {
    s.map_values(|m: Measurement| m.rtt_ns)
}

/// Whether every sample magnitude stays within `b`.
pub open spec fn bounded_samples(s: Seq<i64>, b: int) -> bool {
    forall|i: int| 0 <= i < s.len() ==> abs_of((#[trigger] s[i]) as int) <= b
}

/// Whether every measurement's fields stay within `b` in magnitude.
pub open spec fn bounded_measurements(s: Seq<Measurement>, b: int) -> bool {
    forall|i: int|
        0 <= i < s.len() ==> abs_of((#[trigger] s[i]).offset_ns as int) <= b && abs_of(
            s[i].rtt_ns as int,
        ) <= b
}

/// One step of the suffix sum.
proof fn lemma_sum_skip_step(s: Seq<i64>, i: int)
    requires
        0 <= i < s.len(),
    ensures
        sum_of(s.skip(i)) == s[i] + sum_of(s.skip(i + 1)),
{
    assert(s.skip(i).drop_first() =~= s.skip(i + 1));
    assert(s.skip(i)[0] == s[i]);
}

/// One step of the suffix sum of squared deviations.
proof fn lemma_sq_dev_skip_step(s: Seq<i64>, mu: int, i: int)
    requires
        0 <= i < s.len(),
    ensures
        sq_dev_sum(s.skip(i), mu) == (s[i] - mu) * (s[i] - mu) + sq_dev_sum(s.skip(i + 1), mu),
{
    assert(s.skip(i).drop_first() =~= s.skip(i + 1));
    assert(s.skip(i)[0] == s[i]);
}

/// The sorted samples stay within the same magnitude bound.
proof fn lemma_sorted_bounded(s: Seq<i64>, b: int)
    requires
        bounded_samples(s, b),
    ensures
        bounded_samples(sorted_version(s), b),
{
    lemma_sorted_version_props(s);
    assert forall|i: int| 0 <= i < sorted_version(s).len() implies abs_of(
        (#[trigger] sorted_version(s)[i]) as int,
    ) <= b by {
        lemma_sorted_elem_member(s, i);
        let x: i64 = sorted_version(s)[i];
        let k: int = choose|k: int| 0 <= k < s.len() && s[k] == x;
        assert(abs_of(s[k] as int) <= b);
    }
}

/// The sum of the samples.
fn sum_samples(v: &Vec<i64>) -> (s: i128)
    requires
        v@.len() <= MAX_SAMPLES,
        bounded_samples(v@, MAX_ABS_NS as int),
    ensures
        s == sum_of(v@),
        abs_of(s as int) <= v@.len() * (MAX_ABS_NS as int),
{
    let mut acc: i128 = 0;
    let mut i: usize = 0;
    proof {
        assert(v@.skip(0) =~= v@);
    }
    while i < v.len()
        invariant
            i <= v@.len(),
            v@.len() <= MAX_SAMPLES,
            bounded_samples(v@, MAX_ABS_NS as int),
            acc + sum_of(v@.skip(i as int)) == sum_of(v@),
            abs_of(acc as int) <= i * (MAX_ABS_NS as int),
        decreases v@.len() - i,
    {
        proof {
            lemma_sum_skip_step(v@, i as int);
            assert(abs_of(v@[i as int] as int) <= MAX_ABS_NS as int);
        }
        acc = acc + (v[i] as i128);
        i = i + 1;
    }
    proof {
        assert(v@.skip(v@.len() as int) =~= Seq::<i64>::empty());
        assert(sum_of(Seq::<i64>::empty()) == 0);
    }
    acc
}

/// The mean of the samples, rounded toward zero.
fn mean_samples(v: &Vec<i64>) -> (mu: i64)
    requires
        1 <= v@.len() <= MAX_SAMPLES,
        bounded_samples(v@, MAX_ABS_NS as int),
    ensures
        mu == mean_of(v@),
        abs_of(mu as int) <= MAX_ABS_NS as int,
{
    let s: i128 = sum_samples(v);
    let n: u128 = v.len() as u128;
    proof {
        vstd::arithmetic::div_mod::lemma_div_is_ordered(
            abs_of(s as int),
            v@.len() * (MAX_ABS_NS as int),
            v@.len() as int,
        );
        vstd::arithmetic::div_mod::lemma_div_multiples_vanish(
            MAX_ABS_NS as int,
            v@.len() as int,
        );
    }
    let mu128: i128 = if s >= 0 {
        ((s as u128) / n) as i128
    } else {
        -((((-s) as u128) / n) as i128)
    };
    mu128 as i64
}

/// 2^57, one more than the largest deviation magnitude from a bounded sample
/// to a bounded mean.
pub const DEV_LIMIT: i128 = 0x200_0000_0000_0000;

/// 2^114, the square of `DEV_LIMIT`.
pub const SQ_LIMIT: u128 = 0x4_0000_0000_0000_0000_0000_0000_0000;

/// The sum of squared deviations of the samples from `mu`.
fn sq_dev_samples(v: &Vec<i64>, mu: i64) -> (s: u128)
    requires
        v@.len() <= MAX_SAMPLES,
        bounded_samples(v@, MAX_ABS_NS as int),
        abs_of(mu as int) <= MAX_ABS_NS as int,
    ensures
        s == sq_dev_sum(v@, mu as int),
        s <= v@.len() * SQ_LIMIT,
{
    let mut acc: u128 = 0;
    let mut i: usize = 0;
    proof {
        assert(v@.skip(0) =~= v@);
    }
    while i < v.len()
        invariant
            i <= v@.len(),
            v@.len() <= MAX_SAMPLES,
            bounded_samples(v@, MAX_ABS_NS as int),
            abs_of(mu as int) <= MAX_ABS_NS as int,
            acc + sq_dev_sum(v@.skip(i as int), mu as int) == sq_dev_sum(v@, mu as int),
            acc <= i * SQ_LIMIT,
        decreases v@.len() - i,
    {
        let dev: i128 = (v[i] as i128) - (mu as i128);
        proof {
            lemma_sq_dev_skip_step(v@, mu as int, i as int);
            assert(abs_of(v@[i as int] as int) <= MAX_ABS_NS as int);
            assert(dev * dev <= SQ_LIMIT && dev * dev >= 0) by (nonlinear_arith)
                requires
                    -DEV_LIMIT <= dev <= DEV_LIMIT,
            ;
        }
        let sq: i128 = dev * dev;
        acc = acc + (sq as u128);
        i = i + 1;
    }
    proof {
        assert(v@.skip(v@.len() as int) =~= Seq::<i64>::empty());
        assert(sq_dev_sum(Seq::<i64>::empty(), mu as int) == 0);
    }
    acc
}

/// The integer square root: the greatest `r` with `r * r <= x`.
fn isqrt(x: u128) -> (r: u128)
    requires
        x <= SQ_LIMIT,
    ensures
        r * r <= x,
        (r + 1) * (r + 1) > x,
        r <= DEV_LIMIT as u128,
{
    let mut lo: u128 = 0;
    let mut hi: u128 = (DEV_LIMIT as u128) + 1;
    proof {
        assert(hi * hi > SQ_LIMIT) by (nonlinear_arith)
            requires
                hi == (DEV_LIMIT as u128) + 1,
            ;
    }
    while lo + 1 < hi
        invariant
            lo < hi <= (DEV_LIMIT as u128) + 1,
            lo * lo <= x,
            hi * hi > x,
        decreases hi - lo,
    {
        let mid: u128 = lo + (hi - lo) / 2;
        proof {
            assert(mid * mid <= SQ_LIMIT + 0x1_0000_0000_0000_0000_0000_0000_0000) by (
            nonlinear_arith)
                requires
                    mid <= (DEV_LIMIT as u128) + 1,
            ;
        }
        if mid * mid <= x {
            lo = mid;
        } else {
            hi = mid;
        }
    }
    lo
}

/// The reduction of one sample set: the gated median offset, the standard
/// deviation of the offsets for reporting, and the median round-trip time.
#[derive(Clone, Copy, Debug, PartialEq, Eq, Structural)]
pub struct AggregateSummary {
    /// The median of the offsets.
    pub median_offset_ns: i64,
    /// The integer square root of the population variance of the offsets.
    pub stdev_ns: i64,
    /// The median of the round-trip times.
    pub median_rtt_ns: i64,
}

/// The mean of two samples, rounded toward zero.
fn avg2(a: i64, b: i64) -> (r: i64)
    requires
        abs_of(a as int) <= MAX_ABS_NS as int,
        abs_of(b as int) <= MAX_ABS_NS as int,
    ensures
        r == div2_toward_zero(a + b),
{
    let s: i64 = a + b;
    if s >= 0 {
        ((s as u64) / 2) as i64
    } else {
        -((((-s) as u64) / 2) as i64)
    }
}

/// The median of the samples: sorts a copy and takes the middle.
fn median_samples(v: &Vec<i64>) -> (r: i64)
    requires
        1 <= v@.len() <= MAX_SAMPLES,
        bounded_samples(v@, MAX_ABS_NS as int),
    ensures
        r == median_of(v@),
{
    let mut sorted: Vec<i64> = Vec::new();
    let mut i: usize = 0;
    while i < v.len()
        invariant
            i <= v@.len(),
            sorted@ == v@.subrange(0, i as int),
        decreases v@.len() - i,
    {
        sorted.push(v[i]);
        i = i + 1;
        proof {
            assert(v@.subrange(0, i as int) =~= v@.subrange(0, i - 1) + seq![v@[i - 1]]);
            assert(sorted@ =~= v@.subrange(0, i as int));
        }
    }
    proof {
        assert(v@.subrange(0, v@.len() as int) =~= v@);
    }
    sort_samples(&mut sorted);
    proof {
        lemma_sorted_bounded(v@, MAX_ABS_NS as int);
        lemma_sorted_version_props(v@);
        assert(sorted@.len() == v@.len());
    }
    let n: usize = sorted.len();
    if n % 2 == 1 {
        proof {
            assert(abs_of(sorted@[n as int / 2] as int) <= MAX_ABS_NS as int);
        }
        sorted[n / 2]
    } else {
        proof {
            assert(abs_of(sorted@[n as int / 2 - 1] as int) <= MAX_ABS_NS as int);
            assert(abs_of(sorted@[n as int / 2] as int) <= MAX_ABS_NS as int);
        }
        avg2(sorted[n / 2 - 1], sorted[n / 2])
    }
}

/// Reduces the sample set and gates the result: fails with `NoMeasurements`
/// on an empty set, with `OffsetTooLarge` when the median offset magnitude
/// exceeds `max_offset_ms`, and otherwise reports the median offset, the
/// offset standard deviation, and the median round-trip time.
pub fn calculate_adjustment(measurements: &Vec<Measurement>, max_offset_ms: u64) -> (r: Result<
    AggregateSummary,
    TsqError,
>)
    requires
        measurements@.len() <= MAX_SAMPLES,
        bounded_measurements(measurements@, MAX_ABS_NS as int),
        max_offset_ms <= 1_000_000_000_000,
    ensures
        match r {
            Ok(summary) => {
                &&& measurements@.len() >= 1
                &&& summary.median_offset_ns == median_of(offsets_of(measurements@))
                &&& abs_of(summary.median_offset_ns as int) <= max_offset_ms * 1_000_000
                &&& summary.median_rtt_ns == median_of(rtts_of(measurements@))
                &&& summary.stdev_ns >= 0
                &&& summary.stdev_ns * summary.stdev_ns <= variance_of(offsets_of(measurements@))
                &&& (summary.stdev_ns + 1) * (summary.stdev_ns + 1) > variance_of(
                    offsets_of(measurements@),
                )
            },
            Err(e) => {
                ||| (e == TsqError::NoMeasurements && measurements@.len() == 0)
                ||| (e == TsqError::OffsetTooLarge && measurements@.len() >= 1 && abs_of(
                    median_of(offsets_of(measurements@)),
                ) > max_offset_ms * 1_000_000)
            },
        },
{
    let n: usize = measurements.len();
    if n == 0 {
        return Err(TsqError::NoMeasurements);
    }
    let mut offsets: Vec<i64> = Vec::new();
    let mut rtts: Vec<i64> = Vec::new();
    let mut i: usize = 0;
    while i < n
        invariant
            n == measurements@.len(),
            i <= n,
            bounded_measurements(measurements@, MAX_ABS_NS as int),
            offsets@.len() == i,
            rtts@.len() == i,
            forall|k: int|
                0 <= k < i ==> offsets@[k] == measurements@[k].offset_ns && rtts@[k]
                    == measurements@[k].rtt_ns,
        decreases n - i,
    {
        offsets.push(measurements[i].offset_ns);
        rtts.push(measurements[i].rtt_ns);
        i = i + 1;
    }
    proof {
        assert(offsets@ =~= offsets_of(measurements@));
        assert(rtts@ =~= rtts_of(measurements@));
    }
    let mu: i64 = mean_samples(&offsets);
    let sq_total: u128 = sq_dev_samples(&offsets, mu);
    let variance: u128 = sq_total / (n as u128);
    proof {
        vstd::arithmetic::div_mod::lemma_div_is_ordered(
            sq_total as int,
            offsets@.len() * SQ_LIMIT,
            offsets@.len() as int,
        );
        vstd::arithmetic::div_mod::lemma_div_multiples_vanish(
            SQ_LIMIT as int,
            offsets@.len() as int,
        );
    }
    let sd: u128 = isqrt(variance);
    let stdev_ns: i64 = sd as i64;
    let median_offset_ns: i64 = median_samples(&offsets);
    let median_rtt_ns: i64 = median_samples(&rtts);
    proof {
        lemma_median_in_range(offsets@);
        lemma_sorted_bounded(offsets@, MAX_ABS_NS as int);
        lemma_sorted_version_props(offsets@);
    }
    let threshold: u64 = max_offset_ms * 1_000_000;
    let mag: i64 = if median_offset_ns >= 0 {
        median_offset_ns
    } else {
        -median_offset_ns
    };
    if (mag as u64) > threshold {
        return Err(TsqError::OffsetTooLarge);
    }
    Ok(AggregateSummary { median_offset_ns, stdev_ns, median_rtt_ns })
}

/// Sorts the samples in place.
pub fn sort_samples(v: &mut Vec<i64>)
    ensures
        final(v)@ == sorted_version(old(v)@),
{
    let ghost orig: Seq<i64> = v@;
    let mut i: usize = 1;
    while i < v.len()
        invariant
            i >= 1,
            v@.len() == orig.len(),
            v@.to_multiset() == orig.to_multiset(),
            forall|p: int, q: int| 0 <= p < q < i ==> v@[p] <= v@[q],
        decreases v@.len() - i,
    {
        let mut j: usize = i;
        while j > 0 && v[j - 1] > v[j]
            invariant
                j <= i < v@.len(),
                v@.len() == orig.len(),
                v@.to_multiset() == orig.to_multiset(),
                forall|p: int, q: int| 0 <= p < q <= i && q != j ==> v@[p] <= v@[q],
            decreases j,
        {
            let ghost before: Seq<i64> = v@;
            let a: i64 = v[j - 1];
            let b: i64 = v[j];
            v.set(j - 1, b);
            v.set(j, a);
            proof {
                broadcast use vstd::seq_lib::to_multiset_update;
                broadcast use vstd::seq_lib::group_to_multiset_ensures;
                broadcast use vstd::multiset::group_multiset_axioms;

                let s1: Seq<i64> = before.update(j - 1, b);
                assert(v@ == s1.update(j as int, a));
                assert(s1.to_multiset() == before.to_multiset().insert(b).remove(a));
                assert(s1[j as int] == b);
                assert(v@.to_multiset() == s1.to_multiset().insert(a).remove(b));
                assert(before.to_multiset().contains(a));
                assert forall|x: i64| v@.to_multiset().count(x) == before.to_multiset().count(
                    x,
                ) by {
                    assert(before.to_multiset().count(a) >= 1);
                }
                assert(v@.to_multiset() =~= before.to_multiset());
            }
            j = j - 1;
        }
        i = i + 1;
    }
    proof {
        lemma_sample_le_total();
        lemma_sorted_version_props(orig);
        assert(sorted_by(v@, sample_le()));
        lemma_sorted_unique(v@, sorted_version(orig), sample_le());
    }
}

} // verus!
