//! Integer statistics over a latency series.
//!
//! All values are integer nanoseconds. Derived quantities use integer
//! arithmetic with truncating division: the mean is the truncated average,
//! the variance is the truncated sample variance
//! `(n·Σx² − (Σx)²) / (n·(n−1))`, the standard deviation is the integer
//! square root of the variance, and percentiles follow the nearest-rank
//! definition (the element of the sorted series at rank `⌈p·n/100⌉`).
//! Inputs are bounded to 32-bit counts and values so that every intermediate
//! product fits 128-bit arithmetic exactly.

use vstd::prelude::*;
use vstd::multiset::Multiset;
use vstd::std_specs::vec::vec_index_mut;
use vstd::relations::{sorted_by, total_ordering};
use vstd::seq_lib::lemma_sorted_unique;

use crate::correlate::{sat_sub, PduStat};

verus! {

/// Largest series length and value the dispersion arithmetic admits.
pub const STATS_BOUND: u64 = 0xFFFF_FFFF;

/// The ordering the series is sorted by.
pub open spec fn u64_leq() -> spec_fn(u64, u64) -> bool {
    |a: u64, b: u64| a <= b
}

/// The series in ascending order.
pub open spec fn spec_sorted_of(s: Seq<u64>) -> Seq<u64> {
    s.sort_by(u64_leq())
}

/// The sum of the series.
pub open spec fn spec_sum(s: Seq<u64>) -> int
    decreases s.len(),
{
    if s.len() == 0 {
        0
    } else {
        spec_sum(s.drop_last()) + s.last()
    }
}

/// The sum of the squares of the series.
pub open spec fn spec_sum_sq(s: Seq<u64>) -> int
    decreases s.len(),
{
    if s.len() == 0 {
        0
    } else {
        spec_sum_sq(s.drop_last()) + s.last() * s.last()
    }
}

/// The smallest element of a non-empty series.
pub open spec fn spec_min(s: Seq<u64>) -> u64
    recommends
        s.len() > 0,
    decreases s.len(),
{
    if s.len() <= 1 {
        s[0]
    } else {
        let m = spec_min(s.drop_last());
        if s.last() < m {
            s.last()
        } else {
            m
        }
    }
}

/// The largest element of a non-empty series.
pub open spec fn spec_max(s: Seq<u64>) -> u64
    recommends
        s.len() > 0,
    decreases s.len(),
{
    if s.len() <= 1 {
        s[0]
    } else {
        let m = spec_max(s.drop_last());
        if s.last() > m {
            s.last()
        } else {
            m
        }
    }
}

/// The truncated average of a non-empty series.
pub open spec fn spec_mean(s: Seq<u64>) -> int
    recommends
        s.len() > 0,
{
    spec_sum(s) / (s.len() as int)
}

/// The truncated sample variance `(n·Σx² − (Σx)²) / (n·(n−1))`, saturating
/// at the largest 64-bit value; zero for a series of fewer than two
/// elements. The numerator is never negative for a real series, and the
/// saturation is unreachable for genuine nanosecond latencies; both guards
/// merely keep the definition total.
pub open spec fn spec_variance(s: Seq<u64>) -> int {
    let n = s.len() as int;
    let num = n * spec_sum_sq(s) - spec_sum(s) * spec_sum(s);
    if n < 2 {
        0
    } else if num < 0 {
        0
    } else {
        let q = num / (n * (n - 1));
        if q > 0xFFFF_FFFF_FFFF_FFFF {
            0xFFFF_FFFF_FFFF_FFFF as int
        } else {
            q
        }
    }
}

/// The nearest-rank percentile: the element of the sorted series at rank
/// `⌈p·n/100⌉`, counting ranks from one.
pub open spec fn spec_percentile(s: Seq<u64>, p: int) -> u64
    recommends
        s.len() > 0,
        0 <= p <= 100,
{
    let n = s.len() as int;
    let rank = (p * n + 99) / 100;
    let i = if rank <= 0 {
        0
    } else {
        rank - 1
    };
    spec_sorted_of(s)[i]
}

/// Sorts a copy of the series ascending.
pub fn sorted_copy(data: &Vec<u64>) -> (r: Vec<u64>)
    ensures
        r@ == spec_sorted_of(data@),
        r@.len() == data@.len(),
{
    let mut src: Vec<u64> = Vec::new();
    let mut k: usize = 0;
    while k < data.len()
        invariant
            k <= data@.len(),
            src@ == data@.take(k as int),
        decreases data@.len() - k,
    {
        proof {
            assert(data@.take(k + 1).drop_last() =~= data@.take(k as int));
            assert(data@.take(k + 1).last() == data@[k as int]);
            assert(data@.take(k as int).push(data@[k as int]) =~= data@.take(k + 1));
        }
        src.push(data[k]);
        k = k + 1;
    }
    proof {
        assert(data@.take(data@.len() as int) =~= data@);
    }
    let mut out: Vec<u64> = Vec::new();
    proof {
        broadcast use vstd::seq_lib::group_to_multiset_ensures;

        assert(out@.to_multiset().add(src@.to_multiset()) =~= data@.to_multiset());
    }
    while src.len() > 0
        invariant
            out@.to_multiset().add(src@.to_multiset()) =~= data@.to_multiset(),
            sorted_by(out@, u64_leq()),
            forall|i: int, j: int|
                #![trigger out@[i], src@[j]]
                0 <= i < out@.len() && 0 <= j < src@.len() ==> out@[i] <= src@[j],
        decreases src@.len(),
    {
        // Position of the smallest remaining element.
        let mut m: usize = 0;
        let mut k: usize = 1;
        while k < src.len()
            invariant
                m < k <= src@.len() || (k <= src@.len() && m < src@.len()),
                m < src@.len(),
                forall|j: int| 0 <= j < k ==> src@[m as int] <= #[trigger] src@[j],
            decreases src@.len() - k,
        {
            if src[k] < src[m] {
                m = k;
            }
            k = k + 1;
        }
        let ghost src_before = src@;
        let ghost out_before = out@;
        let x = src.remove(m);
        proof {
            broadcast use vstd::seq_lib::group_to_multiset_ensures;

            assert(src@ =~= src_before.remove(m as int));
            assert(src@.to_multiset() =~= src_before.to_multiset().remove(x));
            assert(out_before.push(x).to_multiset() =~= out_before.to_multiset().insert(x));
            assert(out_before.push(x).to_multiset().add(src@.to_multiset())
                =~= data@.to_multiset());
            // The appended minimum keeps the output sorted.
            assert(forall|i: int|
                0 <= i < out_before.len() ==> #[trigger] out_before.push(x)[i] == out_before[i]);
            assert(sorted_by(out_before.push(x), u64_leq()));
            // Every remaining element is at least the removed minimum.
            assert(forall|j: int|
                0 <= j < src@.len() ==> x <= #[trigger] src@[j]) by {
                assert(forall|j: int|
                    0 <= j < src@.len() ==> src@[j] == src_before[if j < m {
                        j
                    } else {
                        j + 1
                    }]);
            }
        }
        out.push(x);
    }
    proof {
        broadcast use vstd::seq_lib::group_to_multiset_ensures;

        assert(src@.to_multiset() =~= Multiset::<u64>::empty());
        assert(out@.to_multiset() =~= data@.to_multiset());
        data@.lemma_sort_by_ensures(u64_leq());
        assert(total_ordering(u64_leq()));
        lemma_sorted_unique(out@, spec_sorted_of(data@), u64_leq());
        assert(out@.len() == out@.to_multiset().len());
        assert(data@.len() == data@.to_multiset().len());
    }
    out
}

/// The index into the sorted series that the nearest-rank definition picks.
fn rank_index(p: u64, n: u64) -> (i: usize)
    requires
        1 <= n <= STATS_BOUND,
        p <= 100,
    ensures
        i == ({
            let rank = (p * n + 99) as int / 100;
            if rank <= 0 {
                0
            } else {
                rank - 1
            }
        }),
        i < n,
{
    proof {
        assert(p * n + 99 < 0xFFFF_FFFF_FFFF_FFFF) by (nonlinear_arith)
            requires
                p <= 100,
                1 <= n <= 0xFFFF_FFFFu64,
        ;
        assert((p * n + 99) / 100 <= n) by (nonlinear_arith)
            requires
                p <= 100,
                1 <= n <= 0xFFFF_FFFFu64,
        ;
    }
    let rank = (p * n + 99) / 100;
    if rank == 0 {
        0
    } else {
        (rank - 1) as usize
    }
}

/// The nearest-rank percentile of an already sorted series.
fn nth_percentile_sorted(sorted: &Vec<u64>, p: u64, Ghost(orig): Ghost<Seq<u64>>) -> (r: u64)
    requires
        sorted@ == spec_sorted_of(orig),
        sorted@.len() == orig.len(),
        1 <= sorted@.len() <= STATS_BOUND,
        p <= 100,
    ensures
        r == spec_percentile(orig, p as int),
{
    let i = rank_index(p, sorted.len() as u64);
    sorted[i]
}

/// The nearest-rank percentile of the series: the element of the sorted
/// series at rank `⌈p·n/100⌉`.
pub fn percentile(data: &Vec<u64>, p: u64) -> (r: u64)
    requires
        1 <= data@.len() <= STATS_BOUND,
        p <= 100,
    ensures
        r == spec_percentile(data@, p as int),
{
    let sorted = sorted_copy(data);
    nth_percentile_sorted(&sorted, p, Ghost(data@))
}

/// The derived statistics of one latency series.
///
/// All fields are integer nanoseconds (the variance, nanoseconds squared,
/// saturating at the largest 64-bit value). Recomputed in full from the
/// series; never updated incrementally.
#[derive(Clone, Copy, Debug, PartialEq, Eq, Structural)]
pub struct DumpFileStats {
    /// Integer square root of the variance.
    pub std_dev: u64,
    pub min: u64,
    pub max: u64,
    /// Truncated average.
    pub mean: u64,
    /// Truncated sample variance.
    pub variance: u64,
    /// Nearest-rank percentiles.
    pub p25: u64,
    pub p50: u64,
    pub p90: u64,
    pub p99: u64,
}

impl DumpFileStats {
    /// Computes every derived statistic of a non-empty series.
    pub fn new(data: &Vec<u64>) -> (r: DumpFileStats)
        requires
            1 <= data@.len() <= STATS_BOUND,
            forall|i: int| 0 <= i < data@.len() ==> data@[i] <= STATS_BOUND,
        ensures
            r.min == spec_min(data@),
            r.max == spec_max(data@),
            r.mean == spec_mean(data@),
            r.variance == spec_variance(data@),
            r.std_dev * r.std_dev <= r.variance,
            r.variance < (r.std_dev + 1) * (r.std_dev + 1),
            r.p25 == spec_percentile(data@, 25),
            r.p50 == spec_percentile(data@, 50),
            r.p90 == spec_percentile(data@, 90),
            r.p99 == spec_percentile(data@, 99),
    {
        let ghost bound = STATS_BOUND as int;
        let mut min: u64 = data[0];
        let mut max: u64 = data[0];
        let mut sum: u128 = data[0] as u128;
        proof {
            let x0 = data@[0] as int;
            assert(x0 * x0 <= bound * bound) by (nonlinear_arith)
                requires
                    0 <= x0 <= bound,
            ;
        }
        let first_sq: u128 = (data[0] as u128) * (data[0] as u128);
        let mut sumsq: u128 = first_sq;
        proof {
            let t1 = data@.take(1);
            assert(t1.drop_last() =~= Seq::<u64>::empty());
            assert(t1.last() == data@[0]);
            assert(spec_sum(Seq::<u64>::empty()) == 0);
            assert(spec_sum_sq(Seq::<u64>::empty()) == 0);
            assert(spec_sum(t1) == data@[0]);
            assert(spec_sum_sq(t1) == data@[0] * data@[0]);
            assert(spec_min(t1) == data@[0]);
            assert(spec_max(t1) == data@[0]);
        }
        let mut i: usize = 1;
        while i < data.len()
            invariant
                1 <= i <= data@.len(),
                data@.len() <= bound,
                bound == STATS_BOUND as int,
                forall|k: int| 0 <= k < data@.len() ==> data@[k] <= STATS_BOUND,
                min == spec_min(data@.take(i as int)),
                max == spec_max(data@.take(i as int)),
                sum == spec_sum(data@.take(i as int)),
                sumsq == spec_sum_sq(data@.take(i as int)),
                sum <= i * bound,
                sumsq <= i * (bound * bound),
            decreases data@.len() - i,
        {
            let x = data[i];
            proof {
                assert(data@.take(i + 1).drop_last() =~= data@.take(i as int));
                assert(data@.take(i + 1).last() == data@[i as int]);
                assert(sum + x <= (i + 1) * bound) by (nonlinear_arith)
                    requires
                        sum <= i * bound,
                        0 <= x <= bound,
                        0 <= i,
                ;
                assert(x * x <= bound * bound) by (nonlinear_arith)
                    requires
                        0 <= x <= bound,
                ;
                assert(sumsq + x * x <= (i + 1) * (bound * bound)) by (nonlinear_arith)
                    requires
                        sumsq <= i * (bound * bound),
                        0 <= x * x <= bound * bound,
                        0 <= i,
                ;
                assert(i * bound <= bound * bound && (i + 1) * bound <= (bound + 1) * bound)
                    by (nonlinear_arith)
                    requires
                        0 <= i <= bound,
                ;
                assert(i * (bound * bound) <= bound * (bound * bound) && (i + 1) * (bound * bound)
                    <= (bound + 1) * (bound * bound)) by (nonlinear_arith)
                    requires
                        0 <= i <= bound,
                ;
            }
            if x < min {
                min = x;
            }
            if x > max {
                max = x;
            }
            sum = sum + x as u128;
            sumsq = sumsq + (x as u128) * (x as u128);
            i = i + 1;
        }
        proof {
            assert(data@.take(data@.len() as int) =~= data@);
            assert(i * bound <= bound * bound) by (nonlinear_arith)
                requires
                    0 <= i <= bound,
            ;
            assert(i * (bound * bound) <= bound * (bound * bound)) by (nonlinear_arith)
                requires
                    0 <= i <= bound,
            ;
        }
        let n = data.len() as u128;
        let mean = (sum / n) as u64;
        let variance: u64 = if data.len() < 2 {
            0
        } else {
            proof {
                assert(n * sumsq <= bound * (bound * (bound * bound))) by (nonlinear_arith)
                    requires
                        0 <= n <= bound,
                        0 <= sumsq <= bound * (bound * bound),
                ;
                assert(sum * sum <= (bound * bound) * (bound * bound)) by (nonlinear_arith)
                    requires
                        0 <= sum <= bound * bound,
                ;
                assert(n * (n - 1) <= bound * bound && n * (n - 1) >= 1) by (nonlinear_arith)
                    requires
                        2 <= n <= bound,
                ;
            }
            let num_a = n * sumsq;
            let num_b = sum * sum;
            if num_a < num_b {
                0
            } else {
                let q = (num_a - num_b) / (n * (n - 1));
                if q > 0xFFFF_FFFF_FFFF_FFFFu128 {
                    0xFFFF_FFFF_FFFF_FFFFu64
                } else {
                    q as u64
                }
            }
        };
        let std_dev = isqrt_u64(variance);
        let sorted = sorted_copy(data);
        let p25 = nth_percentile_sorted(&sorted, 25, Ghost(data@));
        let p50 = nth_percentile_sorted(&sorted, 50, Ghost(data@));
        let p90 = nth_percentile_sorted(&sorted, 90, Ghost(data@));
        let p99 = nth_percentile_sorted(&sorted, 99, Ghost(data@));
        DumpFileStats { std_dev, min, max, mean, variance, p25, p50, p90, p99 }
    }
}

/// The histogram's bucket width over the range `[0, max]`: about three
/// significant decimal digits of resolution, never zero.
pub open spec fn spec_bucket_width(max: u64) -> int {
    max as int / 1000 + 1
}

/// How many elements of the series fall in bucket `k`, bucketing each value
/// `v` at `v / width`.
pub open spec fn spec_bucket_count(s: Seq<u64>, width: int, k: int) -> int
    decreases s.len(),
{
    if s.len() == 0 {
        0
    } else {
        spec_bucket_count(s.drop_last(), width, k) + if (s.last() as int) / width == k {
            1int
        } else {
            0int
        }
    }
}

/// No bucket holds more elements than the series has.
proof fn lemma_bucket_count_le_len(s: Seq<u64>, width: int, k: int)
    ensures
        0 <= spec_bucket_count(s, width, k) <= s.len(),
    decreases s.len(),
{
    if s.len() > 0 {
        lemma_bucket_count_le_len(s.drop_last(), width, k);
    }
}

/// Every element of a non-empty series is at most its maximum.
pub proof fn lemma_max_ge_all(s: Seq<u64>)
    requires
        s.len() > 0,
    ensures
        forall|j: int| 0 <= j < s.len() ==> s[j] <= spec_max(s),
    decreases s.len(),
{
    if s.len() > 1 {
        lemma_max_ge_all(s.drop_last());
        assert(forall|j: int| 0 <= j < s.len() - 1 ==> s[j] == s.drop_last()[j]);
    }
}

/// Updating one element shifts the sum by the difference.
proof fn lemma_sum_update(s: Seq<u64>, i: int, v: u64)
    requires
        0 <= i < s.len(),
    ensures
        spec_sum(s.update(i, v)) == spec_sum(s) - s[i] + v,
    decreases s.len(),
{
    let t = s.update(i, v);
    if i == s.len() - 1 {
        assert(t.drop_last() =~= s.drop_last());
        assert(t.last() == v);
    } else {
        assert(t.drop_last() =~= s.drop_last().update(i, v));
        assert(t.last() == s.last());
        lemma_sum_update(s.drop_last(), i, v);
    }
}

/// The largest element of a non-empty series.
pub fn series_max(data: &Vec<u64>) -> (r: u64)
    requires
        data@.len() > 0,
    ensures
        r == spec_max(data@),
{
    let mut max: u64 = data[0];
    proof {
        assert(data@.take(1).last() == data@[0]);
    }
    let mut i: usize = 1;
    while i < data.len()
        invariant
            1 <= i <= data@.len(),
            max == spec_max(data@.take(i as int)),
        decreases data@.len() - i,
    {
        proof {
            assert(data@.take(i + 1).drop_last() =~= data@.take(i as int));
            assert(data@.take(i + 1).last() == data@[i as int]);
        }
        if data[i] > max {
            max = data[i];
        }
        i = i + 1;
    }
    proof {
        assert(data@.take(data@.len() as int) =~= data@);
    }
    max
}

/// The fixed-precision histogram of a non-empty series over `[0, max]`.
///
/// Bucket `k` counts the values `v` with `v / width == k`, where the width
/// gives about three significant decimal digits of resolution. Every value
/// lands in exactly one bucket, so the bucket counts sum to the series
/// length.
pub fn histogram(data: &Vec<u64>) -> (r: Vec<u64>)
    requires
        data@.len() > 0,
    ensures
        r@.len() == spec_max(data@) as int / spec_bucket_width(spec_max(data@)) + 1,
        forall|k: int|
            0 <= k < r@.len() ==> r@[k] == spec_bucket_count(
                data@,
                spec_bucket_width(spec_max(data@)),
                k,
            ),
        spec_sum(r@) == data@.len(),
{
    let max = series_max(data);
    let width: u64 = max / 1000 + 1;
    proof {
        assert(max as int / (max as int / 1000 + 1) <= 1000) by (nonlinear_arith)
            requires
                0 <= max,
        ;
    }
    let nbuckets: usize = (max / width + 1) as usize;
    let ghost w = spec_bucket_width(spec_max(data@));
    let mut counts: Vec<u64> = Vec::new();
    while counts.len() < nbuckets
        invariant
            counts@.len() <= nbuckets,
            forall|k: int| 0 <= k < counts@.len() ==> counts@[k] == 0,
            spec_sum(counts@) == 0,
        decreases nbuckets - counts@.len(),
    {
        proof {
            assert(counts@.push(0u64).drop_last() =~= counts@);
        }
        counts.push(0);
    }
    proof {
        assert(data@.take(0) =~= Seq::<u64>::empty());
        assert(forall|k: int|
            0 <= k < counts@.len() ==> counts@[k] == spec_bucket_count(
                data@.take(0),
                w,
                k,
            ));
        lemma_max_ge_all(data@);
    }
    let mut j: usize = 0;
    while j < data.len()
        invariant
            j <= data@.len(),
            counts@.len() == nbuckets,
            nbuckets == spec_max(data@) as int / w + 1,
            w == spec_bucket_width(spec_max(data@)),
            width == w,
            forall|x: int| 0 <= x < data@.len() ==> data@[x] <= spec_max(data@),
            forall|k: int|
                0 <= k < counts@.len() ==> counts@[k] == spec_bucket_count(
                    data@.take(j as int),
                    w,
                    k,
                ),
            spec_sum(counts@) == j,
        decreases data@.len() - j,
    {
        let x = data[j];
        let b = (x / width) as usize;
        proof {
            vstd::arithmetic::div_mod::lemma_div_is_ordered(
                x as int,
                spec_max(data@) as int,
                w,
            );
            assert(b < nbuckets);
            lemma_bucket_count_le_len(data@.take(j as int), w, b as int);
            assert(counts@[b as int] < 0xFFFF_FFFF_FFFF_FFFFu64);
        }
        let ghost before = counts@;
        let c = vec_index_mut(&mut counts, b);
        *c = *c + 1;
        j = j + 1;
        proof {
            assert(counts@ =~= before.update(b as int, (before[b as int] + 1) as u64));
            lemma_sum_update(before, b as int, (before[b as int] + 1) as u64);
            let tj = data@.take(j as int);
            assert(tj.drop_last() =~= data@.take(j - 1));
            assert(tj.last() == data@[j - 1]);
            assert(forall|k: int|
                0 <= k < counts@.len() ==> counts@[k] == spec_bucket_count(tj, w, k));
        }
    }
    proof {
        assert(data@.take(data@.len() as int) =~= data@);
    }
    counts
}

/// The round-trip latency series of a record list: one entry per record, in
/// order, holding its latency in nanoseconds.
pub fn round_trip_series(pairs: &Vec<PduStat>) -> (r: Vec<u64>)
    ensures
        r@.len() == pairs@.len(),
        forall|i: int| 0 <= i < r@.len() ==> r@[i] == pairs@[i].delta_time,
{
    let mut out: Vec<u64> = Vec::new();
    let mut i: usize = 0;
    while i < pairs.len()
        invariant
            i <= pairs@.len(),
            out@.len() == i,
            forall|k: int| 0 <= k < i ==> out@[k] == pairs@[k].delta_time,
        decreases pairs@.len() - i,
    {
        out.push(pairs[i].delta_time);
        i = i + 1;
    }
    out
}

/// The cycle-to-cycle series of a record list: the difference between the
/// transmit times of each pair of consecutive records, in nanoseconds,
/// clamping at zero should a transmit time ever step backwards.
pub fn cycle_delta_series(pairs: &Vec<PduStat>) -> (r: Vec<u64>)
    ensures
        pairs@.len() == 0 ==> r@.len() == 0,
        pairs@.len() > 0 ==> r@.len() == pairs@.len() - 1,
        forall|i: int|
            0 <= i < r@.len() ==> r@[i] == sat_sub(pairs@[i + 1].tx_time, pairs@[i].tx_time),
{
    let mut out: Vec<u64> = Vec::new();
    if pairs.len() == 0 {
        return out;
    }
    let mut i: usize = 0;
    while i < pairs.len() - 1
        invariant
            pairs@.len() > 0,
            i + 1 <= pairs@.len(),
            out@.len() == i,
            forall|k: int|
                0 <= k < i ==> out@[k] == sat_sub(pairs@[k + 1].tx_time, pairs@[k].tx_time),
        decreases pairs@.len() - i,
    {
        let curr = pairs[i + 1].tx_time;
        let prev = pairs[i].tx_time;
        let d: u64 = if curr >= prev {
            curr - prev
        } else {
            0
        };
        out.push(d);
        i = i + 1;
    }
    out
}

/// The integer square root: the largest `r` with `r·r ≤ v`.
pub fn isqrt_u64(v: u64) -> (r: u64)
    ensures
        r * r <= v,
        v < (r + 1) * (r + 1),
{
    if v == 0 {
        return 0;
    }
    let mut lo: u64 = 0;
    let mut hi: u64 = 0x1_0000_0000;
    while hi - lo > 1
        invariant
            lo < hi <= 0x1_0000_0000,
            lo * lo <= v,
            v < hi * hi,
        decreases hi - lo,
    {
        let mid = lo + (hi - lo) / 2;
        proof {
            assert(lo < mid < hi);
            assert(mid * mid <= 0xFFFF_FFFFu64 * 0xFFFF_FFFFu64) by (nonlinear_arith)
                requires
                    0 <= mid <= 0xFFFF_FFFFu64,
            ;
        }
        if mid * mid <= v {
            lo = mid;
        } else {
            hi = mid;
        }
    }
    lo
}

} // verus!
