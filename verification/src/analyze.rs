//! Distribution-aware per-site capacity policy analysis.
//!
//! Each site's capacity samples are classified by the shape of their
//! distribution, and a per-site policy override is recommended for it.
//!
//! | Shape              | Criterion                                              |
//! |--------------------|--------------------------------------------------------|
//! | `InsufficientData` | fewer than 30 samples                                  |
//! | `MostlyZero`       | more than half the samples are zero                    |
//! | `UnimodalTight`    | coefficient of variation below 0.10                    |
//! | `Bimodal`          | two histogram peaks with a valley below 30% of either  |
//! | `HeavyTail`        | p99 above ten times p50 (p50 positive)                 |
//! | `UnimodalSpread`   | everything else                                        |
//!
//! The criteria are decided in exact integer arithmetic: the coefficient of
//! variation `σ/μ < 0.10` is `100·n·Σx² < 101·(Σx)²`.
use vstd::prelude::*;

use crate::model::{CapFrom, CapRound, SiteStats};
use crate::samples::{
    count_zeros, count_zeros_exec, nonzero, nonzero_exec, percentile, percentile_spec,
    sort_samples, sorted_spec, sum, sum_exec, sum_sq,
};
use crate::text::{dec, idec, push_dec, push_idec, push_str, string_of};
use crate::wide::{add_limbs, from_u128, from_u64, less, mul_small, shift_limb, value};

verus! {

/// Shape classification of a site's capacity-sample distribution.
#[derive(Debug, Clone, Copy, PartialEq, Eq, Structural)]
pub enum SiteShape {
    /// Fewer than 30 samples: estimates are unreliable.
    InsufficientData,
    /// More than half of the samples are exactly zero.
    MostlyZero,
    /// Long upper tail: p99 above ten times p50 (and p50 above zero).
    HeavyTail,
    /// Two distinct clusters separated by a clear valley.
    Bimodal,
    /// Low variance: coefficient of variation below 0.10.
    UnimodalTight,
    /// Broad but unimodal.
    UnimodalSpread,
}

/// The label of a shape in the text report.
pub open spec fn shape_label(s: SiteShape) -> Seq<char> {
    match s {
        SiteShape::InsufficientData => "InsufficientData"@,
        SiteShape::MostlyZero => "MostlyZero"@,
        SiteShape::HeavyTail => "HeavyTail"@,
        SiteShape::Bimodal => "Bimodal"@,
        SiteShape::UnimodalTight => "UnimodalTight"@,
        SiteShape::UnimodalSpread => "UnimodalSpread"@,
    }
}

impl SiteShape {
    /// Short label used in the text report.
    pub fn label(self) -> (r: &'static str)
        ensures
            r@ == shape_label(self),
    {
        match self {
            SiteShape::InsufficientData => "InsufficientData",
            SiteShape::MostlyZero => "MostlyZero",
            SiteShape::HeavyTail => "HeavyTail",
            SiteShape::Bimodal => "Bimodal",
            SiteShape::UnimodalTight => "UnimodalTight",
            SiteShape::UnimodalSpread => "UnimodalSpread",
        }
    }
}

/// Minimum sample count before a distribution is classified.
pub const MIN_SAMPLES: usize = 30;

/// Number of histogram buckets for bimodal detection.
pub const HISTOGRAM_BUCKETS: usize = 10;

/// Minimum distance between two peaks, in buckets (a tenth of the buckets,
/// at least one).
pub const MIN_GAP_BUCKETS: usize = 1;

// ───────────────────────────── classification ─────────────────────────────

/// The coefficient of variation of the samples is below 0.10, with a
/// positive mean: `100·n·Σx² < 101·(Σx)²`.
pub open spec fn is_tight(s: Seq<usize>) -> bool {
    sum(s) > 0 && 100 * s.len() * sum_sq(s) < 101 * (sum(s) * sum(s))
}

/// The histogram bucket of `v` among `HISTOGRAM_BUCKETS` equal-width
/// buckets over `[lo, lo + range]`; the maximum falls in the last one.
pub open spec fn bucket_of(v: usize, lo: usize, range: nat) -> int {
    let b = ((v - lo) * 10) / (range as int);
    if b > 9 {
        9
    } else {
        b
    }
}

/// How many samples fall in bucket `b`.
pub open spec fn bucket_count(s: Seq<usize>, lo: usize, range: nat, b: int) -> nat
    decreases s.len(),
{
    if s.len() == 0 {
        0
    } else {
        bucket_count(s.drop_last(), lo, range, b) + if bucket_of(s.last(), lo, range) == b {
            1nat
        } else {
            0nat
        }
    }
}

/// The histogram of the samples.
pub open spec fn histogram(s: Seq<usize>, lo: usize, range: nat) -> Seq<nat> {
    Seq::new(10, |b: int| bucket_count(s, lo, range, b))
}

/// Bar `i` is higher than both neighbours (the outside counting as zero)
/// and not empty.
pub open spec fn is_peak(c: Seq<nat>, i: int) -> bool {
    let left = if i == 0 {
        0
    } else {
        c[i - 1]
    };
    let right = if i == 9 {
        0
    } else {
        c[i + 1]
    };
    c[i] > left && c[i] > right && c[i] > 0
}

/// The peaks among the first `k` bars, in order.
pub open spec fn peaks_below(c: Seq<nat>, k: int) -> Seq<int>
    decreases k,
{
    if k <= 0 {
        seq![]
    } else if is_peak(c, k - 1) {
        peaks_below(c, k - 1).push(k - 1)
    } else {
        peaks_below(c, k - 1)
    }
}

/// The least bar in `[a, b)`, zero when the range is empty.
pub open spec fn range_min(c: Seq<nat>, a: int, b: int) -> nat
    decreases b - a,
{
    if b <= a {
        0
    } else if b == a + 1 {
        c[a]
    } else {
        let m = range_min(c, a, b - 1);
        if c[b - 1] < m {
            c[b - 1]
        } else {
            m
        }
    }
}

/// Between peaks `p1 < p2` lies a valley below 30% of the smaller peak.
pub open spec fn deep_valley(c: Seq<nat>, p1: int, p2: int) -> bool {
    let smaller = if c[p1] < c[p2] {
        c[p1]
    } else {
        c[p2]
    };
    p2 - p1 >= 1 && smaller > 0 && 10 * range_min(c, p1 + 1, p2) < 3 * smaller
}

/// Some consecutive pair of peaks has a deep valley between them.
pub open spec fn has_deep_valley(c: Seq<nat>, ps: Seq<int>) -> bool {
    exists|k: int| 0 <= k < ps.len() - 1 && #[trigger] deep_valley(c, ps[k], ps[k + 1])
}

/// The histogram of the samples over `[lo, hi]` shows two clusters.
pub open spec fn bimodal_spec(s: Seq<usize>, lo: usize, hi: usize) -> bool {
    let c = histogram(s, lo, (hi - lo) as nat);
    hi > lo && peaks_below(c, 10).len() >= 2 && has_deep_valley(c, peaks_below(c, 10))
}

/// The shape of a sample list.
pub open spec fn classify_spec(s: Seq<usize>) -> SiteShape {
    let n = s.len();
    if n < 30 {
        SiteShape::InsufficientData
    } else if 2 * count_zeros(s) > n {
        SiteShape::MostlyZero
    } else {
        let srt = sorted_spec(s);
        let lo = srt[0];
        let hi = srt[n - 1];
        if is_tight(s) {
            SiteShape::UnimodalTight
        } else if hi > lo && bimodal_spec(srt, lo, hi) {
            SiteShape::Bimodal
        } else {
            let p50 = percentile_spec(srt, 50);
            let p99 = percentile_spec(srt, 99);
            if p50 > 0 && p99 > 10 * p50 {
                SiteShape::HeavyTail
            } else {
                SiteShape::UnimodalSpread
            }
        }
    }
}

/// A site with fewer than 30 samples has too little data; with more than
/// half of them zero it is mostly zero; and it is classified tight exactly
/// when it has at least 30 samples, at most half of them zero, and a
/// coefficient of variation below 0.10: with
/// `n` samples of sum `Σx` and sum of squares `Σx²`, `stddev / mean < 0.10`
/// is `n·Σx² − (Σx)² < 0.01·(Σx)²`, that is `100·n·Σx² < 101·(Σx)²`
/// (for a positive mean).
pub proof fn lemma_tight_means_low_variation(s: Seq<usize>)
    ensures
        classify_spec(s) == SiteShape::UnimodalTight <==> {
            &&& s.len() >= 30
            &&& 2 * count_zeros(s) <= s.len()
            &&& sum(s) > 0
            &&& 100 * s.len() * sum_sq(s) < 101 * (sum(s) * sum(s))
        },
        classify_spec(s) == SiteShape::InsufficientData <==> s.len() < 30,
        classify_spec(s) == SiteShape::MostlyZero <==> s.len() >= 30 && 2 * count_zeros(s) > s.len(),
{
}

/// The shape of a site does not depend on the order of its samples: any
/// reordering of them is classified alike.
pub proof fn lemma_classify_ignores_order(s: Seq<usize>, t: Seq<usize>)
    requires
        s.to_multiset() == t.to_multiset(),
    ensures
        classify_spec(s) == classify_spec(t),
{
    crate::samples::lemma_order_free(s, t);
}

proof fn lemma_sum_sq_bound(s: Seq<usize>)
    ensures
        sum_sq(s) <= s.len() * 0xffff_ffff_ffff_fffe_0000_0000_0000_0001nat,
    decreases s.len(),
{
    if s.len() > 0 {
        lemma_sum_sq_bound(s.drop_last());
        let x = s.last() as nat;
        assert(x * x <= 0xffff_ffff_ffff_fffe_0000_0000_0000_0001nat) by (nonlinear_arith)
            requires
                x <= 0xffff_ffff_ffff_ffffnat,
        ;
    }
}

/// Whether the coefficient of variation is below 0.10, decided exactly.
pub fn is_tight_exec(s: &[usize]) -> (r: bool)
    ensures
        r == is_tight(s@),
{
    let total = sum_exec(s);
    if total == 0 {
        return false;
    }
    // Σx² as limbs.
    let mut sq: Vec<u64> = from_u64(0);
    let mut i: usize = 0;
    while i < s.len()
        invariant
            i <= s.len(),
            value(sq@) == sum_sq(s@.take(i as int)),
        decreases s.len() - i,
    {
        assert(s@.take(i + 1).drop_last() =~= s@.take(i as int));
        let x = s[i] as u64;
        let xx = mul_small(&from_u64(x), x);
        sq = add_limbs(&sq, &xx);
        i = i + 1;
    }
    assert(s@.take(s.len() as int) =~= s@);
    let lhs = mul_small(&mul_small(&sq, s.len() as u64), 100);
    let t = from_u128(total);
    let lo = (total % 0x1_0000_0000_0000_0000u128) as u64;
    let hi = (total / 0x1_0000_0000_0000_0000u128) as u64;
    let sq_total = add_limbs(&mul_small(&t, lo), &shift_limb(&mul_small(&t, hi)));
    let rhs = mul_small(&sq_total, 101);
    proof {
        let tv = total as nat;
        assert(tv == lo + hi * 0x1_0000_0000_0000_0000nat) by (nonlinear_arith)
            requires
                lo == total % 0x1_0000_0000_0000_0000u128,
                hi == total / 0x1_0000_0000_0000_0000u128,
                tv == total,
        ;
        assert(tv * lo + tv * hi * 0x1_0000_0000_0000_0000nat == tv * tv) by (nonlinear_arith)
            requires
                tv == lo + hi * 0x1_0000_0000_0000_0000nat,
        ;
        assert(value(sq_total@) == tv * tv);
        assert(value(lhs@) == sum_sq(s@) * s.len() * 100);
        assert(sum_sq(s@) * s.len() * 100 == 100 * s@.len() * sum_sq(s@)) by (nonlinear_arith);
        assert(value(rhs@) == tv * tv * 101);
        assert(tv * tv * 101 == 101 * (sum(s@) * sum(s@))) by (nonlinear_arith)
            requires
                tv == sum(s@),
        ;
    }
    less(&lhs, &rhs)
}

/// Histogram-based bimodal detector over `[min_val, max_val]`: count the
/// samples per bucket, take the bars higher than their neighbours, and look
/// for a consecutive pair of them with a valley between them below 30% of
/// the smaller one.
pub fn is_bimodal_histogram(sorted: &[usize], min_val: usize, max_val: usize) -> (r: bool)
    requires
        min_val <= max_val,
        forall|i: int| 0 <= i < sorted.len() ==> min_val <= #[trigger] sorted@[i],
    ensures
        r == bimodal_spec(sorted@, min_val, max_val),
{
    let range = max_val - min_val;
    if range == 0 {
        return false;
    }
    let ghost rn = range as nat;
    let mut counts: Vec<usize> = vec![0, 0, 0, 0, 0, 0, 0, 0, 0, 0];
    let mut i: usize = 0;
    while i < sorted.len()
        invariant
            i <= sorted.len(),
            range == max_val - min_val,
            rn == range,
            range > 0,
            forall|j: int| 0 <= j < sorted.len() ==> min_val <= #[trigger] sorted@[j],
            counts@.len() == 10,
            forall|b: int|
                0 <= b < 10 ==> #[trigger] counts@[b] == bucket_count(
                    sorted@.take(i as int),
                    min_val,
                    rn,
                    b,
                ),
            forall|b: int| 0 <= b < 10 ==> #[trigger] counts@[b] <= i,
        decreases sorted.len() - i,
    {
        let v = sorted[i];
        let raw: u128 = ((v - min_val) as u128) * 10 / (range as u128);
        let bucket: usize = if raw > 9 {
            9
        } else {
            raw as usize
        };
        assert(bucket == bucket_of(v, min_val, rn));
        assert(sorted@.take(i + 1).drop_last() =~= sorted@.take(i as int));
        assert(sorted@.take(i + 1).last() == v);
        counts.set(bucket, counts[bucket] + 1);
        i = i + 1;
    }
    assert(sorted@.take(sorted.len() as int) =~= sorted@);
    let ghost c = histogram(sorted@, min_val, rn);
    assert(forall|b: int| 0 <= b < 10 ==> counts@[b] == c[b]);
    // The peaks.
    let mut peaks: Vec<usize> = Vec::new();
    let mut k: usize = 0;
    while k < 10
        invariant
            k <= 10,
            counts@.len() == 10,
            forall|b: int| 0 <= b < 10 ==> counts@[b] == c[b],
            c.len() == 10,
            peaks@.len() == peaks_below(c, k as int).len(),
            forall|j: int|
                0 <= j < peaks@.len() ==> #[trigger] peaks@[j] == peaks_below(c, k as int)[j],
        decreases 10 - k,
    {
        let left = if k == 0 {
            0
        } else {
            counts[k - 1]
        };
        let right = if k == 9 {
            0
        } else {
            counts[k + 1]
        };
        if counts[k] > left && counts[k] > right && counts[k] > 0 {
            assert(is_peak(c, k as int));
            peaks.push(k);
        } else {
            assert(!is_peak(c, k as int));
        }
        k = k + 1;
    }
    let ghost ps = peaks_below(c, 10);
    if peaks.len() < 2 {
        return false;
    }
    proof {
        lemma_peaks_in_range(c, 10);
    }
    let mut w: usize = 0;
    while w + 1 < peaks.len()
        invariant
            peaks@.len() == ps.len(),
            ps == peaks_below(c, 10),
            forall|j: int| 0 <= j < peaks@.len() ==> #[trigger] peaks@[j] == ps[j],
            forall|j: int| 0 <= j < ps.len() ==> 0 <= #[trigger] ps[j] < 10,
            forall|j: int, l: int| 0 <= j < l < ps.len() ==> #[trigger] ps[j] < #[trigger] ps[l],
            counts@.len() == 10,
            forall|b: int| 0 <= b < 10 ==> counts@[b] == c[b],
            c.len() == 10,
            forall|j: int| 0 <= j < w ==> !#[trigger] deep_valley(c, ps[j], ps[j + 1]),
            c == histogram(sorted@, min_val, (max_val - min_val) as nat),
            max_val > min_val,
            w + 1 <= peaks@.len(),
            peaks@.len() >= 2,
        decreases peaks.len() - w,
    {
        let p1 = peaks[w];
        let p2 = peaks[w + 1];
        assert(p1 < p2);
        if p2 - p1 >= MIN_GAP_BUCKETS {
            // The least bar strictly between the peaks.
            let mut valley: usize = 0;
            let mut j = p1 + 1;
            if j < p2 {
                valley = counts[j];
                j = j + 1;
                while j < p2
                    invariant
                        p1 + 1 < j <= p2 <= 9,
                        counts@.len() == 10,
                        forall|b: int| 0 <= b < 10 ==> counts@[b] == c[b],
                        c.len() == 10,
                        valley == range_min(c, p1 + 1, j as int),
                    decreases p2 - j,
                {
                    if counts[j] < valley {
                        valley = counts[j];
                    }
                    j = j + 1;
                }
            }
            assert(valley == range_min(c, p1 + 1, p2 as int));
            let smaller = if counts[p1] < counts[p2] {
                counts[p1]
            } else {
                counts[p2]
            };
            if smaller > 0 && (valley as u128) * 10 < (smaller as u128) * 3 {
                assert(deep_valley(c, ps[w as int], ps[w + 1]));
                assert(has_deep_valley(c, ps));
                return true;
            }
        }
        assert(!deep_valley(c, ps[w as int], ps[w + 1]));
        w = w + 1;
    }
    assert(!has_deep_valley(c, ps));
    false
}

proof fn lemma_peaks_in_range(c: Seq<nat>, k: int)
    requires
        0 <= k <= 10,
    ensures
        forall|j: int|
            0 <= j < peaks_below(c, k).len() ==> 0 <= #[trigger] peaks_below(c, k)[j] < k,
        forall|j: int, l: int|
            0 <= j < l < peaks_below(c, k).len() ==> #[trigger] peaks_below(c, k)[j]
                < #[trigger] peaks_below(c, k)[l],
    decreases k,
{
    if k > 0 {
        lemma_peaks_in_range(c, k - 1);
        let prev = peaks_below(c, k - 1);
        let cur = peaks_below(c, k);
        if is_peak(c, k - 1) {
            assert(cur == prev.push(k - 1));
            assert forall|j: int| 0 <= j < cur.len() implies 0 <= #[trigger] cur[j] < k by {
                if j < prev.len() {
                    assert(cur[j] == prev[j]);
                }
            }
            assert forall|j: int, l: int| 0 <= j < l < cur.len() implies #[trigger] cur[j]
                < #[trigger] cur[l] by {
                assert(cur[j] == prev[j]);
                if l < prev.len() {
                    assert(cur[l] == prev[l]);
                }
            }
        }
    }
}

/// Classify a sample list by the shape of its distribution.
///
/// The checks, in order: too few samples; mostly zeros; a tight unimodal
/// distribution (before the bimodal check, whose histogram of a narrow range
/// can look like two peaks); two clusters (before the tail check, since a
/// high second cluster also makes p99 large); a heavy tail; otherwise a
/// spread unimodal distribution.
pub fn classify(samples: &[usize]) -> (r: SiteShape)
    ensures
        r == classify_spec(samples@),
{
    let n = samples.len();
    if n < MIN_SAMPLES {
        return SiteShape::InsufficientData;
    }
    let zeros = count_zeros_exec(samples);
    if zeros > n / 2 {
        assert(2 * count_zeros(samples@) > n);
        return SiteShape::MostlyZero;
    }
    assert(!(2 * count_zeros(samples@) > n));
    let sorted = sort_samples(samples);
    let min_val = sorted[0];
    let max_val = sorted[n - 1];
    if is_tight_exec(samples) {
        return SiteShape::UnimodalTight;
    }
    if max_val > min_val {
        proof {
            assert forall|i: int| 0 <= i < sorted@.len() implies min_val <= #[trigger] sorted@[i] by {
                if i > 0 {
                    assert((crate::samples::sample_leq())(sorted@[0], sorted@[i]));
                }
            }
        }
        if is_bimodal_histogram(sorted.as_slice(), min_val, max_val) {
            return SiteShape::Bimodal;
        }
    }
    let p50 = percentile(sorted.as_slice(), 50);
    let p99 = percentile(sorted.as_slice(), 99);
    if p50 > 0 && (p99 as u128) > 10 * (p50 as u128) {
        return SiteShape::HeavyTail;
    }
    SiteShape::UnimodalSpread
}

// ───────────────────────────── rounding ─────────────────────────────

/// The least power of two that is at least `x`, searching up from `p`.
pub open spec fn pow2_from(x: nat, p: nat) -> nat
    decreases (if p < x {
        x - p
    } else {
        0
    }),
{
    if p >= x || p == 0 {
        p
    } else {
        pow2_from(x, 2 * p)
    }
}

/// `x` rounded up to a power of two; `0` and `1` stay as they are.
pub open spec fn pow2_ceil(x: nat) -> nat {
    if x <= 1 {
        x
    } else {
        pow2_from(x, 1)
    }
}

/// `x` rounded up to a multiple of 8.
pub open spec fn to8_ceil(x: nat) -> nat {
    (x + 7) / 8 * 8
}

/// `x` rounded up to a power of two (`next_power_of_two`, which panics
/// when the power does not fit: `x` above `usize::MAX / 2 + 1`).
pub fn round_pow2(x: usize) -> (r: usize)
    requires
        x <= usize::MAX / 2 + 1,
    ensures
        r == pow2_ceil(x as nat),
{
    if x <= 1 {
        return x;
    }
    let mut p: usize = 1;
    while p < x
        invariant
            1 <= p,
            x <= usize::MAX / 2 + 1,
            pow2_from(x as nat, p as nat) == pow2_ceil(x as nat),
            x > 1,
        decreases usize::MAX - p,
    {
        p = p * 2;
    }
    p
}

/// `x` rounded up to a multiple of 8 (which overflows for `x` above
/// `usize::MAX - 7`).
pub fn round_to8(x: usize) -> (r: usize)
    requires
        x <= usize::MAX - 7,
    ensures
        r == to8_ceil(x as nat),
{
    if x == 0 {
        return 0;
    }
    (x + 7) / 8 * 8
}

// ───────────────────────────── recommendation ─────────────────────────────

/// A recommended capacity policy for one site.
#[derive(Debug, Clone, PartialEq, Eq)]
pub struct PolicyOverride {
    pub cap_from: CapFrom,
    /// The multiplier in thousandths (`0.5` is `500`).
    pub cap_mul: u64,
    pub cap_round: CapRound,
    /// Human-readable justification.
    pub rationale: String,
}

/// The rationale given for a mostly-zero site whose non-zero p99 is `p`.
pub open spec fn mostly_zero_rationale(p: usize) -> Seq<char> {
    "mostly-zero (>50% zeros): cap at non-zero p99="@ + dec(p as nat)
        + " rather than full-population p95 which under-allocates when non-zero"@
}

/// The policy recommended for a shape: `(cap_from, cap_mul, cap_round,
/// rationale)`, or none where the global default serves (a spread
/// unimodal distribution) or nothing reliable can be said (too few
/// samples).
pub open spec fn recommend_spec(shape: SiteShape, s: Seq<usize>) -> Option<
    (CapFrom, u64, CapRound, Seq<char>),
> {
    match shape {
        SiteShape::InsufficientData => None,
        SiteShape::UnimodalSpread => None,
        SiteShape::UnimodalTight => Some(
            (
                CapFrom::Max,
                1000,
                CapRound::Pow2,
                "unimodal-tight (CV<0.10): cap at max for zero reallocs with minimal waste (variance is very low)"@,
            ),
        ),
        SiteShape::Bimodal => Some(
            (
                CapFrom::Median,
                2000,
                CapRound::Pow2,
                "bimodal: size at median×2 to cover typical case; large-cluster calls pay one realloc (rare)"@,
            ),
        ),
        SiteShape::HeavyTail => Some(
            (
                CapFrom::P95,
                500,
                CapRound::Pow2,
                "heavy-tail (p99/p50>10): cap at p95×0.5 to avoid following the extreme tail; some reallocations accepted"@,
            ),
        ),
        SiteShape::MostlyZero => if nonzero(s).len() == 0 {
            Some(
                (
                    CapFrom::Max,
                    1000,
                    CapRound::Exact,
                    "mostly-zero (all samples zero): cap at max=0 with exact rounding (no allocation)"@,
                ),
            )
        } else {
            let p = percentile_spec(sorted_spec(nonzero(s)), 99);
            Some((CapFrom::P99, 1000, CapRound::Pow2, mostly_zero_rationale(p)))
        },
    }
}

/// The fields of a policy override.
pub open spec fn override_fields(p: PolicyOverride) -> (CapFrom, u64, CapRound, Seq<char>) {
    (p.cap_from, p.cap_mul, p.cap_round, p.rationale@)
}

/// Recommend a per-site policy override for the classified shape; a
/// mostly-zero site is sized from the p99 of its non-zero samples.
pub fn recommend_policy(shape: SiteShape, samples: &[usize]) -> (r: Option<PolicyOverride>)
    ensures
        match r {
            Some(p) => recommend_spec(shape, samples@) == Some(override_fields(p)),
            None => recommend_spec(shape, samples@) is None,
        },
{
    match shape {
        SiteShape::InsufficientData => None,
        SiteShape::UnimodalSpread => None,
        SiteShape::UnimodalTight => Some(
            PolicyOverride {
                cap_from: CapFrom::Max,
                cap_mul: 1000,
                cap_round: CapRound::Pow2,
                rationale: string_of(
                    &crate::text::chars_of(
                        "unimodal-tight (CV<0.10): cap at max for zero reallocs with minimal waste (variance is very low)",
                    ),
                ),
            },
        ),
        SiteShape::Bimodal => Some(
            PolicyOverride {
                cap_from: CapFrom::Median,
                cap_mul: 2000,
                cap_round: CapRound::Pow2,
                rationale: string_of(
                    &crate::text::chars_of(
                        "bimodal: size at median×2 to cover typical case; large-cluster calls pay one realloc (rare)",
                    ),
                ),
            },
        ),
        SiteShape::HeavyTail => Some(
            PolicyOverride {
                cap_from: CapFrom::P95,
                cap_mul: 500,
                cap_round: CapRound::Pow2,
                rationale: string_of(
                    &crate::text::chars_of(
                        "heavy-tail (p99/p50>10): cap at p95×0.5 to avoid following the extreme tail; some reallocations accepted",
                    ),
                ),
            },
        ),
        SiteShape::MostlyZero => {
            let nz = nonzero_exec(samples);
            if nz.len() == 0 {
                return Some(
                    PolicyOverride {
                        cap_from: CapFrom::Max,
                        cap_mul: 1000,
                        cap_round: CapRound::Exact,
                        rationale: string_of(
                            &crate::text::chars_of(
                                "mostly-zero (all samples zero): cap at max=0 with exact rounding (no allocation)",
                            ),
                        ),
                    },
                );
            }
            let sorted_nz = sort_samples(nz.as_slice());
            let p = percentile(sorted_nz.as_slice(), 99);
            let mut text: Vec<char> = Vec::new();
            push_str(&mut text, "mostly-zero (>50% zeros): cap at non-zero p99=");
            push_dec(&mut text, p as u64);
            push_str(
                &mut text,
                " rather than full-population p95 which under-allocates when non-zero",
            );
            assert(text@ =~= mostly_zero_rationale(p));
            Some(
                PolicyOverride {
                    cap_from: CapFrom::P99,
                    cap_mul: 1000,
                    cap_round: CapRound::Pow2,
                    rationale: string_of(&text),
                },
            )
        },
    }
}

// ───────────────────────────── waste estimate ─────────────────────────────

/// The value a policy sizes from, as a fraction `(num, den)` with
/// `den > 0`.  With `floor_mean` the mean is first cut to a whole number
/// (as the report prints it); a site without a mean sizes from its peak.
pub open spec fn base_frac(from: CapFrom, st: SiteStats, floor_mean: bool) -> (nat, nat) {
    match from {
        CapFrom::Max => (st.peak as nat, 1nat),
        CapFrom::Mean => match st.mean {
            Some(m) => if m.count == 0 {
                (st.peak as nat, 1nat)
            } else if floor_mean {
                let f = m.sum as nat / m.count as nat;
                (
                    if f > usize::MAX {
                        usize::MAX as nat
                    } else {
                        f
                    },
                    1nat,
                )
            } else {
                (m.sum as nat, m.count as nat)
            },
            None => (st.peak as nat, 1nat),
        },
        CapFrom::Median => (st.p50 as nat, 1nat),
        CapFrom::P95 => (st.p95 as nat, 1nat),
        CapFrom::P99 => match st.p99 {
            Some(v) => (v as nat, 1nat),
            None => (st.p95 as nat, 1nat),
        },
    }
}

/// `ceil(num / den × mul)` for a base `num / den` and a multiplier in
/// thousandths, saturating at `usize::MAX` as a float-to-integer cast
/// does.
pub open spec fn scaled(b: (nat, nat), mul: u64) -> nat {
    let d: int = (b.1 * 1000) as int;
    let c = ((b.0 * (mul as nat) + d - 1) / d) as nat;
    if c > usize::MAX {
        usize::MAX as nat
    } else {
        c
    }
}

/// The rounding of `v` does not overflow.
pub open spec fn rounding_fits(v: nat, r: CapRound) -> bool {
    match r {
        CapRound::Pow2 => v <= usize::MAX / 2 + 1,
        CapRound::To8 => v <= usize::MAX - 7,
        CapRound::Exact => true,
    }
}

/// `v` rounded as a policy says.
pub open spec fn rounded(v: nat, r: CapRound) -> nat {
    match r {
        CapRound::Pow2 => pow2_ceil(v),
        CapRound::To8 => to8_ceil(v),
        CapRound::Exact => v,
    }
}

/// How a policy sizes: from what, times what (in thousandths), rounded how.
pub type PolicyKey = (CapFrom, u64, CapRound);

/// The sizing of a policy override.
pub open spec fn key_of(p: PolicyOverride) -> PolicyKey {
    (p.cap_from, p.cap_mul, p.cap_round)
}

/// The capacity a sizing gives for a site.
pub open spec fn cap_for(k: PolicyKey, st: SiteStats, floor_mean: bool) -> nat {
    rounded(scaled(base_frac(k.0, st, floor_mean), k.1), k.2)
}

/// Computing that capacity does not overflow.
pub open spec fn cap_fits(k: PolicyKey, st: SiteStats, floor_mean: bool) -> bool {
    rounding_fits(scaled(base_frac(k.0, st, floor_mean), k.1), k.2)
}

/// The capacity a policy recommends for a site.
pub open spec fn policy_cap_spec(p: PolicyOverride, st: SiteStats, floor_mean: bool) -> nat {
    cap_for(key_of(p), st, floor_mean)
}

/// Computing that capacity does not overflow.
pub open spec fn policy_cap_fits(p: PolicyOverride, st: SiteStats, floor_mean: bool) -> bool {
    cap_fits(key_of(p), st, floor_mean)
}

/// `ceil(num × mul / (den × 1000))`, saturating at `usize::MAX`.
fn ceil_scaled(num: u128, den: u128, mul: u64) -> (sc: usize)
    requires
        0 < den <= usize::MAX,
    ensures
        sc == scaled((num as nat, den as nat), mul),
{
    let d: u128 = den * 1000;
    let q = num / d;
    let rem = num % d;
    let m = mul as u128;
    let mh = m / 0x1_0000_0000;
    let ml = m % 0x1_0000_0000;
    assert(rem < d);
    assert(mh < 0x1_0000_0000 && ml < 0x1_0000_0000);
    assert(rem * mh < d * 0x1_0000_0000) by (nonlinear_arith)
        requires
            rem < d,
            mh < 0x1_0000_0000,
    ;
    assert(d * 0x1_0000_0000 <= 0x1_0000_0000_0000_0000_0000_0000_0000u128) by (nonlinear_arith)
        requires
            d == den * 1000,
            den <= 0xffff_ffff_ffff_ffffu128,
    ;
    let a = rem * mh;
    let a1 = a / d;
    let a0 = a % d;
    assert(a1 < 0x1_0000_0000) by (nonlinear_arith)
        requires
            a < d * 0x1_0000_0000,
            a1 == a / d,
            d > 0,
    ;
    assert(a0 * 0x1_0000_0000 < d * 0x1_0000_0000) by (nonlinear_arith)
        requires
            a0 < d,
    ;
    assert(rem * ml < d * 0x1_0000_0000) by (nonlinear_arith)
        requires
            rem < d,
            ml < 0x1_0000_0000,
    ;
    let b = a0 * 0x1_0000_0000 + rem * ml;
    let tail = a1 * 0x1_0000_0000 + (b + d - 1) / d;
    proof {
        let di = d as int;
        vstd::arithmetic::div_mod::lemma_fundamental_div_mod(num as int, di);
        vstd::arithmetic::div_mod::lemma_fundamental_div_mod(a as int, di);
        assert(rem * m == a1 * 0x1_0000_0000 * d + b) by (nonlinear_arith)
            requires
                m == mh * 0x1_0000_0000 + ml,
                a == rem * mh,
                a as int == d * a1 + a0,
                b == a0 * 0x1_0000_0000 + rem * ml,
        ;
        assert(num * m + d - 1 == (q * m + a1 * 0x1_0000_0000) * d + (b + d - 1)) by (nonlinear_arith)
            requires
                num as int == d * q + rem,
                rem * m == a1 * 0x1_0000_0000 * d + b,
        ;
        vstd::arithmetic::div_mod::lemma_hoist_over_denominator(
            (b + d - 1) as int,
            (q * m + a1 * 0x1_0000_0000) as int,
            d as nat,
        );
        assert((num * m + d - 1) / di == q * m + tail);
    }
    match q.checked_mul(m) {
        None => usize::MAX,
        Some(qm) => {
            if qm > usize::MAX as u128 || tail > usize::MAX as u128 - qm {
                usize::MAX
            } else {
                (qm + tail) as usize
            }
        },
    }
}

/// The value a policy sizes from, scaled by its multiplier and rounded up,
/// before the policy's rounding.
fn scaled_cap(p: &PolicyOverride, st: &SiteStats, floor_mean: bool) -> (sc: usize)
    ensures
        sc == scaled(base_frac(p.cap_from, *st, floor_mean), p.cap_mul),
{
    let (num, den): (u128, u128) = match p.cap_from {
        CapFrom::Max => (st.peak as u128, 1),
        CapFrom::Mean => match st.mean {
            Some(m) => {
                if m.count == 0 {
                    (st.peak as u128, 1)
                } else if floor_mean {
                    let f = m.sum / (m.count as u128);
                    let f = if f > usize::MAX as u128 {
                        usize::MAX as u128
                    } else {
                        f
                    };
                    (f, 1)
                } else {
                    (m.sum, m.count as u128)
                }
            },
            None => (st.peak as u128, 1),
        },
        CapFrom::Median => (st.p50 as u128, 1),
        CapFrom::P95 => (st.p95 as u128, 1),
        CapFrom::P99 => match st.p99 {
            Some(v) => (v as u128, 1),
            None => (st.p95 as u128, 1),
        },
    };
    assert((num as nat, den as nat) == base_frac(p.cap_from, *st, floor_mean));
    ceil_scaled(num, den, p.cap_mul)
}

/// Whether rounding `v` as `r` stays within `usize`.
fn rounding_fits_exec(v: usize, r: CapRound) -> (b: bool)
    ensures
        b == rounding_fits(v as nat, r),
{
    match r {
        CapRound::Pow2 => v <= usize::MAX / 2 + 1,
        CapRound::To8 => v <= usize::MAX - 7,
        CapRound::Exact => true,
    }
}

/// The capacity a policy recommends for a site.
pub fn policy_cap(p: &PolicyOverride, st: &SiteStats, floor_mean: bool) -> (r: usize)
    requires
        policy_cap_fits(*p, *st, floor_mean),
    ensures
        r == policy_cap_spec(*p, *st, floor_mean),
{
    let sc = scaled_cap(p, st, floor_mean);
    match p.cap_round {
        CapRound::Pow2 => round_pow2(sc),
        CapRound::To8 => round_to8(sc),
        CapRound::Exact => sc,
    }
}

/// The estimated waste per call in bytes: eight bytes per element of the
/// difference between the current global policy (p95, rounded up to a
/// power of two) and the recommended capacity, both cast to `i64`.
pub open spec fn waste_of(k: Option<PolicyKey>, st: SiteStats) -> int {
    let cur = pow2_ceil(st.p95 as nat) as usize;
    let r = match k {
        Some(k) => cap_for(k, st, false) as usize,
        None => cur,
    };
    ((cur as i64) - (r as i64)) * 8
}

/// The estimate overflows nothing.
pub open spec fn waste_fits_key(k: Option<PolicyKey>, st: SiteStats) -> bool {
    &&& st.p95 <= usize::MAX / 2 + 1
    &&& (k matches Some(k) ==> cap_fits(k, st, false))
    &&& i64::MIN <= waste_of(k, st) <= i64::MAX
}

/// The sizing of an optional override.
pub open spec fn opt_key(rec: Option<PolicyOverride>) -> Option<PolicyKey> {
    match rec {
        Some(p) => Some(key_of(p)),
        None => None,
    }
}

/// The waste estimate for an optional override.
pub open spec fn waste_spec(rec: Option<PolicyOverride>, st: SiteStats) -> int {
    waste_of(opt_key(rec), st)
}

/// The waste estimate overflows nothing.
pub open spec fn waste_fits(rec: Option<PolicyOverride>, st: SiteStats) -> bool {
    waste_fits_key(opt_key(rec), st)
}

/// Rough per-call allocation waste estimate in bytes: positive when the
/// current policy allocates more than the recommended one.
pub fn estimate_waste_delta(samples: &[usize], recommended: &Option<PolicyOverride>, stats: &SiteStats) -> (r: i64)
    requires
        waste_fits(*recommended, *stats),
    ensures
        r == waste_spec(*recommended, *stats),
{
    let cur = round_pow2(stats.p95);
    let rec = match recommended {
        Some(p) => policy_cap(p, stats, false),
        None => cur,
    };
    let d = (cur as i64 as i128) - (rec as i64 as i128);
    let w = d * 8;
    w as i64
}

// ───────────────────────────── the report ─────────────────────────────

/// The arguments of `analyze`.
pub struct AnalyzeArgs {
    /// The captrack dump to analyse.
    pub profile: String,
    /// Write the recommended policies back into the profile.
    pub write_policy: bool,
    /// Where the report goes; standard output otherwise.
    pub report: Option<String>,
}

/// The analysis of one site.
pub struct SiteAnalysis {
    pub stats: SiteStats,
    pub shape: SiteShape,
    /// `None` when no override is needed.
    pub recommended: Option<PolicyOverride>,
    /// The per-call waste estimate of the current global policy against the
    /// recommended one, in bytes.
    pub waste_delta_bytes: i64,
}

/// The sizing recommended for a sample list.
pub open spec fn recommended_key(s: Seq<usize>) -> Option<PolicyKey> {
    match recommend_spec(classify_spec(s), s) {
        Some(f) => Some((f.0, f.1, f.2)),
        None => None,
    }
}

/// Classify a site's samples, recommend a policy and estimate the waste.
pub fn analyze_site(samples: &[usize], stats: SiteStats) -> (r: SiteAnalysis)
    requires
        waste_fits_key(recommended_key(samples@), stats),
    ensures
        r.stats == stats,
        r.shape == classify_spec(samples@),
        match r.recommended {
            Some(p) => recommend_spec(r.shape, samples@) == Some(override_fields(p)),
            None => recommend_spec(r.shape, samples@) is None,
        },
        r.waste_delta_bytes == waste_spec(r.recommended, stats),
{
    let shape = classify(samples);
    let recommended = recommend_policy(shape, samples);
    assert(opt_key(recommended) == recommended_key(samples@));
    let waste_delta_bytes = estimate_waste_delta(samples, &recommended, &stats);
    SiteAnalysis { stats, shape, recommended, waste_delta_bytes }
}

/// Whether analysing samples with these statistics stays within the
/// integer ranges: the current capacity, the recommended one and the waste
/// estimate all fit.
pub fn analysis_fits(samples: &[usize], stats: &SiteStats) -> (r: bool)
    ensures
        r == waste_fits_key(recommended_key(samples@), *stats),
{
    if stats.p95 > usize::MAX / 2 + 1 {
        return false;
    }
    let shape = classify(samples);
    let recommended = recommend_policy(shape, samples);
    assert(opt_key(recommended) == recommended_key(samples@));
    let cur = round_pow2(stats.p95);
    let rec = match &recommended {
        Some(p) => {
            let sc = scaled_cap(p, stats, false);
            if !rounding_fits_exec(sc, p.cap_round) {
                return false;
            }
            match p.cap_round {
                CapRound::Pow2 => round_pow2(sc),
                CapRound::To8 => round_to8(sc),
                CapRound::Exact => sc,
            }
        },
        None => cur,
    };
    let d = (cur as i64 as i128) - (rec as i64 as i128);
    let lo = (i64::MIN as i128) / 8;
    let hi = (i64::MAX as i128) / 8;
    lo <= d && d <= hi
}

/// The analysis of a site, or `None` when it would leave the integer
/// ranges (see `analysis_fits`).
pub fn analyze_site_checked(samples: &[usize], stats: SiteStats) -> (r: Option<SiteAnalysis>)
    ensures
        r is Some <==> waste_fits_key(recommended_key(samples@), stats),
        r matches Some(a) ==> {
            &&& a.stats == stats
            &&& a.shape == classify_spec(samples@)
            &&& match a.recommended {
                Some(p) => recommend_spec(a.shape, samples@) == Some(override_fields(p)),
                None => recommend_spec(a.shape, samples@) is None,
            }
            &&& a.waste_delta_bytes == waste_spec(a.recommended, stats)
        },
{
    if analysis_fits(samples, &stats) {
        Some(analyze_site(samples, stats))
    } else {
        None
    }
}

/// The name a `CapFrom` is written with.
pub open spec fn cap_from_name(c: CapFrom) -> Seq<char> {
    match c {
        CapFrom::Max => "max"@,
        CapFrom::Mean => "mean"@,
        CapFrom::Median => "median"@,
        CapFrom::P95 => "p95"@,
        CapFrom::P99 => "p99"@,
    }
}

/// The name a `CapRound` is written with.
pub open spec fn cap_round_name(c: CapRound) -> Seq<char> {
    match c {
        CapRound::Pow2 => "pow2"@,
        CapRound::To8 => "to8"@,
        CapRound::Exact => "exact"@,
    }
}

fn cap_from_str(c: CapFrom) -> (s: &'static str)
    ensures
        s@ == cap_from_name(c),
{
    match c {
        CapFrom::Max => "max",
        CapFrom::Mean => "mean",
        CapFrom::Median => "median",
        CapFrom::P95 => "p95",
        CapFrom::P99 => "p99",
    }
}

fn cap_round_str(c: CapRound) -> (s: &'static str)
    ensures
        s@ == cap_round_name(c),
{
    match c {
        CapRound::Pow2 => "pow2",
        CapRound::To8 => "to8",
        CapRound::Exact => "exact",
    }
}

/// The three decimals of a fraction in thousandths without trailing
/// zeros, for `0 < f < 1000`.
pub open spec fn frac_digits(f: nat) -> Seq<char> {
    let d1 = crate::text::digit_char(f / 100);
    let d2 = crate::text::digit_char((f / 10) % 10);
    let d3 = crate::text::digit_char(f % 10);
    if f % 100 == 0 {
        seq![d1]
    } else if f % 10 == 0 {
        seq![d1, d2]
    } else {
        seq![d1, d2, d3]
    }
}

/// A number in thousandths as a float displays it: `2000` is `2`, `500` is
/// `0.5`.
pub open spec fn thousandths_text(m: nat) -> Seq<char> {
    if m % 1000 == 0 {
        dec(m / 1000)
    } else {
        dec(m / 1000) + "."@ + frac_digits(m % 1000)
    }
}

fn push_digit(out: &mut Vec<char>, d: u64)
    requires
        d < 10,
    ensures
        final(out)@ == old(out)@.push(crate::text::digit_char(d as nat)),
{
    let ghost before = out@;
    push_dec(out, d);
    assert(dec(d as nat) == seq![crate::text::digit_char(d as nat)]);
    assert(out@ =~= before.push(crate::text::digit_char(d as nat)));
}

fn push_thousandths(out: &mut Vec<char>, m: u64)
    ensures
        final(out)@ == old(out)@ + thousandths_text(m as nat),
{
    let ghost before = out@;
    push_dec(out, m / 1000);
    let f = m % 1000;
    if f != 0 {
        push_str(out, ".");
        push_digit(out, f / 100);
        if f % 100 != 0 {
            push_digit(out, (f / 10) % 10);
            if f % 10 != 0 {
                push_digit(out, f % 10);
            }
        }
    }
    assert(out@ =~= before + thousandths_text(m as nat));
}

/// `×{mul}` unless the multiplier is one.
pub open spec fn mul_text(m: u64) -> Seq<char> {
    if m == 1000 {
        seq![]
    } else {
        "×"@ + thousandths_text(m as nat)
    }
}

/// The lines a site's recommendation takes.
pub open spec fn recommendation_text(rec: Option<PolicyOverride>, st: SiteStats) -> Seq<char> {
    match rec {
        Some(p) => "  recommended: "@ + cap_from_name(p.cap_from) + mul_text(p.cap_mul) + ", "@
            + cap_round_name(p.cap_round) + " → "@ + dec(policy_cap_spec(p, st, true)) + "\n"@
            + "  rationale: "@ + p.rationale@ + "\n"@,
        None => "  recommended: (none — global default is optimal)\n"@,
    }
}

/// The waste line.
pub open spec fn waste_text(w: i64) -> Seq<char> {
    if w > 0 {
        "  waste estimate: current wastes ~"@ + idec(w as int) + "B/call more than recommended\n"@
    } else if w < 0 {
        "  waste estimate: recommended saves "@ + idec(w as int)
            + "B/call (current under-allocates)\n"@
    } else {
        "  waste estimate: no change\n"@
    }
}

/// The block of site `i` (counted from zero).
pub open spec fn site_text(i: nat, a: SiteAnalysis) -> Seq<char> {
    let st = a.stats;
    "["@ + dec(i + 1) + "] "@ + st.key.file@ + ":"@ + dec(st.key.line as nat) + ":"@ + dec(
        st.key.col as nat,
    ) + " — "@ + shape_label(a.shape) + "\n"@ + "  samples: n="@ + dec(st.count as nat) + ", p50="@
        + dec(st.p50 as nat) + ", p95="@ + dec(st.p95 as nat) + ", max="@ + dec(st.peak as nat)
        + "\n"@ + "  current global policy: p95×1.0, pow2 → "@ + dec(pow2_ceil(st.p95 as nat))
        + "\n"@ + recommendation_text(a.recommended, st) + waste_text(a.waste_delta_bytes) + "\n"@
}

/// How many sites have shape `s`.
pub open spec fn shape_count(xs: Seq<SiteAnalysis>, s: SiteShape) -> nat
    decreases xs.len(),
{
    if xs.len() == 0 {
        0
    } else {
        shape_count(xs.drop_last(), s) + if xs.last().shape == s {
            1nat
        } else {
            0nat
        }
    }
}

/// The breakdown line of shape `s`, if any site has it.
pub open spec fn breakdown_line(xs: Seq<SiteAnalysis>, s: SiteShape) -> Seq<char> {
    if shape_count(xs, s) > 0 {
        "  "@ + shape_label(s) + ": "@ + dec(shape_count(xs, s)) + "\n"@
    } else {
        seq![]
    }
}

/// The blocks of the first `k` sites.
pub open spec fn sites_text(xs: Seq<SiteAnalysis>, k: nat) -> Seq<char>
    decreases k,
{
    if k == 0 {
        seq![]
    } else {
        sites_text(xs, (k - 1) as nat) + site_text((k - 1) as nat, xs[k - 1])
    }
}

/// The whole analysis report.
pub open spec fn report_text(xs: Seq<SiteAnalysis>, profile: Seq<char>) -> Seq<char> {
    "=== captrack-pgo analyze: "@ + profile + " ===\n"@ + "Total sites: "@ + dec(xs.len())
        + "\n"@ + "Shape breakdown:\n"@ + breakdown_line(xs, SiteShape::UnimodalTight)
        + breakdown_line(xs, SiteShape::UnimodalSpread) + breakdown_line(xs, SiteShape::Bimodal)
        + breakdown_line(xs, SiteShape::HeavyTail) + breakdown_line(xs, SiteShape::MostlyZero)
        + breakdown_line(xs, SiteShape::InsufficientData) + "\n"@ + "--- per-site ---\n"@
        + sites_text(xs, xs.len())
}

/// Every site's figures can be printed without overflow.
pub open spec fn report_fits(xs: Seq<SiteAnalysis>) -> bool {
    forall|i: int|
        0 <= i < xs.len() ==> (#[trigger] xs[i]).stats.p95 <= usize::MAX / 2 + 1 && (
        xs[i].recommended matches Some(p) ==> policy_cap_fits(p, xs[i].stats, true))
}

/// Whether a report over these analyses stays within the integer ranges.
pub fn report_fits_exec(xs: &Vec<SiteAnalysis>) -> (r: bool)
    ensures
        r == report_fits(xs@),
{
    let mut i: usize = 0;
    while i < xs.len()
        invariant
            i <= xs@.len(),
            forall|t: int|
                0 <= t < i ==> (#[trigger] xs@[t]).stats.p95 <= usize::MAX / 2 + 1 && (
                xs@[t].recommended matches Some(p) ==> policy_cap_fits(p, xs@[t].stats, true)),
        decreases xs.len() - i,
    {
        let a = &xs[i];
        if a.stats.p95 > usize::MAX / 2 + 1 {
            return false;
        }
        match &a.recommended {
            Some(p) => {
                let sc = scaled_cap(p, &a.stats, true);
                if !rounding_fits_exec(sc, p.cap_round) {
                    return false;
                }
            },
            None => {},
        }
        i = i + 1;
    }
    true
}

fn shape_count_exec(xs: &Vec<SiteAnalysis>, s: SiteShape) -> (r: usize)
    ensures
        r == shape_count(xs@, s),
{
    let mut c: usize = 0;
    let mut i: usize = 0;
    while i < xs.len()
        invariant
            i <= xs.len(),
            c == shape_count(xs@.take(i as int), s),
            c <= i,
        decreases xs.len() - i,
    {
        assert(xs@.take(i + 1).drop_last() =~= xs@.take(i as int));
        if xs[i].shape == s {
            c = c + 1;
        }
        i = i + 1;
    }
    assert(xs@.take(xs.len() as int) =~= xs@);
    c
}

fn push_breakdown(out: &mut Vec<char>, xs: &Vec<SiteAnalysis>, s: SiteShape)
    ensures
        final(out)@ == old(out)@ + breakdown_line(xs@, s),
{
    let ghost before = out@;
    let c = shape_count_exec(xs, s);
    if c > 0 {
        push_str(out, "  ");
        push_str(out, s.label());
        push_str(out, ": ");
        push_dec(out, c as u64);
        push_str(out, "\n");
    }
    assert(out@ =~= before + breakdown_line(xs@, s));
}

/// The title line of a site's block.
pub open spec fn site_title(i: nat, a: SiteAnalysis) -> Seq<char> {
    let st = a.stats;
    "["@ + dec(i + 1) + "] "@ + st.key.file@ + ":"@ + dec(st.key.line as nat) + ":"@ + dec(
        st.key.col as nat,
    ) + " — "@ + shape_label(a.shape) + "\n"@
}

/// The samples line of a site's block.
pub open spec fn site_samples(st: SiteStats) -> Seq<char> {
    "  samples: n="@ + dec(st.count as nat) + ", p50="@ + dec(st.p50 as nat) + ", p95="@ + dec(
        st.p95 as nat,
    ) + ", max="@ + dec(st.peak as nat) + "\n"@
}

/// The current-policy line of a site's block.
pub open spec fn site_current(st: SiteStats) -> Seq<char> {
    "  current global policy: p95×1.0, pow2 → "@ + dec(pow2_ceil(st.p95 as nat)) + "\n"@
}

proof fn lemma_site_text(i: nat, a: SiteAnalysis)
    ensures
        site_text(i, a) == site_title(i, a) + site_samples(a.stats) + site_current(a.stats)
            + recommendation_text(a.recommended, a.stats) + waste_text(a.waste_delta_bytes)
            + "\n"@,
{
    assert(site_text(i, a) =~= site_title(i, a) + site_samples(a.stats) + site_current(a.stats)
        + recommendation_text(a.recommended, a.stats) + waste_text(a.waste_delta_bytes) + "\n"@);
}

fn push_site_title(out: &mut Vec<char>, i: usize, a: &SiteAnalysis)
    requires
        i < usize::MAX,
    ensures
        final(out)@ == old(out)@ + site_title(i as nat, *a),
{
    let ghost before = out@;
    let st = &a.stats;
    push_str(out, "[");
    push_dec(out, (i + 1) as u64);
    push_str(out, "] ");
    push_str(out, st.key.file.as_str());
    push_str(out, ":");
    push_dec(out, st.key.line as u64);
    push_str(out, ":");
    push_dec(out, st.key.col as u64);
    push_str(out, " — ");
    push_str(out, a.shape.label());
    push_str(out, "\n");
    assert(out@ =~= before + site_title(i as nat, *a));
}

fn push_site_samples(out: &mut Vec<char>, st: &SiteStats)
    ensures
        final(out)@ == old(out)@ + site_samples(*st),
{
    let ghost before = out@;
    push_str(out, "  samples: n=");
    push_dec(out, st.count);
    push_str(out, ", p50=");
    push_dec(out, st.p50 as u64);
    push_str(out, ", p95=");
    push_dec(out, st.p95 as u64);
    push_str(out, ", max=");
    push_dec(out, st.peak as u64);
    push_str(out, "\n");
    assert(out@ =~= before + site_samples(*st));
}

fn push_site_current(out: &mut Vec<char>, st: &SiteStats)
    requires
        st.p95 <= usize::MAX / 2 + 1,
    ensures
        final(out)@ == old(out)@ + site_current(*st),
{
    let ghost before = out@;
    push_str(out, "  current global policy: p95×1.0, pow2 → ");
    push_dec(out, round_pow2(st.p95) as u64);
    push_str(out, "\n");
    assert(out@ =~= before + site_current(*st));
}

fn push_recommendation(out: &mut Vec<char>, rec: &Option<PolicyOverride>, st: &SiteStats)
    requires
        *rec matches Some(p) ==> policy_cap_fits(p, *st, true),
    ensures
        final(out)@ == old(out)@ + recommendation_text(*rec, *st),
{
    let ghost before = out@;
    match rec {
        Some(p) => {
            push_str(out, "  recommended: ");
            push_str(out, cap_from_str(p.cap_from));
            if p.cap_mul != 1000 {
                push_str(out, "×");
                push_thousandths(out, p.cap_mul);
            }
            push_str(out, ", ");
            push_str(out, cap_round_str(p.cap_round));
            push_str(out, " → ");
            push_dec(out, policy_cap(p, st, true) as u64);
            push_str(out, "\n");
            push_str(out, "  rationale: ");
            push_str(out, p.rationale.as_str());
            push_str(out, "\n");
        },
        None => {
            push_str(out, "  recommended: (none — global default is optimal)\n");
        },
    }
    assert(out@ =~= before + recommendation_text(*rec, *st));
}

fn push_waste(out: &mut Vec<char>, w: i64)
    ensures
        final(out)@ == old(out)@ + waste_text(w),
{
    let ghost before = out@;
    if w > 0 {
        push_str(out, "  waste estimate: current wastes ~");
        push_idec(out, w);
        push_str(out, "B/call more than recommended\n");
    } else if w < 0 {
        push_str(out, "  waste estimate: recommended saves ");
        push_idec(out, w);
        push_str(out, "B/call (current under-allocates)\n");
    } else {
        push_str(out, "  waste estimate: no change\n");
    }
    assert(out@ =~= before + waste_text(w));
}

fn push_site(out: &mut Vec<char>, i: usize, a: &SiteAnalysis)
    requires
        i < usize::MAX,
        a.stats.p95 <= usize::MAX / 2 + 1,
        a.recommended matches Some(p) ==> policy_cap_fits(p, a.stats, true),
    ensures
        final(out)@ == old(out)@ + site_text(i as nat, *a),
{
    let ghost before = out@;
    push_site_title(out, i, a);
    push_site_samples(out, &a.stats);
    push_site_current(out, &a.stats);
    push_recommendation(out, &a.recommended, &a.stats);
    push_waste(out, a.waste_delta_bytes);
    push_str(out, "\n");
    proof {
        lemma_site_text(i as nat, *a);
    }
    assert(out@ =~= before + site_text(i as nat, *a));
}

/// The analysis report: a header with the site count and the breakdown by
/// shape (in a fixed order, shapes without sites left out), then one block
/// per site with its samples, the current global policy, the
/// recommendation and the waste estimate.
pub fn write_report(analyses: &Vec<SiteAnalysis>, profile_path: &str) -> (r: String)
    requires
        report_fits(analyses@),
    ensures
        r@ == report_text(analyses@, profile_path@),
{
    let mut out: Vec<char> = Vec::new();
    push_str(&mut out, "=== captrack-pgo analyze: ");
    push_str(&mut out, profile_path);
    push_str(&mut out, " ===\n");
    push_str(&mut out, "Total sites: ");
    push_dec(&mut out, analyses.len() as u64);
    push_str(&mut out, "\n");
    push_str(&mut out, "Shape breakdown:\n");
    push_breakdown(&mut out, analyses, SiteShape::UnimodalTight);
    push_breakdown(&mut out, analyses, SiteShape::UnimodalSpread);
    push_breakdown(&mut out, analyses, SiteShape::Bimodal);
    push_breakdown(&mut out, analyses, SiteShape::HeavyTail);
    push_breakdown(&mut out, analyses, SiteShape::MostlyZero);
    push_breakdown(&mut out, analyses, SiteShape::InsufficientData);
    push_str(&mut out, "\n");
    push_str(&mut out, "--- per-site ---\n");
    let ghost head = out@;
    let mut i: usize = 0;
    while i < analyses.len()
        invariant
            i <= analyses.len(),
            report_fits(analyses@),
            out@ == head + sites_text(analyses@, i as nat),
        decreases analyses.len() - i,
    {
        let a = &analyses[i];
        assert(analyses@[i as int] == *a);
        push_site(&mut out, i, a);
        i = i + 1;
    }
    assert(out@ =~= report_text(analyses@, profile_path@));
    string_of(&out)
}

// ───────────────────────── writing policies back ─────────────────────────

/// The analysis whose recommendation goes into profile entry `i`: the last
/// of the first `n` analyses whose entry has the same site and which
/// recommends an override.
pub open spec fn policy_source(analyses: Seq<SiteAnalysis>, keys: Seq<crate::model::SiteKey>, i: int, n: int) -> Option<int>
    decreases n,
{
    if n <= 0 {
        None
    } else if keys[n - 1]@ == keys[i]@ && analyses[n - 1].recommended is Some {
        Some(n - 1)
    } else {
        policy_source(analyses, keys, i, n - 1)
    }
}

/// Which recommendation to write into each profile entry, for a profile of
/// `n_stats` entries whose sites are `keys`, analysed as `analyses` (pairs
/// beyond the shorter list are ignored): for entry `i`, the position of the
/// analysis that supplies its policy, `None` when it gets none.
pub fn policy_sources(analyses: &Vec<SiteAnalysis>, keys: &Vec<crate::model::SiteKey>, n_stats: usize) -> (r: Vec<Option<usize>>)
    ensures
        r@.len() == if n_stats < keys@.len() {
            n_stats as int
        } else {
            keys@.len() as int
        },
        forall|i: int|
            0 <= i < r@.len() ==> #[trigger] r@[i] == match policy_source(
                analyses@,
                keys@,
                i,
                if analyses@.len() < keys@.len() {
                    analyses@.len() as int
                } else {
                    keys@.len() as int
                },
            ) {
                Some(j) => Some(j as usize),
                None => None::<usize>,
            },
{
    let m = if analyses.len() < keys.len() {
        analyses.len()
    } else {
        keys.len()
    };
    let n = if n_stats < keys.len() {
        n_stats
    } else {
        keys.len()
    };
    let mut out: Vec<Option<usize>> = Vec::new();
    let mut i: usize = 0;
    while i < n
        invariant
            i <= n <= keys@.len(),
            m <= analyses@.len(),
            m <= keys@.len(),
            m == if analyses@.len() < keys@.len() {
                analyses@.len() as int
            } else {
                keys@.len() as int
            },
            n == if n_stats < keys@.len() {
                n_stats as int
            } else {
                keys@.len() as int
            },
            out@.len() == i,
            forall|t: int|
                0 <= t < i ==> #[trigger] out@[t] == match policy_source(analyses@, keys@, t, m as int) {
                    Some(j) => Some(j as usize),
                    None => None::<usize>,
                },
        decreases n - i,
    {
        let mut j: usize = m;
        let mut found: Option<usize> = None;
        while j > 0
            invariant_except_break
                found is None,
            invariant
                j <= m <= analyses@.len(),
                m <= keys@.len(),
                i < keys@.len(),
                policy_source(analyses@, keys@, i as int, m as int) == policy_source(
                    analyses@,
                    keys@,
                    i as int,
                    j as int,
                ),
            ensures
                found == match policy_source(analyses@, keys@, i as int, m as int) {
                    Some(jj) => Some(jj as usize),
                    None => None::<usize>,
                },
            decreases j,
        {
            let k = j - 1;
            let same = crate::model::site_key_eq(&keys[k], &keys[i]);
            if same && analyses[k].recommended.is_some() {
                found = Some(k);
                break;
            }
            j = k;
        }
        out.push(found);
        i = i + 1;
    }
    out
}

} // verus!
