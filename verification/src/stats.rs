//! Summary statistics of a capacity-samples list.
//!
//! Counts, extremes, the exact sum and nearest-rank percentiles are
//! integers and are computed here; the mean is offered in thousandths.
//! Capacity samples are heavily right-skewed, so the percentiles, which
//! are always observed values, are what a capacity should be chosen from.
use vstd::prelude::*;
use crate::samples::{percentile, percentile_spec, sort_samples, sorted_spec, sum, sum_exec};

verus! {

/// Summary of a non-empty samples list.
#[derive(Debug, Clone, Copy, PartialEq, Eq)]
pub struct SampleStats {
    /// Number of samples.
    pub count: usize,
    /// Smallest sample.
    pub min: usize,
    /// Largest sample.
    pub max: usize,
    /// Sum of the samples.
    pub sum: u128,
    /// 50th percentile (nearest rank: the lower median for an even count).
    pub median: usize,
    /// 90th percentile (nearest rank).
    pub p90: usize,
    /// 95th percentile (nearest rank).
    pub p95: usize,
    /// 99th percentile (nearest rank).
    pub p99: usize,
}

/// The summary of samples given in ascending order.
pub open spec fn stats_of_sorted(s: Seq<usize>) -> SampleStats {
    SampleStats {
        count: s.len() as usize,
        min: s[0],
        max: s[s.len() - 1],
        sum: sum(s) as u128,
        median: percentile_spec(s, 50),
        p90: percentile_spec(s, 90),
        p95: percentile_spec(s, 95),
        p99: percentile_spec(s, 99),
    }
}

/// The summary of any samples: `None` when there are none.
pub open spec fn stats_of(s: Seq<usize>) -> Option<SampleStats> {
    if s.len() == 0 {
        None
    } else {
        Some(stats_of_sorted(sorted_spec(s)))
    }
}

/// The mean of `sum` over `count` samples in thousandths, rounded down.
pub open spec fn mean_thousandths_spec(sum: u128, count: usize) -> int {
    (sum as int * 1000) / (count as int)
}

proof fn lemma_sum_bound(s: Seq<usize>)
    ensures
        sum(s) <= s.len() * 0xffff_ffff_ffff_ffffu128,
    decreases s.len(),
{
    if s.len() > 0 {
        lemma_sum_bound(s.drop_last());
    }
}

proof fn lemma_mean_split(total: int, n: int)
    requires
        n > 0,
        total >= 0,
    ensures
        (total * 1000) / n == (total / n) * 1000 + ((total % n) * 1000) / n,
{
    let q = total / n;
    let r = total % n;
    assert(total == q * n + r) by (nonlinear_arith)
        requires
            n > 0,
            q == total / n,
            r == total % n,
    ;
    assert(total * 1000 == (q * 1000) * n + r * 1000) by (nonlinear_arith)
        requires
            total == q * n + r,
    ;
    assert((total * 1000) / n == q * 1000 + (r * 1000) / n) by (nonlinear_arith)
        requires
            total * 1000 == (q * 1000) * n + r * 1000,
            n > 0,
            r >= 0,
    ;
}

impl SampleStats {
    /// The summary of samples already in ascending order; the sort is
    /// skipped.
    pub fn from_sorted_samples(sorted: &[usize]) -> (r: SampleStats)
        requires
            sorted@.len() > 0,
        ensures
            r == stats_of_sorted(sorted@),
            r.count > 0,
            r.sum <= r.count * 0xffff_ffff_ffff_ffffu128,
    {
        let count = sorted.len();
        proof {
            lemma_sum_bound(sorted@);
            assert(count * 0xffff_ffff_ffff_ffffu128 <= 0xffff_ffff_ffff_ffffu128
                * 0xffff_ffff_ffff_ffffu128) by (nonlinear_arith)
                requires
                    count <= 0xffff_ffff_ffff_ffffu128,
            ;
        }
        SampleStats {
            count,
            min: sorted[0],
            max: sorted[count - 1],
            sum: sum_exec(sorted),
            median: percentile(sorted, 50),
            p90: percentile(sorted, 90),
            p95: percentile(sorted, 95),
            p99: percentile(sorted, 99),
        }
    }

    /// The summary of the samples, in any order; `None` for an empty list.
    pub fn from_samples(samples: &[usize]) -> (r: Option<SampleStats>)
        ensures
            r == stats_of(samples@),
            r matches Some(st) ==> st.count > 0 && st.sum <= st.count * 0xffff_ffff_ffff_ffffu128,
    {
        if samples.len() == 0 {
            return None;
        }
        let sorted = sort_samples(samples);
        Some(SampleStats::from_sorted_samples(sorted.as_slice()))
    }

    /// The arithmetic mean in thousandths, rounded down.
    pub fn mean_thousandths(&self) -> (r: u128)
        requires
            self.count > 0,
            self.sum <= self.count * 0xffff_ffff_ffff_ffffu128,
        ensures
            r == mean_thousandths_spec(self.sum, self.count),
    {
        let n = self.count as u128;
        let q = self.sum / n;
        let rem = self.sum % n;
        assert(q <= 0xffff_ffff_ffff_ffffu128) by (nonlinear_arith)
            requires
                q == self.sum / n,
                n > 0,
                self.sum <= n * 0xffff_ffff_ffff_ffffu128,
        ;
        assert(rem < n);
        assert(rem * 1000 <= 0xffff_ffff_ffff_ffffu128 * 1000) by (nonlinear_arith)
            requires
                rem < n,
                n <= 0xffff_ffff_ffff_ffffu128,
        ;
        proof {
            lemma_mean_split(self.sum as int, n as int);
        }
        q * 1000 + (rem * 1000) / n
    }
}

} // verus!
