//! The benchmark report: a derived, immutable snapshot of a finalized run.
//!
//! All quantities are integers. Durations are nanoseconds; the success
//! rate is in basis points (hundredths of a percent, rounded down);
//! throughput is in thousandths of a request per second (rounded down,
//! saturating). Rates guard a zero denominator explicitly and reduce to
//! zero instead of propagating an undefined value.

use vstd::prelude::*;
use crate::reduce::{avg_of, max_or_zero, min_or_zero, percentile_of, rate_bp, qps_milli};
use crate::reduce::{max_samples, min_samples, sum_samples, sum_of, lemma_sum_bound};
use crate::stats::RunStats;

verus! {

/// The flat record handed to report consumers for printing and export.
#[derive(PartialEq, Eq, Structural, Clone, Copy, Debug)]
pub struct BenchmarkReport {
    pub total_requests: u64,
    pub successful_requests: u64,
    pub failed_requests: u64,
    pub success_rate_bp: u64,
    pub total_duration_ns: u64,
    pub avg_response_time_ns: u64,
    pub min_response_time_ns: u64,
    pub max_response_time_ns: u64,
    pub p50_ns: u64,
    pub p75_ns: u64,
    pub p90_ns: u64,
    pub p95_ns: u64,
    pub p99_ns: u64,
    pub qps_milli: u64,
}

impl RunStats {
    /// Reduce a finalized run into its report: pure arithmetic over the
    /// accumulated counters and latency samples.
    pub fn to_report(&self) -> (r: BenchmarkReport)
        requires
            self.wf(),
        ensures
            r.total_requests == self.total_requests,
            r.successful_requests == self.successful_requests,
            r.failed_requests == self.failed_requests,
            r.success_rate_bp == rate_bp(
                self.successful_requests as int,
                self.total_requests as int,
            ),
            r.total_duration_ns == self.total_duration_ns,
            r.avg_response_time_ns == avg_of(self.response_times@),
            r.min_response_time_ns == min_or_zero(self.response_times@),
            r.max_response_time_ns == max_or_zero(self.response_times@),
            r.p50_ns == percentile_of(self.response_times@, 50),
            r.p75_ns == percentile_of(self.response_times@, 75),
            r.p90_ns == percentile_of(self.response_times@, 90),
            r.p95_ns == percentile_of(self.response_times@, 95),
            r.p99_ns == percentile_of(self.response_times@, 99),
            r.qps_milli == qps_milli(
                self.successful_requests as int,
                self.total_duration_ns as int,
            ),
    {
        let total = self.total_requests;
        let ok = self.successful_requests;
        let n = self.response_times.len();

        let success_rate_bp: u64 = if total == 0 {
            0
        } else {
            let q: u128 = ok as u128 * 10000 / total as u128;
            proof {
                assert(ok as int * 10000 / total as int <= 10000) by (nonlinear_arith)
                    requires
                        0 <= ok <= total,
                        total >= 1,
                ;
            }
            q as u64
        };

        let avg_response_time_ns: u64 = if n == 0 {
            0
        } else {
            let total_ns = sum_samples(&self.response_times);
            proof {
                lemma_sum_bound(self.response_times@);
                assert(sum_of(self.response_times@) / n as int <= 0xFFFF_FFFF_FFFF_FFFFu64)
                    by (nonlinear_arith)
                    requires
                        n >= 1,
                        0 <= sum_of(self.response_times@) <= n as int * 0xFFFF_FFFF_FFFF_FFFFu64,
                ;
            }
            (total_ns / n as u128) as u64
        };

        let min_response_time_ns: u64 = if n == 0 {
            0
        } else {
            min_samples(&self.response_times)
        };
        let max_response_time_ns: u64 = if n == 0 {
            0
        } else {
            max_samples(&self.response_times)
        };

        let qps_milli_v: u64 = if self.total_duration_ns == 0 {
            0
        } else {
            let q: u128 = ok as u128 * 1_000_000_000_000u128 / self.total_duration_ns as u128;
            if q > 0xFFFF_FFFF_FFFF_FFFFu128 {
                0xFFFF_FFFF_FFFF_FFFFu64
            } else {
                q as u64
            }
        };

        BenchmarkReport {
            total_requests: total,
            successful_requests: ok,
            failed_requests: self.failed_requests,
            success_rate_bp,
            total_duration_ns: self.total_duration_ns,
            avg_response_time_ns,
            min_response_time_ns,
            max_response_time_ns,
            p50_ns: self.calculate_percentile(50),
            p75_ns: self.calculate_percentile(75),
            p90_ns: self.calculate_percentile(90),
            p95_ns: self.calculate_percentile(95),
            p99_ns: self.calculate_percentile(99),
            qps_milli: qps_milli_v,
        }
    }
}

/// A run with zero successful requests reduces to zero for every
/// percentile, the average, the least and greatest sample, the success
/// rate and the throughput — never to an undefined value.
pub proof fn lemma_empty_sample_reduction(s: RunStats, p: int)
    requires
        s.wf(),
        s.successful_requests == 0,
        0 < p <= 100,
    ensures
        percentile_of(s.response_times@, p) == 0,
        avg_of(s.response_times@) == 0,
        min_or_zero(s.response_times@) == 0,
        max_or_zero(s.response_times@) == 0,
        rate_bp(s.successful_requests as int, s.total_requests as int) == 0,
        qps_milli(s.successful_requests as int, s.total_duration_ns as int) == 0,
{
    assert(s.response_times@.len() == 0);
}

} // verus!
