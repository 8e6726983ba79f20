use rbench::outcome::RequestResult;
use rbench::reduce::{max_samples, min_samples, sorted_copy, sum_samples};
use rbench::stats::RunStats;

fn stats_with_samples(samples: &[u64]) -> RunStats {
    let mut s = RunStats::new();
    for &d in samples {
        s.add_result(&RequestResult::from_response(200, d));
    }
    s
}

#[test]
fn sorted_copy_orders_ascending() {
    let v = vec![30u64, 10, 50, 20, 40, 10];
    let r = sorted_copy(&v);
    assert_eq!(r, vec![10, 10, 20, 30, 40, 50]);
}

#[test]
fn percentile_rank_formula_exact() {
    // ten samples: rank = ceil(p*10/100) - 1 in ascending order
    let s = stats_with_samples(&[100, 90, 80, 70, 60, 50, 40, 30, 20, 10]);
    assert_eq!(s.calculate_percentile(50), 50);
    assert_eq!(s.calculate_percentile(75), 80);
    assert_eq!(s.calculate_percentile(90), 90);
    assert_eq!(s.calculate_percentile(95), 100);
    assert_eq!(s.calculate_percentile(99), 100);
    assert_eq!(s.calculate_percentile(100), 100);
    assert_eq!(s.calculate_percentile(1), 10);
}

#[test]
fn percentile_of_single_sample_is_that_sample() {
    let s = stats_with_samples(&[7_000]);
    assert_eq!(s.calculate_percentile(50), 7_000);
    assert_eq!(s.calculate_percentile(99), 7_000);
}

#[test]
fn percentile_of_empty_sample_set_is_zero() {
    let s = RunStats::new();
    assert_eq!(s.calculate_percentile(50), 0);
    assert_eq!(s.calculate_percentile(99), 0);
}

#[test]
fn percentiles_are_monotone() {
    let s = stats_with_samples(&[3, 1, 4, 1, 5, 9, 2, 6, 5, 3, 5, 8]);
    let p50 = s.calculate_percentile(50);
    let p75 = s.calculate_percentile(75);
    let p90 = s.calculate_percentile(90);
    let p95 = s.calculate_percentile(95);
    let p99 = s.calculate_percentile(99);
    let max = max_samples(&s.response_times);
    let min = min_samples(&s.response_times);
    assert!(min <= p50);
    assert!(p50 <= p75);
    assert!(p75 <= p90);
    assert!(p90 <= p95);
    assert!(p95 <= p99);
    assert!(p99 <= max);
}

#[test]
fn sample_summaries() {
    let v = vec![4u64, 9, 2, 7];
    assert_eq!(sum_samples(&v), 22);
    assert_eq!(min_samples(&v), 2);
    assert_eq!(max_samples(&v), 9);
}
