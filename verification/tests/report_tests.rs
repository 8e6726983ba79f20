use rbench::outcome::RequestResult;
use rbench::stats::RunStats;

#[test]
fn steady_success_scenario() {
    // target answers 200 OK in a fixed 10 ms; 50 requests at concurrency 5
    // take ten waves of 10 ms, so the run lasts 100 ms in total
    let mut s = RunStats::new();
    for _ in 0..50 {
        s.add_result(&RequestResult::from_response(200, 10_000_000));
    }
    s.set_total_duration(100_000_000);
    let r = s.to_report();
    assert_eq!(r.total_requests, 50);
    assert_eq!(r.successful_requests, 50);
    assert_eq!(r.failed_requests, 0);
    assert_eq!(r.success_rate_bp, 10_000);
    assert_eq!(r.p50_ns, 10_000_000);
    assert_eq!(r.p99_ns, 10_000_000);
    assert_eq!(r.avg_response_time_ns, 10_000_000);
    assert_eq!(r.min_response_time_ns, 10_000_000);
    assert_eq!(r.max_response_time_ns, 10_000_000);
    // 50 successes in 0.1 s: 500 requests per second
    assert_eq!(r.qps_milli, 500_000);
}

#[test]
fn unreachable_target_scenario() {
    // connection refused for every request: 20 requests at concurrency 4
    let mut s = RunStats::new();
    for _ in 0..20 {
        s.add_result(&RequestResult::from_error(String::from("connection refused"), 50_000));
    }
    s.set_total_duration(2_000_000);
    let r = s.to_report();
    assert_eq!(r.total_requests, 20);
    assert_eq!(r.successful_requests, 0);
    assert_eq!(r.failed_requests, 20);
    assert_eq!(r.success_rate_bp, 0);
    assert_eq!(r.p50_ns, 0);
    assert_eq!(r.p75_ns, 0);
    assert_eq!(r.p90_ns, 0);
    assert_eq!(r.p95_ns, 0);
    assert_eq!(r.p99_ns, 0);
    assert_eq!(r.avg_response_time_ns, 0);
    assert_eq!(r.min_response_time_ns, 0);
    assert_eq!(r.max_response_time_ns, 0);
    assert_eq!(r.qps_milli, 0);
}

#[test]
fn empty_run_reduces_to_zero_everywhere() {
    let s = RunStats::new();
    let r = s.to_report();
    assert_eq!(r.total_requests, 0);
    assert_eq!(r.success_rate_bp, 0);
    assert_eq!(r.qps_milli, 0);
    assert_eq!(r.avg_response_time_ns, 0);
    assert_eq!(r.p50_ns, 0);
}

#[test]
fn mixed_run_report_fields() {
    let mut s = RunStats::new();
    s.add_result(&RequestResult::from_response(200, 10));
    s.add_result(&RequestResult::from_response(200, 30));
    s.add_result(&RequestResult::from_response(503, 99));
    s.add_result(&RequestResult::from_error(String::from("tls handshake failed"), 5));
    s.set_total_duration(1_000_000_000);
    let r = s.to_report();
    assert_eq!(r.total_requests, 4);
    assert_eq!(r.successful_requests, 2);
    assert_eq!(r.failed_requests, 2);
    // 2 of 4 in basis points
    assert_eq!(r.success_rate_bp, 5_000);
    assert_eq!(r.avg_response_time_ns, 20);
    assert_eq!(r.min_response_time_ns, 10);
    assert_eq!(r.max_response_time_ns, 30);
    assert_eq!(r.p50_ns, 10);
    assert_eq!(r.p99_ns, 30);
    // 2 successes in 1 s
    assert_eq!(r.qps_milli, 2_000);
}

#[test]
fn zero_duration_guards_throughput() {
    let mut s = RunStats::new();
    s.add_result(&RequestResult::from_response(200, 10));
    let r = s.to_report();
    assert_eq!(r.total_duration_ns, 0);
    assert_eq!(r.qps_milli, 0);
}
