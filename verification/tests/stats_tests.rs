use rbench::outcome::{select_method, RequestMethod, RequestResult};
use rbench::stats::RunStats;

#[test]
fn method_follows_body() {
    assert_eq!(select_method(true), RequestMethod::Post);
    assert_eq!(select_method(false), RequestMethod::Get);
}

#[test]
fn new_stats_are_empty() {
    let s = RunStats::new();
    assert_eq!(s.total_requests, 0);
    assert_eq!(s.successful_requests, 0);
    assert_eq!(s.failed_requests, 0);
    assert_eq!(s.total_duration_ns, 0);
    assert!(s.response_times.is_empty());
}

#[test]
fn add_result_counts_once_each() {
    let mut s = RunStats::new();
    s.add_result(&RequestResult::from_response(200, 5_000_000));
    s.add_result(&RequestResult::from_response(404, 7_000_000));
    s.add_result(&RequestResult::from_error(String::from("connection refused"), 1_000_000));
    s.add_result(&RequestResult::from_response(204, 2_000_000));
    assert_eq!(s.total_requests, 4);
    assert_eq!(s.successful_requests, 2);
    assert_eq!(s.failed_requests, 2);
    // accounting: total == successes + failures, one sample per success
    assert_eq!(s.total_requests, s.successful_requests + s.failed_requests);
    assert_eq!(s.response_times.len() as u64, s.successful_requests);
    assert_eq!(s.response_times, vec![5_000_000, 2_000_000]);
}

#[test]
fn classification_follows_status_range() {
    let ok = RequestResult::from_response(299, 10);
    assert!(ok.success);
    assert_eq!(ok.status_code, Some(299));
    assert_eq!(ok.error, None);

    let low = RequestResult::from_response(199, 10);
    assert!(!low.success);
    assert_eq!(low.status_code, Some(199));

    let high = RequestResult::from_response(300, 10);
    assert!(!high.success);

    let err = RequestResult::from_error(String::from("timeout"), 42);
    assert!(!err.success);
    assert_eq!(err.status_code, None);
    assert_eq!(err.error, Some(String::from("timeout")));
    assert_eq!(err.duration_ns, 42);
}

#[test]
fn from_results_folds_whole_run() {
    let results = vec![
        RequestResult::from_response(200, 30),
        RequestResult::from_error(String::from("refused"), 9),
        RequestResult::from_response(201, 10),
        RequestResult::from_response(500, 80),
    ];
    let s = RunStats::from_results(&results, 1_000);
    assert_eq!(s.total_requests, 4);
    assert_eq!(s.successful_requests, 2);
    assert_eq!(s.failed_requests, 2);
    assert_eq!(s.response_times, vec![30, 10]);
    assert_eq!(s.total_duration_ns, 1_000);
}

#[test]
fn finalize_stamps_duration() {
    let mut s = RunStats::new();
    s.set_total_duration(123_456_789);
    assert_eq!(s.total_duration_ns, 123_456_789);
}
