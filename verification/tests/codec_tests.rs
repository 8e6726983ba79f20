use rbench::codec::{report_from_csv, report_from_json, report_to_csv, report_to_json};
use rbench::report::BenchmarkReport;

fn sample_report() -> BenchmarkReport {
    BenchmarkReport {
        total_requests: 4,
        successful_requests: 2,
        failed_requests: 2,
        success_rate_bp: 5_000,
        total_duration_ns: 1_000_000_000,
        avg_response_time_ns: 20,
        min_response_time_ns: 10,
        max_response_time_ns: 30,
        p50_ns: 10,
        p75_ns: 30,
        p90_ns: 30,
        p95_ns: 30,
        p99_ns: 30,
        qps_milli: 2_000,
    }
}

#[test]
fn json_text_is_exact() {
    let json = report_to_json(&sample_report());
    assert_eq!(
        json,
        "{\"total_requests\":4,\"successful_requests\":2,\"failed_requests\":2,\
         \"success_rate_bp\":5000,\"total_duration_ns\":1000000000,\
         \"avg_response_time_ns\":20,\"min_response_time_ns\":10,\
         \"max_response_time_ns\":30,\"p50_ns\":10,\"p75_ns\":30,\"p90_ns\":30,\
         \"p95_ns\":30,\"p99_ns\":30,\"qps_milli\":2000}"
    );
}

#[test]
fn json_round_trip_reproduces_fields() {
    let r = sample_report();
    let json = report_to_json(&r);
    assert_eq!(report_from_json(&json), Some(r));
}

#[test]
fn csv_round_trip_reproduces_fields() {
    let r = sample_report();
    let csv = report_to_csv(&r);
    assert!(csv.starts_with("total_requests,successful_requests,"));
    assert!(csv.ends_with("\n"));
    assert_eq!(report_from_csv(&csv), Some(r));
}

#[test]
fn round_trip_at_extreme_values() {
    let mut r = sample_report();
    r.total_requests = u64::MAX;
    r.qps_milli = u64::MAX;
    r.p99_ns = 0;
    assert_eq!(report_from_json(&report_to_json(&r)), Some(r));
    assert_eq!(report_from_csv(&report_to_csv(&r)), Some(r));
}

#[test]
fn malformed_exports_are_rejected() {
    assert_eq!(report_from_json(""), None);
    assert_eq!(report_from_json("{}"), None);
    let json = report_to_json(&sample_report());
    // truncated
    assert_eq!(report_from_json(&json[..json.len() - 1]), None);
    // trailing garbage
    assert_eq!(report_from_json(&format!("{} ", json)), None);
    // a field name misspelt
    assert_eq!(report_from_json(&json.replace("p50_ns", "p51_ns")), None);
    // a value that outgrows u64
    assert_eq!(
        report_from_json(&json.replace("\"qps_milli\":2000", "\"qps_milli\":99999999999999999999")),
        None
    );
    assert_eq!(report_from_csv(""), None);
    assert_eq!(report_from_csv("total_requests\n1\n"), None);
}
