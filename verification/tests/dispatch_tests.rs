use rbench::dispatch::{select_mode, Dispatcher, Mode};
use rbench::outcome::RequestResult;

#[test]
fn timelimit_wins_mode_selection() {
    assert_eq!(select_mode(100, None), Mode::Count(100));
    // a configured duration makes the request count irrelevant
    assert_eq!(select_mode(100, Some(30)), Mode::TimeLimit(30));
    assert_eq!(select_mode(0, Some(30)), Mode::TimeLimit(30));
}

#[test]
fn count_mode_launches_exactly_n() {
    let mut d = Dispatcher::new(Mode::Count(5), 2);
    // drive the loop: launch behind a free permit, complete when no
    // permit is free
    while d.should_launch(0) {
        while !d.has_capacity() {
            d.record_result(&RequestResult::from_response(200, 1_000));
        }
        d.record_launch();
    }
    while !d.drained() {
        d.record_result(&RequestResult::from_response(200, 1_000));
    }
    let s = d.into_stats(9_000);
    assert_eq!(s.total_requests, 5);
    assert_eq!(s.successful_requests, 5);
    assert_eq!(s.failed_requests, 0);
    assert_eq!(s.total_duration_ns, 9_000);
}

#[test]
fn time_mode_stops_launching_at_deadline() {
    let d = Dispatcher::new(Mode::TimeLimit(2), 4);
    assert!(d.should_launch(0));
    assert!(d.should_launch(1_999_999_999));
    assert!(!d.should_launch(2_000_000_000));
    assert!(!d.should_launch(u64::MAX));
}

#[test]
fn capacity_gates_in_flight_requests() {
    let mut d = Dispatcher::new(Mode::Count(10), 2);
    assert!(d.has_capacity());
    d.record_launch();
    assert!(d.has_capacity());
    d.record_launch();
    // two in flight at concurrency two: no permit is free
    assert!(!d.has_capacity());
    d.record_result(&RequestResult::from_response(200, 5));
    assert!(d.has_capacity());
}

#[test]
fn results_feed_statistics() {
    let mut d = Dispatcher::new(Mode::Count(3), 3);
    d.record_launch();
    d.record_launch();
    d.record_launch();
    d.record_result(&RequestResult::from_response(200, 11));
    d.record_result(&RequestResult::from_error(String::from("refused"), 3));
    d.record_result(&RequestResult::from_response(500, 7));
    assert!(d.drained());
    let s = d.into_stats(100);
    assert_eq!(s.total_requests, 3);
    assert_eq!(s.successful_requests, 1);
    assert_eq!(s.failed_requests, 2);
    assert_eq!(s.response_times, vec![11]);
}
