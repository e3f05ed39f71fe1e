use elton::benchmark::{aggregate_worker_results, classify_outcome, collect_results, request_parts};
use elton::types::{ContentType, CreateTest, HttpMethods, Test, TestResult};

fn ok_outcome(second: i64, code: u16, time: u64) -> Test {
    Test {
        second,
        error_code: None,
        response_code: Some(code),
        response_time: time,
    }
}

fn err_outcome(second: i64, description: &str, time: u64) -> Test {
    Test {
        second,
        error_code: Some(description.to_string()),
        response_code: None,
        response_time: time,
    }
}

#[test]
fn classify_response_keeps_the_code() {
    let t = classify_outcome(2, 7, Ok(404));
    assert_eq!(t.second, 2);
    assert_eq!(t.response_time, 7);
    assert_eq!(t.response_code, Some(404));
    assert_eq!(t.error_code, None);
}

#[test]
fn classify_failure_keeps_the_description() {
    let t = classify_outcome(0, 3, Err("connection refused".to_string()));
    assert_eq!(t.second, 0);
    assert_eq!(t.response_time, 3);
    assert_eq!(t.response_code, None);
    assert_eq!(t.error_code, Some("connection refused".to_string()));
}

#[test]
fn aggregate_emits_one_summary_per_second() {
    let outcomes = vec![
        ok_outcome(0, 200, 1),
        ok_outcome(0, 200, 3),
        ok_outcome(1, 500, 5),
        ok_outcome(3, 200, 7),
    ];
    let summaries = aggregate_worker_results(&outcomes, 5);
    assert_eq!(summaries.len(), 5);
    for (k, s) in summaries.iter().enumerate() {
        assert_eq!(s.second, k as i64);
    }
    assert_eq!(summaries[0].requests, 2);
    assert_eq!(summaries[0].response_codes, vec![200, 200]);
    assert_eq!(summaries[0].avg_response_time, 2);
    assert_eq!(summaries[1].requests, 1);
    assert_eq!(summaries[1].response_codes, vec![500]);
    assert_eq!(summaries[1].avg_response_time, 5);
    assert_eq!(summaries[2].requests, 0);
    assert_eq!(summaries[3].requests, 1);
    assert_eq!(summaries[4].requests, 0);
}

#[test]
fn aggregate_empty_bucket_is_zeroed_not_undefined() {
    let outcomes = vec![ok_outcome(0, 200, 9)];
    let summaries = aggregate_worker_results(&outcomes, 2);
    assert_eq!(summaries.len(), 2);
    let empty = &summaries[1];
    assert_eq!(empty.requests, 0);
    assert_eq!(empty.avg_response_time, 0);
    assert!(empty.response_codes.is_empty());
    assert!(empty.error_codes.is_empty());
}

#[test]
fn aggregate_discards_outcomes_outside_the_window() {
    let outcomes = vec![ok_outcome(0, 200, 1), ok_outcome(10, 200, 1), ok_outcome(-1, 200, 1)];
    let summaries = aggregate_worker_results(&outcomes, 2);
    assert_eq!(summaries.len(), 2);
    assert_eq!(summaries[0].requests, 1);
    assert_eq!(summaries[1].requests, 0);
}

#[test]
fn aggregate_of_refused_connections_counts_attempts_without_codes() {
    let outcomes = vec![
        err_outcome(0, "connection refused", 0),
        err_outcome(0, "connection refused", 0),
        err_outcome(1, "connection refused", 0),
    ];
    let summaries = aggregate_worker_results(&outcomes, 2);
    assert_eq!(summaries.len(), 2);
    for s in &summaries {
        assert!(s.requests > 0);
        assert!(s.response_codes.is_empty());
        assert_eq!(s.error_codes.len(), s.requests as usize);
        for e in &s.error_codes {
            assert_eq!(e, "connection refused");
        }
    }
}

#[test]
fn aggregate_zero_seconds_emits_nothing() {
    let outcomes = vec![ok_outcome(0, 200, 1)];
    let summaries = aggregate_worker_results(&outcomes, 0);
    assert!(summaries.is_empty());
}

fn summary(second: i64, requests: i64) -> TestResult {
    TestResult {
        second,
        error_codes: vec![],
        response_codes: vec![200; requests as usize],
        requests,
        avg_response_time: 1,
    }
}

#[test]
fn collect_groups_one_worker_into_ascending_keys() {
    let outcomes = vec![
        ok_outcome(0, 200, 1),
        ok_outcome(1, 200, 1),
        ok_outcome(4, 200, 1),
    ];
    let summaries = aggregate_worker_results(&outcomes, 5);
    assert_eq!(summaries.len(), 5);
    let grouped = collect_results(summaries, 1, 5);
    assert_eq!(grouped.len(), 5);
    for (k, (second, per_worker)) in grouped.iter().enumerate() {
        assert_eq!(*second, k as i64);
        assert_eq!(per_worker.len(), 1);
        assert_eq!(per_worker[0].second, k as i64);
    }
}

#[test]
fn collect_drains_tasks_times_seconds_summaries() {
    let worker_a = aggregate_worker_results(&vec![ok_outcome(0, 200, 2)], 3);
    let worker_b = aggregate_worker_results(&vec![ok_outcome(2, 500, 4)], 3);
    assert_eq!(worker_a.len() + worker_b.len(), 2 * 3);
    // The channel may interleave the workers' summaries in any order.
    let mut stream = Vec::new();
    stream.push(worker_b[0].clone());
    stream.push(worker_a[0].clone());
    stream.push(worker_a[1].clone());
    stream.push(worker_b[1].clone());
    stream.push(worker_b[2].clone());
    stream.push(worker_a[2].clone());
    let grouped = collect_results(stream, 2, 3);
    assert_eq!(grouped.len(), 3);
    let mut total = 0;
    for (k, (second, per_worker)) in grouped.iter().enumerate() {
        assert_eq!(*second, k as i64);
        assert_eq!(per_worker.len(), 2);
        total += per_worker.len();
    }
    assert_eq!(total, 2 * 3);
}

#[test]
fn collect_keeps_arrival_order_within_a_key() {
    let first = summary(0, 1);
    let second = summary(0, 2);
    let grouped = collect_results(vec![first, second], 2, 1);
    assert_eq!(grouped.len(), 1);
    assert_eq!(grouped[0].1[0].requests, 1);
    assert_eq!(grouped[0].1[1].requests, 2);
}

#[test]
fn collect_zero_tasks_returns_empty() {
    let grouped = collect_results(vec![], 0, 5);
    assert!(grouped.is_empty());
}

#[test]
fn collect_zero_seconds_returns_empty() {
    let grouped = collect_results(vec![summary(0, 1)], 5, 0);
    assert!(grouped.is_empty());
}

#[test]
fn get_request_carries_no_payload() {
    let test = CreateTest {
        method: HttpMethods::GET,
        tasks: 1,
        seconds: 1,
        start_at: None,
        url: "http://localhost:3000/foo".to_string(),
        content_type: Some(ContentType::JSON),
        body: Some("ignored".to_string()),
    };
    let parts = request_parts(&test);
    assert_eq!(parts.method, HttpMethods::GET);
    assert_eq!(parts.url, "http://localhost:3000/foo");
    assert_eq!(parts.content_type, None);
    assert_eq!(parts.body, None);
}

#[test]
fn post_request_carries_declared_payload() {
    let test = CreateTest {
        method: HttpMethods::POST,
        tasks: 1,
        seconds: 1,
        start_at: None,
        url: "http://localhost:3000/foo".to_string(),
        content_type: Some(ContentType::JSON),
        body: Some("{\"a\":1}".to_string()),
    };
    let parts = request_parts(&test);
    assert_eq!(parts.method, HttpMethods::POST);
    assert_eq!(parts.content_type, Some("application/json".to_string()));
    assert_eq!(parts.body, Some("{\"a\":1}".to_string()));
}
