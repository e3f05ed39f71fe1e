use elton::report::{build_result_row, decimal_string, join_commas, TestResultsRow, TestRow, TestWithResults};
use elton::types::TestResult;

#[test]
fn decimal_writing_of_zero() {
    assert_eq!(decimal_string(0), "0");
}

#[test]
fn decimal_writing_of_a_status_code() {
    assert_eq!(decimal_string(200), "200");
    assert_eq!(decimal_string(404), "404");
}

#[test]
fn decimal_writing_of_a_large_number() {
    assert_eq!(decimal_string(1234567890), "1234567890");
}

#[test]
fn joining_nothing_is_empty() {
    assert_eq!(join_commas(&vec![]), "");
}

#[test]
fn joining_one_part_adds_no_comma() {
    assert_eq!(join_commas(&vec!["timeout".to_string()]), "timeout");
}

#[test]
fn joining_puts_a_comma_between_neighbours() {
    let parts = vec!["200".to_string(), "404".to_string(), "500".to_string()];
    assert_eq!(join_commas(&parts), "200,404,500");
}

fn worker_summary(
    second: i64,
    requests: i64,
    codes: Vec<u16>,
    errors: Vec<&str>,
    avg: u64,
) -> TestResult {
    TestResult {
        second,
        error_codes: errors.into_iter().map(|e| e.to_string()).collect(),
        response_codes: codes,
        requests,
        avg_response_time: avg,
    }
}

#[test]
fn reducing_one_second_across_workers() {
    let results = vec![
        worker_summary(1, 3, vec![200, 404], vec!["timeout"], 10),
        worker_summary(1, 2, vec![500], vec!["refused", "reset"], 20),
    ];
    let row = build_result_row("row".to_string(), "test".to_string(), 1, &results)
        .expect("the totals fit");
    assert_eq!(row.id, "row");
    assert_eq!(row.test_id, "test");
    assert_eq!(row.second, 1);
    assert_eq!(row.requests, 5);
    assert_eq!(row.avg_response_time, 15);
    assert_eq!(row.error_codes, "timeout,refused,reset");
    assert_eq!(row.response_codes, "200,404,500");
}

#[test]
fn reducing_no_workers_gives_an_empty_row() {
    let row = build_result_row("row".to_string(), "test".to_string(), 0, &vec![])
        .expect("nothing to overflow");
    assert_eq!(row.requests, 0);
    assert_eq!(row.avg_response_time, 0);
    assert_eq!(row.error_codes, "");
    assert_eq!(row.response_codes, "");
}

#[test]
fn a_mean_latency_too_large_for_the_row_is_refused() {
    let results = vec![worker_summary(0, 1, vec![200], vec![], u64::MAX)];
    assert!(build_result_row("row".to_string(), "test".to_string(), 0, &results).is_none());
}

#[test]
fn a_request_total_too_large_for_the_row_is_refused() {
    let results = vec![
        worker_summary(0, i64::MAX, vec![], vec![], 0),
        worker_summary(0, 1, vec![], vec![], 0),
    ];
    assert!(build_result_row("row".to_string(), "test".to_string(), 0, &results).is_none());
}

#[test]
fn a_test_and_its_rows_travel_together() {
    let test = TestRow {
        id: "t1".to_string(),
        url: "http://localhost:3000/foo".to_string(),
        method: "GET".to_string(),
        content_type: "application/json".to_string(),
        status: "FINISHED".to_string(),
        body: None,
        created_at: "2024-01-01 00:00:00".to_string(),
        finished_at: Some("2024-01-01 00:00:10".to_string()),
    };
    let rows = vec![TestResultsRow {
        id: "r1".to_string(),
        test_id: "t1".to_string(),
        second: 0,
        requests: 12,
        error_codes: "".to_string(),
        response_codes: "200,200".to_string(),
        avg_response_time: 3,
    }];
    let combined = TestWithResults::from_parts(test, rows);
    assert_eq!(combined.id, "t1");
    assert_eq!(combined.status, "FINISHED");
    assert_eq!(combined.results.len(), 1);
    assert_eq!(combined.results[0].requests, 12);
}
