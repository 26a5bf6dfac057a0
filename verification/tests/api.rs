use stmo_cli::api::{next_page, poll_step, ExecutionError, PollStep};
use stmo_cli::models::Job;

fn job(status: u8, result: Option<u64>, error: Option<&str>) -> Job {
    Job {
        id: "test-job-id".to_string(),
        status,
        query_result_id: result,
        error: error.map(str::to_string),
    }
}

#[test]
fn polling_waits_while_pending_or_started() {
    assert_eq!(poll_step(&job(1, None, None), false, 10).unwrap(), PollStep::Wait);
    assert_eq!(poll_step(&job(2, None, None), false, 10).unwrap(), PollStep::Wait);
}

#[test]
fn polling_fetches_result_on_success() {
    assert_eq!(poll_step(&job(3, Some(456), None), false, 10).unwrap(), PollStep::FetchResult(456));
    let err = poll_step(&job(3, None, None), false, 10).unwrap_err();
    assert!(matches!(err, ExecutionError::MissingResultId));
    assert_eq!(err.to_string(), "Job succeeded but no result_id returned");
}

#[test]
fn polling_reports_failure_and_cancellation() {
    let err = poll_step(&job(4, None, Some("Syntax error in SQL")), false, 10).unwrap_err();
    assert!(err.to_string().contains("Query execution failed"));
    assert!(err.to_string().contains("Syntax error in SQL"));
    let err = poll_step(&job(4, None, None), false, 10).unwrap_err();
    assert_eq!(err.to_string(), "Query execution failed: Unknown error");
    let err = poll_step(&job(5, None, None), false, 10).unwrap_err();
    assert_eq!(err.to_string(), "Query execution was cancelled");
    let err = poll_step(&job(9, None, None), false, 10).unwrap_err();
    assert_eq!(err.to_string(), "Invalid job status: 9");
}

#[test]
fn polling_times_out_first() {
    let err = poll_step(&job(3, Some(1), None), true, 1).unwrap_err();
    assert!(err.to_string().contains("timed out"));
    assert_eq!(err.to_string(), "Query execution timed out after 1 seconds");
}

#[test]
fn paging_stops_on_empty_page_or_when_all_arrived() {
    assert_eq!(next_page(0, 0, 10, 1), None);
    assert_eq!(next_page(100, 100, 250, 1), Some(2));
    assert_eq!(next_page(50, 250, 250, 3), None);
    assert_eq!(next_page(1, 300, 250, 3), None);
}
