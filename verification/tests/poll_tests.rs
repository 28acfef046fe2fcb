//! The poll/backoff state machine.

use tysm::batch::{Batch, BatchRequestCounts, BatchStatus, WaitForBatchError};
use tysm::json::Json;
use tysm::poll::{simulate_poll, PollDecision, PollState};

fn job(status: BatchStatus, errors: Option<Json>) -> Batch {
    Batch {
        id: "batch_7".to_string(),
        object: "batch".to_string(),
        endpoint: "/v1/chat/completions".to_string(),
        errors,
        input_file_id: "file_1".to_string(),
        completion_window: "24h".to_string(),
        status,
        output_file_id: None,
        error_file_id: None,
        created_at: 0,
        request_counts: BatchRequestCounts { total: 1, completed: 0, failed: 0 },
        metadata: None,
    }
}

#[test]
fn stuck_job_times_out_instead_of_hanging() {
    // a provider stub that always answers in-progress: the simulated loop
    // terminates with the timeout error
    let r = simulate_poll(&job(BatchStatus::InProgress, None));
    match r {
        Some(WaitForBatchError::BatchTimeout(id)) => assert_eq!(id, "batch_7"),
        other => panic!("expected a timeout, got {:?}", other),
    }
    let r = simulate_poll(&job(BatchStatus::Validating, None));
    assert!(matches!(r, Some(WaitForBatchError::BatchTimeout(_))));
}

#[test]
fn completed_job_finishes() {
    assert!(simulate_poll(&job(BatchStatus::Completed, None)).is_none());
}

#[test]
fn failed_job_surfaces_the_error_payload() {
    let r = simulate_poll(&job(
        BatchStatus::Failed,
        Some(Json::Str("rate limited".to_string())),
    ));
    match r {
        Some(WaitForBatchError::BatchFailed { id, error }) => {
            assert_eq!(id, "batch_7");
            assert!(error.contains("rate limited"));
        },
        other => panic!("expected a job failure, got {:?}", other),
    }
    // no payload: the serialized null stands in
    match simulate_poll(&job(BatchStatus::Failed, None)) {
        Some(WaitForBatchError::BatchFailed { error, .. }) => assert_eq!(error, "null"),
        other => panic!("expected a job failure, got {:?}", other),
    }
}

#[test]
fn cancelled_and_expired_jobs_get_their_own_errors() {
    assert!(matches!(
        simulate_poll(&job(BatchStatus::Cancelled, None)),
        Some(WaitForBatchError::BatchCancelled(_))
    ));
    assert!(matches!(
        simulate_poll(&job(BatchStatus::Cancelling, None)),
        Some(WaitForBatchError::BatchCancelled(_))
    ));
    assert!(matches!(
        simulate_poll(&job(BatchStatus::Expired, None)),
        Some(WaitForBatchError::BatchExpired(_))
    ));
}

#[test]
fn backoff_doubles_then_caps() {
    let mut st = PollState::new();
    let b = job(BatchStatus::InProgress, None);
    let mut delays = vec![];
    for _ in 0..9 {
        match st.step(&b) {
            PollDecision::Sleep(d) => delays.push(d),
            other => panic!("expected a sleep, got {:?}", other),
        }
    }
    assert_eq!(delays, vec![2, 4, 8, 16, 32, 64, 120, 120, 120]);
    assert_eq!(st.seconds_waited, 2 + 4 + 8 + 16 + 32 + 64 + 120 * 3);
}

#[test]
fn ceiling_is_enforced() {
    let mut st = PollState::new();
    let b = job(BatchStatus::InProgress, None);
    let mut slept: u64 = 0;
    loop {
        match st.step(&b) {
            PollDecision::Sleep(d) => slept += d,
            PollDecision::Fail(WaitForBatchError::BatchTimeout(_)) => break,
            other => panic!("unexpected decision {:?}", other),
        }
        assert!(slept <= 86400 + 120);
    }
    assert!(slept >= 86400);
}
