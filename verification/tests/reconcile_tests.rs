//! The result reconciler: output mirrors the submitted order, item by item.

use tysm::batch::{Batch, BatchItemError, BatchRequestCounts, BatchStatus, GetBatchResultsError};
use tysm::reconcile::{batch_output_file, parse_batch_results, reconcile, ItemOutcome};

fn answer_line(custom_id: &str, text: &str) -> String {
    format!(
        "{{\"id\":\"r1\",\"custom_id\":\"{}\",\"response\":{{\"status_code\":200,\"request_id\":\"q\",\"body\":{{\"choices\":[{{\"message\":{{\"role\":\"assistant\",\"content\":\"{}\"}}}}],\"usage\":{{\"prompt_tokens\":1,\"completion_tokens\":2,\"total_tokens\":3}}}}}}}}",
        custom_id, text,
    )
}

fn error_line(custom_id: &str, message: &str) -> String {
    format!(
        "{{\"id\":\"r2\",\"custom_id\":\"{}\",\"error\":{{\"code\":\"x\",\"message\":\"{}\"}}}}",
        custom_id, message,
    )
}

#[test]
fn parses_newline_delimited_results() {
    let content = format!("{}\n{}\n", answer_line("request-1", "Paris"), error_line("request-2", "boom"));
    let items = parse_batch_results(&content).unwrap();
    assert_eq!(items.len(), 2);
    assert_eq!(items[0].custom_id, "request-1");
    assert!(items[0].response.is_some());
    assert!(items[0].error.is_none());
    assert_eq!(items[1].custom_id, "request-2");
    assert_eq!(items[1].error.as_ref().unwrap().message, "boom");
}

#[test]
fn one_bad_line_fails_the_whole_parse() {
    let content = format!("{}\nnot json\n", answer_line("request-1", "Paris"));
    assert_eq!(parse_batch_results(&content).err(), Some(1));
    // a record without its custom identifier is as bad as no record
    assert!(parse_batch_results("{\"id\":\"r\"}\n").is_err());
}

#[test]
fn output_length_always_mirrors_input_length() {
    // present, missing and erroring results: one outcome per position anyway
    let content = format!("{}\n{}\n", answer_line("request-1", "Paris"), error_line("request-2", "boom"));
    let items = parse_batch_results(&content).unwrap();
    for ids in [
        vec!["request-1"],
        vec!["request-1", "request-2"],
        vec!["request-9", "request-1", "request-2", "request-1"],
        vec![],
    ] {
        let ids: Vec<String> = ids.into_iter().map(|s| s.to_string()).collect();
        let out = reconcile(&ids, &items);
        assert_eq!(out.len(), ids.len());
    }
}

#[test]
fn one_item_error_does_not_disturb_the_other() {
    let content = format!("{}\n{}\n", answer_line("request-1", "Paris"), error_line("request-2", "boom"));
    let items = parse_batch_results(&content).unwrap();
    let ids = vec!["request-1".to_string(), "request-2".to_string()];
    let out = reconcile(&ids, &items);
    assert_eq!(out.len(), 2);
    match &out[0] {
        ItemOutcome::Answer(s) => assert_eq!(s, "Paris"),
        other => panic!("expected an answer, got {:?}", other),
    }
    match &out[1] {
        ItemOutcome::ItemFailed(BatchItemError { message, .. }) => assert_eq!(message, "boom"),
        other => panic!("expected the item's own error, got {:?}", other),
    }
}

#[test]
fn missing_and_empty_results_are_reported_per_position() {
    let content = format!(
        "{}\n{{\"custom_id\":\"request-3\",\"response\":{{\"body\":{{\"choices\":[],\"usage\":{{\"prompt_tokens\":0,\"completion_tokens\":0,\"total_tokens\":0}}}}}}}}\n",
        answer_line("request-1", "ok"),
    );
    let items = parse_batch_results(&content).unwrap();
    let ids = vec!["request-0".to_string(), "request-3".to_string(), "request-1".to_string()];
    let out = reconcile(&ids, &items);
    assert!(matches!(out[0], ItemOutcome::NotFound));
    assert!(matches!(out[1], ItemOutcome::NoChoices));
    assert!(matches!(out[2], ItemOutcome::Answer(_)));
}

#[test]
fn provider_error_bodies_are_surfaced() {
    let content = "{\"custom_id\":\"request-5\",\"response\":{\"body\":{\"error\":{\"message\":\"quota\"}}}}\n";
    let items = parse_batch_results(content).unwrap();
    let out = reconcile(&vec!["request-5".to_string()], &items);
    match &out[0] {
        ItemOutcome::ApiError(e) => assert_eq!(e.message, "quota"),
        other => panic!("expected a provider error, got {:?}", other),
    }
}

fn completed_job(output: Option<&str>) -> Batch {
    Batch {
        id: "batch_3".to_string(),
        object: "batch".to_string(),
        endpoint: "/v1/chat/completions".to_string(),
        errors: None,
        input_file_id: "file_1".to_string(),
        completion_window: "24h".to_string(),
        status: BatchStatus::Completed,
        output_file_id: output.map(|s| s.to_string()),
        error_file_id: None,
        created_at: 0,
        request_counts: BatchRequestCounts { total: 1, completed: 1, failed: 0 },
        metadata: None,
    }
}

#[test]
fn results_require_a_completed_job_with_output() {
    let mut not_done = completed_job(Some("file_out"));
    not_done.status = BatchStatus::Finalizing;
    match batch_output_file(&not_done) {
        Err(GetBatchResultsError::BatchNotCompleted(st)) => {
            assert_eq!(st, BatchStatus::Finalizing)
        },
        other => panic!("expected not-completed, got {:?}", other),
    }
    match batch_output_file(&completed_job(None)) {
        Err(GetBatchResultsError::BatchNoOutputFile(id)) => assert_eq!(id, "batch_3"),
        other => panic!("expected no-output-file, got {:?}", other),
    }
    assert_eq!(batch_output_file(&completed_job(Some("file_out"))).unwrap(), "file_out");
}
