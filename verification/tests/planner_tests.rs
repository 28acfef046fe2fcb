//! The submission planner: fingerprints, digests, custom identifiers, and
//! the reuse decision.

use tysm::batch::{
    create_batch_body, create_batch_content, find_reusable_batch, metadata_for_digest,
    plan_requests, submission_digest, Batch, BatchRequestCounts, BatchStatus,
};
use tysm::chat_completions::{messages_with_system_prompt, ResponseFormat};
use tysm::strutil::u64_to_string;

fn prompts_for(texts: Vec<&str>) -> Vec<(Vec<tysm::chat_completions::ChatMessage>, ResponseFormat)> {
    texts
        .into_iter()
        .map(|p| (messages_with_system_prompt(String::new(), p.to_string()), ResponseFormat::Text))
        .collect()
}

fn job_with_metadata(digest: u64, status: BatchStatus) -> Batch {
    Batch {
        id: "batch_1".to_string(),
        object: "batch".to_string(),
        endpoint: "/v1/chat/completions".to_string(),
        errors: None,
        input_file_id: "file_1".to_string(),
        completion_window: "24h".to_string(),
        status,
        output_file_id: None,
        error_file_id: None,
        created_at: 0,
        request_counts: BatchRequestCounts { total: 2, completed: 0, failed: 0 },
        metadata: Some(metadata_for_digest(digest)),
    }
}

#[test]
fn digest_ignores_order_and_repeats() {
    let a = submission_digest(&vec![1, 2, 3]);
    let b = submission_digest(&vec![3, 1, 2]);
    let c = submission_digest(&vec![3, 1, 2, 2, 1]);
    assert_eq!(a, b);
    assert_eq!(a, c);
    assert_ne!(a, submission_digest(&vec![1, 2]));
    assert_eq!(submission_digest(&vec![]), 0);
    assert_eq!(submission_digest(&vec![7]), 7);
    assert_eq!(submission_digest(&vec![u64::MAX, 1]), 0);
}

#[test]
fn equal_requests_share_fingerprints() {
    let plan1 = plan_requests(&"gpt-4o".to_string(), prompts_for(vec!["hello", "world"]));
    let plan2 = plan_requests(&"gpt-4o".to_string(), prompts_for(vec!["hello", "world"]));
    assert_eq!(plan1.fingerprints, plan2.fingerprints);
    assert_eq!(plan1.custom_ids, plan2.custom_ids);
    assert_eq!(plan1.digest, plan2.digest);
    let other_model = plan_requests(&"gpt-4o-mini".to_string(), prompts_for(vec!["hello", "world"]));
    assert_ne!(plan1.fingerprints[0], other_model.fingerprints[0]);
    assert_ne!(plan1.fingerprints[0], plan1.fingerprints[1]);
}

#[test]
fn permuted_request_sets_share_the_digest() {
    let forward = plan_requests(&"gpt-4o".to_string(), prompts_for(vec!["a", "b", "c"]));
    let backward = plan_requests(&"gpt-4o".to_string(), prompts_for(vec!["c", "a", "b"]));
    assert_eq!(forward.digest, backward.digest);
}

#[test]
fn custom_ids_name_the_fingerprint() {
    let plan = plan_requests(&"gpt-4o".to_string(), prompts_for(vec!["x"]));
    let expected = format!("request-{}", plan.fingerprints[0]);
    assert_eq!(plan.custom_ids[0], expected);
    assert_eq!(plan.items[0].custom_id, expected);
    assert_eq!(plan.items[0].method, "POST");
    assert_eq!(plan.items[0].url, "/v1/chat/completions");
}

#[test]
fn fresh_submission_creates_one_job_with_two_records() {
    // two requests, no jobs listed yet: nothing to reuse, one blob with
    // exactly two newline-delimited records
    let plan = plan_requests(
        &"gpt-4o".to_string(),
        prompts_for(vec!["capital of France", "capital of Japan"]),
    );
    let digest_str = u64_to_string(plan.digest);
    assert_eq!(find_reusable_batch(&vec![], &digest_str), None);
    let content = create_batch_content(&plan.items);
    assert_eq!(content.lines().count(), 2);
    assert!(content.ends_with('\n'));
    let first_line = content.lines().next().unwrap();
    assert!(first_line.contains("capital of France"));
    assert!(first_line.contains(&plan.custom_ids[0]));
}

#[test]
fn rerun_reuses_the_matching_job() {
    // the same two requests again: the stub now lists a job whose metadata
    // digest matches, so nothing new is created
    let plan = plan_requests(
        &"gpt-4o".to_string(),
        prompts_for(vec!["capital of France", "capital of Japan"]),
    );
    let digest_str = u64_to_string(plan.digest);
    let listed = vec![job_with_metadata(plan.digest, BatchStatus::InProgress)];
    assert_eq!(find_reusable_batch(&listed, &digest_str), Some(0));
}

#[test]
fn dead_or_foreign_jobs_are_not_reused() {
    let plan = plan_requests(&"gpt-4o".to_string(), prompts_for(vec!["q"]));
    let digest_str = u64_to_string(plan.digest);
    let dead = vec![
        job_with_metadata(plan.digest, BatchStatus::Failed),
        job_with_metadata(plan.digest, BatchStatus::Cancelled),
        job_with_metadata(plan.digest, BatchStatus::Expired),
        job_with_metadata(plan.digest.wrapping_add(1), BatchStatus::Completed),
    ];
    assert_eq!(find_reusable_batch(&dead, &digest_str), None);
    let mut mixed = dead;
    mixed.push(job_with_metadata(plan.digest, BatchStatus::Completed));
    assert_eq!(find_reusable_batch(&mixed, &digest_str), Some(4));
}

#[test]
fn creation_body_carries_the_digest() {
    let meta = metadata_for_digest(42);
    let body = create_batch_body("file_9", "/v1/chat/completions", &meta);
    assert_eq!(
        body.to_text(),
        "{\"input_file_id\":\"file_9\",\"endpoint\":\"/v1/chat/completions\",\"completion_window\":\"24h\",\"metadata\":{\"request_hash\":\"42\"}}",
    );
}

#[test]
fn decimal_rendering_is_exact() {
    assert_eq!(u64_to_string(0), "0");
    assert_eq!(u64_to_string(12345), "12345");
    assert_eq!(u64_to_string(u64::MAX), "18446744073709551615");
}
