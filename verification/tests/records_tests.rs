//! Provider record parsing: job records, listings, file records.

use tysm::batch::{parse_batch_list_reply, parse_batch_reply, BatchListReply, BatchReply,
    BatchStatus};
use tysm::files::{parse_deleted_file, parse_file_list, parse_file_object, FilePurpose};
use tysm::json::parse::parse_text;

const JOB_TEXT: &str = "{\"id\":\"batch_9\",\"object\":\"batch\",\"endpoint\":\"/v1/chat/completions\",\"input_file_id\":\"file_4\",\"completion_window\":\"24h\",\"status\":\"in_progress\",\"output_file_id\":null,\"created_at\":1714000000,\"request_counts\":{\"total\":2,\"completed\":1,\"failed\":0},\"metadata\":{\"request_hash\":\"99\"}}";

#[test]
fn reads_job_records() {
    match parse_batch_reply(JOB_TEXT) {
        BatchReply::Job(b) => {
            assert_eq!(b.id, "batch_9");
            assert_eq!(b.status, BatchStatus::InProgress);
            assert_eq!(b.output_file_id, None);
            assert_eq!(b.created_at, 1714000000);
            assert_eq!(b.request_counts.total, 2);
            assert_eq!(b.metadata.unwrap(), vec![("request_hash".to_string(), "99".to_string())]);
        },
        other => panic!("expected a job, got {:?}", other),
    }
}

#[test]
fn job_replies_fall_back_to_provider_errors() {
    match parse_batch_reply("{\"error\":{\"message\":\"no such batch\"}}") {
        BatchReply::Api(e) => assert_eq!(e.message, "no such batch"),
        other => panic!("expected a provider error, got {:?}", other),
    }
    assert!(matches!(parse_batch_reply("not json at all"), BatchReply::Unreadable));
    // a record without a status is not a job and not an error report
    assert!(matches!(parse_batch_reply("{\"id\":\"x\"}"), BatchReply::Unreadable));
}

#[test]
fn reads_job_listings() {
    let text = format!("{{\"object\":\"list\",\"data\":[{}],\"has_more\":false}}", JOB_TEXT);
    match parse_batch_list_reply(&text) {
        BatchListReply::Page(p) => {
            assert_eq!(p.data.len(), 1);
            assert_eq!(p.data[0].id, "batch_9");
            assert!(!p.has_more);
        },
        other => panic!("expected a page, got {:?}", other),
    }
    // a listing without its paging flag is unreadable
    assert!(matches!(
        parse_batch_list_reply("{\"data\":[]}"),
        BatchListReply::Unreadable
    ));
}

#[test]
fn every_status_name_is_understood() {
    for (name, status) in [
        ("validating", BatchStatus::Validating),
        ("failed", BatchStatus::Failed),
        ("in_progress", BatchStatus::InProgress),
        ("finalizing", BatchStatus::Finalizing),
        ("completed", BatchStatus::Completed),
        ("expired", BatchStatus::Expired),
        ("cancelling", BatchStatus::Cancelling),
        ("cancelled", BatchStatus::Cancelled),
    ] {
        let text = format!("{{\"id\":\"b\",\"status\":\"{}\"}}", name);
        match parse_batch_reply(&text) {
            BatchReply::Job(b) => assert_eq!(b.status, status),
            other => panic!("expected a job for {}, got {:?}", name, other),
        }
    }
    assert!(matches!(
        parse_batch_reply("{\"id\":\"b\",\"status\":\"resting\"}"),
        BatchReply::Unreadable
    ));
}

#[test]
fn reads_file_records() {
    let j = parse_text(
        "{\"id\":\"file_4\",\"object\":\"file\",\"bytes\":120,\"created_at\":1,\"filename\":\"batch_request\",\"purpose\":\"batch\"}",
    )
    .unwrap();
    let f = parse_file_object(&j).unwrap();
    assert_eq!(f.id, "file_4");
    assert_eq!(f.bytes, 120);
    assert_eq!(f.filename, "batch_request");
    assert!(parse_file_object(&parse_text("{\"object\":\"file\"}").unwrap()).is_none());
}

#[test]
fn reads_deletions_and_listings() {
    let d = parse_deleted_file(
        &parse_text("{\"id\":\"file_4\",\"object\":\"file\",\"deleted\":true}").unwrap(),
    )
    .unwrap();
    assert!(d.deleted);
    let fl = parse_file_list(
        &parse_text("{\"object\":\"list\",\"data\":[{\"id\":\"a\"},{\"id\":\"b\"}]}").unwrap(),
    )
    .unwrap();
    assert_eq!(fl.data.len(), 2);
    assert_eq!(fl.data[1].id, "b");
    assert!(parse_file_list(&parse_text("{\"data\":[{\"id\":\"a\"},{}]}").unwrap()).is_none());
}

#[test]
fn purposes_have_wire_names() {
    assert_eq!(FilePurpose::Batch.wire_name(), "batch");
    assert_eq!(FilePurpose::FineTune.wire_name(), "fine-tune");
    assert_eq!(FilePurpose::UserData.wire_name(), "user_data");
}
