//! The upload ingestor: budgets, part handling, failure semantics.

use vrac::api::{request_token, resolve_for_read, Quantity, Token as TokenRequest};
use vrac::db::{CreateFile, FileUploadStatus, Store, TokenStatus};
use vrac::disk::Disk;
use vrac::ingest::{ingest, PartInput, UploadOutcome, FRAMING_ALLOWANCE, MIB};

fn sized_request(path: &str, mb: Quantity<u32>) -> TokenRequest {
    TokenRequest {
        path: path.to_string(),
        max_size_in_mb: mb,
        content_expires_after: 1,
        token_valid_for: Quantity::Bounded(1),
    }
}

fn named_part(name: &str, chunks: Vec<u64>) -> PartInput {
    PartInput {
        file_name: Some(name.to_string()),
        content_type: Some("text/plain".to_string()),
        chunks,
        interrupted: false,
    }
}

#[test]
fn roundtrip_single_file() {
    let mut store = Store::new();
    let mut disk = Disk::new();
    let tok = request_token(&mut store, sized_request("demo", Quantity::Bounded(10)), 1000)
        .unwrap();
    let parts = vec![named_part("a.txt", vec![1024])];
    let outcome = ingest(&mut store, &mut disk, &"demo".to_string(), 2000, &parts);
    assert_eq!(outcome, UploadOutcome::Completed);
    let used = resolve_for_read(&store, &"demo".to_string(), 2000).unwrap();
    assert_eq!(used.status, TokenStatus::Used);
    let files = store.get_files(&used);
    assert_eq!(files.len(), 1);
    assert_eq!(files[0].name.as_deref(), Some("a.txt"));
    assert_eq!(files[0].token_id, tok.id);
    assert!(matches!(files[0].file_upload_status, FileUploadStatus::Completed));
    assert!(disk.dir_exists(&"demo".to_string()));
    assert!(disk.file_exists(&"demo".to_string(), &"a.txt".to_string()));
}

#[test]
fn oversized_upload_leaves_token_fresh() {
    let mut store = Store::new();
    let mut disk = Disk::new();
    request_token(&mut store, sized_request("demo", Quantity::Bounded(1)), 1000).unwrap();
    let parts = vec![named_part("big.bin", vec![2 * MIB])];
    let outcome = ingest(&mut store, &mut disk, &"demo".to_string(), 2000, &parts);
    assert_eq!(outcome, UploadOutcome::TooLarge);
    let still = resolve_for_read(&store, &"demo".to_string(), 2000).unwrap();
    assert_eq!(still.status, TokenStatus::Fresh);
    assert_eq!(store.get_files(&still).len(), 0);
}

#[test]
fn budget_boundary_exact_fits() {
    let mut store = Store::new();
    let mut disk = Disk::new();
    request_token(&mut store, sized_request("edge", Quantity::Bounded(1)), 1000).unwrap();
    // the budget is the limit plus the framing allowance, to the byte
    let parts = vec![named_part("edge.bin", vec![MIB, FRAMING_ALLOWANCE])];
    let outcome = ingest(&mut store, &mut disk, &"edge".to_string(), 2000, &parts);
    assert_eq!(outcome, UploadOutcome::Completed);
}

#[test]
fn budget_boundary_one_byte_over() {
    let mut store = Store::new();
    let mut disk = Disk::new();
    request_token(&mut store, sized_request("edge", Quantity::Bounded(1)), 1000).unwrap();
    let parts = vec![named_part("edge.bin", vec![MIB, FRAMING_ALLOWANCE, 1])];
    let outcome = ingest(&mut store, &mut disk, &"edge".to_string(), 2000, &parts);
    assert_eq!(outcome, UploadOutcome::TooLarge);
}

#[test]
fn unlimited_token_takes_large_upload() {
    let mut store = Store::new();
    let mut disk = Disk::new();
    request_token(&mut store, sized_request("big", Quantity::Unbounded), 1000).unwrap();
    let parts = vec![named_part("huge.bin", vec![6 * 1024 * MIB])];
    let outcome = ingest(&mut store, &mut disk, &"big".to_string(), 2000, &parts);
    assert_eq!(outcome, UploadOutcome::Completed);
}

#[test]
fn interrupted_upload_leaves_started_row() {
    let mut store = Store::new();
    let mut disk = Disk::new();
    request_token(&mut store, sized_request("demo", Quantity::Bounded(10)), 1000).unwrap();
    let parts = vec![PartInput {
        file_name: Some("torn.bin".to_string()),
        content_type: None,
        chunks: vec![512],
        interrupted: true,
    }];
    let outcome = ingest(&mut store, &mut disk, &"demo".to_string(), 2000, &parts);
    assert_eq!(outcome, UploadOutcome::Interrupted);
    let still = resolve_for_read(&store, &"demo".to_string(), 2000).unwrap();
    assert_eq!(still.status, TokenStatus::Fresh);
    // the dangling row was never promoted to Completed
    assert_eq!(store.get_files(&still).len(), 0);
}

#[test]
fn unnamed_parts_are_skipped_and_token_still_consumed() {
    let mut store = Store::new();
    let mut disk = Disk::new();
    request_token(&mut store, sized_request("demo", Quantity::Bounded(10)), 1000).unwrap();
    let parts = vec![
        PartInput { file_name: None, content_type: None, chunks: vec![100], interrupted: false },
        PartInput {
            file_name: Some(String::new()),
            content_type: None,
            chunks: vec![100],
            interrupted: false,
        },
    ];
    let outcome = ingest(&mut store, &mut disk, &"demo".to_string(), 2000, &parts);
    // an upload session of zero files still consumes the token
    assert_eq!(outcome, UploadOutcome::Completed);
    let used = resolve_for_read(&store, &"demo".to_string(), 2000).unwrap();
    assert_eq!(used.status, TokenStatus::Used);
    assert_eq!(store.get_files(&used).len(), 0);
    assert!(!disk.dir_exists(&"demo".to_string()));
}

#[test]
fn ingest_unknown_token_not_found() {
    let mut store = Store::new();
    let mut disk = Disk::new();
    let parts = vec![named_part("a.txt", vec![10])];
    let outcome = ingest(&mut store, &mut disk, &"nope".to_string(), 2000, &parts);
    assert_eq!(outcome, UploadOutcome::NotFound);
}

#[test]
fn ingest_used_token_rejected() {
    let mut store = Store::new();
    let mut disk = Disk::new();
    request_token(&mut store, sized_request("demo", Quantity::Bounded(10)), 1000).unwrap();
    let parts = vec![named_part("a.txt", vec![10])];
    assert_eq!(
        ingest(&mut store, &mut disk, &"demo".to_string(), 2000, &parts),
        UploadOutcome::Completed
    );
    // further uploads through the now-Used token are rejected
    assert_eq!(
        ingest(&mut store, &mut disk, &"demo".to_string(), 2100, &parts),
        UploadOutcome::NotFound
    );
}

#[test]
fn two_files_both_listed_in_order() {
    let mut store = Store::new();
    let mut disk = Disk::new();
    request_token(&mut store, sized_request("demo", Quantity::Bounded(10)), 1000).unwrap();
    let parts = vec![named_part("a.txt", vec![10]), named_part("b.txt", vec![20])];
    assert_eq!(
        ingest(&mut store, &mut disk, &"demo".to_string(), 2000, &parts),
        UploadOutcome::Completed
    );
    let used = resolve_for_read(&store, &"demo".to_string(), 2000).unwrap();
    let files = store.get_files(&used);
    assert_eq!(files.len(), 2);
    assert_eq!(files[0].name.as_deref(), Some("a.txt"));
    assert_eq!(files[1].name.as_deref(), Some("b.txt"));
    assert!(disk.file_exists(&"demo".to_string(), &"b.txt".to_string()));
}

#[test]
fn get_file_scoped_to_owner() {
    let mut store = Store::new();
    let mut disk = Disk::new();
    request_token(&mut store, sized_request("one", Quantity::Bounded(10)), 1000).unwrap();
    request_token(&mut store, sized_request("two", Quantity::Bounded(10)), 1000).unwrap();
    let parts = vec![named_part("a.txt", vec![10])];
    ingest(&mut store, &mut disk, &"one".to_string(), 2000, &parts);
    let one = resolve_for_read(&store, &"one".to_string(), 2000).unwrap();
    let two = resolve_for_read(&store, &"two".to_string(), 2000).unwrap();
    let file = store.get_file(&one, 1).expect("owner sees its file");
    assert_eq!(file.name.as_deref(), Some("a.txt"));
    // the other token must never see it, whatever id is supplied
    assert!(store.get_file(&two, 1).is_none());
}

#[test]
fn live_fresh_lookup_ignores_used_tokens() {
    let mut store = Store::new();
    let mut disk = Disk::new();
    request_token(&mut store, sized_request("demo", Quantity::Bounded(10)), 1000).unwrap();
    assert!(store.get_live_fresh_token(&"demo".to_string(), 1500).is_some());
    let parts = vec![named_part("a.txt", vec![10])];
    assert_eq!(
        ingest(&mut store, &mut disk, &"demo".to_string(), 1500, &parts),
        UploadOutcome::Completed
    );
    // the consumed token no longer accepts uploads, but still resolves
    // for reading
    assert!(store.get_live_fresh_token(&"demo".to_string(), 1600).is_none());
    assert!(store.get_valid_token(&"demo".to_string(), 1600).is_some());
}

#[test]
fn abort_upload_removes_the_row() {
    let mut store = Store::new();
    let tok = store
        .create_token(
            vrac::db::CreateToken {
                path: "demo".to_string(),
                max_size_mib: None,
                token_expires_at: 9000,
                content_expires_after_hours: Some(1),
            },
            1000,
        )
        .unwrap();
    let row = store.create_file(
        CreateFile {
            token_id: tok.id,
            name: Some("half.bin".to_string()),
            path: "half.bin".to_string(),
            content_type: None,
        },
        1500,
    );
    assert!(matches!(row.file_upload_status, FileUploadStatus::Started));
    store.abort_upload(row.id);
    assert!(store.get_file(&tok, row.id).is_none());
}

#[test]
fn complete_upload_promotes_the_row() {
    let mut store = Store::new();
    let tok = store
        .create_token(
            vrac::db::CreateToken {
                path: "demo".to_string(),
                max_size_mib: None,
                token_expires_at: 9000,
                content_expires_after_hours: Some(1),
            },
            1000,
        )
        .unwrap();
    let row = store.create_file(
        CreateFile {
            token_id: tok.id,
            name: Some("whole.bin".to_string()),
            path: "whole.bin".to_string(),
            content_type: None,
        },
        1500,
    );
    assert_eq!(store.get_files(&tok).len(), 0);
    store.complete_upload(row.id);
    let files = store.get_files(&tok);
    assert_eq!(files.len(), 1);
    assert!(matches!(files[0].file_upload_status, FileUploadStatus::Completed));
}
