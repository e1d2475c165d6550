//! The expiration reaper: reclamation, idempotence, forcible deletion.

use vrac::api::{request_token, resolve_for_read, Quantity, Token as TokenRequest};
use vrac::cleanup::{cleanup_once, delete_token, remove_token_dir};
use vrac::db::Store;
use vrac::db::TokenStatus;
use vrac::disk::Disk;
use vrac::ingest::{ingest, PartInput, UploadOutcome};

fn demo_request(path: &str) -> TokenRequest {
    TokenRequest {
        path: path.to_string(),
        max_size_in_mb: Quantity::Bounded(10),
        content_expires_after: 1,
        token_valid_for: Quantity::Bounded(1),
    }
}

fn one_part(name: &str, size: u64) -> Vec<PartInput> {
    vec![PartInput {
        file_name: Some(name.to_string()),
        content_type: None,
        chunks: vec![size],
        interrupted: false,
    }]
}

#[test]
fn reaper_reclaims_content_expired() {
    let mut store = Store::new();
    let mut disk = Disk::new();
    request_token(&mut store, demo_request("demo"), 1000).unwrap();
    let outcome = ingest(&mut store, &mut disk, &"demo".to_string(), 2000, &one_part("a.txt", 1024));
    assert_eq!(outcome, UploadOutcome::Completed);
    // content deadline is 2000 + 3600 = 5600; run well past it
    cleanup_once(&mut store, &mut disk, 10_000);
    assert!(resolve_for_read(&store, &"demo".to_string(), 10_000).is_none());
    assert!(!disk.dir_exists(&"demo".to_string()));
    assert!(!disk.file_exists(&"demo".to_string(), &"a.txt".to_string()));
    // nothing content-expired is left unmarked
    assert_eq!(store.get_expired_files(10_000).len(), 0);
}

#[test]
fn reaper_is_idempotent() {
    let mut store = Store::new();
    let mut disk = Disk::new();
    request_token(&mut store, demo_request("demo"), 1000).unwrap();
    ingest(&mut store, &mut disk, &"demo".to_string(), 2000, &one_part("a.txt", 1024));
    request_token(&mut store, demo_request("never-used"), 1000).unwrap();
    cleanup_once(&mut store, &mut disk, 10_000);
    // an immediate second pass finds nothing left to do
    assert_eq!(store.get_expired_files(10_000).len(), 0);
    assert_eq!(store.delete_expired_tokens(10_000).len(), 0);
    cleanup_once(&mut store, &mut disk, 10_000);
    assert!(resolve_for_read(&store, &"demo".to_string(), 10_000).is_none());
    assert!(!disk.dir_exists(&"demo".to_string()));
}

#[test]
fn reaper_flips_never_consumed_token() {
    let mut store = Store::new();
    let mut disk = Disk::new();
    request_token(&mut store, demo_request("idle"), 1000).unwrap();
    // upload deadline 4600 passes without any upload
    let paths = store.delete_expired_tokens(5000);
    assert_eq!(paths.len(), 1);
    assert_eq!(paths[0], "idle");
    assert!(resolve_for_read(&store, &"idle".to_string(), 5000).is_none());
}

#[test]
fn reaper_spares_live_tokens() {
    let mut store = Store::new();
    let mut disk = Disk::new();
    request_token(&mut store, demo_request("old"), 1000).unwrap();
    ingest(&mut store, &mut disk, &"old".to_string(), 1100, &one_part("o.txt", 10));
    request_token(&mut store, demo_request("young"), 20_000).unwrap();
    ingest(&mut store, &mut disk, &"young".to_string(), 20_100, &one_part("y.txt", 10));
    // old's content deadline (1100 + 3600) has passed; young's has not
    cleanup_once(&mut store, &mut disk, 21_000);
    assert!(resolve_for_read(&store, &"old".to_string(), 21_000).is_none());
    let young = resolve_for_read(&store, &"young".to_string(), 21_000).unwrap();
    assert_eq!(young.status, TokenStatus::Used);
    assert!(disk.dir_exists(&"young".to_string()));
    assert!(!disk.dir_exists(&"old".to_string()));
}

#[test]
fn scenario_demo_token_full_cycle() {
    let mut store = Store::new();
    let mut disk = Disk::new();
    let req = TokenRequest {
        path: "demo".to_string(),
        max_size_in_mb: Quantity::Bounded(10),
        content_expires_after: 1,
        token_valid_for: Quantity::Bounded(1),
    };
    let tok = request_token(&mut store, req, 1000).unwrap();
    assert_eq!(tok.status, TokenStatus::Fresh);
    let outcome = ingest(&mut store, &mut disk, &"demo".to_string(), 2000, &one_part("a.txt", 1024));
    assert_eq!(outcome, UploadOutcome::Completed);
    let used = resolve_for_read(&store, &"demo".to_string(), 2000).unwrap();
    assert_eq!(used.status, TokenStatus::Used);
    let files = store.get_files(&used);
    assert_eq!(files.len(), 1);
    assert_eq!(files[0].name.as_deref(), Some("a.txt"));
    // once the content deadline lies in the past, the reaper removes it all
    let past_deadline = used.content_expires_at.unwrap() + 1;
    cleanup_once(&mut store, &mut disk, past_deadline);
    assert!(resolve_for_read(&store, &"demo".to_string(), past_deadline).is_none());
}

#[test]
fn reaper_spares_reused_path_directory() {
    let mut store = Store::new();
    let mut disk = Disk::new();
    // a token at "demo" expires without ever being consumed
    request_token(&mut store, demo_request("demo"), 1000).unwrap();
    // its upload deadline (1000 + 3600) passes, so the path is free again
    let newer = request_token(&mut store, demo_request("demo"), 10_000).unwrap();
    let outcome = ingest(&mut store, &mut disk, &"demo".to_string(), 10_100, &one_part(
        "b.txt", 64,
    ));
    assert_eq!(outcome, UploadOutcome::Completed);
    // the reaper flips the dead namesake but must not touch the directory
    // the live token now owns
    cleanup_once(&mut store, &mut disk, 11_000);
    let live = resolve_for_read(&store, &"demo".to_string(), 11_000).unwrap();
    assert_eq!(live.id, newer.id);
    assert_eq!(live.status, TokenStatus::Used);
    assert_eq!(store.get_files(&live).len(), 1);
    assert!(disk.dir_exists(&"demo".to_string()));
    assert!(disk.file_exists(&"demo".to_string(), &"b.txt".to_string()));
    // once the live token's own content deadline passes, everything goes
    cleanup_once(&mut store, &mut disk, 20_000);
    assert!(!disk.dir_exists(&"demo".to_string()));
}

#[test]
fn delete_token_forcibly_removes_everything() {
    let mut store = Store::new();
    let mut disk = Disk::new();
    request_token(&mut store, demo_request("demo"), 1000).unwrap();
    ingest(&mut store, &mut disk, &"demo".to_string(), 2000, &one_part("a.txt", 1024));
    // still live and valid — deleted regardless
    let n = delete_token(&mut store, &mut disk, &"demo".to_string(), 2500);
    assert_eq!(n, 1);
    assert!(resolve_for_read(&store, &"demo".to_string(), 2500).is_none());
    assert!(!disk.dir_exists(&"demo".to_string()));
}

#[test]
fn delete_token_without_token_still_clears_dir() {
    let mut store = Store::new();
    let mut disk = Disk::new();
    disk.create_dir_all(&"stray".to_string());
    let n = delete_token(&mut store, &mut disk, &"stray".to_string(), 2500);
    assert_eq!(n, 0);
    assert!(!disk.dir_exists(&"stray".to_string()));
}

#[test]
fn remove_token_dir_tolerates_missing() {
    let mut disk = Disk::new();
    remove_token_dir(&mut disk, &"ghost".to_string());
    assert!(!disk.dir_exists(&"ghost".to_string()));
    disk.create_dir_all(&"real".to_string());
    disk.write_file(&"real".to_string(), &"f.bin".to_string());
    remove_token_dir(&mut disk, &"real".to_string());
    assert!(!disk.dir_exists(&"real".to_string()));
    assert!(!disk.file_exists(&"real".to_string(), &"f.bin".to_string()));
}

#[test]
fn disk_remove_file_reports_presence() {
    let mut disk = Disk::new();
    disk.create_dir_all(&"d".to_string());
    disk.write_file(&"d".to_string(), &"f".to_string());
    assert!(disk.remove_file(&"d".to_string(), &"f".to_string()));
    assert!(!disk.remove_file(&"d".to_string(), &"f".to_string()));
    assert!(disk.dir_exists(&"d".to_string()));
}
