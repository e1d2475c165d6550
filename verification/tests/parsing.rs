//! Form parsing, the status codecs, configuration and error messages.

use vrac::api::{parse_duration, parse_size, parse_token_, parse_valid_for, Invalid, Quantity};
use vrac::conf::VracConfig;
use vrac::db::{FileUploadStatus, TokenStatus};
use vrac::errors::VracError;

#[test]
fn parse_size_recognized_tags() {
    assert!(matches!(parse_size(&"Unlimited".to_string()), Ok(Quantity::Unbounded)));
    assert!(matches!(parse_size(&"1MB".to_string()), Ok(Quantity::Bounded(1))));
    assert!(matches!(parse_size(&"10MB".to_string()), Ok(Quantity::Bounded(10))));
    assert!(matches!(parse_size(&"200MB".to_string()), Ok(Quantity::Bounded(200))));
    assert!(matches!(parse_size(&"1GB".to_string()), Ok(Quantity::Bounded(1024))));
    assert!(matches!(parse_size(&"5GB".to_string()), Ok(Quantity::Bounded(5120))));
}

#[test]
fn parse_size_unknown_tag() {
    match parse_size(&"12MB".to_string()) {
        Err(m) => assert_eq!(m, "cannot parse quantity<u32> from 12MB"),
        other => panic!("expected error, got {:?}", other),
    }
}

#[test]
fn parse_duration_recognized_tags() {
    assert_eq!(parse_duration(&"1Hour".to_string()), Ok(1));
    assert_eq!(parse_duration(&"1Day".to_string()), Ok(24));
    assert_eq!(parse_duration(&"1Week".to_string()), Ok(168));
    // one month is 31 days
    assert_eq!(parse_duration(&"1Month".to_string()), Ok(744));
}

#[test]
fn parse_duration_unknown_tag() {
    match parse_duration(&"Fortnight".to_string()) {
        Err(m) => assert_eq!(m, "cannot parse Duration from Fortnight"),
        other => panic!("expected error, got {:?}", other),
    }
}

#[test]
fn parse_valid_for_accepts_doesnt_expire() {
    assert!(matches!(parse_valid_for(&"DoesntExpire".to_string()), Ok(Quantity::Unbounded)));
    assert!(matches!(parse_valid_for(&"1Day".to_string()), Ok(Quantity::Bounded(24))));
    assert!(parse_valid_for(&"Never".to_string()).is_err());
}

#[test]
fn parse_token_complete_form() {
    let path = "demo".to_string();
    let size = "10MB".to_string();
    let expires = "1Hour".to_string();
    let valid = "1Week".to_string();
    let tok = parse_token_(Some(&path), Some(&size), Some(&expires), Some(&valid)).unwrap();
    assert_eq!(tok.path, "demo");
    assert!(matches!(tok.max_size_in_mb, Quantity::Bounded(10)));
    assert_eq!(tok.content_expires_after, 1);
    assert!(matches!(tok.token_valid_for, Quantity::Bounded(168)));
}

#[test]
fn parse_token_missing_fields() {
    let size = "10MB".to_string();
    let expires = "1Hour".to_string();
    let valid = "1Week".to_string();
    let path = "demo".to_string();
    assert_eq!(
        parse_token_(None, Some(&size), Some(&expires), Some(&valid)).unwrap_err(),
        "Missing path"
    );
    assert_eq!(
        parse_token_(Some(&path), None, Some(&expires), Some(&valid)).unwrap_err(),
        "Missing max-size"
    );
    assert_eq!(
        parse_token_(Some(&path), Some(&size), None, Some(&valid)).unwrap_err(),
        "Missing expires"
    );
    assert_eq!(
        parse_token_(Some(&path), Some(&size), Some(&expires), None).unwrap_err(),
        "Missing valid-for"
    );
}

#[test]
fn token_status_codec_roundtrip() {
    assert_eq!(TokenStatus::Fresh.to_tag(), "FRESH");
    assert_eq!(TokenStatus::Used.to_tag(), "USED");
    assert_eq!(TokenStatus::Deleted.to_tag(), "DELETED");
    for s in [TokenStatus::Fresh, TokenStatus::Used, TokenStatus::Deleted] {
        assert_eq!(TokenStatus::from_tag(s.to_tag()).unwrap(), s);
    }
    assert!(matches!(TokenStatus::from_tag("fresh"), Err(VracError::Validation(_))));
}

#[test]
fn file_status_codec_roundtrip() {
    assert_eq!(FileUploadStatus::Started.to_tag(), "STARTED");
    assert_eq!(FileUploadStatus::Completed.to_tag(), "COMPLETED");
    for s in [FileUploadStatus::Started, FileUploadStatus::Completed] {
        assert_eq!(FileUploadStatus::from_tag(s.to_tag()).unwrap(), s);
    }
    assert!(matches!(FileUploadStatus::from_tag("DONE"), Err(VracError::Validation(_))));
}

#[test]
fn quantity_converts_to_option() {
    assert_eq!(Option::<u32>::from(Quantity::Bounded(5)), Some(5));
    assert_eq!(Option::<u32>::from(Quantity::Unbounded), None);
}

#[test]
fn invalid_carries_its_message() {
    let inv = Invalid::new("bad input".to_string());
    assert_eq!(inv.message().as_str(), "bad input");
}

#[test]
fn config_default_and_new() {
    let def = VracConfig::default();
    assert_eq!(def.root_path, ".");
    let own = VracConfig::new("/srv/drop".to_string());
    assert_eq!(own.root_path, "/srv/drop");
}

#[test]
fn error_messages_name_the_subject() {
    assert_eq!(
        VracError::TokenAlreadyExists("demo".to_string()).message(),
        "Token already exists: demo"
    );
    assert_eq!(
        VracError::UserAlreadyExists("alice".to_string()).message(),
        "User already exists: alice"
    );
    assert_eq!(VracError::Validation("why".to_string()).message(), "why");
    assert_eq!(VracError::NotFound.message(), "not found");
    assert_eq!(VracError::PayloadTooLarge.message(), "payload too large");
    assert_eq!(VracError::ProtocolDecode.message(), "malformed upload stream");
    assert_eq!(VracError::Storage.message(), "storage error");
    assert_eq!(VracError::Io.message(), "IO error");
}
