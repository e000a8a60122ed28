use rusmes_jmap::api::account_id_for;
use rusmes_jmap::blob::{BlobData, DEFAULT_MAX_BLOB_SIZE};
use rusmes_jmap::methods::email_query_helpers::compute_query_diff;
use rusmes_jmap::methods::ensure_account_ownership;
use rusmes_jmap::methods::submission::create::extract_addresses_from_header;
use rusmes_jmap::Principal;

fn alice() -> Principal {
    Principal {
        username: "alice".to_string(),
        account_id: "account-alice".to_string(),
        scopes: vec![],
    }
}

#[test]
fn test_account_id_helper() {
    assert_eq!(account_id_for("alice@example.com"), "account-alice-example.com");
}

#[test]
fn test_blob_data_clone() {
    let data1 = BlobData::new(b"test".to_vec(), "text/plain".to_string());
    let data2 = data1.clone();
    assert_eq!(data1.data(), data2.data());
    assert_eq!(data1.content_type(), data2.content_type());
}

#[test]
fn test_max_blob_size_constant() {
    assert_eq!(DEFAULT_MAX_BLOB_SIZE, 50 * 1024 * 1024);
}

#[test]
fn test_query_changes_added() {
    let previous = vec!["e1".to_string()];
    let current = vec!["e1".to_string(), "e2".to_string()];
    let (removed, added) = compute_query_diff(&previous, &current);
    assert!(removed.is_empty(), "no removals expected");
    assert_eq!(added.len(), 1);
    assert_eq!(added[0].id, "e2");
    assert_eq!(added[0].index, 1);
}

#[test]
fn test_query_changes_removed() {
    let previous = vec!["e1".to_string(), "e2".to_string()];
    let current = vec!["e1".to_string()];
    let (removed, added) = compute_query_diff(&previous, &current);
    assert_eq!(removed, vec!["e2".to_string()]);
    assert!(added.is_empty(), "no additions expected");
}

#[test]
fn ensure_ownership_ok() {
    let p = alice();
    assert!(ensure_account_ownership("account-alice", &p).is_ok());
}

#[test]
fn ensure_ownership_rejected() {
    let p = alice();
    let err = ensure_account_ownership("account-bob", &p).expect_err("should reject");
    assert_eq!(err.requested_account_id, "account-bob");
    assert_eq!(err.principal_account_id, "account-alice");
}

#[test]
fn test_extract_angle_bracket_addresses() {
    let mut out = Vec::new();
    extract_addresses_from_header("Alice <alice@example.com>, Bob <bob@example.com>", &mut out);
    assert_eq!(out, vec!["alice@example.com", "bob@example.com"]);
}

#[test]
fn test_extract_bare_addresses() {
    let mut out = Vec::new();
    extract_addresses_from_header("carol@example.com, dave@example.com", &mut out);
    assert_eq!(out, vec!["carol@example.com", "dave@example.com"]);
}
