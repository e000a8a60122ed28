use sha2::{Digest, Sha256};
use rusmes_jmap::blob::{
    compute_blob_id, invalid_account_body, upload_error_body, BlobMeta, BlobStorage, UploadError, DEFAULT_MAX_BLOB_SIZE,
};

/// The content-addressed id of some bytes: `G` followed
/// by the lower-case hexadecimal SHA-256 digest.
fn generate_blob_id(data: &[u8]) -> String {
    let mut hasher = Sha256::new();
    hasher.update(data);
    let result = hasher.finalize();
    format!("G{:x}", result)
}

#[test]
fn test_blob_storage_store_and_get() {
    let mut storage = BlobStorage::new();
    let data = b"test data".to_vec();
    let blob_id = "blob123".to_string();
    storage.store(blob_id.clone(), data.clone(), "text/plain".to_string());
    let retrieved = storage.get(&blob_id).expect("blob should exist");
    assert_eq!(retrieved.data(), data.as_slice());
    assert_eq!(retrieved.content_type(), "text/plain");
}

#[test]
fn test_blob_storage_size() {
    let mut storage = BlobStorage::new();
    let data = b"test data".to_vec();
    let blob_id = "blob123".to_string();
    storage.store(blob_id.clone(), data.clone(), "text/plain".to_string());
    assert_eq!(storage.size(&blob_id), Some(9));
}

#[test]
fn test_blob_storage_get_nonexistent() {
    let storage = BlobStorage::new();
    assert!(storage.get("nonexistent").is_none());
}

#[test]
fn test_generate_blob_id() {
    let id1 = generate_blob_id(b"test data");
    let id2 = generate_blob_id(b"test data");
    let id3 = generate_blob_id(b"different data");
    assert_eq!(id1, id2);
    assert_ne!(id1, id3);
    assert!(id1.starts_with('G'));
}

#[test]
fn test_blob_id_length() {
    let blob_id = generate_blob_id(b"test data");
    assert_eq!(blob_id.len(), 65);
}

#[test]
fn test_blob_storage_multiple_blobs() {
    let mut storage = BlobStorage::new();
    for i in 0..10 {
        let data = format!("data{}", i).into_bytes();
        let blob_id = format!("blob{}", i);
        storage.store(blob_id.clone(), data, "text/plain".to_string());
    }
    for i in 0..10 {
        let blob_id = format!("blob{}", i);
        assert!(storage.get(&blob_id).is_some());
    }
}

#[test]
fn test_blob_storage_overwrite() {
    let mut storage = BlobStorage::new();
    let blob_id = "blob123".to_string();
    storage.store(blob_id.clone(), b"original".to_vec(), "text/plain".to_string());
    storage.store(blob_id.clone(), b"updated".to_vec(), "text/html".to_string());
    let retrieved = storage.get(&blob_id).expect("blob should exist");
    assert_eq!(retrieved.data(), b"updated");
    assert_eq!(retrieved.content_type(), "text/html");
}

#[test]
fn test_blob_storage_empty_data() {
    let mut storage = BlobStorage::new();
    storage.store("empty".to_string(), vec![], "application/octet-stream".to_string());
    let retrieved = storage.get("empty").expect("blob should exist");
    assert_eq!(retrieved.data().len(), 0);
}

#[test]
fn test_blob_storage_large_data() {
    let mut storage = BlobStorage::new();
    let data = vec![0u8; 1024 * 1024];
    storage.store("large".to_string(), data, "application/octet-stream".to_string());
    assert_eq!(storage.size("large"), Some(1024 * 1024));
}

#[test]
fn test_blob_storage_clone() {
    let mut storage1 = BlobStorage::new();
    storage1.store("blob1".to_string(), b"data".to_vec(), "text/plain".to_string());
    let storage2 = storage1.clone();
    assert!(storage2.get("blob1").is_some());
}

#[test]
fn test_blob_storage_default() {
    let storage = BlobStorage::default();
    assert!(storage.get("any").is_none());
}

#[test]
fn test_blob_id_uniqueness() {
    let mut ids = std::collections::HashSet::new();
    for i in 0..100 {
        let data = format!("unique data {}", i).into_bytes();
        let id = generate_blob_id(&data);
        assert!(ids.insert(id), "Duplicate blob ID generated");
    }
}

#[test]
fn test_blob_storage_size_nonexistent() {
    let storage = BlobStorage::new();
    assert_eq!(storage.size("nonexistent"), None);
}

#[test]
fn test_blob_id_format() {
    let blob_id = generate_blob_id(b"test");
    assert!(blob_id.chars().skip(1).all(|c| c.is_ascii_hexdigit()));
}

#[test]
fn test_blob_id_deterministic() {
    let id1 = generate_blob_id(b"consistent data");
    let id2 = generate_blob_id(b"consistent data");
    let id3 = generate_blob_id(b"consistent data");
    assert_eq!(id1, id2);
    assert_eq!(id2, id3);
}

#[test]
fn compute_blob_id_is_sha256_hex() {
    // SHA-256("abc")
    assert_eq!(
        compute_blob_id(b"abc"),
        "ba7816bf8f01cfea414140de5dae2223b00361a396177a9cb410ff61f20015ad"
    );
    assert_eq!(compute_blob_id(b"abc"), generate_blob_id(b"abc")[1..].to_string());
}

#[test]
fn upload_then_download_reads_back() {
    let mut storage = BlobStorage::new();
    let id = storage
        .upload_with("acc1", "image/png", b"\x89PNG", "b1".to_string(), 1000)
        .expect("fits");
    assert_eq!(id, "b1");
    let (data, meta) = storage.download("b1").expect("present");
    assert_eq!(data, b"\x89PNG".to_vec());
    assert_eq!(meta.content_type, "image/png");
    assert_eq!(meta.size, 4);
    assert_eq!(meta.account_id, "acc1");
    assert_eq!(meta.created_at, 1000);
    assert_eq!(storage.blob_count(), 1);
}

#[test]
fn upload_over_limit_is_refused_and_store_unchanged() {
    let mut storage = BlobStorage::new().with_max_blob_size(3);
    let err = storage
        .upload_with("acc1", "text/plain", b"four", "b1".to_string(), 0)
        .expect_err("too large");
    assert!(matches!(err, UploadError::TooLarge { actual: 4, max: 3 }));
    assert_eq!(storage.blob_count(), 0);
    let ok = storage.upload_with("acc1", "text/plain", b"abc", "b2".to_string(), 0);
    assert!(ok.is_ok());
}

#[test]
fn upload_gives_fresh_ids() {
    let mut storage = BlobStorage::new();
    let a = storage.upload("acc1", "text/plain", b"x").expect("ok");
    let b = storage.upload("acc1", "text/plain", b"x").expect("ok");
    assert_ne!(a, b);
    assert_eq!(storage.blob_count(), 2);
}

#[test]
fn delete_then_read_finds_nothing() {
    let mut storage = BlobStorage::new();
    storage.store("b1".to_string(), b"one".to_vec(), "text/plain".to_string());
    storage.store("b2".to_string(), b"two".to_vec(), "text/plain".to_string());
    storage.store("b1".to_string(), b"uno".to_vec(), "text/plain".to_string());
    assert_eq!(storage.blob_count(), 2);
    storage.delete("b1").expect("present");
    assert_eq!(storage.blob_count(), 1);
    assert!(storage.get("b1").is_none());
    assert_eq!(storage.get("b2").expect("kept").data(), b"two");
    let err = storage.delete("b1").expect_err("gone");
    assert!(matches!(err, UploadError::NotFound(ref id) if id == "b1"));
    assert_eq!(storage.blob_count(), 1);
    let err = storage.download("nope").expect_err("missing");
    assert!(matches!(err, UploadError::NotFound(ref id) if id == "nope"));
}

#[test]
fn upload_error_bodies() {
    let b = upload_error_body(&UploadError::TooLarge { actual: 10, max: 5 });
    assert_eq!(b.error_type, "urn:ietf:params:jmap:error:tooLarge");
    assert_eq!(b.status, 413);
    assert_eq!(b.detail.as_deref(), Some("Blob size 10 bytes exceeds maximum of 5 bytes"));
    let b = upload_error_body(&UploadError::NotFound("x".to_string()));
    assert_eq!(b.status, 500);
    assert_eq!(b.detail.as_deref(), Some("Upload failed: blob not found: x"));
    let b = invalid_account_body();
    assert_eq!(b.status, 400);
    assert_eq!(b.error_type, "urn:ietf:params:jmap:error:invalidArguments");
    assert_eq!(b.detail.as_deref(), Some("Invalid account ID"));
}

#[test]
fn upload_error_messages() {
    assert_eq!(
        UploadError::TooLarge { actual: 7, max: 6 }.message(),
        "blob too large: 7 bytes exceeds maximum of 6"
    );
    assert_eq!(UploadError::LockPoisoned.message(), "blob storage lock poisoned");
    assert_eq!(UploadError::Io("disk".to_string()).message(), "blob I/O error: disk");
    assert_eq!(UploadError::Meta("bad".to_string()).message(), "blob metadata error: bad");
}

#[test]
fn default_limit_is_fifty_mebibytes() {
    assert_eq!(DEFAULT_MAX_BLOB_SIZE, 52_428_800);
}

#[test]
fn test_upload_id_is_random_uuid_text() {
    let mut storage = rusmes_jmap::blob::BlobStorage::new();
    let id = storage.upload("acc1", "text/plain", b"hello").expect("ok");
    let c: Vec<char> = id.chars().collect();
    assert_eq!(c.len(), 36);
    for (i, ch) in c.iter().enumerate() {
        if i == 8 || i == 13 || i == 18 || i == 23 {
            assert_eq!(*ch, '-');
        } else {
            assert!(ch.is_ascii_digit() || ('a'..='f').contains(ch));
        }
    }
    assert_eq!(c[14], '4');
    assert!(['8', '9', 'a', 'b'].contains(&c[19]));
}

#[test]
fn restore_keeps_sidecar_metadata() {
    let mut storage = BlobStorage::new();
    let meta = BlobMeta {
        content_type: "image/png".to_string(),
        size: 3,
        account_id: "acc1".to_string(),
        created_at: 1_704_067_200_000,
    };
    storage.restore("b1".to_string(), b"png".to_vec(), meta);
    let (data, m) = storage.download("b1").expect("restored");
    assert_eq!(data, b"png".to_vec());
    assert_eq!(m.account_id, "acc1");
    assert_eq!(m.content_type, "image/png");
    assert_eq!(m.created_at, 1_704_067_200_000);
    assert_eq!(storage.blob_count(), 1);
}
