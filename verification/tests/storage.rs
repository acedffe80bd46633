use ofuton::storage::{Storage, StorageError, WriteObjectData};
use ofuton::registry::cleanup_delay_seconds;
use ofuton::crypto::blake3_hex;
use sha2::Digest;

fn put_data(path: &str, body: &[u8]) -> WriteObjectData {
    WriteObjectData {
        binary: body.to_vec(),
        path: path.to_string(),
        filename: Some("b.txt".to_string()),
        encoded_filename: None,
        content_size: body.len() as u64,
        mime_type: "text/plain".to_string(),
    }
}

#[test]
fn put_then_get_round_trips() {
    let mut st = Storage::new();
    st.put_object(put_data("/a/b.txt", b"hello")).unwrap();
    let got = st.get_object("/a/b.txt", true).unwrap();
    // The row is content-addressed by the BLAKE3 hash of the path, computed
    // here independently with the same crate.
    let expected = blake3::hash("/a/b.txt".as_bytes()).to_hex().to_string();
    assert_eq!(got.metadata.internal_filename, expected);
    assert_eq!(got.metadata.content_size, 5);
    assert_eq!(got.file.unwrap(), b"hello".to_vec());
}

#[test]
fn library_blake3_matches_the_crate() {
    let ours = blake3_hex("/a/b.txt");
    let theirs = blake3::hash("/a/b.txt".as_bytes()).to_hex().to_string();
    assert_eq!(ours, theirs);
    assert_eq!(ours.len(), 64);
    assert_ne!(ours, "/a/b.txt");
}

#[test]
fn library_sha256_matches_the_crate() {
    let ours = ofuton::crypto::sha256_hex("abc");
    let theirs: String = sha2::Sha256::digest(b"abc")
        .iter()
        .map(|b| format!("{:02x}", b))
        .collect();
    assert_eq!(ours, theirs);
    assert_eq!(
        ours,
        "ba7816bf8f01cfea414140de5dae2223b00361a396177a9cb410ff61f20015ad"
    );
}

#[test]
fn duplicate_put_conflicts() {
    let mut st = Storage::new();
    st.put_object(put_data("/a/b.txt", b"hello")).unwrap();
    let second = st.put_object(put_data("/a/b.txt", b"other"));
    assert!(matches!(second, Err(StorageError::Conflict)));
}

#[test]
fn get_missing_object_is_not_found() {
    let st = Storage::new();
    assert!(matches!(
        st.get_object("/nope", true),
        Err(StorageError::NotFound)
    ));
}

#[test]
fn multipart_lifecycle_merges_in_numeric_order() {
    let mut st = Storage::new();
    let id = st.create_multipart_upload(
        "/a/c.bin".to_string(),
        Some("c.bin".to_string()),
        None,
        "application/octet-stream".to_string(),
    );
    assert_eq!(id.len(), 36);
    // Parts arrive out of order; the merge sorts by part number.
    st.upload_part(&id, 2, b"BBB".to_vec()).unwrap();
    st.upload_part(&id, 1, b"AAA".to_vec()).unwrap();
    st.complete_multipart_upload(&id).unwrap();
    let got = st.get_object("/a/c.bin", true).unwrap();
    assert_eq!(got.metadata.content_size, 6);
    assert_eq!(got.file.unwrap(), b"AAABBB".to_vec());
    // The session and its directory are gone.
    assert!(!st.sessions.contains(&id));
    assert!(!st.blobs.has_multipart_dir(&id));
}

#[test]
fn part_numbers_sort_numerically_not_lexically() {
    let mut st = Storage::new();
    let id = st.create_multipart_upload(
        "/big.bin".to_string(),
        None,
        None,
        "application/octet-stream".to_string(),
    );
    st.upload_part(&id, 10, b"X".to_vec()).unwrap();
    st.upload_part(&id, 2, b"Y".to_vec()).unwrap();
    st.complete_multipart_upload(&id).unwrap();
    let got = st.get_object("/big.bin", true).unwrap();
    assert_eq!(got.file.unwrap(), b"YX".to_vec());
}

#[test]
fn upload_part_unknown_id_is_rejected() {
    let mut st = Storage::new();
    let r = st.upload_part("no-such-id", 1, b"AAA".to_vec());
    assert!(matches!(r, Err(StorageError::InvalidUploadId)));
}

#[test]
fn duplicate_part_is_rejected() {
    let mut st = Storage::new();
    let id = st.create_multipart_upload("/p".to_string(), None, None, "t".to_string());
    st.upload_part(&id, 1, b"AAA".to_vec()).unwrap();
    let r = st.upload_part(&id, 1, b"BBB".to_vec());
    assert!(matches!(r, Err(StorageError::AlreadyExists)));
}

#[test]
fn complete_without_parts_is_not_found() {
    let mut st = Storage::new();
    let id = st.create_multipart_upload("/q".to_string(), None, None, "t".to_string());
    let r = st.complete_multipart_upload(&id);
    assert!(matches!(r, Err(StorageError::NotFound)));
}

#[test]
fn complete_unknown_id_is_rejected() {
    let mut st = Storage::new();
    let r = st.complete_multipart_upload("missing");
    assert!(matches!(r, Err(StorageError::InvalidUploadId)));
}

#[test]
fn abort_removes_session_and_directory() {
    let mut st = Storage::new();
    let id = st.create_multipart_upload("/a/c.bin".to_string(), None, None, "t".to_string());
    st.upload_part(&id, 1, b"AAA".to_vec()).unwrap();
    st.upload_part(&id, 2, b"BBB".to_vec()).unwrap();
    assert!(st.blobs.has_multipart_dir(&id));
    st.abort_multipart_upload(&id).unwrap();
    assert!(!st.sessions.contains(&id));
    assert!(!st.blobs.has_multipart_dir(&id));
    // A later complete sees no session.
    assert!(matches!(
        st.complete_multipart_upload(&id),
        Err(StorageError::InvalidUploadId)
    ));
}

#[test]
fn abort_tolerates_missing_directory() {
    let mut st = Storage::new();
    let id = st.create_multipart_upload("/a".to_string(), None, None, "t".to_string());
    // No part was ever uploaded, so no directory exists.
    assert!(st.abort_multipart_upload(&id).is_ok());
    assert!(!st.sessions.contains(&id));
}

#[test]
fn delete_object_removes_row_and_blob() {
    let mut st = Storage::new();
    st.put_object(put_data("/a/b.txt", b"hello")).unwrap();
    st.delete_object("/a/b.txt").unwrap();
    assert!(matches!(
        st.get_object("/a/b.txt", false),
        Err(StorageError::NotFound)
    ));
    assert!(matches!(
        st.delete_object("/a/b.txt"),
        Err(StorageError::NotFound)
    ));
    // The path is free again.
    st.put_object(put_data("/a/b.txt", b"again")).unwrap();
}

fn record(path: &str) -> ofuton::metadata::ObjectRecord {
    ofuton::metadata::ObjectRecord {
        path: path.to_string(),
        content_size: 1,
        mime_type: "t".to_string(),
        internal_filename: "x".to_string(),
        filename: None,
        encoded_filename: None,
    }
}

#[test]
fn insert_many_empty_batch_succeeds_and_changes_nothing() {
    let mut table = ofuton::metadata::MetadataTable::new();
    table.insert(record("/a")).unwrap();
    assert!(table.insert_many(Vec::new()).is_ok());
    assert!(table.get_by_path("/a").is_some());
}

#[test]
fn insert_many_batch_is_transactional() {
    let mut table = ofuton::metadata::MetadataTable::new();
    // A duplicate inside the batch refuses the whole batch.
    let dup_inside = vec![record("/a"), record("/b"), record("/a")];
    assert!(table.insert_many(dup_inside).is_err());
    assert!(table.get_by_path("/a").is_none());
    assert!(table.get_by_path("/b").is_none());
    // A duplicate against an existing row refuses the whole batch too.
    table.insert(record("/a")).unwrap();
    let dup_existing = vec![record("/b"), record("/a")];
    assert!(table.insert_many(dup_existing).is_err());
    assert!(table.get_by_path("/b").is_none());
    // Fresh, distinct paths all land.
    let fresh = vec![record("/b"), record("/c")];
    assert!(table.insert_many(fresh).is_ok());
    assert!(table.get_by_path("/b").is_some());
    assert!(table.get_by_path("/c").is_some());
}

#[test]
fn delete_object_leaves_other_objects_alone() {
    let mut st = Storage::new();
    st.put_object(put_data("/one", b"first")).unwrap();
    st.put_object(put_data("/two", b"second")).unwrap();
    st.delete_object("/one").unwrap();
    let kept = st.get_object("/two", true).unwrap();
    assert_eq!(kept.file.unwrap(), b"second".to_vec());
}

#[test]
fn ttl_cleanup_removes_stale_sessions_and_directories() {
    let mut st = Storage::new();
    st.register_session(
        "stale-id".to_string(),
        "/stale".to_string(),
        None,
        None,
        "t".to_string(),
        100,
    );
    st.register_session(
        "fresh-id".to_string(),
        "/fresh".to_string(),
        None,
        None,
        "t".to_string(),
        102,
    );
    st.upload_part_at("stale-id", 1, b"AAA".to_vec(), 100).unwrap();
    // Five seconds later with a two-second TTL, only the session last
    // touched at 100 is stale.
    let removed = st.cleanup_expired(103, 2);
    assert_eq!(removed, vec!["stale-id".to_string()]);
    assert!(!st.sessions.contains("stale-id"));
    assert!(!st.blobs.has_multipart_dir("stale-id"));
    assert!(st.sessions.contains("fresh-id"));
}

#[test]
fn upload_part_touches_the_session_timestamp() {
    let mut st = Storage::new();
    st.register_session("id-1".to_string(), "/x".to_string(), None, None, "t".to_string(), 100);
    st.upload_part_at("id-1", 1, b"AAA".to_vec(), 200).unwrap();
    // A sweep keyed to the old timestamp no longer removes the session.
    let removed = st.cleanup_expired(201, 50);
    assert!(removed.is_empty());
    assert!(st.sessions.contains("id-1"));
}

#[test]
fn cleanup_delay_counts_down_to_expiry() {
    assert_eq!(cleanup_delay_seconds(100, 101, 2), Some(2));
    assert_eq!(cleanup_delay_seconds(100, 100, 2), Some(3));
    assert_eq!(cleanup_delay_seconds(100, 103, 2), None);
}

#[test]
fn registry_reports_earliest_session() {
    let mut st = Storage::new();
    assert_eq!(st.sessions.earliest_last_upload(), None);
    st.register_session("a".to_string(), "/a".to_string(), None, None, "t".to_string(), 300);
    st.register_session("b".to_string(), "/b".to_string(), None, None, "t".to_string(), 100);
    st.register_session("c".to_string(), "/c".to_string(), None, None, "t".to_string(), 200);
    assert_eq!(st.sessions.earliest_last_upload(), Some(100));
}

#[test]
fn initialize_discards_multipart_directories() {
    let mut st = Storage::new();
    let id = st.create_multipart_upload("/a".to_string(), None, None, "t".to_string());
    st.upload_part(&id, 1, b"AAA".to_vec()).unwrap();
    st.put_object(put_data("/keep", b"data")).unwrap();
    st.initialize();
    assert!(!st.blobs.has_multipart_dir(&id));
    assert!(st.get_object("/keep", true).is_ok());
}

#[test]
fn upload_ids_are_distinct() {
    let mut st = Storage::new();
    let a = st.create_multipart_upload("/a".to_string(), None, None, "t".to_string());
    let b = st.create_multipart_upload("/b".to_string(), None, None, "t".to_string());
    assert_ne!(a, b);
}

#[test]
fn resolve_path_layout() {
    assert_eq!(
        ofuton::blob::resolve_path("bucket", "abc123", false),
        "bucket/abc123"
    );
    assert_eq!(
        ofuton::blob::resolve_path("bucket", "uid/1.part", true),
        "bucket/.multipart/uid/1.part"
    );
}

#[test]
fn migrate_row_is_content_addressed() {
    let row = ofuton::cli::migrate_object_row("files/a.png", 42, "image/png".to_string());
    assert_eq!(row.path, "/files/a.png");
    assert_eq!(
        row.internal_filename,
        blake3::hash("/files/a.png".as_bytes()).to_hex().to_string()
    );
    assert_eq!(row.content_size, 42);
    assert_eq!(row.mime_type, "image/png");
    assert_eq!(row.filename, None);
}

#[test]
fn max_upload_bytes_scales_mebibytes() {
    let cfg = ofuton::config::AppConfig {
        server: ofuton::config::CFGServer { host: "0.0.0.0".to_string(), port: 3000 },
        database: ofuton::config::CFGDatabase {
            provider: "sqlite_memory".to_string(),
            sqlite: ofuton::config::CFGDatabaseSQLite { path: String::new() },
            postgres: ofuton::config::CFGDatabasePostgres {
                user: String::new(),
                password: String::new(),
                host: String::new(),
                port: 5432,
                database: String::new(),
            },
        },
        bucket: ofuton::config::CFGBucket {
            path: "bucket".to_string(),
            max_upload_size_mb: 100,
            request_expiration_seconds: 120,
        },
        account: ofuton::config::CFGAccount {
            access_key: "AKID".to_string(),
            secret_key: "secretkey".to_string(),
        },
        sentry: ofuton::config::CFGSentry { dsn: String::new() },
        debug: None,
    };
    assert_eq!(cfg.max_upload_bytes(), 100 * 1024 * 1024);
}
