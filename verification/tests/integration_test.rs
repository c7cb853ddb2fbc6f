use macolint::database::{Database, Snippet};
use macolint::encryption::Encryption;
use macolint::errors::SnipError;

#[test]
fn test_placeholder() {
    assert!(true);
}

fn snip(id: i64, name: &str, content: &str, created: u64, updated: u64) -> Snippet {
    Snippet {
        id,
        name: name.to_owned(),
        content_encrypted: content.to_owned(),
        created_at: created,
        updated_at: updated,
        user_id: None,
        team_id: None,
        synced_at: None,
        sync_status: None,
    }
}

#[test]
fn upsert_overwrites_single_record() {
    let cipher = Encryption::new("master").unwrap();
    let mut db = Database::new();
    let blob_a = cipher.encrypt("content A").unwrap();
    let blob_b = cipher.encrypt("content B").unwrap();
    db.save_snippet("foo", &blob_a, 10);
    db.save_snippet("foo", &blob_b, 20);
    let all = db.list_snippets();
    assert_eq!(all.len(), 1);
    assert_eq!(all[0].name, "foo");
    let got = db.get_snippet("foo").unwrap();
    assert_eq!(cipher.decrypt(&got.content_encrypted).unwrap(), "content B");
}

#[test]
fn upsert_keeps_id_and_created_at() {
    let mut db = Database::new();
    db.save_snippet("foo", "blob1", 10);
    let first = db.get_snippet("foo").unwrap();
    db.save_snippet("foo", "blob2", 99);
    let second = db.get_snippet("foo").unwrap();
    assert_eq!(second.id, first.id);
    assert_eq!(second.created_at, first.created_at);
    assert_eq!(second.updated_at, 99);
    assert_eq!(second.content_encrypted, "blob2");
}

#[test]
fn listing_orders_by_recency_and_names_lexicographically() {
    let mut db = Database::new();
    db.save_snippet("a", "blob-a1", 1);
    db.save_snippet("b", "blob-b", 2);
    db.save_snippet("a", "blob-a2", 3);
    let listed: Vec<String> = db.list_snippets().into_iter().map(|s| s.name).collect();
    assert_eq!(listed, vec!["a".to_owned(), "b".to_owned()]);
    let names = db.get_all_names();
    assert_eq!(names, vec!["a".to_owned(), "b".to_owned()]);
}

#[test]
fn name_listing_is_sorted() {
    let mut db = Database::new();
    db.save_snippet("pear", "p", 1);
    db.save_snippet("apple", "a", 2);
    db.save_snippet("banana", "b", 3);
    let names = db.get_all_names();
    assert_eq!(
        names,
        vec!["apple".to_owned(), "banana".to_owned(), "pear".to_owned()]
    );
}

#[test]
fn absent_name_is_absence_not_error() {
    let db = Database::new();
    assert!(db.get_snippet("nonexistent").is_none());
    let mut db = db;
    db.save_snippet("present", "blob", 1);
    assert!(db.get_snippet("nonexistent").is_none());
    assert!(db.get_snippet("present").is_some());
}

#[test]
fn from_records_accepts_unique_rows() {
    let rows = vec![
        snip(1, "a", "x", 1, 1),
        snip(2, "b", "y", 2, 2),
    ];
    let db = Database::from_records(rows).unwrap();
    assert_eq!(db.get_snippet("a").unwrap().content_encrypted, "x");
    assert_eq!(db.list_snippets().len(), 2);
}

#[test]
fn from_records_rejects_duplicate_names_and_ids() {
    let dup_name = vec![snip(1, "a", "x", 1, 1), snip(2, "a", "y", 2, 2)];
    assert_eq!(
        Database::from_records(dup_name).unwrap_err(),
        SnipError::StorageUnavailable
    );
    let dup_id = vec![snip(1, "a", "x", 1, 1), snip(1, "b", "y", 2, 2)];
    assert_eq!(
        Database::from_records(dup_id).unwrap_err(),
        SnipError::StorageUnavailable
    );
}

#[test]
fn sync_fields_round_trip_untouched() {
    let mut rows = vec![snip(7, "a", "x", 1, 1)];
    rows[0].user_id = Some("user-1".to_owned());
    rows[0].team_id = Some("team-9".to_owned());
    rows[0].synced_at = Some("2024-01-01".to_owned());
    rows[0].sync_status = Some("pending".to_owned());
    let mut db = Database::from_records(rows).unwrap();
    db.save_snippet("a", "new-blob", 50);
    let rec = db.get_snippet("a").unwrap();
    assert_eq!(rec.user_id.as_deref(), Some("user-1"));
    assert_eq!(rec.team_id.as_deref(), Some("team-9"));
    assert_eq!(rec.synced_at.as_deref(), Some("2024-01-01"));
    assert_eq!(rec.sync_status.as_deref(), Some("pending"));
    assert_eq!(rec.id, 7);
}

#[test]
fn error_descriptions_are_nonempty() {
    let all = [
        SnipError::KeyDerivationFailure,
        SnipError::EncryptionFailed,
        SnipError::AuthenticationFailed,
        SnipError::MalformedCiphertext,
        SnipError::InvalidEncoding,
        SnipError::StorageUnavailable,
        SnipError::SelectionCancelled,
        SnipError::NoCandidates,
    ];
    for e in all {
        assert!(!e.describe().is_empty());
    }
}

#[test]
fn config_db_path_joins_data_dir() {
    let cfg = macolint::config::Config {
        data_dir: "/tmp/snippets".to_owned(),
        master_key: "key".to_owned(),
    };
    assert_eq!(cfg.db_path(), "/tmp/snippets/snippets.db");
}
