//! Tests for the secret store: upsert-as-insert, upsert-as-update, delete
//! semantics and project listings.

use nova_vault::store::{SecretRecord, SecretStore};

fn record(project: &[u8], path: &[u8], content: &[u8]) -> SecretRecord {
    SecretRecord {
        project: project.to_vec(),
        path: path.to_vec(),
        content: content.to_vec(),
    }
}

#[test]
fn get_one_on_empty_store_is_none() {
    let store = SecretStore::new();
    assert!(store.get_one(b"acme", b".env").is_none());
    assert_eq!(store.len(), 0);
}

#[test]
fn upsert_inserts_when_absent() {
    let mut store = SecretStore::new();
    store.upsert(record(b"acme", b".env", b"one"));
    assert_eq!(store.len(), 1);
    let rec = store.get_one(b"acme", b".env").unwrap();
    assert_eq!(rec.content, b"one".to_vec());
}

#[test]
fn upsert_twice_leaves_one_record_with_second_content() {
    let mut store = SecretStore::new();
    store.upsert(record(b"acme", b".env", b"first"));
    store.upsert(record(b"acme", b".env", b"second"));
    assert_eq!(store.len(), 1);
    let rec = store.get_one(b"acme", b".env").unwrap();
    assert_eq!(rec.content, b"second".to_vec());
}

#[test]
fn upsert_keeps_other_keys_apart() {
    let mut store = SecretStore::new();
    store.upsert(record(b"acme", b".env", b"a"));
    store.upsert(record(b"acme", b"conf/db", b"b"));
    store.upsert(record(b"other", b".env", b"c"));
    assert_eq!(store.len(), 3);
    assert_eq!(store.get_one(b"acme", b".env").unwrap().content, b"a".to_vec());
    assert_eq!(store.get_one(b"acme", b"conf/db").unwrap().content, b"b".to_vec());
    assert_eq!(store.get_one(b"other", b".env").unwrap().content, b"c".to_vec());
}

#[test]
fn delete_present_key_reports_one() {
    let mut store = SecretStore::new();
    store.upsert(record(b"acme", b".env", b"a"));
    assert_eq!(store.delete(b"acme", b".env"), 1);
    assert_eq!(store.len(), 0);
    assert!(store.get_one(b"acme", b".env").is_none());
}

#[test]
fn delete_absent_key_reports_zero_and_changes_nothing() {
    let mut store = SecretStore::new();
    store.upsert(record(b"acme", b".env", b"a"));
    assert_eq!(store.delete(b"acme", b"missing"), 0);
    assert_eq!(store.delete(b"other", b".env"), 0);
    assert_eq!(store.len(), 1);
    assert_eq!(store.get_one(b"acme", b".env").unwrap().content, b"a".to_vec());
}

#[test]
fn get_all_returns_only_the_project() {
    let mut store = SecretStore::new();
    store.upsert(record(b"acme", b".env", b"a"));
    store.upsert(record(b"other", b".env", b"b"));
    store.upsert(record(b"acme", b"conf", b"c"));
    let recs = store.get_all(b"acme");
    assert_eq!(recs.len(), 2);
    assert_eq!(recs[0].path, b".env".to_vec());
    assert_eq!(recs[0].content, b"a".to_vec());
    assert_eq!(recs[1].path, b"conf".to_vec());
    assert_eq!(recs[1].content, b"c".to_vec());
}

#[test]
fn duplicate_copies_the_record() {
    let rec = record(b"acme", b".env", b"a");
    let copy = rec.duplicate();
    assert_eq!(copy.project, rec.project);
    assert_eq!(copy.path, rec.path);
    assert_eq!(copy.content, rec.content);
}
