//! Tests for the vault operations: the end-to-end scenario, the drift
//! check's three-way verdict, the set/remove pipelines and their failure
//! ladders, and the listing of a project.

use nova_vault::cipher::CipherEngine;
use nova_vault::location::LocationIdentity;
use nova_vault::store::SecretStore;
use nova_vault::vault::{
    check_one, classify_content, clone_plan, join_path, list_op, remove_op, resolve_location,
    set_op, CheckStatus, RemoveOutcome, VaultError,
};

fn engine() -> CipherEngine {
    CipherEngine::provision(b"unique nonce".to_vec(), &b"pw".to_vec())
}

fn acme() -> LocationIdentity {
    LocationIdentity { project: b"acme".to_vec(), folder: None }
}

#[test]
fn end_to_end_set_then_clone() {
    let engine = engine();
    let mut store = SecretStore::new();
    let loc = resolve_location(&b"/Users/mac/Projects/acme".to_vec()).unwrap();
    assert_eq!(loc.project, b"acme".to_vec());
    assert!(loc.folder.is_none());

    let stored_path = set_op(
        &mut store,
        &engine,
        &loc,
        &b"local/.env".to_vec(),
        &b"X=1".to_vec(),
        &b"pw".to_vec(),
    )
    .unwrap();
    assert_eq!(stored_path, b"local/.env".to_vec());

    let items = clone_plan(&store, &engine, b"acme", &b"pw".to_vec()).unwrap();
    assert_eq!(items.len(), 1);
    assert_eq!(items[0].path, b"local/.env".to_vec());
    assert_eq!(items[0].data.as_ref().unwrap(), &b"X=1".to_vec());
}

#[test]
fn end_to_end_clone_with_wrong_password_fails_authentication() {
    let engine = engine();
    let mut store = SecretStore::new();
    let loc = acme();
    set_op(
        &mut store,
        &engine,
        &loc,
        &b"local/.env".to_vec(),
        &b"X=1".to_vec(),
        &b"pw".to_vec(),
    )
    .unwrap();
    let r = clone_plan(&store, &engine, b"acme", &b"wrong".to_vec());
    assert_eq!(r.err(), Some(VaultError::AuthenticationFailure));
}

#[test]
fn set_with_wrong_password_writes_nothing() {
    let engine = engine();
    let mut store = SecretStore::new();
    let r = set_op(
        &mut store,
        &engine,
        &acme(),
        &b".env".to_vec(),
        &b"X=1".to_vec(),
        &b"wrong".to_vec(),
    );
    assert_eq!(r.err(), Some(VaultError::AuthenticationFailure));
    assert_eq!(store.len(), 0);
}

#[test]
fn set_with_empty_path_is_a_usage_error() {
    let engine = engine();
    let mut store = SecretStore::new();
    let r = set_op(
        &mut store,
        &engine,
        &acme(),
        &Vec::new(),
        &b"X=1".to_vec(),
        &b"pw".to_vec(),
    );
    assert_eq!(r.err(), Some(VaultError::UsageError));
    assert_eq!(store.len(), 0);
}

#[test]
fn set_twice_supersedes_the_first_content() {
    let engine = engine();
    let mut store = SecretStore::new();
    let loc = acme();
    set_op(&mut store, &engine, &loc, &b".env".to_vec(), &b"one".to_vec(), &b"pw".to_vec())
        .unwrap();
    set_op(&mut store, &engine, &loc, &b".env".to_vec(), &b"two".to_vec(), &b"pw".to_vec())
        .unwrap();
    assert_eq!(store.len(), 1);
    let items = clone_plan(&store, &engine, b"acme", &b"pw".to_vec()).unwrap();
    assert_eq!(items.len(), 1);
    assert_eq!(items[0].data.as_ref().unwrap(), &b"two".to_vec());
}

#[test]
fn set_joins_the_resolved_folder() {
    let engine = engine();
    let mut store = SecretStore::new();
    let loc = LocationIdentity { project: b"acme".to_vec(), folder: Some(b"sub/dir".to_vec()) };
    let stored_path = set_op(
        &mut store,
        &engine,
        &loc,
        &b".env".to_vec(),
        &b"X=1".to_vec(),
        &b"pw".to_vec(),
    )
    .unwrap();
    assert_eq!(stored_path, b"sub/dir/.env".to_vec());
    assert!(store.get_one(b"acme", b"sub/dir/.env").is_some());
}

#[test]
fn remove_present_secret_reports_removed() {
    let engine = engine();
    let mut store = SecretStore::new();
    let loc = acme();
    set_op(&mut store, &engine, &loc, &b".env".to_vec(), &b"X=1".to_vec(), &b"pw".to_vec())
        .unwrap();
    let r = remove_op(&mut store, &loc, &b".env".to_vec()).unwrap();
    assert_eq!(r, RemoveOutcome::Removed);
    assert_eq!(store.len(), 0);
}

#[test]
fn remove_absent_secret_reports_not_found_and_changes_nothing() {
    let engine = engine();
    let mut store = SecretStore::new();
    let loc = acme();
    set_op(&mut store, &engine, &loc, &b".env".to_vec(), &b"X=1".to_vec(), &b"pw".to_vec())
        .unwrap();
    let r = remove_op(&mut store, &loc, &b"missing".to_vec()).unwrap();
    assert_eq!(r, RemoveOutcome::NotFound);
    assert_eq!(store.len(), 1);
}

#[test]
fn remove_with_empty_path_is_a_usage_error() {
    let mut store = SecretStore::new();
    let r = remove_op(&mut store, &acme(), &Vec::new());
    assert_eq!(r.err(), Some(VaultError::UsageError));
}

#[test]
fn check_identical_file() {
    let engine = engine();
    let stored = engine.encrypt(&b"X=1".to_vec(), &b"pw".to_vec());
    let disk = Some(b"X=1".to_vec());
    let r = check_one(&engine, &b"pw".to_vec(), &stored, &disk).unwrap();
    assert_eq!(r, CheckStatus::Identical);
}

#[test]
fn check_differing_file() {
    let engine = engine();
    let stored = engine.encrypt(&b"X=1".to_vec(), &b"pw".to_vec());
    let disk = Some(b"X=2".to_vec());
    let r = check_one(&engine, &b"pw".to_vec(), &stored, &disk).unwrap();
    assert_eq!(r, CheckStatus::NonIdentical);
}

#[test]
fn check_missing_file() {
    let engine = engine();
    let stored = engine.encrypt(&b"X=1".to_vec(), &b"pw".to_vec());
    let r = check_one(&engine, &b"pw".to_vec(), &stored, &None).unwrap();
    assert_eq!(r, CheckStatus::NonExistent);
}

#[test]
fn check_with_wrong_password_fails_authentication() {
    let engine = engine();
    let stored = engine.encrypt(&b"X=1".to_vec(), &b"pw".to_vec());
    let disk = Some(b"X=1".to_vec());
    let r = check_one(&engine, &b"wrong".to_vec(), &stored, &disk);
    assert_eq!(r.err(), Some(VaultError::AuthenticationFailure));
}

#[test]
fn classify_is_the_three_way_verdict() {
    assert_eq!(classify_content(&b"a".to_vec(), &Some(b"a".to_vec())), CheckStatus::Identical);
    assert_eq!(classify_content(&b"a".to_vec(), &Some(b"b".to_vec())), CheckStatus::NonIdentical);
    assert_eq!(classify_content(&b"a".to_vec(), &None), CheckStatus::NonExistent);
}

#[test]
fn list_of_empty_project_is_empty_and_not_an_error() {
    let store = SecretStore::new();
    let listing = list_op(&store, b"acme");
    assert!(listing.is_empty());
}

#[test]
fn list_reports_paths_and_stored_lengths_only() {
    let engine = engine();
    let mut store = SecretStore::new();
    let loc = acme();
    set_op(&mut store, &engine, &loc, &b".env".to_vec(), &b"X=1".to_vec(), &b"pw".to_vec())
        .unwrap();
    let stored = store.get_one(b"acme", b".env").unwrap();
    let listing = list_op(&store, b"acme");
    assert_eq!(listing.len(), 1);
    assert_eq!(listing[0].0, b".env".to_vec());
    assert_eq!(listing[0].1, stored.content.len());
}

#[test]
fn resolve_location_rejects_foreign_paths() {
    let r = resolve_location(&b"/somewhere/else".to_vec());
    assert_eq!(r.err(), Some(VaultError::InvalidLocation));
}

#[test]
fn join_path_with_no_folder_is_the_identity() {
    assert_eq!(join_path(&None, b"local/.env"), b"local/.env".to_vec());
}

#[test]
fn join_path_prefixes_the_folder() {
    assert_eq!(join_path(&Some(b"sub".to_vec()), b".env"), b"sub/.env".to_vec());
}
