//! Tests for the location resolver: the root-segment convention, folder
//! extraction, separator normalization, and rejection of foreign paths.

use nova_vault::location::{normalize_separators, resolve};

#[test]
fn resolves_project_without_folder() {
    let loc = resolve(&b"/Users/mac/Projects/acme".to_vec()).unwrap();
    assert_eq!(loc.project, b"acme".to_vec());
    assert!(loc.folder.is_none());
}

#[test]
fn resolves_project_with_folder() {
    let loc = resolve(&b"/Users/mac/Projects/acme/src/config".to_vec()).unwrap();
    assert_eq!(loc.project, b"acme".to_vec());
    assert_eq!(loc.folder, Some(b"src/config".to_vec()));
}

#[test]
fn trailing_slash_yields_no_folder() {
    let loc = resolve(&b"/Users/mac/Projects/acme/".to_vec()).unwrap();
    assert_eq!(loc.project, b"acme".to_vec());
    assert!(loc.folder.is_none());
}

#[test]
fn backslash_paths_are_normalized() {
    let loc = resolve(&b"C:\\Projects\\acme\\sub".to_vec()).unwrap();
    assert_eq!(loc.project, b"acme".to_vec());
    assert_eq!(loc.folder, Some(b"sub".to_vec()));
}

#[test]
fn path_without_root_segment_is_rejected() {
    assert!(resolve(&b"/Users/mac/Work/acme".to_vec()).is_none());
    assert!(resolve(&b"".to_vec()).is_none());
    // The root segment needs its trailing slash.
    assert!(resolve(&b"/Users/mac/Projects".to_vec()).is_none());
}

#[test]
fn first_root_segment_wins() {
    let loc = resolve(&b"/a/Projects/one/Projects/two".to_vec()).unwrap();
    assert_eq!(loc.project, b"one".to_vec());
    assert_eq!(loc.folder, Some(b"Projects/two".to_vec()));
}

#[test]
fn empty_project_name_is_kept_verbatim() {
    let loc = resolve(&b"/Users/mac/Projects//sub".to_vec()).unwrap();
    assert_eq!(loc.project, b"".to_vec());
    assert_eq!(loc.folder, Some(b"sub".to_vec()));
}

#[test]
fn normalize_separators_flips_backslashes_only() {
    let out = normalize_separators(b"a\\b/c\\");
    assert_eq!(out, b"a/b/c/".to_vec());
}
