//! Refs and pipeline names.

use scarab_server::refs::{
    bare_pipeline_name, canonicalize_ref, default_pipeline_ref, dispatch_candidate_paths,
    is_pipeline_file,
};

#[test]
fn bare_branch_becomes_a_heads_ref() {
    assert_eq!(canonicalize_ref("main"), "refs/heads/main");
    assert_eq!(canonicalize_ref("release/1.2"), "refs/heads/release/1.2");
}

#[test]
fn fully_qualified_ref_is_verbatim() {
    assert_eq!(canonicalize_ref("refs/heads/main"), "refs/heads/main");
    assert_eq!(canonicalize_ref("refs/tags/v1"), "refs/tags/v1");
    assert_eq!(canonicalize_ref("refs/pull/7/head"), "refs/pull/7/head");
}

#[test]
fn raw_sha_stays_verbatim_so_it_wont_match_a_branch_glob() {
    let sha = "0123456789abcdef0123456789abcdef01234567";
    assert_eq!(canonicalize_ref(sha), sha);
}

#[test]
fn uppercase_or_wrong_length_hex_is_treated_as_a_branch() {
    let upper = "0123456789ABCDEF0123456789ABCDEF01234567";
    assert_eq!(canonicalize_ref(upper), format!("refs/heads/{upper}"));
    assert_eq!(canonicalize_ref("abc123"), "refs/heads/abc123");
}

#[test]
fn canonical_refs_are_fixed_points() {
    for r in ["main", "refs/tags/v1", "0123456789abcdef0123456789abcdef01234567", ""] {
        let once = canonicalize_ref(r);
        assert_eq!(canonicalize_ref(&once), once);
    }
}

#[test]
fn pipelines_are_named_without_their_directory_and_extension() {
    assert_eq!(bare_pipeline_name(".scarab/deploy.yaml"), "deploy");
    assert_eq!(bare_pipeline_name(".scarab/ci.yml"), "ci");
    assert_eq!(bare_pipeline_name("plain"), "plain");
    assert!(is_pipeline_file(".scarab/ci.yml"));
    assert!(!is_pipeline_file(".scarab/readme.md"));
    assert_eq!(default_pipeline_ref(), "HEAD");
}

#[test]
fn a_bare_name_is_tried_under_both_extensions() {
    let c = dispatch_candidate_paths("deploy");
    assert!(c.contains(&".scarab/deploy.yaml".to_string()));
    assert!(c.contains(&".scarab/deploy.yml".to_string()));
    let full = dispatch_candidate_paths(".scarab/deploy.yaml");
    assert!(full.contains(&".scarab/deploy.yaml".to_string()));
}
