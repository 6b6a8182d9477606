//! Semantic-version ordering and rendering.
use modloader::version::{render_version, version_precedes, Version};

fn plain(major: u64, minor: u64, patch: u64) -> Version {
    Version { major, minor, patch, pre: Vec::new(), build: Vec::new() }
}

fn pre(major: u64, minor: u64, patch: u64, pre: &[u8]) -> Version {
    Version { major, minor, patch, pre: pre.to_vec(), build: Vec::new() }
}

#[test]
fn candidate_one_one_zero_is_newer_than_one_zero_zero() {
    assert!(version_precedes(&plain(1, 0, 0), &plain(1, 1, 0)));
    assert!(!version_precedes(&plain(1, 1, 0), &plain(1, 0, 0)));
}

#[test]
fn candidate_one_nine_nine_is_not_newer_than_two_zero_zero() {
    assert!(!version_precedes(&plain(2, 0, 0), &plain(1, 9, 9)));
    assert!(version_precedes(&plain(1, 9, 9), &plain(2, 0, 0)));
}

#[test]
fn equal_versions_do_not_precede_each_other() {
    assert!(!version_precedes(&plain(1, 2, 3), &plain(1, 2, 3)));
}

#[test]
fn prerelease_precedence_chain() {
    // The canonical ordering chain of the semantic-versioning spec.
    let chain = [
        pre(1, 0, 0, b"alpha"),
        pre(1, 0, 0, b"alpha.1"),
        pre(1, 0, 0, b"alpha.beta"),
        pre(1, 0, 0, b"beta"),
        pre(1, 0, 0, b"beta.2"),
        pre(1, 0, 0, b"beta.11"),
        pre(1, 0, 0, b"rc.1"),
        plain(1, 0, 0),
    ];
    for i in 0..chain.len() {
        for j in 0..chain.len() {
            assert_eq!(version_precedes(&chain[i], &chain[j]), i < j);
        }
    }
}

#[test]
fn build_metadata_is_ignored_in_ordering() {
    let a = Version { major: 1, minor: 0, patch: 0, pre: Vec::new(), build: b"b1".to_vec() };
    let b = Version { major: 1, minor: 0, patch: 0, pre: Vec::new(), build: b"b2".to_vec() };
    assert!(!version_precedes(&a, &b));
    assert!(!version_precedes(&b, &a));
}

#[test]
fn version_rendering() {
    assert_eq!(render_version(&plain(1, 2, 3)), b"1.2.3".to_vec());
    let full = Version {
        major: 1,
        minor: 0,
        patch: 0,
        pre: b"rc.1".to_vec(),
        build: b"build5".to_vec(),
    };
    assert_eq!(render_version(&full), b"1.0.0-rc.1+build5".to_vec());
}
