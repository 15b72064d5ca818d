//! Constraint resolution against candidate release tags.

use libmuse::version::{resolve_tags, version_from_text, ResolveError};

fn tags(list: &[&str]) -> Vec<Vec<u8>> {
    list.iter().map(|t| t.as_bytes().to_vec()).collect()
}

#[test]
fn resolves_greatest_satisfying_version() {
    // The constraint, not any literal tag, governs: `^1.0` picks the
    // greatest 1.x even though no tag equals the constraint.
    let ts = tags(&["v0.9.0", "v1.0.0", "v1.3.0"]);
    let v = resolve_tags(b"^1.0", &ts).ok().unwrap();
    assert_eq!(v.text().clone(), b"1.3.0".to_vec());
    assert_eq!(v.major(), 1);
    assert_eq!(v.minor(), 3);
    assert_eq!(v.patch(), 0);
}

#[test]
fn resolution_ignores_tag_order() {
    let a = resolve_tags(b"^1.0", &tags(&["v0.9.0", "v1.0.0", "v1.3.0"])).unwrap();
    let b = resolve_tags(b"^1.0", &tags(&["v1.3.0", "v1.0.0", "v0.9.0"])).unwrap();
    assert_eq!(a.text().clone(), b.text().clone());
}

#[test]
fn no_compatible_version() {
    let ts = tags(&["v0.9.0", "v1.0.0", "v1.3.0"]);
    assert_eq!(
        resolve_tags(b"^2.0", &ts).err().unwrap(),
        ResolveError::NoCompatibleVersion
    );
}

#[test]
fn invalid_constraint() {
    let ts = tags(&["v1.0.0"]);
    assert_eq!(
        resolve_tags(b"not a constraint", &ts).err().unwrap(),
        ResolveError::InvalidConstraint
    );
}

#[test]
fn malformed_tags_are_skipped() {
    let ts = tags(&["garbage", "v1.2.0", "also-not-a-version"]);
    let v = resolve_tags(b"^1.0", &ts).unwrap();
    assert_eq!(v.text().clone(), b"1.2.0".to_vec());
}

#[test]
fn empty_tag_list_has_no_candidate() {
    let ts: Vec<Vec<u8>> = Vec::new();
    assert_eq!(
        resolve_tags(b"^1.0", &ts).err().unwrap(),
        ResolveError::NoCompatibleVersion
    );
}

#[test]
fn uppercase_v_prefix_is_stripped() {
    let ts = tags(&["V2.1.0"]);
    let v = resolve_tags(b"^2.0", &ts).unwrap();
    assert_eq!(v.text().clone(), b"2.1.0".to_vec());
}

#[test]
fn numeric_prerelease_identifiers_compare_by_value() {
    // alpha.11 outranks alpha.2 numerically, though not bytewise.
    let ts = tags(&["1.2.0-alpha.2", "1.2.0-alpha.11"]);
    let v = resolve_tags(b"^1.2.0-alpha", &ts).unwrap();
    assert_eq!(v.text().clone(), b"1.2.0-alpha.11".to_vec());
}

#[test]
fn release_outranks_prerelease() {
    let a = version_from_text(b"1.2.0-alpha").unwrap();
    let b = version_from_text(b"1.2.0").unwrap();
    assert_eq!(a.precedence_cmp(&b), -1);
    assert_eq!(b.precedence_cmp(&a), 1);
    assert_eq!(a.precedence_cmp(&a), 0);
}

#[test]
fn version_parse_exposes_parts() {
    let v = version_from_text(b"1.2.3-beta.1").unwrap();
    assert_eq!(v.major(), 1);
    assert_eq!(v.minor(), 2);
    assert_eq!(v.patch(), 3);
    assert_eq!(v.pre().clone(), b"beta.1".to_vec());
    assert_eq!(v.text().clone(), b"1.2.3-beta.1".to_vec());
    assert!(version_from_text(b"not.a.version").is_none());
}
