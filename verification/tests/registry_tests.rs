use cnode_lib::package::{DistInfo, DistTags, PackageMetadata, PackageVersion};
use cnode_lib::{Registry, StringMap};

fn make_test_metadata() -> PackageMetadata {
    let mut versions = StringMap::new();
    for v in &["1.0.0", "1.1.0", "1.2.0", "2.0.0", "2.1.0", "3.0.0"] {
        versions.insert(
            v.to_string(),
            PackageVersion {
                version: v.to_string(),
                name: "test-pkg".to_string(),
                description: None,
                dependencies: None,
                dist: DistInfo {
                    tarball: "".to_string(),
                    shasum: "".to_string(),
                    integrity: None,
                },
            },
        );
    }
    PackageMetadata {
        name: "test-pkg".to_string(),
        versions,
        dist_tags: DistTags {
            latest: "3.0.0".to_string(),
        },
        time: StringMap::new(),
    }
}

fn metadata_with(versions_list: &[&str], latest: &str) -> PackageMetadata {
    let mut versions = StringMap::new();
    for v in versions_list {
        versions.insert(
            v.to_string(),
            PackageVersion {
                version: v.to_string(),
                name: "pkg".to_string(),
                description: None,
                dependencies: None,
                dist: DistInfo { tarball: "".to_string(), shasum: "".to_string(), integrity: None },
            },
        );
    }
    PackageMetadata {
        name: "pkg".to_string(),
        versions,
        dist_tags: DistTags { latest: latest.to_string() },
        time: StringMap::new(),
    }
}

#[test]
fn test_compare_versions_equal() {
    let r = Registry::new(None);
    assert_eq!(r.compare_versions("1.0.0", "1.0.0"), 0);
}

#[test]
fn test_compare_versions_greater() {
    let r = Registry::new(None);
    assert_eq!(r.compare_versions("2.0.0", "1.0.0"), 1);
}

#[test]
fn test_compare_versions_less() {
    let r = Registry::new(None);
    assert_eq!(r.compare_versions("1.0.0", "2.0.0"), -1);
}

#[test]
fn test_compare_versions_patch() {
    let r = Registry::new(None);
    assert_eq!(r.compare_versions("1.0.1", "1.0.0"), 1);
    assert_eq!(r.compare_versions("1.0.0", "1.0.1"), -1);
}

#[test]
fn test_compare_versions_different_length() {
    let r = Registry::new(None);
    assert_eq!(r.compare_versions("1.0", "1.0.0"), 0);
    assert_eq!(r.compare_versions("2.0", "1.0.0"), 1);
}

#[test]
fn test_is_compatible_caret() {
    let r = Registry::new(None);
    assert!(r.is_compatible("1.5.0", "1.0.0", true));
    assert!(!r.is_compatible("2.0.0", "1.0.0", true));
    assert!(!r.is_compatible("1.5.0", "2.0.0", true));
}

#[test]
fn test_is_compatible_tilde() {
    let r = Registry::new(None);
    assert!(r.is_compatible("1.0.5", "1.0.0", false));
    assert!(!r.is_compatible("1.1.0", "1.0.0", false));
    assert!(r.is_compatible("1.1.0", "1.1.0", false));
}

#[test]
fn test_resolve_latest() {
    let r = Registry::new(None);
    let metadata = make_test_metadata();
    let result = r.resolve_version_spec(&metadata, "latest").unwrap();
    assert_eq!(result, "3.0.0");
}

#[test]
fn test_resolve_exact() {
    let r = Registry::new(None);
    let metadata = make_test_metadata();
    let result = r.resolve_version_spec(&metadata, "1.0.0").unwrap();
    assert_eq!(result, "1.0.0");
}

#[test]
fn test_resolve_caret() {
    let r = Registry::new(None);
    let metadata = make_test_metadata();
    let result = r.resolve_version_spec(&metadata, "^1.0.0").unwrap();
    assert_eq!(result, "1.2.0");
}

#[test]
fn test_resolve_tilde() {
    let r = Registry::new(None);
    let metadata = make_test_metadata();
    let result = r.resolve_version_spec(&metadata, "~1.0.0").unwrap();
    assert_eq!(result, "1.0.0");
}

#[test]
fn test_resolve_minimum() {
    let r = Registry::new(None);
    let metadata = make_test_metadata();
    let result = r.resolve_version_spec(&metadata, ">=2.0.0").unwrap();
    assert_eq!(result, "2.0.0");
}

#[test]
fn test_resolve_invalid() {
    let r = Registry::new(None);
    let metadata = make_test_metadata();
    let result = r.resolve_version_spec(&metadata, "999.0.0");
    assert!(result.is_err());
}

#[test]
fn resolve_star_gives_latest_tag() {
    let r = Registry::new(None);
    let metadata = make_test_metadata();
    assert_eq!(r.resolve_version_spec(&metadata, "*").unwrap(), "3.0.0");
}

#[test]
fn resolve_wildcards() {
    let r = Registry::new(None);
    let metadata = make_test_metadata();
    assert_eq!(r.resolve_version_spec(&metadata, "1.x").unwrap(), "1.2.0");
    assert_eq!(r.resolve_version_spec(&metadata, "2").unwrap(), "2.1.0");
    assert_eq!(r.resolve_version_spec(&metadata, "1.1").unwrap(), "1.1.0");
    assert_eq!(r.resolve_version_spec(&metadata, "2.X").unwrap(), "2.1.0");
}

#[test]
fn resolve_orders_candidates_by_number() {
    let r = Registry::new(None);
    let metadata = metadata_with(&["1.9.0", "1.10.0", "1.2.0"], "1.10.0");
    assert_eq!(r.resolve_version_spec(&metadata, "^1.0.0").unwrap(), "1.10.0");
    assert_eq!(r.resolve_version_spec(&metadata, ">=1.3.0").unwrap(), "1.9.0");
    assert_eq!(r.resolve_version_spec(&metadata, "~1.9.0").unwrap(), "1.9.0");
    assert_eq!(r.resolve_version_spec(&metadata, "1.x").unwrap(), "1.10.0");
}

#[test]
fn resolve_caret_and_tilde_never_go_below_the_base() {
    let r = Registry::new(None);
    let metadata = metadata_with(&["1.2.0", "1.4.9"], "1.4.9");
    let err = r.resolve_version_spec(&metadata, "^1.5.0").unwrap_err();
    assert_eq!(err.message(), "Invalid version: 1.5.0");
    let err = r.resolve_version_spec(&metadata, "~1.2.1").unwrap_err();
    assert_eq!(err.message(), "Invalid version: 1.2.1");
    assert_eq!(r.resolve_version_spec(&metadata, "^1.3.0").unwrap(), "1.4.9");
}

#[test]
fn resolve_breaks_numeric_ties_by_text() {
    let r = Registry::new(None);
    let metadata = metadata_with(&["1.0.0", "1.0"], "1.0.0");
    assert_eq!(r.resolve_version_spec(&metadata, "^1.0.1").is_err(), true);
    assert_eq!(r.resolve_version_spec(&metadata, "~1.0.0").unwrap(), "1.0.0");
    assert_eq!(r.resolve_version_spec(&metadata, ">=0.5.0").unwrap(), "1.0");
}

#[test]
fn compare_orders_numbers_not_text() {
    let r = Registry::new(None);
    assert_eq!(r.compare_versions("1.10.0", "1.9.0"), 1);
    assert_eq!(r.compare_versions("1.9.0", "1.10.0"), -1);
}

#[test]
fn resolve_error_messages() {
    let r = Registry::new(None);
    let metadata = make_test_metadata();
    let err = r.resolve_version_spec(&metadata, "banana").unwrap_err();
    assert_eq!(err.message(), "Invalid version: Cannot resolve version banana for test-pkg");
    let err = r.resolve_version_spec(&metadata, "^7.0.0").unwrap_err();
    assert_eq!(err.message(), "Invalid version: 7.0.0");
    let err = r.resolve_version_spec(&metadata, ">=9.0.0").unwrap_err();
    assert_eq!(err.message(), "Invalid version: 9.0.0");
}

#[test]
fn compare_skips_unreadable_pieces() {
    let r = Registry::new(None);
    assert_eq!(r.compare_versions("1.beta.2", "1.2"), 0);
    assert_eq!(r.compare_versions("+3", "3"), 0);
    assert_eq!(r.compare_versions("1.0.0-rc1", "1.0"), 0);
    assert_eq!(r.compare_versions("10.0.0", "9.9.9"), 1);
}

#[test]
fn compatibility_reads_unparsable_as_zero() {
    let r = Registry::new(None);
    assert!(r.is_compatible("x.1.0", "0.1.0", false));
    assert!(r.is_compatible("1", "1.0.0", false));
}

#[test]
fn registry_urls() {
    let r = Registry::new(None);
    assert_eq!(r.registry_url(), "https://registry.npmjs.org");
    assert_eq!(r.timeout_secs(), 30);
    assert_eq!(r.metadata_url("express"), "https://registry.npmjs.org/express");
    assert_eq!(r.version_url("express", "4.18.2"), "https://registry.npmjs.org/express/4.18.2");
    assert_eq!(r.search_url("react", 10), "https://registry.npmjs.org/-/v1/search?text=react&size=10");
    assert_eq!(r.audit_url(), "https://registry.npmjs.org/-/npm/v1/security/advisories/bulk");
    let m = Registry::new(Some("https://registry.npmmirror.com".to_string()));
    assert_eq!(m.metadata_url("a"), "https://registry.npmmirror.com/a");
}

#[test]
fn registry_refusals() {
    assert_eq!(Registry::metadata_refused("express").message(), "Package not found: express");
    assert_eq!(Registry::version_refused("express", "9.9.9").message(), "Invalid version: express@9.9.9");
    assert_eq!(Registry::search_refused().message(), "Search failed");
    assert_eq!(Registry::audit_refused("404 Not Found").message(), "Audit request failed (404 Not Found)");
}

#[test]
fn compare_is_antisymmetric_and_transitive() {
    let registry = Registry::new(None);
    let versions = ["1.0", "1.0.0", "1.2.3", "2.0.0", "1.10.0", "0.9.9"];
    for a in &versions {
        assert_eq!(registry.compare_versions(a, a), 0);
        for b in &versions {
            assert_eq!(registry.compare_versions(a, b), -registry.compare_versions(b, a));
            for c in &versions {
                if registry.compare_versions(a, b) <= 0 && registry.compare_versions(b, c) <= 0 {
                    assert!(registry.compare_versions(a, c) <= 0);
                }
            }
        }
    }
}
