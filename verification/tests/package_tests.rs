use cnode_lib::package::{Advisory, AuditResponse, Package, VulnerabilityCounts};
use cnode_lib::StringMap;

#[test]
fn test_package_new() {
    let pkg = Package::new("test".to_string(), "1.0.0".to_string());
    assert_eq!(pkg.name, "test");
    assert_eq!(pkg.version, "1.0.0");
    assert!(pkg.dependencies.is_none());
}

#[test]
fn test_package_identifier() {
    let pkg = Package::new("lodash".to_string(), "4.17.21".to_string());
    assert_eq!(pkg.identifier(), "lodash@4.17.21");
}

#[test]
fn test_package_add_dependency() {
    let mut pkg = Package::new("root".to_string(), "1.0.0".to_string());
    pkg.add_dependency("express".to_string(), "^4.0.0".to_string());
    pkg.add_dependency("lodash".to_string(), "^4.0.0".to_string());
    let deps = pkg.dependencies.unwrap();
    assert_eq!(deps.get("express"), Some(&"^4.0.0".to_string()));
    assert_eq!(deps.get("lodash"), Some(&"^4.0.0".to_string()));
}

#[test]
fn test_package_all_dependencies() {
    let mut pkg = Package::new("root".to_string(), "1.0.0".to_string());
    pkg.add_dependency("express".to_string(), "^4.0.0".to_string());
    pkg.add_dev_dependency("mocha".to_string(), "^10.0.0".to_string());
    let all = pkg.all_dependencies();
    assert!(all.contains_key("express"));
    assert!(!all.contains_key("mocha"));
}

#[test]
fn test_advisory_default() {
    let advisory = Advisory::default();
    assert_eq!(advisory.id, 0);
    assert!(advisory.title.is_empty());
    assert!(advisory.severity.is_empty());
}

#[test]
fn package_builders_set_fields() {
    let mut deps = StringMap::new();
    deps.insert("a".to_string(), "1.0.0".to_string());
    let pkg = Package::new("p".to_string(), "0.1.0".to_string())
        .set_description("desc".to_string())
        .set_main("main.js".to_string())
        .set_dependencies(deps);
    assert_eq!(pkg.description.as_deref(), Some("desc"));
    assert_eq!(pkg.main.as_deref(), Some("main.js"));
    assert_eq!(pkg.dependencies.as_ref().unwrap().get("a"), Some(&"1.0.0".to_string()));
}

#[test]
fn add_dependency_replaces_existing_entry() {
    let mut pkg = Package::new("root".to_string(), "1.0.0".to_string());
    pkg.add_dependency("express".to_string(), "^4.0.0".to_string());
    pkg.add_dependency("express".to_string(), "^5.0.0".to_string());
    let deps = pkg.dependencies.unwrap();
    assert_eq!(deps.len(), 1);
    assert_eq!(deps.get("express"), Some(&"^5.0.0".to_string()));
}

#[test]
fn all_dependencies_later_tables_override() {
    let mut pkg = Package::new("root".to_string(), "1.0.0".to_string());
    pkg.add_dependency("x".to_string(), "1".to_string());
    let mut peer = StringMap::new();
    peer.insert("x".to_string(), "2".to_string());
    peer.insert("y".to_string(), "3".to_string());
    pkg.peer_dependencies = Some(peer);
    let mut opt = StringMap::new();
    opt.insert("y".to_string(), "4".to_string());
    pkg.optional_dependencies = Some(opt);
    let all = pkg.all_dependencies();
    assert_eq!(all.len(), 2);
    assert_eq!(all.get("x"), Some(&"2".to_string()));
    assert_eq!(all.get("y"), Some(&"4".to_string()));
}

#[test]
fn audit_defaults_and_total() {
    let r = AuditResponse::default();
    assert!(r.advisories.is_empty());
    assert_eq!(r.metadata.vulnerabilities.high, 0);
    let c = VulnerabilityCounts { info: 1, low: 2, moderate: 3, high: 4, critical: 5 };
    assert_eq!(c.total(), 15);
}

#[test]
fn dev_dependencies_are_not_installed() {
    let mut with_dev = Package::new("app".to_string(), "1.0.0".to_string());
    with_dev.add_dependency("a".to_string(), "^1.0.0".to_string());
    with_dev.add_dev_dependency("jest".to_string(), "^29.0.0".to_string());
    let all = with_dev.all_dependencies();
    assert_eq!(all.len(), 1);
    assert!(all.get("jest").is_none());
    assert_eq!(all.get("a"), Some(&"^1.0.0".to_string()));
}
