use cnode_lib::package::{DistInfo, PackageVersion};
use cnode_lib::resolver::{Expansion, ResolvedDependency};
use cnode_lib::{Registry, Resolver, StringMap};
use std::sync::Arc;

#[test]
fn test_flatten_dependencies_empty() {
    let registry = Arc::new(Registry::new(None));
    let resolver = Resolver::new(registry);
    let result = resolver.flatten_dependencies(&[]);
    assert!(result.is_empty());
}

#[test]
fn test_flatten_dependencies_single() {
    let registry = Arc::new(Registry::new(None));
    let resolver = Resolver::new(registry);
    let deps = vec![ResolvedDependency {
        name: "express".to_string(),
        version: "4.18.2".to_string(),
        dependencies: vec![],
    }];
    let result = resolver.flatten_dependencies(&deps);
    assert_eq!(result.len(), 1);
    assert_eq!(result.get("express"), Some(&"4.18.2".to_string()));
}

#[test]
fn test_flatten_dependencies_nested() {
    let registry = Arc::new(Registry::new(None));
    let resolver = Resolver::new(registry);
    let deps = vec![ResolvedDependency {
        name: "root".to_string(),
        version: "1.0.0".to_string(),
        dependencies: vec![ResolvedDependency {
            name: "child".to_string(),
            version: "2.0.0".to_string(),
            dependencies: vec![],
        }],
    }];
    let result = resolver.flatten_dependencies(&deps);
    assert_eq!(result.len(), 2);
    assert_eq!(result.get("root"), Some(&"1.0.0".to_string()));
    assert_eq!(result.get("child"), Some(&"2.0.0".to_string()));
}

#[test]
fn test_collect_tree() {
    let registry = Arc::new(Registry::new(None));
    let resolver = Resolver::new(registry);
    let deps = vec![ResolvedDependency {
        name: "root".to_string(),
        version: "1.0.0".to_string(),
        dependencies: vec![ResolvedDependency {
            name: "child".to_string(),
            version: "2.0.0".to_string(),
            dependencies: vec![],
        }],
    }];
    let tree = resolver.collect_tree(&deps);
    assert_eq!(tree.len(), 2);
    assert_eq!(tree[0], ("root".to_string(), "1.0.0".to_string(), 0));
    assert_eq!(tree[1], ("child".to_string(), "2.0.0".to_string(), 1));
}

#[test]
fn test_detect_conflicts_none() {
    let registry = Arc::new(Registry::new(None));
    let resolver = Resolver::new(registry);
    let mut map = StringMap::new();
    map.insert("express".to_string(), "4.0.0".to_string());
    map.insert("lodash".to_string(), "4.17.0".to_string());
    let conflicts = resolver.detect_conflicts(&map);
    assert!(conflicts.is_empty());
}

#[test]
fn test_detect_conflicts_found() {
    let registry = Arc::new(Registry::new(None));
    let resolver = Resolver::new(registry);
    let mut map = StringMap::new();
    map.insert("lodash".to_string(), "4.0.0".to_string());
    let conflicts = resolver.detect_conflicts(&map);
    assert!(conflicts.is_empty());
}

fn leaf(name: &str, version: &str) -> ResolvedDependency {
    ResolvedDependency { name: name.to_string(), version: version.to_string(), dependencies: vec![] }
}

#[test]
fn flatten_keeps_the_last_listed_version() {
    let resolver = Resolver::new(Arc::new(Registry::new(None)));
    let deps = vec![
        ResolvedDependency {
            name: "a".to_string(),
            version: "1.0.0".to_string(),
            dependencies: vec![leaf("shared", "1.0.0"), leaf("b", "2.0.0")],
        },
        leaf("shared", "3.0.0"),
    ];
    let flat = resolver.flatten_dependencies(&deps);
    assert_eq!(flat.len(), 3);
    assert_eq!(flat.get("shared"), Some(&"3.0.0".to_string()));
    let tree = resolver.collect_tree(&deps);
    let names: Vec<(&str, usize)> = tree.iter().map(|(n, _, d)| (n.as_str(), *d)).collect();
    assert_eq!(names, vec![("a", 0), ("shared", 1), ("b", 1), ("shared", 0)]);
}

#[test]
fn resolver_cache_answers_after_recording() {
    let mut resolver = Resolver::new(Arc::new(Registry::new(None)));
    assert!(resolver.cached_resolution("express", "^4.0.0").is_none());
    let d = resolver.record_resolution("express", "^4.0.0", "4.18.2".to_string(), vec![leaf("x", "1")]);
    assert_eq!(d.name, "express");
    assert_eq!(d.dependencies.len(), 1);
    let c = resolver.cached_resolution("express", "^4.0.0").unwrap();
    assert_eq!(c.version, "4.18.2");
    assert!(c.dependencies.is_empty());
    assert!(resolver.cached_resolution("express", "^5.0.0").is_none());
    assert_eq!(Resolver::cache_key("express", "^4.0.0"), "express@^4.0.0");
}

#[test]
fn project_requests_cover_regular_peer_and_optional() {
    let mut package = cnode_lib::Package::new("app".to_string(), "1.0.0".to_string());
    package.add_dependency("a".to_string(), "^1.0.0".to_string());
    package.add_dev_dependency("dev-only".to_string(), "^9.0.0".to_string());
    let mut peer = StringMap::new();
    peer.insert("a".to_string(), "^2.0.0".to_string());
    peer.insert("p".to_string(), "~1.0.0".to_string());
    package.peer_dependencies = Some(peer);
    let requests = Resolver::project_requests(&package);
    assert_eq!(
        requests,
        vec![("a".to_string(), "^2.0.0".to_string()), ("p".to_string(), "~1.0.0".to_string())]
    );
}

#[test]
fn expansion_gathers_one_resolution_per_request() {
    let mut deps = StringMap::new();
    deps.insert("b".to_string(), "^2.0.0".to_string());
    deps.insert("c".to_string(), "~1.0.0".to_string());
    let info = PackageVersion {
        version: "1.0.0".to_string(),
        name: "a".to_string(),
        description: None,
        dependencies: Some(deps),
        dist: DistInfo { tarball: String::new(), shasum: String::new(), integrity: None },
    };
    let mut resolver = Resolver::new(Arc::new(Registry::new(None)));
    let mut e = Expansion::begin("a", "^1.0.0", "1.0.0".to_string(), &info);
    assert_eq!(e.next_request(), Some(("b".to_string(), "^2.0.0".to_string())));
    assert!(!e.add(leaf("c", "1.0.1")));
    assert!(e.add(leaf("b", "2.3.0")));
    assert_eq!(e.next_request(), Some(("c".to_string(), "~1.0.0".to_string())));
    assert!(e.add(leaf("c", "1.0.1")));
    assert_eq!(e.next_request(), None);
    assert!(!e.add(leaf("d", "1.0.0")));
    let d = e.finish(&mut resolver).unwrap();
    assert_eq!(d.name, "a");
    assert_eq!(d.version, "1.0.0");
    let names: Vec<&str> = d.dependencies.iter().map(|x| x.name.as_str()).collect();
    assert_eq!(names, vec!["b", "c"]);
    assert_eq!(resolver.cached_resolution("a", "^1.0.0").unwrap().version, "1.0.0");
}

#[test]
fn unfinished_expansion_records_nothing() {
    let mut deps = StringMap::new();
    deps.insert("b".to_string(), "^2.0.0".to_string());
    let info = PackageVersion {
        version: "1.0.0".to_string(),
        name: "a".to_string(),
        description: None,
        dependencies: Some(deps),
        dist: DistInfo { tarball: String::new(), shasum: String::new(), integrity: None },
    };
    let mut resolver = Resolver::new(Arc::new(Registry::new(None)));
    let e = Expansion::begin("a", "^1.0.0", "1.0.0".to_string(), &info);
    assert!(e.finish(&mut resolver).is_none());
    assert!(resolver.cached_resolution("a", "^1.0.0").is_none());
}

#[test]
fn cache_keeps_the_first_answer() {
    let mut resolver = Resolver::new(Arc::new(Registry::new(None)));
    resolver.record_resolution("a", "^1.0.0", "1.2.0".to_string(), vec![]);
    let d = resolver.record_resolution("a", "^1.0.0", "1.3.0".to_string(), vec![leaf("x", "1")]);
    assert_eq!(d.version, "1.3.0");
    assert_eq!(resolver.cached_resolution("a", "^1.0.0").unwrap().version, "1.2.0");
}
