use cnode_lib::cli::commands::audit::{audit_targets, audit_version};
use cnode_lib::cli::commands::cache::{cache_listing, has_gz_extension};
use cnode_lib::cli::commands::exec::{bin_candidate, command_failed, command_missing};
use cnode_lib::cli::commands::init::{init_manifest, init_project_name};
use cnode_lib::cli::commands::install::{
    install_requests, lock_entries, lock_entry, lock_header, parse_dependency, safe_package_path, saved_dependencies,
    DependencyWalk,
};
use cnode_lib::cli::commands::list::{depth_limit, directory_listing, listed_entry, nested_level, tree_lines};
use cnode_lib::cli::commands::new::{directory_exists, readme_text};
use cnode_lib::cli::commands::run::{find_script, script_command};
use cnode_lib::cli::commands::search::{name_column_width, short_description};
use cnode_lib::cli::commands::uninstall::{uninstall_name, uninstall_targets};
use cnode_lib::cli::commands::update::update_requests;
use cnode_lib::bindings::{package_summary, JsPackageInfo};
use cnode_lib::package::{DistInfo, DistTags, PackageMetadata, PackageVersion, SearchPackage};
use cnode_lib::{CNodeError, Registry, StringMap};

fn version_of(name: &str, version: &str, deps: Option<Vec<(&str, &str)>>) -> PackageVersion {
    let dependencies = deps.map(|list| {
        let mut m = StringMap::new();
        for (n, s) in list {
            m.insert(n.to_string(), s.to_string());
        }
        m
    });
    PackageVersion {
        name: name.to_string(),
        version: version.to_string(),
        description: None,
        dependencies,
        dist: DistInfo { tarball: String::new(), shasum: String::new(), integrity: None },
    }
}

fn metadata_with(name: &str, latest: &str, versions: Vec<PackageVersion>) -> PackageMetadata {
    let mut map = StringMap::new();
    for v in versions {
        map.insert(v.version.clone(), v);
    }
    PackageMetadata {
        name: name.to_string(),
        versions: map,
        dist_tags: DistTags { latest: latest.to_string() },
        time: StringMap::new(),
    }
}

fn custom_message(e: &CNodeError) -> String {
    match e {
        CNodeError::Custom(m) => m.clone(),
        other => panic!("unexpected error {}", other.message()),
    }
}

#[test]
fn parse_dependency_with_version() {
    assert_eq!(parse_dependency("lodash@4.17.21"), ("lodash".to_string(), "4.17.21".to_string()));
}

#[test]
fn parse_dependency_without_version() {
    assert_eq!(parse_dependency("lodash"), ("lodash".to_string(), "latest".to_string()));
}

#[test]
fn parse_dependency_scoped() {
    assert_eq!(
        parse_dependency("@angular/core@^16.0.0"),
        ("@angular/core".to_string(), "^16.0.0".to_string())
    );
    assert_eq!(parse_dependency("@angular/core"), ("@angular/core".to_string(), "latest".to_string()));
}

#[test]
fn parse_dependency_trailing_at() {
    assert_eq!(parse_dependency("lodash@"), ("lodash".to_string(), "latest".to_string()));
}

#[test]
fn parse_dependency_round_trip() {
    let (n, v) = parse_dependency(&format!("{}@{}", "left-pad", "1.3.0"));
    assert_eq!(n, "left-pad");
    assert_eq!(v, "1.3.0");
}

#[test]
fn package_paths() {
    assert_eq!(safe_package_path("express"), "node_modules/express");
    assert_eq!(safe_package_path("@angular/core"), "node_modules/@angular/core");
    assert_eq!(safe_package_path("@scope"), "node_modules/@scope/");
}

#[test]
fn install_requests_from_arguments() {
    let packages = vec!["express@^4.0.0".to_string(), "lodash".to_string()];
    let r = install_requests(&packages, &vec![]).unwrap();
    assert_eq!(
        r,
        vec![
            ("express".to_string(), "^4.0.0".to_string()),
            ("lodash".to_string(), "latest".to_string())
        ]
    );
}

#[test]
fn install_requests_from_manifest() {
    let declared = vec![("a".to_string(), Some("^1.0.0".to_string())), ("b".to_string(), None)];
    let r = install_requests(&vec![], &declared).unwrap();
    assert_eq!(
        r,
        vec![("a".to_string(), "^1.0.0".to_string()), ("b".to_string(), "latest".to_string())]
    );
}

#[test]
fn install_requests_nothing_to_install() {
    let e = install_requests(&vec![], &vec![]).unwrap_err();
    assert_eq!(custom_message(&e), "No packages specified and package.json has no dependencies");
}

#[test]
fn walk_visits_each_request_once() {
    let mut walk = DependencyWalk::new();
    assert!(walk.visit("a", "^1.0.0"));
    assert!(!walk.visit("a", "^1.0.0"));
    assert!(walk.visit("a", "^2.0.0"));
}

#[test]
fn walk_settles_first_version() {
    let mut walk = DependencyWalk::new();
    assert!(walk.settle("b", "1.0.0".to_string()));
    assert!(walk.settle("a", "2.0.0".to_string()));
    assert!(!walk.settle("b", "3.0.0".to_string()));
    assert_eq!(walk.resolved().get("b"), Some(&"1.0.0".to_string()));
    assert_eq!(
        walk.in_name_order(),
        vec![("a".to_string(), "2.0.0".to_string()), ("b".to_string(), "1.0.0".to_string())]
    );
}

#[test]
fn walk_picks_versions() {
    let registry = Registry::new(None);
    let metadata = metadata_with(
        "pkg",
        "2.0.0",
        vec![version_of("pkg", "1.0.0", None), version_of("pkg", "1.2.0", None), version_of("pkg", "2.0.0", None)],
    );
    assert_eq!(DependencyWalk::pick_version(&registry, &metadata, "latest").unwrap(), "2.0.0");
    assert_eq!(DependencyWalk::pick_version(&registry, &metadata, "^1.0.0").unwrap(), "1.2.0");
    assert!(DependencyWalk::pick_version(&registry, &metadata, "^9.0.0").is_err());
}

#[test]
fn walk_requests_of_version() {
    let metadata = metadata_with(
        "pkg",
        "1.0.0",
        vec![version_of("pkg", "1.0.0", Some(vec![("dep-b", "^2.0.0"), ("dep-a", "~1.0.0")]))],
    );
    assert_eq!(
        DependencyWalk::requests_for(&metadata, "1.0.0"),
        vec![
            ("dep-b".to_string(), "^2.0.0".to_string()),
            ("dep-a".to_string(), "~1.0.0".to_string())
        ]
    );
    assert!(DependencyWalk::requests_for(&metadata, "9.9.9").is_empty());
}

#[test]
fn saved_versions_prefer_resolved() {
    let mut resolved = StringMap::new();
    resolved.insert("a".to_string(), "1.2.3".to_string());
    let requests = vec![("a".to_string(), "^1.0.0".to_string()), ("b".to_string(), "latest".to_string())];
    assert_eq!(
        saved_dependencies(&requests, &resolved),
        vec![("a".to_string(), "1.2.3".to_string()), ("b".to_string(), "latest".to_string())]
    );
}

#[test]
fn lock_entry_with_registry_tarball() {
    let e = lock_entry("express", "4.18.2", Some("https://example.com/e.tgz"), Some("sha256-abc".to_string()));
    assert_eq!(e.key, "node_modules/express");
    assert_eq!(e.name, "express");
    assert_eq!(e.version, "4.18.2");
    assert_eq!(e.resolved, "https://example.com/e.tgz");
    assert_eq!(e.integrity, "sha256-abc");
}

#[test]
fn lock_entry_fallbacks() {
    let e = lock_entry("@scope/pkg", "1.0.0", None, None);
    assert_eq!(e.key, "node_modules/@scope/pkg");
    assert_eq!(e.resolved, "https://registry.npmjs.org/@scope/pkg/-/@scope-pkg-1.0.0.tgz");
    assert_eq!(e.integrity, "sha512-unknown");
}

#[test]
fn lock_header_defaults() {
    assert_eq!(lock_header(None, None), ("project".to_string(), "0.1.0".to_string()));
    assert_eq!(lock_header(Some("app"), Some("2.0.0")), ("app".to_string(), "2.0.0".to_string()));
}

#[test]
fn update_requests_errors() {
    let declared = vec![("a".to_string(), Some("^1.0.0".to_string()))];
    let e = update_requests(None, false, None).unwrap_err();
    assert_eq!(custom_message(&e), "No dependencies in package.json");
    let e = update_requests(None, false, Some(&declared)).unwrap_err();
    assert_eq!(custom_message(&e), "Specify packages or use --all");
    let named = vec!["zzz".to_string()];
    let e = update_requests(Some(&named), false, Some(&declared)).unwrap_err();
    assert_eq!(custom_message(&e), "No packages to update");
    let e = update_requests(None, true, Some(&vec![])).unwrap_err();
    assert_eq!(custom_message(&e), "No packages to update");
}

#[test]
fn update_requests_named_and_all() {
    let declared = vec![("a".to_string(), Some("^1.0.0".to_string())), ("b".to_string(), None)];
    let named = vec!["b".to_string(), "x".to_string(), "a".to_string()];
    assert_eq!(
        update_requests(Some(&named), false, Some(&declared)).unwrap(),
        vec![("b".to_string(), "latest".to_string()), ("a".to_string(), "^1.0.0".to_string())]
    );
    assert_eq!(
        update_requests(None, true, Some(&declared)).unwrap(),
        vec![("a".to_string(), "^1.0.0".to_string()), ("b".to_string(), "latest".to_string())]
    );
}

#[test]
fn uninstall_names() {
    assert_eq!(uninstall_name("lodash@4.17.21"), "lodash");
    assert_eq!(uninstall_name("lodash"), "lodash");
    assert_eq!(uninstall_name("@scope/pkg@1.0.0"), "@scope/pkg@1.0.0");
}

#[test]
fn uninstall_targets_and_error() {
    let e = uninstall_targets(&vec![]).unwrap_err();
    assert_eq!(custom_message(&e), "No packages specified");
    let t = uninstall_targets(&vec!["express@4".to_string(), "@types/node".to_string()]).unwrap();
    assert_eq!(
        t,
        vec![
            ("express".to_string(), "node_modules/express".to_string()),
            ("@types/node".to_string(), "node_modules/@types/node".to_string())
        ]
    );
}

#[test]
fn audit_versions() {
    assert_eq!(audit_version("^1.2.0"), "1.2.0");
    assert_eq!(audit_version(">=1.0"), "1.0");
    assert_eq!(audit_version("~1.0.5"), "1.0.5");
    assert_eq!(audit_version("~^1"), "^1");
    assert_eq!(audit_version("latest"), "latest");
}

#[test]
fn audit_targets_dev_overrides() {
    let deps = vec![("a".to_string(), Some("^1.0.0".to_string()))];
    let dev = vec![("a".to_string(), Some("~2.0.0".to_string())), ("b".to_string(), None)];
    let m = audit_targets(Some(&deps), Some(&dev));
    assert_eq!(m.len(), 2);
    assert_eq!(m.get("a"), Some(&"2.0.0".to_string()));
    assert_eq!(m.get("b"), Some(&"latest".to_string()));
    let none = audit_targets(None, None);
    assert!(none.is_empty());
}

#[test]
fn listed_entries() {
    assert!(listed_entry("express", true));
    assert!(!listed_entry(".bin", true));
    assert!(!listed_entry("readme.md", false));
}

#[test]
fn directory_listing_sorted() {
    let entries = vec![
        ("zeta".to_string(), true, Some("1.0.0".to_string())),
        (".bin".to_string(), true, None),
        ("alpha".to_string(), true, None),
        ("file.txt".to_string(), false, None),
    ];
    assert_eq!(
        directory_listing(&entries, 1),
        vec![("alpha".to_string(), None, 1), ("zeta".to_string(), Some("1.0.0".to_string()), 1)]
    );
}

#[test]
fn tree_drawing() {
    let packages = vec![
        ("a".to_string(), Some("1.0.0".to_string()), 0),
        ("b".to_string(), None, 1),
        ("c".to_string(), Some("2.0.0".to_string()), 0),
    ];
    assert_eq!(
        tree_lines(&packages),
        vec!["|-- a@1.0.0".to_string(), "  \\-- b@?".to_string(), "\\-- c@2.0.0".to_string()]
    );
}

#[test]
fn list_depths() {
    assert_eq!(depth_limit(None, false).unwrap(), usize::MAX);
    assert_eq!(depth_limit(Some(2), false).unwrap(), 2);
    let e = depth_limit(Some(2), true).unwrap_err();
    assert_eq!(custom_message(&e), "Global mode not supported yet");
}

#[test]
fn scripts_found_and_missing() {
    let e = find_script(None, "test").unwrap_err();
    assert_eq!(custom_message(&e), "No scripts in package.json");
    let scripts = vec![("test".to_string(), Some("jest".to_string())), ("odd".to_string(), None)];
    assert_eq!(find_script(Some(&scripts), "test").unwrap(), "jest");
    let e = find_script(Some(&scripts), "build").unwrap_err();
    assert_eq!(custom_message(&e), "Script 'build' not found");
    let e = find_script(Some(&scripts), "odd").unwrap_err();
    assert_eq!(custom_message(&e), "Script 'odd' not found");
}

#[test]
fn script_command_lines() {
    assert_eq!(script_command("jest", &vec![]), "jest");
    assert_eq!(script_command("jest", &vec!["--watch".to_string(), "-v".to_string()]), "jest --watch -v");
}

#[test]
fn search_column_width() {
    assert_eq!(name_column_width(&vec![]), 22);
    assert_eq!(name_column_width(&vec!["a".repeat(30), "b".to_string()]), 32);
    assert_eq!(name_column_width(&vec!["a".repeat(60)]), 52);
}

#[test]
fn search_descriptions() {
    let long = "x".repeat(70);
    assert_eq!(short_description(&long), &long[..57]);
    let exact = "y".repeat(60);
    assert_eq!(short_description(&exact), exact.as_str());
}

#[test]
fn init_texts() {
    assert_eq!(init_project_name(""), "my-project");
    assert_eq!(init_project_name("app"), "app");
    let expected = "{\n  \"name\": \"app\",\n  \"version\": \"0.0.1\",\n  \"description\": \"demo\",\n  \"main\": \"index.js\",\n  \"scripts\": {\n    \"test\": \"echo \\\"Error: no test specified\\\" && exit 1\"\n  },\n  \"keywords\": [],\n  \"author\": \"\",\n  \"license\": \"MIT\"\n}\n";
    assert_eq!(init_manifest("app", "demo"), expected);
}

#[test]
fn cache_files() {
    assert!(has_gz_extension("express-4.18.2.tar.gz"));
    assert!(!has_gz_extension(".gz"));
    assert!(!has_gz_extension("notes.txt"));
    assert!(!has_gz_extension("gz"));
    let files = vec!["b-1.0.0.tar.gz".to_string(), "readme".to_string(), "a-2.0.0.tar.gz".to_string()];
    assert_eq!(cache_listing(&files), vec!["a-2.0.0.tar.gz".to_string(), "b-1.0.0.tar.gz".to_string()]);
}

#[test]
fn exec_texts() {
    assert_eq!(bin_candidate("eslint"), "node_modules/.bin/eslint");
    assert_eq!(
        custom_message(&command_missing("eslint")),
        "cannot find command `eslint`. Make sure it is installed in node_modules/.bin"
    );
    assert_eq!(custom_message(&command_failed("eslint", "denied")), "failed to execute eslint: denied");
}

#[test]
fn new_project_texts() {
    assert_eq!(custom_message(&directory_exists("demo")), "directory demo already exists");
    assert_eq!(readme_text("demo"), "# demo\n\n");
}

#[test]
fn binding_summaries() {
    let mut latest = version_of("pkg", "2.0.0", Some(vec![("dep", "^1.0.0")]));
    latest.description = Some("a package".to_string());
    let metadata = metadata_with("pkg", "2.0.0", vec![version_of("pkg", "1.0.0", None), latest]);
    let s = package_summary(&metadata);
    assert_eq!(s.name, "pkg");
    assert_eq!(s.latest, "2.0.0");
    assert_eq!(s.versions, 2);
    assert_eq!(s.description, Some("a package".to_string()));
    assert!(s.has_dependencies);
    let missing = metadata_with("pkg", "9.0.0", vec![version_of("pkg", "1.0.0", None)]);
    let s = package_summary(&missing);
    assert_eq!(s.description, None);
    assert!(!s.has_dependencies);
    let found = SearchPackage {
        name: "express".to_string(),
        version: "4.18.2".to_string(),
        description: Some("web".to_string()),
        keywords: None,
        date: None,
    };
    let j = JsPackageInfo::from_search(&found);
    assert_eq!(j.name, "express");
    assert_eq!(j.version, "4.18.2");
    assert_eq!(j.description, Some("web".to_string()));
}

#[test]
fn lock_entries_in_order() {
    let resolved = vec![("a".to_string(), "1.0.0".to_string()), ("@s/b".to_string(), "2.0.0".to_string())];
    let mut tarballs = StringMap::new();
    tarballs.insert("a".to_string(), "https://example.com/a.tgz".to_string());
    let integrities = vec![None, Some("sha256-x".to_string())];
    let entries = lock_entries(&resolved, &tarballs, &integrities);
    assert_eq!(entries.len(), 2);
    assert_eq!(entries[0].key, "node_modules/a");
    assert_eq!(entries[0].resolved, "https://example.com/a.tgz");
    assert_eq!(entries[0].integrity, "sha512-unknown");
    assert_eq!(entries[1].key, "node_modules/@s/b");
    assert_eq!(entries[1].resolved, "https://registry.npmjs.org/@s/b/-/@s-b-2.0.0.tgz");
    assert_eq!(entries[1].integrity, "sha256-x");
}

#[test]
fn parse_dependency_defaults_to_latest() {
    assert_eq!(parse_dependency("@scope/pkg@"), ("@scope/pkg".to_string(), "latest".to_string()));
    assert_eq!(parse_dependency("@scope/pkg"), ("@scope/pkg".to_string(), "latest".to_string()));
    assert_eq!(parse_dependency("@"), ("@".to_string(), "latest".to_string()));
}

#[test]
fn nested_levels_stop_at_the_limit() {
    assert_eq!(nested_level(0, 2), Some(1));
    assert_eq!(nested_level(2, 2), None);
    assert_eq!(nested_level(0, 0), None);
}

#[test]
fn download_plan_requested_first_then_by_name() {
    let mut walk = DependencyWalk::new();
    walk.settle("zeta", "1.0.0".to_string());
    walk.settle("beta", "2.0.0".to_string());
    walk.settle("alpha", "3.0.0".to_string());
    let requests = vec![
        ("zeta".to_string(), "^1.0.0".to_string()),
        ("missing".to_string(), "latest".to_string()),
    ];
    assert_eq!(
        walk.download_plan(&requests),
        vec![
            ("zeta".to_string(), "1.0.0".to_string(), Some("^1.0.0".to_string())),
            ("alpha".to_string(), "3.0.0".to_string(), None),
            ("beta".to_string(), "2.0.0".to_string(), None),
        ]
    );
}
