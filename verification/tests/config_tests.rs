use cnode_lib::config::Config;

#[test]
fn test_config_new() {
    let config = Config::new();
    assert!(config.registry.is_none());
    assert!(config.cache_dir.is_none());
}

#[test]
fn test_config_default_registry() {
    let config = Config::new();
    assert_eq!(config.get_registry(), "https://registry.npmjs.org");
}

#[test]
fn test_config_custom_registry() {
    let mut config = Config::new();
    config.registry = Some("https://registry.npmmirror.com".to_string());
    assert_eq!(config.get_registry(), "https://registry.npmmirror.com");
}

#[test]
fn test_config_parallel_downloads_default() {
    let config = Config::new();
    assert_eq!(config.get_parallel_downloads(), 4);
}

#[test]
fn test_config_strict_default() {
    let config = Config::new();
    assert!(!config.is_strict());
}

#[test]
fn test_config_get_cache_dir() {
    let config = Config::new();
    let cache_dir = config.get_cache_dir();
    assert!(!cache_dir.is_empty());
}

#[test]
fn test_config_default_path() {
    let path = String::from_utf8_lossy(&Config::default_path()).into_owned();
    assert!(path.contains(".cnpmrc"));
}

#[test]
fn config_path_in_home_and_without_home() {
    assert_eq!(Config::path_in(Some(b"/home/alice".to_vec())), b"/home/alice/.cnpmrc".to_vec());
    assert_eq!(Config::path_in(Some(b"/home/alice/".to_vec())), b"/home/alice/.cnpmrc".to_vec());
    assert_eq!(Config::path_in(None), b".cnpmrc".to_vec());
    assert_eq!(Config::path_in(Some(vec![b'/', 0xff, b'x'])), vec![b'/', 0xff, b'x', b'/', b'.', b'c', b'n', b'p', b'm', b'r', b'c']);
}

#[test]
fn config_cache_dir_defaults() {
    let config = Config::new();
    assert_eq!(config.cache_dir_in(Some(b"/home/alice/.cache".to_vec())), b"/home/alice/.cache/cnpm".to_vec());
    assert_eq!(config.cache_dir_in(None), b".cnpm_cache".to_vec());
    let mut custom = Config::new();
    custom.cache_dir = Some("/tmp/c".to_string());
    assert_eq!(custom.cache_dir_in(None), b"/tmp/c".to_vec());
}

#[test]
fn config_node_modules_default() {
    let mut config = Config::new();
    assert_eq!(config.get_node_modules_dir(), "node_modules");
    config.node_modules_dir = Some("deps".to_string());
    assert_eq!(config.get_node_modules_dir(), "deps");
}

#[test]
fn config_set_then_get_reads_back() {
    let mut config = Config::new();
    config.set_value("registry", "https://example.com".to_string()).unwrap();
    assert_eq!(config.value_in("registry", None).unwrap(), "https://example.com");
    config.set_value("parallel-downloads", "8".to_string()).unwrap();
    assert_eq!(config.get_parallel_downloads(), 8);
    assert_eq!(config.value_in("parallel-downloads", None).unwrap(), "8");
    config.set_value("strict", "true".to_string()).unwrap();
    assert_eq!(config.value_in("strict", None).unwrap(), "true");
    config.set_value("strict", "yes".to_string()).unwrap();
    assert_eq!(config.value_in("strict", None).unwrap(), "false");
    config.set_value("cache-dir", "/var/cache/x".to_string()).unwrap();
    assert_eq!(config.value_in("cache-dir", None).unwrap(), "/var/cache/x");
}

#[test]
fn config_set_refuses_bad_input() {
    let mut config = Config::new();
    let err = config.set_value("parallel-downloads", "eight".to_string()).unwrap_err();
    assert_eq!(err.message(), "Configuration error: Invalid number");
    assert!(config.parallel_downloads.is_none());
    let err = config.set_value("colour", "red".to_string()).unwrap_err();
    assert_eq!(err.message(), "Configuration error: Unknown key: colour");
    let err = config.value_in("colour", None).unwrap_err();
    assert_eq!(err.message(), "Configuration error: Unknown key: colour");
}

#[test]
fn config_delete_restores_defaults() {
    let mut config = Config::new();
    config.set_value("registry", "https://example.com".to_string()).unwrap();
    config.set_value("parallel-downloads", "2".to_string()).unwrap();
    config.delete_value("registry").unwrap();
    config.delete_value("parallel-downloads").unwrap();
    assert_eq!(config.get_registry(), "https://registry.npmjs.org");
    assert_eq!(config.get_parallel_downloads(), 4);
    assert!(config.delete_value("nothing").is_err());
}

#[test]
fn config_numbers_read_back_as_set() {
    for n in [0usize, 7, 10, 4096, usize::MAX] {
        let mut config = Config::new();
        config.set_value("parallel-downloads", n.to_string()).unwrap();
        assert_eq!(config.value_in("parallel-downloads", None).unwrap(), n.to_string());
    }
}

#[test]
fn config_paths_keep_non_utf8_bytes() {
    let config = Config::new();
    let system = vec![b'/', 0xff, b'c'];
    assert_eq!(config.cache_dir_in(Some(system.clone())), vec![b'/', 0xff, b'c', b'/', b'c', b'n', b'p', b'm']);
    assert_eq!(config.value_in("cache-dir", Some(system)).unwrap(), "/\u{FFFD}c/cnpm");
}
