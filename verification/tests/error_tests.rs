use cnode_lib::error::ErrorKind;
use cnode_lib::CNodeError;

#[test]
fn test_error_display_network() {
    let err = CNodeError::NetworkError("connection refused".to_string());
    assert_eq!(err.message(), "Network error: connection refused");
}

#[test]
fn test_error_display_package_not_found() {
    let err = CNodeError::PackageNotFound("express".to_string());
    assert_eq!(err.message(), "Package not found: express");
}

#[test]
fn test_error_display_invalid_version() {
    let err = CNodeError::InvalidVersion("abc".to_string());
    assert_eq!(err.message(), "Invalid version: abc");
}

#[test]
fn test_error_display_custom() {
    let err = CNodeError::Custom("something went wrong".to_string());
    assert_eq!(err.message(), "something went wrong");
}

#[test]
fn test_result_type() {
    let ok: Result<i32, CNodeError> = Ok(42);
    assert_eq!(ok.unwrap(), 42);

    let err: Result<i32, CNodeError> = Err(CNodeError::Custom("fail".to_string()));
    assert!(err.is_err());
}

#[test]
fn error_texts_of_every_kind() {
    assert_eq!(CNodeError::IoError("x".to_string()).message(), "IO error: x");
    assert_eq!(CNodeError::JsonError("x".to_string()).message(), "JSON error: x");
    assert_eq!(CNodeError::ResolutionFailed("x".to_string()).message(), "Dependency resolution failed: x");
    assert_eq!(CNodeError::DownloadFailed("x".to_string()).message(), "Download failed: x");
    assert_eq!(CNodeError::ConfigError("x".to_string()).message(), "Configuration error: x");
    assert_eq!(CNodeError::ArchiveError("x".to_string()).message(), "Archive error: x");
    assert_eq!(CNodeError::TomlError("x".to_string()).message(), "TOML parse error: x");
    assert_eq!(CNodeError::TomlError("x".to_string()).kind(), ErrorKind::Toml);
}
