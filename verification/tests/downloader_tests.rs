use cnode_lib::downloader::{compute_integrity, default_cache_dir, DownloadStep};
use cnode_lib::Downloader;

#[test]
fn test_compute_integrity_empty() {
    let result = compute_integrity(b"");
    assert!(result.starts_with("sha256-"));
}

#[test]
fn test_compute_integrity_deterministic() {
    let data = b"hello world";
    let result1 = compute_integrity(data);
    let result2 = compute_integrity(data);
    assert_eq!(result1, result2);
}

#[test]
fn test_compute_integrity_different() {
    let result1 = compute_integrity(b"data1");
    let result2 = compute_integrity(b"data2");
    assert_ne!(result1, result2);
}

#[test]
fn test_compute_integrity_format() {
    let result = compute_integrity(b"test");
    assert!(result.starts_with("sha256-"));
    assert!(result.len() > 7);
}

#[test]
fn test_get_cache_path() {
    let tmp = tempfile::tempdir().unwrap();
    let cache = tmp.path().join("cache").to_string_lossy().into_owned();
    let downloader = Downloader::new(Some(cache.into_bytes()));
    let path = String::from_utf8(downloader.get_cache_path("express", "4.18.2")).unwrap();
    assert!(path.contains("express"));
    assert!(path.contains("4.18.2"));
    assert!(path.ends_with(".tar.gz"));
}

#[test]
fn test_get_cache_path_scoped() {
    let tmp = tempfile::tempdir().unwrap();
    let cache = tmp.path().join("cache").to_string_lossy().into_owned();
    let downloader = Downloader::new(Some(cache.into_bytes()));
    let path = String::from_utf8(downloader.get_cache_path("@angular/core", "16.0.0")).unwrap();
    assert!(path.contains("angular_core"));
}

#[test]
fn compute_integrity_known_value() {
    assert_eq!(compute_integrity(b""), "sha256-47DEQpj8HBSa+/TImW+5JCeuQeRkm5NMpJWZG3hSuFU=");
    assert_eq!(compute_integrity(b"hello world"), "sha256-uU0nuZNNPgilLlLX2n2r+sSE7+N6U4DukIj3rOLvzek=");
}

#[test]
fn computed_integrity_verifies() {
    let d = Downloader::new(Some(b"/tmp/c".to_vec()));
    let data = b"some tarball bytes";
    let integrity = compute_integrity(data);
    assert!(d.verify_integrity(data, &integrity).is_ok());
    let err = d.verify_integrity(b"other bytes", &integrity).unwrap_err();
    assert_eq!(err.message(), "Download failed: Integrity check failed (sha256)");
}

#[test]
fn verify_integrity_sha512_and_unknown() {
    let d = Downloader::new(Some(b"/tmp/c".to_vec()));
    let ok = "sha512-z4PhNX7vuL3xVChQ1m2AB9Yg5AULVxXcg/SpIdNs6c5H0NE8XYXysP+DGNKHfuwvY7kxvUdBeoGlODJ6+SfaPg==";
    assert!(d.verify_integrity(b"", ok).is_ok());
    let err = d.verify_integrity(b"x", ok).unwrap_err();
    assert_eq!(err.message(), "Download failed: Integrity check failed (sha512)");
    assert!(d.verify_integrity(b"x", "md5-abc").is_ok());
}

#[test]
fn cache_file_names() {
    let d = Downloader::new(Some(b"/cache".to_vec()));
    assert_eq!(d.cache_dir(), b"/cache");
    assert_eq!(d.timeout_secs(), 300);
    assert_eq!(d.get_cache_path("express", "4.18.2"), b"/cache/express-4.18.2.tar.gz".to_vec());
    assert_eq!(d.get_cache_path("@angular/core", "16.0.0"), b"/cache/angular_core-16.0.0.tar.gz".to_vec());
    assert_eq!(default_cache_dir(Some(b"/home/a/.cache".to_vec())), b"/home/a/.cache/cnpm".to_vec());
    assert_eq!(default_cache_dir(None), b".cnpm_cache".to_vec());
}

#[test]
fn integrity_text_has_fixed_length() {
    for data in [&b""[..], &b"a"[..], &b"a much longer piece of data"[..]] {
        assert_eq!(compute_integrity(data).len(), 51);
    }
}

#[test]
fn cache_paths_keep_non_utf8_bytes() {
    let d = Downloader::new(Some(vec![b'/', 0xfe]));
    assert_eq!(d.get_cache_path("a", "1.0.0"), [&[b'/', 0xfe, b'/'][..], b"a-1.0.0.tar.gz"].concat());
}

fn tarball_version(integrity: Option<String>) -> cnode_lib::package::PackageVersion {
    cnode_lib::package::PackageVersion {
        version: "1.0.0".to_string(),
        name: "pkg".to_string(),
        description: None,
        dependencies: None,
        dist: cnode_lib::package::DistInfo {
            tarball: "https://example.com/pkg-1.0.0.tgz".to_string(),
            shasum: String::new(),
            integrity,
        },
    }
}

#[test]
fn download_steps() {
    let d = Downloader::new(Some(b"/cache".to_vec()));
    let plain = tarball_version(None);
    assert!(matches!(d.download_step(&plain, true, None), DownloadStep::Unpack));
    assert!(matches!(d.download_step(&plain, true, Some(b"x")), DownloadStep::Unpack));
    match d.download_step(&plain, false, None) {
        DownloadStep::Fetch(u) => assert_eq!(u, "https://example.com/pkg-1.0.0.tgz"),
        _ => panic!("expected a fetch"),
    }
    assert!(matches!(d.download_step(&plain, false, Some(b"data")), DownloadStep::StoreAndUnpack));
    let checked = tarball_version(Some(compute_integrity(b"data")));
    assert!(matches!(d.download_step(&checked, false, Some(b"data")), DownloadStep::StoreAndUnpack));
    match d.download_step(&checked, false, Some(b"tampered")) {
        DownloadStep::Fail(e) => assert_eq!(e.message(), "Download failed: Integrity check failed (sha256)"),
        _ => panic!("expected a failure"),
    }
}
