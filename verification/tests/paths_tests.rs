use april::errors::AprilError;
use april::paths::{check_canonical_path, path_is_within, resolve_path};

#[test]
fn test_out_of_bound_file_operation() {
    if let Err(e) = resolve_path("/tmp", "..") {
        assert_eq!(e.message(), "Invalid file path: ..");
    } else {
        unreachable!();
    }
}

#[test]
fn resolve_path_accepts_inside_root() {
    // The root itself always canonicalizes inside the root.
    let resolved = resolve_path("/tmp", ".").unwrap();
    assert!(path_is_within("/tmp", &resolved));
}

#[test]
fn resolve_path_reports_missing_targets_as_io() {
    let err = resolve_path("/tmp", "no/such/path/exists/here").unwrap_err();
    assert!(matches!(err, AprilError::Io(_)));
}

#[test]
fn canonical_check_returns_the_string_unchanged() {
    let inside = check_canonical_path("/tmp", "a/b", "/tmp/a/b".to_string()).unwrap();
    assert_eq!(inside, "/tmp/a/b");
    let err = check_canonical_path("/tmp", "..", "/".to_string()).unwrap_err();
    assert_eq!(err, AprilError::InvalidFilePath("..".to_string()));
}

#[test]
fn within_is_component_wise() {
    assert!(path_is_within("/tmp", "/tmp"));
    assert!(path_is_within("/tmp", "/tmp/a/b"));
    assert!(!path_is_within("/tmp", "/tmpx"));
    assert!(!path_is_within("/tmp", "/"));
    assert!(!path_is_within("/tmp", "/etc/passwd"));
    assert!(path_is_within("/", "/etc"));
    assert!(!path_is_within("/tmp", "tmp/a"));
}
