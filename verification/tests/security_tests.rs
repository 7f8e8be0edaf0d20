use moesniper::security::{
    check_path, clean_path, normalize_path, normalize_path_secure, validate_path, PathLookup,
    PathSecurityError, SecurityPolicy,
};

/// Nothing of the path exists; its ancestor is the (empty) current path.
fn nothing_on_disk() -> PathLookup {
    PathLookup {
        target: None,
        base: Err("not looked up".to_string()),
        missing: usize::MAX,
        ancestor: Ok(String::new()),
    }
}

fn missing_under(ancestor: &str, missing: usize, base: Result<&str, &str>) -> PathLookup {
    PathLookup {
        target: None,
        base: base.map(String::from).map_err(String::from),
        missing,
        ancestor: Ok(ancestor.to_string()),
    }
}

#[test]
fn test_clean_path() {
    let cleaned = clean_path("/tmp/subdir/../file.txt");
    assert_eq!(cleaned, "/tmp/file.txt");
}

#[test]
fn clean_path_edge_cases() {
    assert_eq!(clean_path("./a/./b/"), "a/b");
    assert_eq!(clean_path("../x"), "../x");
    assert_eq!(clean_path("/../x"), "/x");
    assert_eq!(clean_path("a/../../b"), "../b");
    assert_eq!(clean_path("a//b"), "a/b");
}

#[test]
fn test_path_traversal_blocked() {
    let policy = SecurityPolicy::default();
    let malicious = "../../../etc/passwd";

    let result = validate_path(malicious, &policy, &nothing_on_disk());
    assert!(result.is_err());
    assert!(matches!(
        result.unwrap_err(),
        PathSecurityError::ParentReferenceNotAllowed { .. }
    ));
}

#[test]
fn test_table_driven_traversal() {
    let policy = SecurityPolicy::default();
    let cases = vec![
        "../etc/passwd",
        "foo/bar/../../../etc/passwd",
        "foo/../bar",
        "../",
        "..",
        "a/b/c/..",
    ];

    for case in cases {
        let result = validate_path(case, &policy, &nothing_on_disk());
        assert!(result.is_err(), "Expected {} to fail", case);
        assert!(
            matches!(
                result.unwrap_err(),
                PathSecurityError::ParentReferenceNotAllowed { .. }
            ),
            "Expected ParentReferenceNotAllowed for {}",
            case
        );
    }
}

#[test]
fn security_test_normalize_path_secure_rejects_traversal() {
    let result = normalize_path_secure("../../../etc/passwd", Some("/tmp"), &nothing_on_disk());
    assert!(result.is_err());
}

#[test]
fn null_byte_is_rejected_first() {
    let policy = SecurityPolicy::default();
    let result = check_path("file.txt\0.txt", &policy);
    let err = result.unwrap_err();
    assert_eq!(err, PathSecurityError::IoError("path contains a null byte".to_string()));
    assert!(err.message().contains("null byte"));
}

#[test]
fn parent_refs_allowed_when_configured() {
    let policy = SecurityPolicy { base_dir: None, reject_parent_refs: false };
    let result = validate_path("a/../b.txt", &policy, &nothing_on_disk());
    assert_eq!(result.unwrap(), "b.txt");
}

#[test]
fn existing_path_uses_its_canonical_form() {
    let policy = SecurityPolicy::default();
    let lookup = PathLookup {
        target: Some(Ok("/real/place.txt".to_string())),
        base: Err(String::new()),
        missing: 0,
        ancestor: Err(String::new()),
    };
    assert_eq!(validate_path("place.txt", &policy, &lookup).unwrap(), "/real/place.txt");
    let lookup = PathLookup {
        target: Some(Err("permission denied".to_string())),
        base: Err(String::new()),
        missing: 0,
        ancestor: Err(String::new()),
    };
    assert_eq!(
        validate_path("place.txt", &policy, &lookup).unwrap_err(),
        PathSecurityError::IoError("permission denied".to_string())
    );
}

#[test]
fn base_directory_containment() {
    let policy = SecurityPolicy { base_dir: Some("/srv/base".to_string()), reject_parent_refs: true };
    let lookup = missing_under("/srv/base", 1, Ok("/srv/base"));
    assert_eq!(validate_path("new.txt", &policy, &lookup).unwrap(), "/srv/base/new.txt");
    let outside = missing_under("/tmp", 1, Ok("/srv/base"));
    let err = validate_path("/tmp/x.txt", &policy, &outside).unwrap_err();
    assert_eq!(
        err,
        PathSecurityError::EscapesBaseDirectory {
            path: "/tmp/x.txt".to_string(),
            base: "/srv/base".to_string()
        }
    );
    assert_eq!(
        err.message(),
        "Path escapes base directory: \"/tmp/x.txt\" (base: \"/srv/base\")"
    );
    let no_base = missing_under("/srv/base", 1, Err("No such file or directory (os error 2)"));
    assert_eq!(
        validate_path("new.txt", &policy, &no_base).unwrap_err().message(),
        "IO error: Failed to canonicalize base directory: No such file or directory (os error 2)"
    );
}

#[test]
fn escape_via_parent_ref_when_allowed() {
    let policy = SecurityPolicy { base_dir: Some("/srv/base".to_string()), reject_parent_refs: false };
    // "/srv/base/.." exists: it is "/srv", so the path resolves to "/srv/outside.txt".
    let lookup = missing_under("/srv", 1, Ok("/srv/base"));
    let err = validate_path("../outside.txt", &policy, &lookup).unwrap_err();
    assert!(matches!(err, PathSecurityError::EscapesBaseDirectory { .. }));
}

#[test]
fn test_path_traversal_rejected_before_metadata_access() {
    let result = normalize_path("../../../etc/passwd", &nothing_on_disk());
    assert!(
        result.is_err(),
        "Path traversal must be rejected before any file system access"
    );
    let err = result.unwrap_err();
    assert!(
        err.contains("..") || err.contains("parent"),
        "Error must mention parent reference, got: {}",
        err
    );
    assert_eq!(err, "Parent reference not allowed: ..");
}

#[test]
fn test_normalize_path_empty_filename_rejected() {
    let result = normalize_path(".", &nothing_on_disk());
    let _ = result;
}

#[test]
fn test_normalize_path_new_file() {
    // "/tmp/d" canonicalizes to "/private/tmp/d"; "new_file.txt" does not exist.
    let lookup = missing_under("/private/tmp/d", 1, Err("not looked up"));
    assert_eq!(
        normalize_path("/tmp/d/new_file.txt", &lookup).unwrap(),
        "/private/tmp/d/new_file.txt"
    );
}

#[test]
fn test_normalize_path_missing_parent() {
    // The nearest existing ancestor is "/tmp/d" (canonical "/private/tmp/d");
    // the two components after it are appended.
    let lookup = missing_under("/private/tmp/d", 2, Err("not looked up"));
    assert_eq!(
        normalize_path("/tmp/d/missing_dir/new_file.txt", &lookup).unwrap(),
        "/private/tmp/d/missing_dir/new_file.txt"
    );
}

#[test]
fn test_normalize_path_invalid_filename() {
    let result = normalize_path("/tmp/d/missing_dir/..", &nothing_on_disk());
    assert!(result.is_err());
}

#[test]
fn test_base_dir_nonexistent_file_inside() {
    // A new file under a base written in non-canonical form (".").
    let policy = SecurityPolicy { base_dir: Some(".".to_string()), reject_parent_refs: true };
    let lookup = missing_under("/home/user/project", 1, Ok("/home/user/project"));
    let result = validate_path("nonexistent.txt", &policy, &lookup);
    assert_eq!(result.unwrap(), "/home/user/project/nonexistent.txt");
    assert_eq!(
        normalize_path_secure("nonexistent.txt", Some("."), &lookup).unwrap(),
        "/home/user/project/nonexistent.txt"
    );
}

#[test]
fn test_base_dir_nonexistent_file_escapes_via_parent_ref() {
    let policy = SecurityPolicy { base_dir: Some("/srv/base".to_string()), reject_parent_refs: false };
    let lookup = missing_under("/srv", 1, Ok("/srv/base"));
    let result = validate_path("/srv/base/../outside.txt", &policy, &lookup);
    assert!(matches!(result.unwrap_err(), PathSecurityError::EscapesBaseDirectory { .. }));
}

#[test]
fn test_base_dir_nonexistent_absolute_path_escapes() {
    let policy = SecurityPolicy { base_dir: Some("/srv/base".to_string()), reject_parent_refs: true };
    let lookup = missing_under("/tmp", 1, Ok("/srv/base"));
    let result = validate_path("/tmp/some_random_nonexistent_file.txt", &policy, &lookup);
    assert!(matches!(result.unwrap_err(), PathSecurityError::EscapesBaseDirectory { .. }));
}
