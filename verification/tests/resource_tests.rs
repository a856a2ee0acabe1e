use april::errors::AprilError;
use april::resource::{check_content_digest, resolve_resource_uri, AprilResourceType};

#[test]
fn test_resolve_resource_uri() {
    let uri = "file::sha256=abc::https://example.com/package.deb".to_string();
    let expected = AprilResourceType::External {
        url: "https://example.com/package.deb".to_string(),
        sha256: "abc".to_string(),
    };
    assert_eq!(resolve_resource_uri(&uri).unwrap(), expected);

    let uri = "file::data:application/octet-stream;base64,SGVsbG8sIHdvcmxkIQ==".to_string();
    let expected = AprilResourceType::Inline {
        content: (&b"Hello, world!"[..]).to_vec(),
    };
    assert_eq!(resolve_resource_uri(&uri).unwrap(), expected);
}

#[test]
fn resolve_percent_encoded_data_uri() {
    let uri = "file::data:text/plain,Hello%2C%20world%21";
    let expected = AprilResourceType::Inline {
        content: (&b"Hello, world!"[..]).to_vec(),
    };
    assert_eq!(resolve_resource_uri(uri).unwrap(), expected);
}

#[test]
fn resolve_rejects_malformed_uris() {
    assert!(matches!(
        resolve_resource_uri("no-separator-here").unwrap_err(),
        AprilError::InvalidResourceUri(_)
    ));
    assert!(matches!(
        resolve_resource_uri("http::https://example.com/x").unwrap_err(),
        AprilError::UnsupportedResourceType(t) if t == "http"
    ));
    assert!(matches!(
        resolve_resource_uri("file::not a url").unwrap_err(),
        AprilError::InvalidUrl(_)
    ));
    assert!(matches!(
        resolve_resource_uri("file::https://example.com/x").unwrap_err(),
        AprilError::MissingSha256(_)
    ));
    assert!(matches!(
        resolve_resource_uri("file::ftp://example.com/x").unwrap_err(),
        AprilError::UnsupportedScheme(_)
    ));
    assert!(matches!(
        resolve_resource_uri("file::data:nocomma").unwrap_err(),
        AprilError::InvalidDataUri(_)
    ));
    assert!(matches!(
        resolve_resource_uri("file::data:x;base64,!!!").unwrap_err(),
        AprilError::InvalidBase64(_)
    ));
}

#[test]
fn resolve_takes_last_sha_option() {
    let uri = "file::unknown=1;sha256=aa;sha256=bb::https://example.com/p.deb";
    let expected = AprilResourceType::External {
        url: "https://example.com/p.deb".to_string(),
        sha256: "bb".to_string(),
    };
    assert_eq!(resolve_resource_uri(uri).unwrap(), expected);
}

#[test]
fn digest_check_accepts_matching_content() {
    // The well-known digest of the empty byte string.
    let empty_sha = "e3b0c44298fc1c149afbf4c8996fb92427ae41e4649b934ca495991b7852b855";
    assert!(check_content_digest(b"", "https://example.com/x", empty_sha).is_ok());
}

#[test]
fn digest_check_names_both_digests_on_mismatch() {
    let declared = "e3b0c44298fc1c149afbf4c8996fb92427ae41e4649b934ca495991b7852b855";
    let err = check_content_digest(b"not empty", "https://example.com/x", declared).unwrap_err();
    match err {
        AprilError::Sha256Mismatch { url, expected, actual } => {
            assert_eq!(url, "https://example.com/x");
            assert_eq!(expected, declared);
            assert_ne!(actual, declared);
            assert_eq!(actual.len(), 64);
            let msg = AprilError::Sha256Mismatch {
                url,
                expected: expected.clone(),
                actual: actual.clone(),
            }
            .message();
            assert!(msg.contains(&expected));
            assert!(msg.contains(&actual));
        }
        other => panic!("unexpected error {:?}", other),
    }
}
