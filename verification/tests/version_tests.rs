use april::version::{deb_cmp, version_string_cmp, DebVersion};
use std::cmp::Ordering;

#[test]
fn test_deb_parsing() {
    let input = "1:1.2.3+4-5";
    let deb_version = DebVersion::parse(input).unwrap();
    assert_eq!(deb_version.epoch, 1);
    assert_eq!(deb_version.version, b"1.2.3+4".to_vec());
    assert_eq!(deb_version.release, b"5".to_vec());

    let input = "2:1.2.3-4";
    let deb_version = DebVersion::parse(input).unwrap();
    assert_eq!(deb_version.epoch, 2);
    assert_eq!(deb_version.version, b"1.2.3".to_vec());
    assert_eq!(deb_version.release, b"4".to_vec());

    let input = "1:1.2.3";
    let deb_version = DebVersion::parse(input).unwrap();
    assert_eq!(deb_version.epoch, 1);
    assert_eq!(deb_version.version, b"1.2.3".to_vec());
    assert_eq!(deb_version.release, b"".to_vec());

    let input = "1";
    let deb_version = DebVersion::parse(input).unwrap();
    assert_eq!(deb_version.epoch, 0);
    assert_eq!(deb_version.version, b"1".to_vec());
    assert_eq!(deb_version.release, b"".to_vec());
}

#[test]
fn test_version_cmp() {
    let a = DebVersion::parse("1.2.3-4").unwrap();
    let b = DebVersion::parse("1.2.3+4").unwrap();
    assert!(a < b);
}

#[test]
fn cmp_equal_versions() {
    let a = DebVersion::parse("1:1.0-2").unwrap();
    let b = DebVersion::parse("1:1.0-2").unwrap();
    assert_eq!(deb_cmp(&a, &b), Ordering::Equal);
    let a = DebVersion::parse("3.14").unwrap();
    assert_eq!(deb_cmp(&a, &a), Ordering::Equal);
}

#[test]
fn cmp_tilde_sorts_before_release() {
    let a = DebVersion::parse("1.0~rc1").unwrap();
    let b = DebVersion::parse("1.0").unwrap();
    assert_eq!(deb_cmp(&a, &b), Ordering::Less);
}

#[test]
fn cmp_dash_ends_upstream_before_plus() {
    let a = DebVersion::parse("1.2.3-4").unwrap();
    let b = DebVersion::parse("1.2.3+4").unwrap();
    assert_eq!(deb_cmp(&a, &b), Ordering::Less);
}

#[test]
fn cmp_epoch_dominates() {
    let a = DebVersion::parse("1:0").unwrap();
    let b = DebVersion::parse("9").unwrap();
    assert_eq!(deb_cmp(&a, &b), Ordering::Greater);
}

#[test]
fn cmp_leading_zeros_are_stripped() {
    let a = DebVersion::parse("1.0").unwrap();
    let b = DebVersion::parse("1.00").unwrap();
    assert_eq!(deb_cmp(&a, &b), Ordering::Equal);
}

#[test]
fn cmp_numeric_length_wins() {
    assert_eq!(version_string_cmp(b"1.10", b"1.9"), Ordering::Greater);
    assert_eq!(version_string_cmp(b"1.2a", b"1.2b"), Ordering::Less);
    assert_eq!(version_string_cmp(b"", b""), Ordering::Equal);
}

#[test]
fn parse_rejects_bad_epochs() {
    assert!(DebVersion::parse(":1.0").is_none());
    assert!(DebVersion::parse("abc:1.0").is_none());
    assert!(DebVersion::parse("99999999999:1.0").is_none());
    assert!(DebVersion::parse("4294967295:ok").is_some());
}

#[test]
fn parse_rejects_dash_before_colon() {
    assert!(DebVersion::parse("a-b:c").is_none());
}
