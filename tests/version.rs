use tmbingo::protocol::{check_version, HandshakeCode};
use tmbingo::version::Version;

#[test]
fn check_version_cmp() {
    let v0 = Version(0, 3, "".to_owned());
    let v1 = Version(1, 0, "dev".to_owned());
    let v1next = Version(1, 1, "".to_owned());

    assert!(v0 < v1);
    assert!(v1 < v1next);
    assert!(v1next > v0);
}

#[test]
fn parse_plain_and_tagged_versions() {
    let v = Version::parse("3.0").unwrap();
    assert_eq!((v.0, v.1, v.2.as_str()), (3, 0, ""));
    let v = Version::parse("4.12-beta.2").unwrap();
    assert_eq!((v.0, v.1, v.2.as_str()), (4, 12, "beta.2"));
    let v = Version::parse("10.0-").unwrap();
    assert_eq!((v.0, v.1, v.2.as_str()), (10, 0, ""));
}

#[test]
fn parse_rejects_malformed_versions() {
    for bad in ["", "3", "3.", ".3", "3.0.1", "a.b", "3.x", "-1.0", "3.0 ", "99999999999.0", "1.2147483648"] {
        assert!(Version::parse(bad).is_err(), "{} should not parse", bad);
    }
    assert_eq!(Version::parse("2147483647.0").unwrap().0, 2147483647);
}

#[test]
fn tag_takes_no_part_in_comparison() {
    let a = Version(3, 1, "dev".to_owned());
    let b = Version(3, 1, "".to_owned());
    assert!(a == b);
    assert!(!(a < b) && !(b < a));
    assert!(a.is_below(&Version(3, 2, "".to_owned())));
    assert!(!a.is_below(&b));
}

#[test]
fn handshake_version_below_minimum() {
    assert_eq!(check_version("2.9").err(), Some(HandshakeCode::IncompatibleVersion));
    assert_eq!(HandshakeCode::IncompatibleVersion.code(), 2);
    assert_eq!(check_version("3.0").unwrap().1, 0);
    assert_eq!(check_version("3.0-rc1").unwrap().0, 3);
    assert_eq!(check_version("garbage").err(), Some(HandshakeCode::ParseError));
    assert_eq!(HandshakeCode::ParseError.code(), 1);
}
