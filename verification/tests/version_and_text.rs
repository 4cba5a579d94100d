use blue_onyx::api::VersionInfo;
use blue_onyx::api::VersionParseError;
use blue_onyx::parse_duration;
use blue_onyx::text::ParseNumberError;
use std::cmp::Ordering;

#[test]
fn test_eq_and_ne() {
    let v1 = VersionInfo {
        major: 1,
        minor: 2,
        patch: 3,
        ..Default::default()
    };
    let v2 = VersionInfo {
        major: 1,
        minor: 2,
        patch: 3,
        ..Default::default()
    };
    let v3 = VersionInfo {
        major: 1,
        minor: 3,
        patch: 3,
        ..Default::default()
    };
    assert_eq!(v1, v2);
    assert_ne!(v1, v3);
    assert!(v3 > v2);
    assert!(v2 <= v1);
}

#[test]
fn test_partial_ord_and_ord() {
    let v1 = VersionInfo {
        major: 1,
        minor: 2,
        patch: 3,
        ..Default::default()
    };
    let v2 = VersionInfo {
        major: 1,
        minor: 2,
        patch: 4,
        ..Default::default()
    };
    let v3 = VersionInfo {
        major: 2,
        minor: 0,
        patch: 0,
        ..Default::default()
    };

    // Check ordering with v1 and v2
    assert_eq!(v1.cmp(&v2), Ordering::Less);
    assert!(v1 < v2);

    // Check ordering with v3 and v2
    assert_eq!(v3.cmp(&v2), Ordering::Greater);
    assert!(v3 > v2);
}

#[test]
fn parse_version_basic() {
    let v = VersionInfo::parse("1.2.3", None).unwrap();
    assert_eq!(v.major, 1);
    assert_eq!(v.minor, 2);
    assert_eq!(v.patch, 3);
    assert_eq!(v.releaseNotes, "");
    assert!(v.preRelease.is_none());
}

#[test]
fn parse_version_trims_and_ignores_extra_segments() {
    let v = VersionInfo::parse("  10.20.30.40  ", Some("notes".to_string())).unwrap();
    assert_eq!(v.major, 10);
    assert_eq!(v.minor, 20);
    assert_eq!(v.patch, 30);
    assert_eq!(v.releaseNotes, "notes");
}

#[test]
fn parse_version_errors() {
    assert_eq!(
        VersionInfo::parse("x.2.3", None).unwrap_err(),
        VersionParseError::InvalidMajor
    );
    assert_eq!(
        VersionInfo::parse("1", None).unwrap_err(),
        VersionParseError::MissingMinor
    );
    assert_eq!(
        VersionInfo::parse("1.y.3", None).unwrap_err(),
        VersionParseError::InvalidMinor
    );
    assert_eq!(
        VersionInfo::parse("1.2", None).unwrap_err(),
        VersionParseError::MissingPatch
    );
    assert_eq!(
        VersionInfo::parse("1.2.999", None).unwrap_err(),
        VersionParseError::InvalidPatch
    );
}

#[test]
fn parse_duration_seconds() {
    assert_eq!(parse_duration("15").unwrap(), 15);
    assert_eq!(parse_duration("+7").unwrap(), 7);
    assert_eq!(
        parse_duration("abc").unwrap_err(),
        ParseNumberError::NotANumber
    );
    assert_eq!(parse_duration("").unwrap_err(), ParseNumberError::NotANumber);
    assert_eq!(
        parse_duration("99999999999999999999999").unwrap_err(),
        ParseNumberError::Overflow
    );
}

#[test]
fn uptime_rendering() {
    // 1 day, 1 hour, 1 minute and 1 second.
    let text = blue_onyx::server::format_uptime(90061);
    assert_eq!(text, "1 days, 1 hours and 1 minutes");
    assert_eq!(blue_onyx::server::format_uptime(0), "0 days, 0 hours and 0 minutes");
    assert_eq!(
        blue_onyx::server::format_uptime(172800 + 7200 + 600),
        "2 days, 2 hours and 10 minutes"
    );
}
