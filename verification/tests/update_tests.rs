use sonus::update::parse_version_tag;
use sonus::update::UpdateChecker;
use sonus::update::UpdateError;
use sonus::update::Version;

fn tag(s: &str) -> Vec<u8> {
    s.as_bytes().to_vec()
}

#[test]
fn newer_feed_version_reports_an_update() {
    let checker = UpdateChecker::new();
    let status = checker.check_for_updates(Some(&tag("v0.2.0"))).unwrap();
    assert_eq!(status.update_available, true);
    assert_eq!(status.latest_version, Some(Version::new(0, 2, 0)));
    assert_eq!(status.current_version, Version::new(0, 1, 0));
}

#[test]
fn same_feed_version_reports_no_update() {
    let checker = UpdateChecker::new();
    let status = checker.check_for_updates(Some(&tag("v0.1.0"))).unwrap();
    assert_eq!(status.update_available, false);
    assert_eq!(status.latest_version, Some(Version::new(0, 1, 0)));
}

#[test]
fn older_feed_version_reports_no_update() {
    let checker = UpdateChecker::new();
    let status = checker.check_for_updates(Some(&tag("0.0.9"))).unwrap();
    assert_eq!(status.update_available, false);
}

#[test]
fn failed_fetch_is_a_reportable_error() {
    let checker = UpdateChecker::new();
    assert_eq!(checker.check_for_updates(None), Err(UpdateError::FeedUnavailable));
}

#[test]
fn malformed_tags_are_reportable_errors() {
    let checker = UpdateChecker::new();
    for bad in ["", "v", "1.2", "1.2.3.4", "vv1.2.3", "01.2.3", "1.02.3", "v1.2.3-rc1", "a.b.c"] {
        assert_eq!(
            checker.check_for_updates(Some(&tag(bad))),
            Err(UpdateError::InvalidVersionTag),
            "tag {:?} should be rejected",
            bad
        );
    }
}

#[test]
fn tags_parse_with_or_without_leading_v() {
    assert_eq!(parse_version_tag(&tag("v10.20.30")), Some(Version::new(10, 20, 30)));
    assert_eq!(parse_version_tag(&tag("10.20.30")), Some(Version::new(10, 20, 30)));
    assert_eq!(parse_version_tag(&tag("0.0.0")), Some(Version::new(0, 0, 0)));
}

#[test]
fn version_order_is_major_then_minor_then_patch() {
    assert!(Version::new(1, 0, 0).newer_than(&Version::new(0, 9, 9)));
    assert!(Version::new(0, 2, 0).newer_than(&Version::new(0, 1, 9)));
    assert!(Version::new(0, 1, 1).newer_than(&Version::new(0, 1, 0)));
    assert!(!Version::new(0, 1, 0).newer_than(&Version::new(0, 1, 0)));
    assert!(!Version::new(0, 1, 0).newer_than(&Version::new(0, 2, 0)));
}
