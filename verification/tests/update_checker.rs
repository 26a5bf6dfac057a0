use std::time::{SystemTime, UNIX_EPOCH};
use stmo_cli::update_checker::{is_newer, newer_version, should_check, VersionCache};

#[test]
fn is_newer_detects_patch_bump() {
    assert!(is_newer("0.3.1", "0.3.0"));
}

#[test]
fn is_newer_detects_minor_bump() {
    assert!(is_newer("0.4.0", "0.3.0"));
}

#[test]
fn is_newer_detects_major_bump() {
    assert!(is_newer("1.0.0", "0.3.0"));
}

#[test]
fn is_newer_same_version_false() {
    assert!(!is_newer("0.3.0", "0.3.0"));
}

#[test]
fn is_newer_older_version_false() {
    assert!(!is_newer("0.2.0", "0.3.0"));
}

#[test]
fn is_newer_invalid_latest_false() {
    assert!(!is_newer("not-a-version", "0.3.0"));
}

#[test]
fn is_newer_invalid_current_false() {
    assert!(!is_newer("0.4.0", "not-a-version"));
}

#[test]
fn is_newer_prerelease_comes_before_release() {
    assert!(is_newer("1.0.0", "1.0.0-alpha"));
    assert!(!is_newer("1.0.0-alpha", "1.0.0"));
}

#[test]
fn newer_version_offers_only_newer() {
    assert_eq!(newer_version("99.0.0".to_string(), "0.4.1"), Some("99.0.0".to_string()));
    assert_eq!(newer_version("0.4.1".to_string(), "0.4.1"), None);
    assert_eq!(newer_version("garbage".to_string(), "0.4.1"), None);
}

fn now() -> u64 {
    SystemTime::now().duration_since(UNIX_EPOCH).map(|d| d.as_secs()).unwrap_or(0)
}

#[test]
fn should_check_returns_true_when_no_cache() {
    assert!(should_check(None, now()));
}

#[test]
fn should_check_returns_true_for_stale_cache() {
    let stale = VersionCache { latest_version: "0.3.0".to_string(), last_checked: 0 };
    assert!(should_check(Some(&stale), now()));
}

#[test]
fn should_check_returns_false_for_fresh_cache() {
    let now = now();
    let fresh = VersionCache { latest_version: "0.3.0".to_string(), last_checked: now };
    assert!(!should_check(Some(&fresh), now));
}

#[test]
fn should_check_boundary_is_one_day() {
    let cache = VersionCache { latest_version: "0.3.0".to_string(), last_checked: 1000 };
    assert!(!should_check(Some(&cache), 1000 + 86400));
    assert!(should_check(Some(&cache), 1000 + 86401));
    // a clock that went back counts as no time passed
    assert!(!should_check(Some(&cache), 10));
}
