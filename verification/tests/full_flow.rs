use rust_semverx::semver::{DefaultErrorObserver, ErrorObserver, OBINexusSemverX, SecurityMode, Version};

#[test]
fn test_hotwire_integration() {
    // Test the hotwire bypass functionality
    let version = Version::new(1, 0, 0);
    let semverx = OBINexusSemverX::new(version).with_security(SecurityMode::ZeroTrust);

    // Simulate hotwire bypass
    let legacy_path = "legacy_service_v0.1";
    let normalized = semverx.normalize_unicode_path(legacy_path);

    assert!(!normalized.is_empty());
}

#[test]
fn default_observer_reports_the_message() {
    let observer = DefaultErrorObserver;
    assert_eq!(observer.observe("disk full"), "[ERROR] disk full");
}
