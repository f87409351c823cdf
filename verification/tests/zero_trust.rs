use rust_semverx::semver::{OBINexusSemverX, SecurityMode, Version};

#[test]
fn test_zero_trust_mode() {
    let version = Version::new(1, 0, 0);
    let semverx = OBINexusSemverX::new(version).with_security(SecurityMode::ZeroTrust);

    assert_eq!(semverx.security_mode, SecurityMode::ZeroTrust);
}

#[test]
fn test_secure_path_normalization() {
    let version = Version::new(1, 0, 0);
    let semverx = OBINexusSemverX::new(version).with_security(SecurityMode::Hardened);

    // Test path traversal prevention
    let malicious_path = "../../../etc/passwd";
    let normalized = semverx.normalize_unicode_path(malicious_path);

    // Should normalize but not allow traversal
    assert!(!normalized.contains(".."));
}

#[test]
fn test_secure_version_constraints() {
    // Test that version constraints are properly validated
    let _v1 = Version::parse("1.0.0").unwrap();
    let v2 = Version::parse("1.0.0'; DROP TABLE versions;--").unwrap_err();

    // SQL injection attempt should fail parsing
    assert!(v2.contains("Invalid"));
}

#[test]
fn secure_path_is_composed_then_cleaned() {
    let semverx = OBINexusSemverX::new(Version::new(1, 0, 0));
    assert_eq!(semverx.security_mode, SecurityMode::Standard);
    assert_eq!(semverx.observers.len(), 1);
    assert_eq!(semverx.normalize_unicode_path("../../../etc/passwd"), "_/_/_/etc/passwd");
    assert_eq!(semverx.normalize_unicode_path("/cafe\u{0301}//x/"), "/caf\u{00e9}/x");
}
