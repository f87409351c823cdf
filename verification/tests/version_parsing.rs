use rust_semverx::semver::Version;

#[test]
fn test_basic_version() {
    let v = Version::parse("1.2.3").unwrap();
    assert_eq!(v.major, 1);
    assert_eq!(v.minor, 2);
    assert_eq!(v.patch, 3);
}

#[test]
fn test_version_parsing_test_version_with_prerelease() {
    let v = Version::parse("1.0.0-alpha.1").unwrap();
    assert_eq!(v.pre, Some("alpha.1".to_string()));
}

#[test]
fn test_version_with_build_metadata() {
    let v = Version::parse("1.0.0+build.123").unwrap();
    assert_eq!(v.build, Some("build.123".to_string()));
}

#[test]
fn test_complex_version() {
    let v = Version::parse("2.1.0-rc.1+build.456").unwrap();
    assert_eq!(v.major, 2);
    assert_eq!(v.minor, 1);
    assert_eq!(v.patch, 0);
    assert_eq!(v.pre, Some("rc.1".to_string()));
    assert_eq!(v.build, Some("build.456".to_string()));
}

#[test]
fn test_version_comparison() {
    let v1 = Version::parse("1.0.0").unwrap();
    let v2 = Version::parse("1.0.1").unwrap();
    let v3 = Version::parse("1.0.0-alpha").unwrap();

    assert!(v1 < v2);
    assert!(v3 < v1); // pre-release versions are less than release
}

#[test]
fn test_invalid_versions() {
    assert!(Version::parse("").is_err());
    assert!(Version::parse("1").is_err());
    assert!(Version::parse("1.2").is_err());
    assert!(Version::parse("a.b.c").is_err());
}

#[test]
fn semver_test_version_parsing() {
    let v = Version::parse("1.2.3").unwrap();
    assert_eq!(v.major, 1);
    assert_eq!(v.minor, 2);
    assert_eq!(v.patch, 3);
    assert_eq!(v.pre, None);
    assert_eq!(v.build, None);
}

#[test]
fn semver_test_version_with_prerelease() {
    let v = Version::parse("1.0.0-alpha").unwrap();
    assert_eq!(v.pre, Some("alpha".to_string()));
}

#[test]
fn test_version_with_build() {
    let v = Version::parse("1.0.0+build123").unwrap();
    assert_eq!(v.build, Some("build123".to_string()));
}

#[test]
fn version_error_messages_name_the_field() {
    assert_eq!(Version::parse("   ").unwrap_err(), "Empty version string");
    assert_eq!(
        Version::parse("a.b.c").unwrap_err(),
        "Invalid major version: invalid digit found in string"
    );
    assert_eq!(Version::parse("1").unwrap_err(), "Missing minor version");
    assert_eq!(
        Version::parse("1..3").unwrap_err(),
        "Invalid minor version: cannot parse integer from empty string"
    );
    assert_eq!(Version::parse("1.2").unwrap_err(), "Missing patch version");
    assert_eq!(
        Version::parse("1.2.99999999999999999999").unwrap_err(),
        "Invalid patch version: number too large to fit in target type"
    );
}

#[test]
fn version_is_trimmed_and_extra_segments_are_ignored() {
    let v = Version::parse("  1.2.3.4 \n").unwrap();
    assert_eq!((v.major, v.minor, v.patch), (1, 2, 3));
    assert_eq!(v.pre, None);
    let w = Version::parse("+1.02.18446744073709551615").unwrap();
    assert_eq!((w.major, w.minor, w.patch), (1, 2, u64::MAX));
}

#[test]
fn version_renders_and_orders() {
    let v = Version::parse("2.1.0-rc.1+build.456").unwrap();
    assert_eq!(v.to_string(), "2.1.0-rc.1+build.456");
    assert_eq!(Version::new(10, 0, 7).to_string(), "10.0.7");
    let a = Version::parse("1.0.0-alpha").unwrap();
    let b = Version::parse("1.0.0-beta").unwrap();
    assert_eq!(a.compare(&b), -1);
    assert_eq!(b.compare(&a), 1);
    assert_eq!(a.compare(&a), 0);
    let c = Version::parse("1.0.0+x").unwrap();
    let d = Version::parse("1.0.0+y").unwrap();
    assert_eq!(c.compare(&d), 0);
    assert!(Version::new(1, 9, 9) < Version::new(2, 0, 0));
    assert!(Version::new(1, 10, 0) > Version::new(1, 9, 0));
}
