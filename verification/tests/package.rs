use rust_semverx::package::{
    BuildSystem, Dependency, HotSwappable, Language, PackageMetadata, SemverX, VersionConstraint,
    VersionParseError,
};
use std::str::FromStr;

#[test]
fn core_test_version_parsing() {
    let v = SemverX::from_str("1.2.3").unwrap();
    assert_eq!(v.major, 1);
    assert_eq!(v.minor, 2);
    assert_eq!(v.patch, 3);

    let v = SemverX::from_str("2.0.0-alpha").unwrap();
    assert_eq!(v.prerelease, Some("alpha".to_string()));

    let v = SemverX::from_str("3.1.4+build.123").unwrap();
    assert_eq!(v.build_metadata, Some("build.123".to_string()));
}

#[test]
fn test_version_constraints() {
    let v1 = SemverX::new(1, 2, 3);
    let v2 = SemverX::new(1, 3, 0);
    let v3 = SemverX::new(2, 0, 0);

    let constraint = VersionConstraint::Compatible(v1.clone());
    assert!(v1.satisfies(&constraint));
    assert!(v2.satisfies(&constraint));
    assert!(!v3.satisfies(&constraint));
}

#[test]
fn test_hot_swap_validation() {
    let pkg1 = PackageMetadata {
        name: "test-pkg".to_string(),
        version: SemverX::new(1, 0, 0),
        language: Language::Rust,
        build_system: BuildSystem::Cargo,
        dependencies: vec![],
    };

    let pkg2 = PackageMetadata {
        name: "test-pkg".to_string(),
        version: SemverX::new(1, 1, 0),
        language: Language::Rust,
        build_system: BuildSystem::Cargo,
        dependencies: vec![],
    };

    assert!(pkg1.validate_swap(&pkg2).is_ok());

    let pkg3 = PackageMetadata {
        name: "different-pkg".to_string(),
        version: SemverX::new(1, 1, 0),
        language: Language::Rust,
        build_system: BuildSystem::Cargo,
        dependencies: vec![],
    };

    assert!(pkg1.validate_swap(&pkg3).is_err());
}

fn package(name: &str, major: u32, language: Language) -> PackageMetadata {
    PackageMetadata {
        name: name.to_string(),
        version: SemverX::new(major, 0, 0),
        language,
        build_system: BuildSystem::Cargo,
        dependencies: vec![],
    }
}

#[test]
fn swap_refusals_say_why() {
    let current = package("pkg", 2, Language::Rust);
    assert_eq!(
        current.validate_swap(&package("other", 2, Language::Rust)).unwrap_err(),
        "Package name mismatch: pkg != other"
    );
    assert_eq!(
        current.validate_swap(&package("pkg", 2, Language::Go)).unwrap_err(),
        "Language mismatch: Rust != Go"
    );
    assert_eq!(
        current
            .validate_swap(&package("pkg", 2, Language::Other("zig".to_string())))
            .unwrap_err(),
        "Language mismatch: Rust != Other(zig)"
    );
    assert_eq!(
        current.validate_swap(&package("pkg", 1, Language::Rust)).unwrap_err(),
        "Cannot downgrade major version"
    );
    assert!(current.validate_swap(&package("pkg", 3, Language::Rust)).is_ok());
    assert_eq!(current.component_id(), "pkg");
    assert_eq!(current.component_version().major, 2);
    let a = package("x", 1, Language::Other("zig".to_string()));
    let b = package("x", 1, Language::Other("zig".to_string()));
    assert!(a.validate_swap(&b).is_ok());
}

#[test]
fn package_version_parse_errors() {
    assert_eq!(SemverX::parse("1.2").unwrap_err(), VersionParseError::InvalidFormat);
    assert_eq!(SemverX::parse("x.2.3").unwrap_err(), VersionParseError::InvalidMajor);
    assert_eq!(SemverX::parse("1.y.3").unwrap_err(), VersionParseError::InvalidMinor);
    assert_eq!(SemverX::parse("1.2.z").unwrap_err(), VersionParseError::InvalidPatch);
    assert_eq!(SemverX::parse("1.2.4294967296").unwrap_err(), VersionParseError::InvalidPatch);
    let v = SemverX::parse("1.2.4294967295-rc.1+b.7").unwrap();
    assert_eq!(v.patch, u32::MAX);
    assert_eq!(v.prerelease, Some("rc.1".to_string()));
    assert_eq!(v.build_metadata, Some("b.7".to_string()));
}

#[test]
fn package_version_helpers() {
    let mut v = SemverX::new(4, 5, 6);
    assert!(!v.is_prerelease());
    assert_eq!(v.base_version(), "4.5.6");
    v.add_polyglot_hint("python".to_string());
    v.add_polyglot_hint("go".to_string());
    assert_eq!(v.polyglot_hints, vec!["python".to_string(), "go".to_string()]);
    let p = SemverX::parse("4.5.6-beta").unwrap();
    assert!(p.is_prerelease());
    assert_eq!(p.base_version(), "4.5.6");
}

#[test]
fn package_order_goes_field_by_field() {
    let plain = SemverX::new(1, 0, 0);
    let pre = SemverX::parse("1.0.0-alpha").unwrap();
    assert_eq!(plain.compare(&pre), -1);
    assert_eq!(pre.compare(&plain), 1);
    assert_eq!(plain.compare(&plain), 0);
    assert_eq!(plain.compare(&pre) < 0, plain < pre);
    let mut hinted = SemverX::new(1, 0, 0);
    hinted.add_polyglot_hint("go".to_string());
    assert_eq!(plain.compare(&hinted), -1);
    assert_eq!(plain.compare(&hinted) < 0, plain < hinted);
    let b1 = SemverX::parse("1.0.0+a").unwrap();
    let b2 = SemverX::parse("1.0.0+b").unwrap();
    assert_eq!(b1.compare(&b2), -1);
    assert_eq!(b1.compare(&b2) < 0, b1 < b2);
}

#[test]
fn constraints_parse_and_hold() {
    let v = SemverX::new(1, 5, 0);
    let c = VersionConstraint::parse(" ^1.2.3 ").unwrap();
    assert_eq!(c, VersionConstraint::Compatible(SemverX::new(1, 2, 3)));
    assert!(v.satisfies(&c));
    let c = VersionConstraint::parse("> 1.2.3").unwrap();
    assert_eq!(c, VersionConstraint::GreaterThan(SemverX::new(1, 2, 3)));
    assert!(v.satisfies(&c));
    let c = VersionConstraint::parse("<1.2.3").unwrap();
    assert!(!v.satisfies(&c));
    let c = VersionConstraint::parse("1.0.0 - 2.0.0").unwrap();
    assert_eq!(c, VersionConstraint::Range(SemverX::new(1, 0, 0), SemverX::new(2, 0, 0)));
    assert!(v.satisfies(&c));
    assert!(!SemverX::new(2, 0, 1).satisfies(&c));
    let c = VersionConstraint::parse("1.5.0").unwrap();
    assert_eq!(c, VersionConstraint::Exact(SemverX::new(1, 5, 0)));
    assert!(v.satisfies(&c));
    assert_eq!(
        VersionConstraint::parse("1.0.0 - 2.0.0 - 3.0.0").unwrap_err(),
        VersionParseError::InvalidFormat
    );
    assert_eq!(VersionConstraint::parse(">=1.0.0").unwrap_err(), VersionParseError::InvalidMajor);
    assert_eq!(VersionConstraint::parse("1.0 - 2.0.0").unwrap_err(), VersionParseError::InvalidFormat);
}

#[test]
fn dependencies_are_built_step_by_step() {
    let d = Dependency::new("serde".to_string(), VersionConstraint::Exact(SemverX::new(1, 0, 0)));
    assert!(!d.optional);
    assert!(d.features.is_empty());
    let d = d.optional().with_features(vec!["derive".to_string()]);
    assert!(d.optional);
    assert_eq!(d.features, vec!["derive".to_string()]);
    assert_eq!(d.name, "serde");
}

#[test]
fn package_versions_are_written_with_their_hints() {
    let mut v = SemverX::parse("1.2.3-rc.1+b.7").unwrap();
    assert_eq!(v.to_string(), "1.2.3-rc.1+b.7");
    v.add_polyglot_hint("python".to_string());
    assert_eq!(v.to_string(), "1.2.3-rc.1+b.7 [python]");
    v.add_polyglot_hint("go".to_string());
    v.add_polyglot_hint("c".to_string());
    assert_eq!(v.to_string(), "1.2.3-rc.1+b.7 [python, go, c]");
    assert_eq!(SemverX::new(0, 0, 0).to_string(), "0.0.0");
    assert_eq!(VersionParseError::InvalidFormat.to_string(), "Invalid version format");
    assert_eq!(VersionParseError::InvalidMajor.to_string(), "Invalid major version");
    assert_eq!(VersionParseError::InvalidMinor.to_string(), "Invalid minor version");
    assert_eq!(VersionParseError::InvalidPatch.to_string(), "Invalid patch version");
}
