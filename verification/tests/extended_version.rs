use rust_semverx::error::{BubblingError, ErrorKind, VerbNounError};
use rust_semverx::version::{Classifier, Environment, SemverX};

#[test]
fn parse_reads_the_core_triple_and_render_writes_it() {
    let v = SemverX::parse("1.2.3").unwrap();
    assert_eq!((v.major, v.minor, v.patch), (1, 2, 3));
    assert_eq!(v.prerelease, None);
    assert_eq!(v.build, None);
    assert_eq!(v.environment, None);
    assert_eq!(v.classifier, None);
    assert_eq!(v.intent, None);
    assert_eq!(v.sei.intent_priority, 0);
    assert_eq!(v.to_string(), "1.2.3");
}

#[test]
fn prerelease_is_read_and_ranks_below_the_release() {
    let pre = SemverX::parse("1.2.3-alpha.1").unwrap();
    assert_eq!(pre.prerelease, Some("alpha.1".to_string()));
    let release = SemverX::parse("1.2.3").unwrap();
    assert_eq!(pre.compare(&release), -1);
    assert_eq!(release.compare(&pre), 1);
}

#[test]
fn build_is_read_and_does_not_count_in_the_order() {
    let built = SemverX::parse("1.2.3+build.9").unwrap();
    assert_eq!(built.build, Some("build.9".to_string()));
    assert_eq!(built.compare(&SemverX::parse("1.2.3").unwrap()), 0);
}

#[test]
fn ranges_are_met_or_not() {
    assert_eq!(SemverX::parse("1.5.0").unwrap().satisfies(">=1.2.3 <2.0.0").unwrap(), true);
    assert_eq!(SemverX::parse("2.0.0").unwrap().satisfies(">=1.2.3 <2.0.0").unwrap(), false);
    assert_eq!(SemverX::parse("0.9.0").unwrap().satisfies(">=1.2.3 || <1.0.0").unwrap(), true);
}

#[test]
fn every_operator_is_applied() {
    let v = SemverX::new(1, 2, 3);
    assert!(v.satisfies("1.2.3").unwrap());
    assert!(v.satisfies("=1.2.3").unwrap());
    assert!(!v.satisfies("=1.2.4").unwrap());
    assert!(v.satisfies(">1.2.2").unwrap());
    assert!(!v.satisfies(">1.2.3").unwrap());
    assert!(v.satisfies("<1.3.0").unwrap());
    assert!(!v.satisfies("<1.2.3").unwrap());
    assert!(v.satisfies(">=1.2.3").unwrap());
    assert!(v.satisfies("<=1.2.3").unwrap());
    assert!(!v.satisfies("<=1.2.2").unwrap());
    assert!(v.satisfies("  >=1.0.0\t<2.0.0  ").unwrap());
    assert!(v.satisfies("<1.0.0||>=1.2.3").unwrap());
    assert!(!v.satisfies(">=1.2.3-rc.1 <1.2.3").unwrap());
}

#[test]
fn a_version_that_meets_at_least_x_is_at_least_x() {
    let bounds = ["0.0.0", "1.2.2", "1.2.3", "1.2.4", "1.2.3-rc.1", "2.0.0"];
    let versions = ["1.2.3", "1.2.3-rc.1", "0.1.0", "3.0.0"];
    for x in bounds {
        for v in versions {
            let version = SemverX::parse(v).unwrap();
            let range = format!(">={}", x);
            if version.satisfies(&range).unwrap() {
                assert!(version.compare(&SemverX::parse(x).unwrap()) >= 0);
            }
        }
    }
}

fn assert_parse_error(e: &BubblingError, message: &str) {
    assert_eq!(e.kind(), ErrorKind::Parsing);
    assert_eq!(e.message(), message);
    assert_eq!(e.stress_level, 3_000);
    assert!(!e.can_recover);
    assert!(e.context.is_empty());
}

#[test]
fn bad_ranges_are_parsing_errors() {
    let v = SemverX::new(1, 2, 3);
    assert_parse_error(&v.satisfies("").unwrap_err(), "Empty comparator set");
    assert_parse_error(&v.satisfies(">=1.0.0 || ").unwrap_err(), "Empty comparator set");
    assert_parse_error(&v.satisfies("~1.2.3").unwrap_err(), "Invalid major version");
    assert_parse_error(&v.satisfies(">=1.0.0 <2").unwrap_err(), "Version needs major, minor and patch");
    assert_parse_error(&v.satisfies("<0.0.1 || 1.x.0").unwrap_err(), "Invalid minor version");
}

#[test]
fn parse_failures_are_told_apart() {
    assert_parse_error(&SemverX::parse("1.2").unwrap_err(), "Version needs major, minor and patch");
    assert_parse_error(&SemverX::parse("").unwrap_err(), "Version needs major, minor and patch");
    assert_parse_error(&SemverX::parse("a.2.3").unwrap_err(), "Invalid major version");
    assert_parse_error(&SemverX::parse("-1.2.3").unwrap_err(), "Invalid major version");
    assert_parse_error(&SemverX::parse("1.b.3").unwrap_err(), "Invalid minor version");
    assert_parse_error(&SemverX::parse("1.2.c").unwrap_err(), "Invalid patch version");
    assert_parse_error(&SemverX::parse("1.2.4294967296").unwrap_err(), "Invalid patch version");
    assert_parse_error(&SemverX::parse("1.2.3+build-5").unwrap_err(), "Invalid patch version");
    assert_parse_error(&SemverX::parse("1.2.3.mars").unwrap_err(), "Unknown environment");
    assert_parse_error(&SemverX::parse("1.2.3.").unwrap_err(), "Unknown environment");
    assert_parse_error(&SemverX::parse("1.2.3.prod.shiny").unwrap_err(), "Unknown classifier");
}

#[test]
fn extended_fields_follow_the_patch() {
    let v = SemverX::parse("1.2.3.PROD.Stable.my-intent.more").unwrap();
    assert_eq!((v.major, v.minor, v.patch), (1, 2, 3));
    assert_eq!(v.environment, Some(Environment::Prod));
    assert_eq!(v.classifier, Some(Classifier::Stable));
    assert_eq!(v.intent, Some("my-intent".to_string()));
    assert_eq!(v.to_string(), "1.2.3");
    let w = SemverX::parse("4.5.6.staging").unwrap();
    assert_eq!(w.environment, Some(Environment::Staging));
    assert_eq!(w.classifier, None);
    let x = SemverX::parse("4.5.6.dev.legacy").unwrap();
    assert_eq!(x.environment, Some(Environment::Dev));
    assert_eq!(x.classifier, Some(Classifier::Legacy));
    let y = SemverX::parse("0.0.1.test.experimental").unwrap();
    assert_eq!(y.environment, Some(Environment::Test));
    assert_eq!(y.classifier, Some(Classifier::Experimental));
    let z = SemverX::parse("0.0.1.test.DEPRECATED").unwrap();
    assert_eq!(z.classifier, Some(Classifier::Deprecated));
    let s = SemverX::parse("1.2.3-rc.prod+b.stable").unwrap();
    assert_eq!(s.prerelease, Some("rc.prod".to_string()));
    assert_eq!(s.build, Some("b.stable".to_string()));
    assert_eq!(s.environment, None);
}

#[test]
fn what_is_written_is_read_again() {
    for text in ["1.2.3", "0.0.0", "10.20.30-alpha.1", "1.0.0+build.9", "7.8.9-rc.2+exp.sha-1", "4294967295.0.1"] {
        let v = SemverX::parse(text).unwrap();
        let written = v.to_string();
        assert_eq!(written, text);
        let again = SemverX::parse(&written).unwrap();
        assert_eq!((again.major, again.minor, again.patch), (v.major, v.minor, v.patch));
        assert_eq!(again.prerelease, v.prerelease);
        assert_eq!(again.build, v.build);
    }
    let plus = SemverX::parse("+1.02.3").unwrap();
    assert_eq!(plus.to_string(), "1.2.3");
}

#[test]
fn order_is_antisymmetric() {
    let texts = ["1.2.3", "1.2.4", "1.3.0", "2.0.0", "0.9.9", "1.2.3-a", "1.2.3-b", "1.2.3-a.1"];
    for a in texts {
        for b in texts {
            let x = SemverX::parse(a).unwrap();
            let y = SemverX::parse(b).unwrap();
            let c = x.compare(&y);
            assert!(c == -1 || c == 0 || c == 1);
            assert_eq!(c, -y.compare(&x));
        }
    }
    assert_eq!(SemverX::parse("1.2.3-a").unwrap().compare(&SemverX::parse("1.2.3-a.1").unwrap()), -1);
    assert_eq!(SemverX::parse("1.10.0").unwrap().compare(&SemverX::parse("1.9.0").unwrap()), 1);
}

#[test]
fn validate_checks_priority_and_deprecation() {
    let mut v = SemverX::parse("1.0.0.prod.deprecated").unwrap();
    let e = v.validate().unwrap_err();
    assert_eq!(e.kind(), ErrorKind::Validating);
    assert_eq!(e.message(), "Deprecated version in production");
    assert_eq!(e.stress_level, 4_000);
    assert!(!e.can_recover);
    v.environment = Some(Environment::Staging);
    assert!(v.validate().is_ok());
    v.sei.intent_priority = 100;
    assert!(v.validate().is_ok());
    v.sei.intent_priority = 101;
    let e = v.validate().unwrap_err();
    assert_eq!(e.kind(), ErrorKind::Validating);
    assert_eq!(e.message(), "Intent priority is above 100");
    assert!(SemverX::parse("1.0.0.prod.stable").unwrap().validate().is_ok());
}

#[test]
fn bubbling_adds_context_and_half_the_stress() {
    let e = SemverX::parse("nonsense").unwrap_err();
    let e = e.bubble_up("reading the lockfile".to_string());
    assert_eq!(e.stress_level, 4_500);
    assert_eq!(e.context, vec!["reading the lockfile".to_string()]);
    let e = e.bubble_up("resolving".to_string());
    assert_eq!(e.stress_level, 6_750);
    assert_eq!(e.context, vec!["reading the lockfile".to_string(), "resolving".to_string()]);
    assert_eq!(e.kind(), ErrorKind::Parsing);
    assert!(!e.can_recover);
    let odd = BubblingError::new(VerbNounError::PanicError("boom".to_string()), 5, true);
    let odd = odd.bubble_up("x".to_string());
    assert_eq!(odd.stress_level, 7);
    assert_eq!(odd.kind(), ErrorKind::Panic);
    assert_eq!(odd.message(), "boom");
    assert!(odd.can_recover);
    let top = BubblingError::new(VerbNounError::ComparingError("c".to_string()), u64::MAX, false);
    assert_eq!(top.bubble_up("y".to_string()).stress_level, u64::MAX);
    assert_eq!(VerbNounError::HealingError("h".to_string()).kind(), ErrorKind::Healing);
    assert_eq!(VerbNounError::ValidatingError("v".to_string()).kind(), ErrorKind::Validating);
    assert_eq!(VerbNounError::ResolvingError("r".to_string()).kind(), ErrorKind::Resolving);
}
