use rust_semverx::error::ErrorKind;
use rust_semverx::heal::{HealAction, VerbNounClass, VerbNounComponent};
use rust_semverx::health::{zone_for, ComponentHealth, StressZone};
use rust_semverx::stress::StressMonitor;
use rust_semverx::version::SemverX;

#[test]
fn test_stress_monitor() {
    let mut monitor = StressMonitor::new();
    monitor.add_sample(1_000);
    monitor.add_sample(2_000);
    monitor.add_sample(3_000);
    assert_eq!(monitor.current_stress() as f64 / 1000.0, 2.0);
}

#[test]
fn monitor_keeps_the_latest_hundred() {
    let mut monitor = StressMonitor::new();
    assert_eq!(monitor.current_stress(), 0);
    monitor.add_sample(1_000_000);
    for _ in 0..99 {
        monitor.add_sample(0);
    }
    assert_eq!(monitor.current_stress(), 10_000);
    assert!(monitor.is_stressed());
    monitor.add_sample(0);
    assert_eq!(monitor.current_stress(), 0);
    assert!(!monitor.is_stressed());
    monitor.add_sample(u64::MAX);
    monitor.add_sample(u64::MAX);
    assert_eq!(monitor.current_stress(), 368_934_881_474_191_032);
    monitor.reset();
    assert_eq!(monitor.current_stress(), 0);
    monitor.add_sample(7);
    monitor.add_sample(8);
    assert_eq!(monitor.current_stress(), 7);
    monitor.reset();
    monitor.add_conflict_stress(3);
    assert_eq!(monitor.current_stress(), 6_000);
    monitor.add_sample(8_001);
    monitor.add_sample(10_002);
    assert!(monitor.is_stressed());
}

#[test]
fn zones_step_at_three_six_and_nine() {
    assert_eq!(zone_for(0), StressZone::Okay);
    assert_eq!(zone_for(2_999), StressZone::Okay);
    assert_eq!(zone_for(3_000), StressZone::Warning);
    assert_eq!(zone_for(5_999), StressZone::Warning);
    assert_eq!(zone_for(6_000), StressZone::Danger);
    assert_eq!(zone_for(8_999), StressZone::Danger);
    assert_eq!(zone_for(9_000), StressZone::Critical);
    assert_eq!(zone_for(u64::MAX), StressZone::Critical);
}

#[test]
fn health_follows_its_stress() {
    let mut health = ComponentHealth::default();
    assert_eq!(health.zone, StressZone::Okay);
    assert!(health.can_self_heal());
    assert_eq!(health.update(6_500), StressZone::Danger);
    assert_eq!(health.stress_level, 6_500);
    assert_eq!(health.zone, StressZone::Danger);
    health.stress_level = 9_000;
    assert_eq!(health.zone, StressZone::Danger);
    health.assess_zone();
    assert_eq!(health.zone, StressZone::Critical);
    health.assess_zone();
    assert_eq!(health.zone, StressZone::Critical);
    assert!(!health.can_self_heal());
    health.stress_level = 8_999;
    assert!(health.can_self_heal());
    health.heal_attempts = 3;
    assert!(!health.can_self_heal());
}

#[test]
fn healing_halves_the_stress_and_counts_the_attempt() {
    let mut component =
        VerbNounComponent::new(VerbNounClass::FailingComponent, SemverX::parse("2.0.0-beta").unwrap());
    component.stable_version = Some(SemverX::parse("1.9.0").unwrap());
    component.health.update(7_001);
    let action = component.attempt_self_heal(42).unwrap();
    assert_eq!(action, HealAction::Rollback);
    assert_eq!(component.health.stress_level, 3_500);
    assert_eq!(component.health.zone, StressZone::Warning);
    assert_eq!(component.health.heal_attempts, 1);
    assert_eq!(component.health.last_heal_timestamp, 42);
    assert_eq!(component.version.to_string(), "1.9.0");
    assert_eq!(component.attempt_self_heal(43).unwrap(), HealAction::Rollback);
    assert_eq!(component.attempt_self_heal(44).unwrap(), HealAction::Rollback);
    assert_eq!(component.health.stress_level, 875);
    assert_eq!(component.health.heal_attempts, 3);
    let e = component.attempt_self_heal(45).unwrap_err();
    assert_eq!(e.kind(), ErrorKind::Healing);
    assert_eq!(e.message(), "Component cannot heal itself");
    assert_eq!(e.stress_level, 875);
    assert!(!e.can_recover);
    assert_eq!(component.health.heal_attempts, 3);
    assert_eq!(component.health.last_heal_timestamp, 44);
}

#[test]
fn each_class_has_its_action() {
    let cases = [
        (VerbNounClass::SlowingComponent, HealAction::ClearCaches),
        (VerbNounClass::StoppingComponent, HealAction::ForceRestart),
        (VerbNounClass::MonitoringComponent, HealAction::Nothing),
        (VerbNounClass::FailingComponent, HealAction::Rollback),
    ];
    for (class, action) in cases {
        let mut component = VerbNounComponent::new(class, SemverX::new(1, 0, 0));
        component.health.update(4_000);
        assert_eq!(component.attempt_self_heal(1).unwrap(), action);
        assert_eq!(component.version.to_string(), "1.0.0");
        assert_eq!(component.health.stress_level, 2_000);
        assert_eq!(component.health.zone, StressZone::Okay);
    }
    let mut critical = VerbNounComponent::new(VerbNounClass::SlowingComponent, SemverX::new(1, 0, 0));
    critical.health.update(9_000);
    let e = critical.attempt_self_heal(1).unwrap_err();
    assert_eq!(e.stress_level, 9_000);
    assert_eq!(critical.health.stress_level, 9_000);
    assert_eq!(critical.health.heal_attempts, 0);
}

#[test]
fn cycles_weigh_their_size_to_the_power_of_one_and_a_half() {
    for (size, stress) in [(0, 0), (1, 1_000), (2, 2_828), (4, 8_000), (9, 27_000), (10, 31_620)] {
        let mut monitor = StressMonitor::new();
        monitor.add_cycle_stress(size);
        assert_eq!(monitor.current_stress(), stress);
    }
    let mut monitor = StressMonitor::new();
    monitor.add_cycle_stress(usize::MAX);
    assert_eq!(monitor.current_stress(), u64::MAX);
    assert_eq!(rust_semverx::stress::integer_root(99), 9);
    assert_eq!(rust_semverx::stress::integer_root(100), 10);
    assert_eq!(rust_semverx::stress::integer_root(0), 0);
    let mut conflicts = StressMonitor::new();
    conflicts.add_conflict_stress(usize::MAX);
    assert_eq!(conflicts.current_stress(), u64::MAX);
}
