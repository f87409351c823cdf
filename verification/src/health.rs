//! Stress zones and the health record of a component.

use vstd::prelude::*;

verus! {

/// The zones that a stress level falls into.
#[derive(Clone, Copy, Debug, PartialEq, Eq, Structural)]
pub enum StressZone {
    Okay,
    Warning,
    Danger,
    Critical,
}

/// Below this stress a component is in the zone `Okay`.
pub const WARNING_THRESHOLD: u64 = 3_000;

/// Below this stress a component is at most in the zone `Warning`.
pub const DANGER_THRESHOLD: u64 = 6_000;

/// Below this stress a component is at most in the zone `Danger`.
pub const CRITICAL_THRESHOLD: u64 = 9_000;

/// The most heal attempts after which a component may still heal itself.
pub const MAX_HEAL_ATTEMPTS: u32 = 3;

/// The zone of a stress level: a step function with steps at three, six and
/// nine.
pub open spec fn zone_of(stress: nat) -> StressZone {
    if stress < WARNING_THRESHOLD {
        StressZone::Okay
    } else if stress < DANGER_THRESHOLD {
        StressZone::Warning
    } else if stress < CRITICAL_THRESHOLD {
        StressZone::Danger
    } else {
        StressZone::Critical
    }
}

/// Computes `zone_of`.
pub fn zone_for(stress: u64) -> (z: StressZone)
    ensures
        z == zone_of(stress as nat),
{
    if stress < WARNING_THRESHOLD {
        StressZone::Okay
    } else if stress < DANGER_THRESHOLD {
        StressZone::Warning
    } else if stress < CRITICAL_THRESHOLD {
        StressZone::Danger
    } else {
        StressZone::Critical
    }
}

/// The stress of one component, the zone it puts the component in, and how
/// often the component has tried to heal itself.
#[derive(Clone, Copy, Debug, PartialEq, Eq, Structural)]
pub struct ComponentHealth {
    pub stress_level: u64,
    pub zone: StressZone,
    pub heal_attempts: u32,
    pub last_heal_timestamp: u64,
}

/// The health of a component that has seen no stress and never healed.
pub open spec fn full_health() -> ComponentHealth {
    ComponentHealth {
        stress_level: 0,
        zone: StressZone::Okay,
        heal_attempts: 0,
        last_heal_timestamp: 0,
    }
}

impl Default for ComponentHealth {
    fn default() -> (h: Self)
        ensures
            h == full_health(),
    {
        ComponentHealth {
            stress_level: 0,
            zone: StressZone::Okay,
            heal_attempts: 0,
            last_heal_timestamp: 0,
        }
    }
}

impl ComponentHealth {
    /// Whether the zone is the one that the stress level calls for.
    pub open spec fn zone_is_current(self) -> bool {
        self.zone == zone_of(self.stress_level as nat)
    }

    /// Whether the component may try to heal itself: its stress is below nine
    /// and it has tried fewer than three times.
    pub open spec fn may_self_heal(self) -> bool {
        self.stress_level < CRITICAL_THRESHOLD && self.heal_attempts < MAX_HEAL_ATTEMPTS
    }

    /// Sets the zone to the one that the stress level calls for.
    pub fn assess_zone(&mut self)
        ensures
            *final(self) == (ComponentHealth {
                zone: zone_of(old(self).stress_level as nat),
                ..*old(self)
            }),
    {
        self.zone = zone_for(self.stress_level);
    }

    /// Records a new stress level and returns the zone it falls into.
    pub fn update(&mut self, stress: u64) -> (z: StressZone)
        ensures
            z == zone_of(stress as nat),
            *final(self) == (ComponentHealth { stress_level: stress, zone: z, ..*old(self) }),
    {
        self.stress_level = stress;
        self.assess_zone();
        self.zone
    }

    /// Computes `may_self_heal`.
    pub fn can_self_heal(&self) -> (r: bool)
        ensures
            r == self.may_self_heal(),
    {
        self.stress_level < CRITICAL_THRESHOLD && self.heal_attempts < MAX_HEAL_ATTEMPTS
    }
}

/// Assessing a zone twice changes nothing the second time.
pub proof fn lemma_assess_zone_idempotent(h: ComponentHealth)
    ensures
        ({
            let once = ComponentHealth { zone: zone_of(h.stress_level as nat), ..h };
            let twice = ComponentHealth { zone: zone_of(once.stress_level as nat), ..once };
            twice == once && once.zone_is_current()
        }),
{
}

} // verus!
