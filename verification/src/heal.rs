//! The self-heal controller: what a component under stress does to recover,
//! and what that does to its health.

use crate::error::BubblingError;
use crate::error::BubblingErrorView;
use crate::error::ErrorKind;
use crate::error::VerbNounError;
use crate::health::zone_of;
use crate::health::ComponentHealth;
use crate::version::SemverX;
use vstd::prelude::*;

verus! {

/// What a component is doing when it asks to be healed.
#[derive(Clone, Copy, Debug, PartialEq, Eq, Structural)]
pub enum VerbNounClass {
    FailingComponent,
    SlowingComponent,
    StoppingComponent,
    MonitoringComponent,
}

/// What the host has to do for a healing component.
#[derive(Clone, Copy, Debug, PartialEq, Eq, Structural)]
pub enum HealAction {
    /// Go back to the last stable version.
    Rollback,
    /// Clear the caches and restart.
    ClearCaches,
    /// Restart by force with a new configuration.
    ForceRestart,
    /// Nothing.
    Nothing,
}

/// The action that heals a component of the class `class`.
pub open spec fn action_for(class: VerbNounClass) -> HealAction {
    match class {
        VerbNounClass::FailingComponent => HealAction::Rollback,
        VerbNounClass::SlowingComponent => HealAction::ClearCaches,
        VerbNounClass::StoppingComponent => HealAction::ForceRestart,
        VerbNounClass::MonitoringComponent => HealAction::Nothing,
    }
}

/// A component that is watched and may heal itself.
#[derive(Debug)]
pub struct VerbNounComponent {
    pub class: VerbNounClass,
    pub version: SemverX,
    /// The version to go back to when the component fails.
    pub stable_version: Option<SemverX>,
    pub health: ComponentHealth,
}

/// The health after a heal at the time `now`: one attempt more, half the
/// stress, and the zone that the halved stress calls for.
pub open spec fn healed(health: ComponentHealth, now: u64) -> ComponentHealth {
    ComponentHealth {
        stress_level: health.stress_level / 2,
        zone: zone_of((health.stress_level / 2) as nat),
        heal_attempts: (health.heal_attempts + 1) as u32,
        last_heal_timestamp: now,
    }
}

/// The error of a component that may not heal itself, at the stress `stress`.
pub open spec fn heal_refused_view(stress: nat) -> BubblingErrorView {
    BubblingErrorView {
        kind: ErrorKind::Healing,
        message: "Component cannot heal itself"@,
        context: Seq::empty(),
        stress_level: stress,
        can_recover: false,
    }
}

impl VerbNounComponent {
    /// A component of the class `class` at `version`, in full health, with
    /// no version to go back to.
    pub fn new(class: VerbNounClass, version: SemverX) -> (c: Self)
        ensures
            c.class == class,
            c.version == version,
            c.stable_version is None,
            c.health == crate::health::full_health(),
    {
        VerbNounComponent { class, version, stable_version: None, health: ComponentHealth::default() }
    }

    /// Tries to heal the component at the time `now`. A component whose
    /// stress is at nine or above, or that has tried three times, is turned
    /// away with a healing error at its stress, and nothing changes. Else the
    /// attempt is counted, the stress is halved and the zone follows it; a
    /// failing component goes back to its stable version where it has one.
    /// The action for the host to take is returned.
    pub fn attempt_self_heal(&mut self, now: u64) -> (r: Result<HealAction, BubblingError>)
        ensures
            final(self).class == old(self).class,
            final(self).stable_version == old(self).stable_version,
            !old(self).health.may_self_heal() ==> {
                &&& r matches Err(e) && e@ == heal_refused_view(old(self).health.stress_level as nat)
                &&& final(self).health == old(self).health
                &&& final(self).version == old(self).version
            },
            old(self).health.may_self_heal() ==> {
                &&& r == Ok::<HealAction, BubblingError>(action_for(old(self).class))
                &&& final(self).health == healed(old(self).health, now)
                &&& final(self).version == (if old(self).class == VerbNounClass::FailingComponent
                    && old(self).stable_version is Some {
                    old(self).stable_version->0
                } else {
                    old(self).version
                })
            },
    {
        if !self.health.can_self_heal() {
            return Err(
                BubblingError::new(
                    VerbNounError::HealingError(String::from_str("Component cannot heal itself")),
                    self.health.stress_level,
                    false,
                ),
            );
        }
        self.health.heal_attempts = self.health.heal_attempts + 1;
        self.health.last_heal_timestamp = now;
        let action = match self.class {
            VerbNounClass::FailingComponent => {
                match &self.stable_version {
                    Some(stable) => {
                        self.version = stable.clone();
                    },
                    None => {},
                }
                HealAction::Rollback
            },
            VerbNounClass::SlowingComponent => HealAction::ClearCaches,
            VerbNounClass::StoppingComponent => HealAction::ForceRestart,
            VerbNounClass::MonitoringComponent => HealAction::Nothing,
        };
        let _ = self.health.update(self.health.stress_level / 2);
        Ok(action)
    }
}

} // verus!
