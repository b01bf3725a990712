use vstd::prelude::*;
use crate::components::{BirdLifecycle, HuntPhase};

verus! {

/// How a hunting bird steers this frame.
#[derive(Debug, Clone, Copy, PartialEq, Eq, Structural)]
pub enum HuntSteer {
    /// no steering
    Hold,
    /// a gentle random turn
    Wander,
    /// circle the target, compensating for wind drift
    Circle,
    /// dive at the target, leading it by the wind drift
    Dive,
}

/// What the caller does after a hunt step.
#[derive(Debug, Clone, Copy, PartialEq, Eq, Structural)]
pub struct HuntDecision {
    pub phase: HuntPhase,
    /// set the hunt timer to zero
    pub reset_timer: bool,
    /// add this frame to the hunt timer
    pub advance_timer: bool,
    /// take the closest visible insect as the new target
    pub retarget: bool,
    pub steer: HuntSteer,
    /// set speed back to the normal bird speed
    pub restore_speed: bool,
}

/// Whether a bird in this lifecycle phase hunts at all.
pub open spec fn hunts_in(phase: BirdLifecycle) -> bool {
    phase == BirdLifecycle::Hunting || phase == BirdLifecycle::HuntingForEgg || phase == BirdLifecycle::Parenting
}

/// Only hunting, egg-hunting and parenting birds hunt.
pub fn can_hunt(phase: BirdLifecycle) -> (r: bool)
    ensures
        r == hunts_in(phase),
{
    match phase {
        BirdLifecycle::Hunting | BirdLifecycle::HuntingForEgg | BirdLifecycle::Parenting => true,
        _ => false,
    }
}

/// One frame of the hunt. `prey_visible`: an insect is in sight range and in
/// the forward cone; `circle_time_up`: the circling time including this frame
/// has reached the circling duration; `target_close`: the dive target is
/// within twice the eating distance.
pub open spec fn hunt_spec(phase: HuntPhase, prey_visible: bool, circle_time_up: bool, target_close: bool) -> HuntDecision {
    let none = HuntDecision {
        phase,
        reset_timer: false,
        advance_timer: false,
        retarget: false,
        steer: HuntSteer::Hold,
        restore_speed: false,
    };
    match phase {
        HuntPhase::Searching => if prey_visible {
            HuntDecision { phase: HuntPhase::Circling, reset_timer: true, retarget: true, ..none }
        } else {
            HuntDecision { steer: HuntSteer::Wander, ..none }
        },
        HuntPhase::Circling => HuntDecision {
            phase: if circle_time_up { HuntPhase::Diving } else { HuntPhase::Circling },
            advance_timer: true,
            retarget: prey_visible,
            steer: HuntSteer::Circle,
            ..none
        },
        HuntPhase::Diving => if target_close || !prey_visible {
            HuntDecision {
                phase: HuntPhase::Searching,
                reset_timer: true,
                steer: HuntSteer::Dive,
                restore_speed: true,
                ..none
            }
        } else {
            HuntDecision { steer: HuntSteer::Dive, ..none }
        },
    }
}

/// One frame of a bird's hunt; `None` for a bird whose lifecycle phase does
/// not hunt (its hunt state is left alone).
pub fn hunt_step(
    lifecycle: BirdLifecycle,
    phase: HuntPhase,
    prey_visible: bool,
    circle_time_up: bool,
    target_close: bool,
) -> (r: Option<HuntDecision>)
    ensures
        r == if hunts_in(lifecycle) {
            Some(hunt_spec(phase, prey_visible, circle_time_up, target_close))
        } else {
            None::<HuntDecision>
        },
{
    if !can_hunt(lifecycle) {
        return None;
    }
    let none = HuntDecision {
        phase,
        reset_timer: false,
        advance_timer: false,
        retarget: false,
        steer: HuntSteer::Hold,
        restore_speed: false,
    };
    let d = match phase {
        HuntPhase::Searching => if prey_visible {
            HuntDecision { phase: HuntPhase::Circling, reset_timer: true, retarget: true, ..none }
        } else {
            HuntDecision { steer: HuntSteer::Wander, ..none }
        },
        HuntPhase::Circling => HuntDecision {
            phase: if circle_time_up { HuntPhase::Diving } else { HuntPhase::Circling },
            advance_timer: true,
            retarget: prey_visible,
            steer: HuntSteer::Circle,
            ..none
        },
        HuntPhase::Diving => if target_close || !prey_visible {
            HuntDecision {
                phase: HuntPhase::Searching,
                reset_timer: true,
                steer: HuntSteer::Dive,
                restore_speed: true,
                ..none
            }
        } else {
            HuntDecision { steer: HuntSteer::Dive, ..none }
        },
    };
    Some(d)
}

/// A searching bird never dives straight away: it circles first.
pub proof fn law_no_dive_without_circling(prey_visible: bool, circle_time_up: bool, target_close: bool)
    ensures
        hunt_spec(HuntPhase::Searching, prey_visible, circle_time_up, target_close).phase != HuntPhase::Diving,
{
}

/// A diving bird that loses sight of its prey goes back to searching at
/// normal speed.
pub proof fn law_dive_ends_when_prey_lost(circle_time_up: bool, target_close: bool)
    ensures
        hunt_spec(HuntPhase::Diving, false, circle_time_up, target_close).phase == HuntPhase::Searching,
        hunt_spec(HuntPhase::Diving, false, circle_time_up, target_close).restore_speed,
{
}

/// The hunt moves through its phases in one order only: searching, circling,
/// diving, searching.
pub proof fn law_hunt_phase_cycle(phase: HuntPhase, prey_visible: bool, circle_time_up: bool, target_close: bool)
    ensures
        ({
            let next = hunt_spec(phase, prey_visible, circle_time_up, target_close).phase;
            next == phase || (phase == HuntPhase::Searching && next == HuntPhase::Circling) || (phase
                == HuntPhase::Circling && next == HuntPhase::Diving) || (phase == HuntPhase::Diving && next
                == HuntPhase::Searching)
        }),
{
}

/// A bird keeps its target on the closest visible insect until it commits to
/// a dive: whether searching or circling, it takes a new target exactly
/// when it sees prey, and a diving bird never changes its target.
pub proof fn law_target_follows_prey_until_dive(phase: HuntPhase, prey_visible: bool, circle_time_up: bool, target_close: bool)
    ensures
        hunt_spec(phase, prey_visible, circle_time_up, target_close).retarget == (prey_visible && phase
            != HuntPhase::Diving),
{
}

/// A circling bird keeps circling, counting its circling time, until that
/// time is up, and then dives; seeing prey or not makes no difference to
/// that.
pub proof fn law_circling_dives_when_time_is_up(prey_visible: bool, circle_time_up: bool, target_close: bool)
    ensures
        hunt_spec(HuntPhase::Circling, prey_visible, circle_time_up, target_close).advance_timer,
        hunt_spec(HuntPhase::Circling, prey_visible, circle_time_up, target_close).phase == if circle_time_up {
            HuntPhase::Diving
        } else {
            HuntPhase::Circling
        },
{
}

/// A dive ends, back to searching at normal speed with the timer reset,
/// exactly when the target is close or the prey is out of sight; until then
/// the bird keeps diving.
pub proof fn law_dive_ends_exactly_when_close_or_lost(prey_visible: bool, circle_time_up: bool, target_close: bool)
    ensures
        ({
            let d = hunt_spec(HuntPhase::Diving, prey_visible, circle_time_up, target_close);
            &&& d.steer == HuntSteer::Dive
            &&& (d.phase == HuntPhase::Searching) == (target_close || !prey_visible)
            &&& d.restore_speed == (target_close || !prey_visible)
            &&& d.reset_timer == (target_close || !prey_visible)
            &&& d.phase != HuntPhase::Searching ==> d.phase == HuntPhase::Diving
        }),
{
}

/// A searching bird that sees prey starts circling it with a fresh timer;
/// one that sees none wanders.
pub proof fn law_sighting_starts_circling(circle_time_up: bool, target_close: bool)
    ensures
        hunt_spec(HuntPhase::Searching, true, circle_time_up, target_close).phase == HuntPhase::Circling,
        hunt_spec(HuntPhase::Searching, true, circle_time_up, target_close).reset_timer,
        hunt_spec(HuntPhase::Searching, false, circle_time_up, target_close).phase == HuntPhase::Searching,
        hunt_spec(HuntPhase::Searching, false, circle_time_up, target_close).steer == HuntSteer::Wander,
{
}

} // verus!
