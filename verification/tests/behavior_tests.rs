use vivarium::components::{BirdLifecycle, HuntPhase};
use vivarium::hunt::{can_hunt, hunt_step, HuntSteer};

#[test]
fn bird_starts_in_searching_state() {
    let phase = HuntPhase::default();
    assert_eq!(phase, HuntPhase::Searching);
}

#[test]
fn bird_transitions_to_circling_when_insects_spotted() {
    // insect 30 units in front of the bird, within the sight cone
    let d = hunt_step(BirdLifecycle::Hunting, HuntPhase::Searching, true, false, false).unwrap();
    assert_eq!(d.phase, HuntPhase::Circling, "Bird should transition to Circling when insects spotted");
    assert!(d.reset_timer);
    assert!(d.retarget);
}

#[test]
fn bird_transitions_to_diving_after_circling() {
    // circle timer already past the circling duration
    let d = hunt_step(BirdLifecycle::Hunting, HuntPhase::Circling, true, true, false).unwrap();
    assert_eq!(d.phase, HuntPhase::Diving, "Bird should transition to Diving after circle timer expires");
    assert_eq!(d.steer, HuntSteer::Circle);
    let d = hunt_step(BirdLifecycle::Hunting, HuntPhase::Circling, true, false, false).unwrap();
    assert_eq!(d.phase, HuntPhase::Circling);
    assert!(d.advance_timer);
}

#[test]
fn bird_wanders_when_no_insects_visible() {
    let d = hunt_step(BirdLifecycle::Hunting, HuntPhase::Searching, false, false, false).unwrap();
    assert_eq!(d.steer, HuntSteer::Wander, "Bird should wander (change direction) when no insects visible");
}

#[test]
fn bird_stays_searching_when_no_insects() {
    let d = hunt_step(BirdLifecycle::Hunting, HuntPhase::Searching, false, false, false).unwrap();
    assert_eq!(d.phase, HuntPhase::Searching, "Bird should remain Searching when no insects visible");
}

#[test]
fn dive_ends_near_target_or_without_prey() {
    let d = hunt_step(BirdLifecycle::Hunting, HuntPhase::Diving, true, false, false).unwrap();
    assert_eq!(d.phase, HuntPhase::Diving);
    assert_eq!(d.steer, HuntSteer::Dive);
    assert!(!d.restore_speed);
    let d = hunt_step(BirdLifecycle::Hunting, HuntPhase::Diving, true, false, true).unwrap();
    assert_eq!(d.phase, HuntPhase::Searching);
    assert!(d.restore_speed && d.reset_timer);
    let d = hunt_step(BirdLifecycle::HuntingForEgg, HuntPhase::Diving, false, false, false).unwrap();
    assert_eq!(d.phase, HuntPhase::Searching);
}

#[test]
fn only_hunting_phases_hunt() {
    assert!(can_hunt(BirdLifecycle::Hunting));
    assert!(can_hunt(BirdLifecycle::HuntingForEgg));
    assert!(can_hunt(BirdLifecycle::Parenting));
    assert!(!can_hunt(BirdLifecycle::FlyingToNest));
    assert!(!can_hunt(BirdLifecycle::Building));
    assert!(!can_hunt(BirdLifecycle::Incubating));
    assert!(!can_hunt(BirdLifecycle::Defending));
}
