use vivarium::components::{BirdLifecycle, BirdNestingState, Hatchling, HuntPhase, Nest};
use vivarium::hunt::hunt_step;
use vivarium::nav_graph::{NavGraph, NavNodeKind};
use vivarium::nesting::{
    bird_lifecycle_step, hatchling_alert_step, lifecycle_transition, nest_flight_pace, parent_defend, record_nest,
    FlightPace, LifecycleInput, NestCommand, NestTimer, SpeedChange,
};

fn test_nav_graph() -> NavGraph {
    let mut nav = NavGraph::new();
    // Ground node at origin
    nav.add_node(NavNodeKind::Ground);
    // Tree base
    nav.add_node(NavNodeKind::TreeBase);
    nav.add_edge(0, 1);
    // Branch node at height (simulates a branch tip)
    nav.add_node(NavNodeKind::Branch);
    nav.add_edge(1, 2);
    // Another branch node (unoccupied)
    nav.add_node(NavNodeKind::Branch);
    nav.add_edge(2, 3);
    nav
}

fn no_input() -> LifecycleInput {
    LifecycleInput { ate_insect: false, at_nest: false, timer_expired: false, nest_record: None, nest_choice: None }
}

/// After eating an insect, bird should transition from Hunting to FlyingToNest.
#[test]
fn bird_transitions_to_nesting_after_eating() {
    let nav = test_nav_graph();
    let mut nesting = BirdNestingState::default();
    let occupied: Vec<usize> = Vec::new();

    bird_lifecycle_step(&mut nesting, 1, true, false, false, None, &nav, &occupied);

    assert_eq!(
        nesting.phase, BirdLifecycle::FlyingToNest,
        "Bird should transition to FlyingToNest after eating an insect"
    );
    assert!(nesting.nest_nav_node.is_some(), "Should have picked a branch node");
    let node = nesting.nest_nav_node.unwrap();
    assert!(node == 2 || node == 3);
}

#[test]
fn nesting_bird_skips_occupied_branch() {
    let nav = test_nav_graph();
    let mut nesting = BirdNestingState::default();
    let occupied = vec![2usize];
    bird_lifecycle_step(&mut nesting, 1, true, false, false, None, &nav, &occupied);
    assert_eq!(nesting.nest_nav_node, Some(3));

    let mut other = BirdNestingState::default();
    let all_taken = vec![2usize, 3];
    bird_lifecycle_step(&mut other, 1, true, false, false, None, &nav, &all_taken);
    assert_eq!(other, BirdNestingState::default());
}

/// Bird in Building phase should spawn a Nest entity when timer expires.
#[test]
fn bird_builds_nest_at_branch() {
    let mut nesting = BirdNestingState {
        phase: BirdLifecycle::Building,
        nest: None,
        nest_nav_node: Some(2),
        insects_eaten: 0,
    };
    let bird = 10u64;

    // first frame: the timer is still running
    let out = lifecycle_transition(&mut nesting, bird, no_input());
    assert!(out.count_down);
    assert_eq!(out.command, NestCommand::Nothing);
    assert_eq!(nesting.phase, BirdLifecycle::Building);

    // the timer runs out
    let out = lifecycle_transition(&mut nesting, bird, LifecycleInput { timer_expired: true, ..no_input() });
    assert_eq!(
        out.command,
        NestCommand::SpawnNest { record: Nest { parent_bird: bird, nav_node: 2, has_egg: false, has_hatchling: false } },
        "A nest should have been spawned"
    );
    assert_eq!(out.speed, SpeedChange::Restore);
    assert_eq!(nesting.phase, BirdLifecycle::HuntingForEgg);
    record_nest(&mut nesting, 77);
    assert_eq!(nesting.nest, Some(77));
}

/// Bird in Incubating phase should spawn a Hatchling when timer expires.
#[test]
fn bird_incubates_and_hatches() {
    let bird = 5u64;
    let nest = 42u64;
    let mut nesting = BirdNestingState {
        phase: BirdLifecycle::Incubating,
        nest: Some(nest),
        nest_nav_node: Some(2),
        insects_eaten: 0,
    };
    let out = lifecycle_transition(&mut nesting, bird, LifecycleInput { timer_expired: true, ..no_input() });
    assert_eq!(
        out.command,
        NestCommand::Hatch {
            nest,
            hatchling: Hatchling { nest, parent_bird: bird, alert: false },
            record: Nest { parent_bird: bird, nav_node: 2, has_egg: false, has_hatchling: true },
        },
        "A hatchling should have been spawned"
    );
    assert_eq!(nesting.phase, BirdLifecycle::Parenting, "Bird should be in Parenting phase");
}

/// Parenting bird delivers food every other insect.
#[test]
fn bird_delivers_food_alternating() {
    let mut nesting = BirdNestingState {
        phase: BirdLifecycle::Parenting,
        nest: Some(9),
        nest_nav_node: Some(2),
        insects_eaten: 0,
    };
    let ate = LifecycleInput { ate_insect: true, ..no_input() };

    // First insect: insects_eaten becomes 1 (odd), stay Parenting
    lifecycle_transition(&mut nesting, 1, ate);
    assert_eq!(nesting.phase, BirdLifecycle::Parenting, "First insect: should stay Parenting");

    // Second insect: insects_eaten becomes 2 (even), fly to nest to deliver
    lifecycle_transition(&mut nesting, 1, ate);
    assert_eq!(nesting.phase, BirdLifecycle::FlyingToNest, "Second insect: should fly to nest to deliver food");
    assert_eq!(nesting.insects_eaten, 2);
}

/// Bird in FlyingToNest should steer toward nest position.
#[test]
fn bird_steers_toward_nest() {
    assert_eq!(nest_flight_pace(BirdLifecycle::FlyingToNest), Some(FlightPace::Cruise));
    assert_eq!(nest_flight_pace(BirdLifecycle::Defending), Some(FlightPace::Dash));
    assert_eq!(nest_flight_pace(BirdLifecycle::Hunting), None);
}

#[test]
fn arriving_bird_builds_lays_or_feeds() {
    let bird = 3u64;
    let arrive = LifecycleInput { at_nest: true, ..no_input() };
    // first arrival: build
    let mut s = BirdNestingState { phase: BirdLifecycle::FlyingToNest, nest: None, nest_nav_node: Some(2), insects_eaten: 0 };
    let out = lifecycle_transition(&mut s, bird, arrive);
    assert_eq!(s.phase, BirdLifecycle::Building);
    assert_eq!(out.start_timer, Some(NestTimer::Build));
    assert_eq!(out.speed, SpeedChange::Slow);
    // returning to an empty nest: lay the egg
    let empty = Nest { parent_bird: bird, nav_node: 2, has_egg: false, has_hatchling: false };
    let mut s = BirdNestingState { phase: BirdLifecycle::FlyingToNest, nest: Some(8), nest_nav_node: Some(2), insects_eaten: 0 };
    let out = lifecycle_transition(&mut s, bird, LifecycleInput { nest_record: Some(empty), ..arrive });
    assert_eq!(s.phase, BirdLifecycle::Incubating);
    assert_eq!(out.start_timer, Some(NestTimer::Hatch));
    assert_eq!(out.command, NestCommand::UpdateNest { nest: 8, record: Nest { has_egg: true, ..empty } });
    // returning to a nest with a hatchling: back to parenting
    let full = Nest { has_hatchling: true, ..empty };
    let mut s = BirdNestingState { phase: BirdLifecycle::FlyingToNest, nest: Some(8), nest_nav_node: Some(2), insects_eaten: 2 };
    lifecycle_transition(&mut s, bird, LifecycleInput { nest_record: Some(full), ..arrive });
    assert_eq!(s.phase, BirdLifecycle::Parenting);
    // the nest is gone: hunt again
    let mut s = BirdNestingState { phase: BirdLifecycle::FlyingToNest, nest: Some(8), nest_nav_node: Some(2), insects_eaten: 2 };
    lifecycle_transition(&mut s, bird, arrive);
    assert_eq!(s.phase, BirdLifecycle::Hunting);
    assert_eq!(s.nest, None);
    assert_eq!(s.nest_nav_node, Some(2));
}

/// Hunt system should skip birds that are in Building phase.
#[test]
fn hunt_system_skips_nesting_birds() {
    // an insect right in front of the bird
    let decision = hunt_step(BirdLifecycle::Building, HuntPhase::Searching, true, false, false);
    assert!(decision.is_none(), "Should still be Searching (hunt skipped)");
    assert!(hunt_step(BirdLifecycle::Parenting, HuntPhase::Searching, true, false, false).is_some());
}

/// Hatchling should alert when squirrel is close, triggering parent defense.
#[test]
fn hatchling_alerts_and_parent_defends() {
    let bird = 1u64;
    let mut nesting = BirdNestingState {
        phase: BirdLifecycle::Parenting,
        nest: None,
        nest_nav_node: Some(2),
        insects_eaten: 0,
    };
    let mut hatchling = Hatchling { nest: 2, parent_bird: bird, alert: false };

    // squirrel 5 units from the hatchling, alert radius 20
    let call_parent = hatchling_alert_step(&mut hatchling, true);
    assert!(hatchling.alert, "Hatchling should be alerting");
    assert!(call_parent);
    assert!(parent_defend(&mut nesting));
    assert_eq!(nesting.phase, BirdLifecycle::Defending, "Parent should switch to Defending");

    // still threatened: no new call
    assert!(!hatchling_alert_step(&mut hatchling, true));
    assert!(!parent_defend(&mut nesting));
    // threat gone
    assert!(!hatchling_alert_step(&mut hatchling, false));
    assert!(!hatchling.alert);
}

#[test]
fn defending_parent_returns_to_parenting_on_arrival() {
    let mut s = BirdNestingState { phase: BirdLifecycle::Defending, nest: Some(4), nest_nav_node: Some(2), insects_eaten: 1 };
    let out = lifecycle_transition(&mut s, 1, no_input());
    assert_eq!(s.phase, BirdLifecycle::Defending);
    assert_eq!(out.speed, SpeedChange::Keep);
    let out = lifecycle_transition(&mut s, 1, LifecycleInput { at_nest: true, ..no_input() });
    assert_eq!(s.phase, BirdLifecycle::Parenting);
    assert_eq!(out.speed, SpeedChange::Restore);
}
