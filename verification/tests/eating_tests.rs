use vivarium::components::{BirdLifecycle, BirdNestingState};
use vivarium::feeding::{choose_meal, lifecycle_tally, squirrel_tally};
use vivarium::components::SquirrelPhase;
use vivarium::nav_graph::{NavGraph, NavNodeKind};
use vivarium::nesting::bird_lifecycle_step;

fn key(d: f32) -> u32 {
    let b = d.to_bits();
    if b >> 31 == 1 { !b } else { b | 0x8000_0000 }
}

const EATING_DISTANCE: f32 = 3.0;

#[test]
fn eating_system_despawns_insect_when_bird_is_close() {
    // Bird at the origin, insect at (1,0,0): within eating distance
    let candidates = vec![20u64];
    let d = 1.0f32;
    let meal = choose_meal(&candidates, &vec![key(d)], &vec![d < EATING_DISTANCE], &Vec::new());
    assert_eq!(meal, Some(0), "Insect within eating distance should be despawned");
}

#[test]
fn eating_system_does_not_despawn_distant_insect() {
    let candidates = vec![20u64];
    let d = 100.0f32;
    let meal = choose_meal(&candidates, &vec![key(d)], &vec![d < EATING_DISTANCE], &Vec::new());
    assert_eq!(meal, None, "Insect far from bird should NOT be despawned");
}

#[test]
fn eating_system_bird_does_not_eat_other_birds() {
    // the other bird is one unit away but is no insect
    let candidates = vec![30u64];
    let meal = choose_meal(&candidates, &vec![key(1.0)], &vec![false], &Vec::new());
    assert_eq!(meal, None, "Birds should not eat other birds");
}

#[test]
fn eaten_insect_is_not_eaten_again() {
    let candidates = vec![1u64, 2, 3];
    let keys = vec![key(2.0), key(0.5), key(1.0)];
    let reach = vec![true, true, true];
    assert_eq!(choose_meal(&candidates, &keys, &reach, &Vec::new()), Some(1));
    assert_eq!(choose_meal(&candidates, &keys, &reach, &vec![2]), Some(2));
    assert_eq!(choose_meal(&candidates, &keys, &reach, &vec![2, 3, 1]), None);
}

/// Full pipeline: bird eats insect, then its lifecycle heads for a nest.
#[test]
fn eating_triggers_nesting_lifecycle() {
    let mut nav = NavGraph::new();
    nav.add_node(NavNodeKind::Ground);
    nav.add_node(NavNodeKind::TreeBase);
    nav.add_edge(0, 1);
    nav.add_node(NavNodeKind::Branch);
    nav.add_edge(1, 2);

    let meal = choose_meal(&vec![5u64], &vec![key(1.0)], &vec![true], &Vec::new());
    let mut nesting = BirdNestingState::default();
    bird_lifecycle_step(&mut nesting, 1, meal.is_some(), false, false, None, &nav, &Vec::new());
    assert_eq!(
        nesting.phase, BirdLifecycle::FlyingToNest,
        "Eating an insect should trigger Hunting → FlyingToNest via InsectEaten message"
    );
    assert_eq!(nesting.nest_nav_node, Some(2));
}

#[test]
fn status_tallies_count_each_phase() {
    let birds = vec![
        BirdLifecycle::Hunting,
        BirdLifecycle::Parenting,
        BirdLifecycle::Hunting,
        BirdLifecycle::Defending,
    ];
    assert_eq!(lifecycle_tally(&birds), vec![2, 0, 0, 0, 0, 1, 1]);
    assert_eq!(lifecycle_tally(&Vec::new()), vec![0; 7]);
    let squirrels = vec![SquirrelPhase::Fleeing, SquirrelPhase::Idle, SquirrelPhase::Fleeing];
    assert_eq!(squirrel_tally(&squirrels), vec![1, 0, 0, 2]);
}
