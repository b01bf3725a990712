use vstd::prelude::*;
use crate::components::{BirdLifecycle, BirdNestingState, Hatchling, Nest};
use crate::nav_graph::{NavGraph, NavNodeKind, lists_exactly};
use crate::random::random_element;

verus! {

/// A countdown the caller starts.
#[derive(Debug, Clone, Copy, PartialEq, Eq, Structural)]
pub enum NestTimer {
    /// time to build the nest
    Build,
    /// time until the egg hatches
    Hatch,
}

/// What happens to the bird's speed.
#[derive(Debug, Clone, Copy, PartialEq, Eq, Structural)]
pub enum SpeedChange {
    Keep,
    /// slow to a tenth of cruising speed (arrived at the nest)
    Slow,
    /// back to cruising speed
    Restore,
}

/// What the caller does to the world.
#[derive(Debug, Clone, Copy, PartialEq, Eq, Structural)]
pub enum NestCommand {
    Nothing,
    /// spawn a nest with this record at its node (then call `record_nest`)
    SpawnNest { record: Nest },
    /// overwrite the nest entity's record (an egg was laid)
    UpdateNest { nest: u64, record: Nest },
    /// spawn this hatchling in the nest and overwrite the nest's record
    Hatch { nest: u64, hatchling: Hatchling, record: Nest },
}

/// What a bird's frame brings: whether it ate an insect, whether it is within
/// arrival distance of its nest node (false when it has none), whether its
/// running countdown ends this frame, the current record of its nest entity
/// (`None` when it has none or the entity is gone), and the branch node it
/// would nest on.
#[derive(Debug, Clone, Copy, PartialEq, Eq, Structural)]
pub struct LifecycleInput {
    pub ate_insect: bool,
    pub at_nest: bool,
    pub timer_expired: bool,
    pub nest_record: Option<Nest>,
    pub nest_choice: Option<usize>,
}

/// What the caller does after a lifecycle step.
#[derive(Debug, Clone, Copy, PartialEq, Eq, Structural)]
pub struct LifecycleOutcome {
    /// count the running timer down by this frame
    pub count_down: bool,
    pub start_timer: Option<NestTimer>,
    pub speed: SpeedChange,
    pub command: NestCommand,
}

/// Nothing to do.
pub open spec fn quiet() -> LifecycleOutcome {
    LifecycleOutcome { count_down: false, start_timer: None, speed: SpeedChange::Keep, command: NestCommand::Nothing }
}

/// One frame of the nesting lifecycle of bird `bird` in state `s`.
pub open spec fn lifecycle_spec(s: BirdNestingState, bird: u64, i: LifecycleInput) -> (BirdNestingState, LifecycleOutcome) {
    match s.phase {
        BirdLifecycle::Hunting => {
            if i.ate_insect && i.nest_choice is Some {
                (BirdNestingState { phase: BirdLifecycle::FlyingToNest, nest_nav_node: i.nest_choice, ..s }, quiet())
            } else {
                (s, quiet())
            }
        },
        BirdLifecycle::FlyingToNest => {
            if s.nest_nav_node is Some && i.at_nest {
                let node = s.nest_nav_node->0;
                let slow = LifecycleOutcome { speed: SpeedChange::Slow, ..quiet() };
                match s.nest {
                    None => (
                        BirdNestingState { phase: BirdLifecycle::Building, ..s },
                        LifecycleOutcome { start_timer: Some(NestTimer::Build), ..slow },
                    ),
                    Some(e) => match i.nest_record {
                        Some(n) => if !n.has_egg && !n.has_hatchling {
                            (
                                BirdNestingState { phase: BirdLifecycle::Incubating, ..s },
                                LifecycleOutcome {
                                    start_timer: Some(NestTimer::Hatch),
                                    command: NestCommand::UpdateNest {
                                        nest: e,
                                        record: Nest { parent_bird: bird, nav_node: node, has_egg: true, has_hatchling: false },
                                    },
                                    ..slow
                                },
                            )
                        } else {
                            (BirdNestingState { phase: BirdLifecycle::Parenting, ..s }, slow)
                        },
                        None => (BirdNestingState { phase: BirdLifecycle::Hunting, nest: None, ..s }, slow),
                    },
                }
            } else {
                (s, quiet())
            }
        },
        BirdLifecycle::Building => {
            let tick = LifecycleOutcome { count_down: true, ..quiet() };
            if i.timer_expired && s.nest_nav_node is Some {
                (
                    BirdNestingState { phase: BirdLifecycle::HuntingForEgg, ..s },
                    LifecycleOutcome {
                        speed: SpeedChange::Restore,
                        command: NestCommand::SpawnNest {
                            record: Nest {
                                parent_bird: bird,
                                nav_node: s.nest_nav_node->0,
                                has_egg: false,
                                has_hatchling: false,
                            },
                        },
                        ..tick
                    },
                )
            } else {
                (s, tick)
            }
        },
        BirdLifecycle::HuntingForEgg => {
            if i.ate_insect {
                (BirdNestingState { phase: BirdLifecycle::FlyingToNest, ..s }, quiet())
            } else {
                (s, quiet())
            }
        },
        BirdLifecycle::Incubating => {
            let tick = LifecycleOutcome { count_down: true, ..quiet() };
            if i.timer_expired && s.nest is Some && s.nest_nav_node is Some {
                let e = s.nest->0;
                (
                    BirdNestingState { phase: BirdLifecycle::Parenting, ..s },
                    LifecycleOutcome {
                        speed: SpeedChange::Restore,
                        command: NestCommand::Hatch {
                            nest: e,
                            hatchling: Hatchling { nest: e, parent_bird: bird, alert: false },
                            record: Nest {
                                parent_bird: bird,
                                nav_node: s.nest_nav_node->0,
                                has_egg: false,
                                has_hatchling: true,
                            },
                        },
                        ..tick
                    },
                )
            } else {
                (s, tick)
            }
        },
        BirdLifecycle::Parenting => {
            if i.ate_insect {
                let eaten = (s.insects_eaten + 1) as u32;
                (
                    BirdNestingState {
                        phase: if eaten % 2 == 0 { BirdLifecycle::FlyingToNest } else { BirdLifecycle::Parenting },
                        insects_eaten: eaten,
                        ..s
                    },
                    quiet(),
                )
            } else {
                (s, quiet())
            }
        },
        BirdLifecycle::Defending => {
            if s.nest_nav_node is Some && i.at_nest {
                (
                    BirdNestingState { phase: BirdLifecycle::Parenting, ..s },
                    LifecycleOutcome { speed: SpeedChange::Restore, ..quiet() },
                )
            } else {
                (s, quiet())
            }
        },
    }
}

/// The lifecycle may count one more insect.
pub open spec fn lifecycle_step_ok(s: BirdNestingState, i: LifecycleInput) -> bool {
    s.phase == BirdLifecycle::Parenting && i.ate_insect ==> s.insects_eaten < u32::MAX
}

/// Advance bird `bird` one frame through its nesting lifecycle.
pub fn lifecycle_transition(state: &mut BirdNestingState, bird: u64, input: LifecycleInput) -> (out: LifecycleOutcome)
    requires
        lifecycle_step_ok(*old(state), input),
    ensures
        (*final(state), out) == lifecycle_spec(*old(state), bird, input),
{
    let quiet = LifecycleOutcome { count_down: false, start_timer: None, speed: SpeedChange::Keep, command: NestCommand::Nothing };
    match state.phase {
        BirdLifecycle::Hunting => {
            if input.ate_insect && input.nest_choice.is_some() {
                state.nest_nav_node = input.nest_choice;
                state.phase = BirdLifecycle::FlyingToNest;
            }
            quiet
        },
        BirdLifecycle::FlyingToNest => {
            match state.nest_nav_node {
                Some(node) => {
                    if input.at_nest {
                        let slow = LifecycleOutcome { speed: SpeedChange::Slow, ..quiet };
                        match state.nest {
                            None => {
                                state.phase = BirdLifecycle::Building;
                                LifecycleOutcome { start_timer: Some(NestTimer::Build), ..slow }
                            },
                            Some(e) => match input.nest_record {
                                Some(n) => {
                                    if !n.has_egg && !n.has_hatchling {
                                        state.phase = BirdLifecycle::Incubating;
                                        LifecycleOutcome {
                                            start_timer: Some(NestTimer::Hatch),
                                            command: NestCommand::UpdateNest {
                                                nest: e,
                                                record: Nest { parent_bird: bird, nav_node: node, has_egg: true, has_hatchling: false },
                                            },
                                            ..slow
                                        }
                                    } else {
                                        state.phase = BirdLifecycle::Parenting;
                                        slow
                                    }
                                },
                                None => {
                                    state.phase = BirdLifecycle::Hunting;
                                    state.nest = None;
                                    slow
                                },
                            },
                        }
                    } else {
                        quiet
                    }
                },
                None => quiet,
            }
        },
        BirdLifecycle::Building => {
            let tick = LifecycleOutcome { count_down: true, ..quiet };
            match state.nest_nav_node {
                Some(node) => {
                    if input.timer_expired {
                        state.phase = BirdLifecycle::HuntingForEgg;
                        LifecycleOutcome {
                            speed: SpeedChange::Restore,
                            command: NestCommand::SpawnNest {
                                record: Nest { parent_bird: bird, nav_node: node, has_egg: false, has_hatchling: false },
                            },
                            ..tick
                        }
                    } else {
                        tick
                    }
                },
                None => tick,
            }
        },
        BirdLifecycle::HuntingForEgg => {
            if input.ate_insect {
                state.phase = BirdLifecycle::FlyingToNest;
            }
            quiet
        },
        BirdLifecycle::Incubating => {
            let tick = LifecycleOutcome { count_down: true, ..quiet };
            match (state.nest, state.nest_nav_node) {
                (Some(e), Some(node)) => {
                    if input.timer_expired {
                        state.phase = BirdLifecycle::Parenting;
                        LifecycleOutcome {
                            speed: SpeedChange::Restore,
                            command: NestCommand::Hatch {
                                nest: e,
                                hatchling: Hatchling { nest: e, parent_bird: bird, alert: false },
                                record: Nest { parent_bird: bird, nav_node: node, has_egg: false, has_hatchling: true },
                            },
                            ..tick
                        }
                    } else {
                        tick
                    }
                },
                _ => tick,
            }
        },
        BirdLifecycle::Parenting => {
            if input.ate_insect {
                state.insects_eaten = state.insects_eaten + 1;
                if state.insects_eaten % 2 == 0 {
                    state.phase = BirdLifecycle::FlyingToNest;
                }
            }
            quiet
        },
        BirdLifecycle::Defending => {
            if state.nest_nav_node.is_some() && input.at_nest {
                state.phase = BirdLifecycle::Parenting;
                LifecycleOutcome { speed: SpeedChange::Restore, ..quiet }
            } else {
                quiet
            }
        },
    }
}

/// A random branch node that no nest in `occupied` is on, or `None` when
/// every branch node is taken.
pub fn pick_nest_node(nav: &NavGraph, occupied: &Vec<usize>) -> (r: Option<usize>)
    ensures
        match r {
            None => forall|i: int| 0 <= i < nav.nodes@.len() ==> !(nav.nodes@[i].kind == NavNodeKind::Branch
                && !occupied@.contains(i as usize)),
            Some(n) => n < nav.nodes@.len() && nav.nodes@[n as int].kind == NavNodeKind::Branch
                && !occupied@.contains(n),
        },
{
    let free = nav.free_branch_nodes(occupied);
    let r = random_element(&free);
    proof {
        let p = |i: int| nav.nodes@[i].kind == NavNodeKind::Branch && !occupied@.contains(i as usize);
        assert(lists_exactly(free@, nav.nodes@.len() as int, p));
        match r {
            None => {
                assert forall|i: int| 0 <= i < nav.nodes@.len() implies !(nav.nodes@[i].kind == NavNodeKind::Branch
                    && !occupied@.contains(i as usize)) by {
                    if p(i) {
                        assert(free@.contains(i as usize));
                    }
                }
            },
            Some(n) => {
                let k = choose|k: int| 0 <= k < free@.len() && free@[k] == n;
                assert(p(free@[k] as int));
            },
        }
    }
    r
}

/// Advance bird `bird` one frame: when a hunting bird ate an insect it draws
/// a free branch node from `nav` (nodes in `occupied` already carry nests) and
/// heads there; otherwise as `lifecycle_transition` with `nest_choice` unused.
pub fn bird_lifecycle_step(
    state: &mut BirdNestingState,
    bird: u64,
    ate_insect: bool,
    at_nest: bool,
    timer_expired: bool,
    nest_record: Option<Nest>,
    nav: &NavGraph,
    occupied: &Vec<usize>,
) -> (out: LifecycleOutcome)
    requires
        lifecycle_step_ok(*old(state), LifecycleInput { ate_insect, at_nest, timer_expired, nest_record, nest_choice: None }),
    ensures
        exists|choice: Option<usize>| {
            &&& (*final(state), out) == lifecycle_spec(
                *old(state),
                bird,
                LifecycleInput { ate_insect, at_nest, timer_expired, nest_record, nest_choice: choice },
            )
            &&& match choice {
                None => old(state).phase == BirdLifecycle::Hunting && ate_insect ==> forall|i: int|
                    0 <= i < nav.nodes@.len() ==> !(nav.nodes@[i].kind == NavNodeKind::Branch
                        && !occupied@.contains(i as usize)),
                Some(n) => n < nav.nodes@.len() && nav.nodes@[n as int].kind == NavNodeKind::Branch
                    && !occupied@.contains(n),
            }
        },
{
    let choice = if state.phase == BirdLifecycle::Hunting && ate_insect {
        pick_nest_node(nav, occupied)
    } else {
        None
    };
    lifecycle_transition(state, bird, LifecycleInput { ate_insect, at_nest, timer_expired, nest_record, nest_choice: choice })
}



/// A parent feeds every other insect to its hatchling: from an even count,
/// the first insect leaves it parenting and the second sends it to the nest.
pub proof fn law_parent_feeds_every_other_insect(s: BirdNestingState, bird: u64, i: LifecycleInput, j: LifecycleInput)
    requires
        s.phase == BirdLifecycle::Parenting,
        s.insects_eaten % 2 == 0,
        s.insects_eaten + 2 <= u32::MAX,
        i.ate_insect,
        j.ate_insect,
    ensures
        lifecycle_spec(s, bird, i).0.phase == BirdLifecycle::Parenting,
        lifecycle_spec(lifecycle_spec(s, bird, i).0, bird, j).0.phase == BirdLifecycle::FlyingToNest,
        lifecycle_spec(lifecycle_spec(s, bird, i).0, bird, j).0.insects_eaten == s.insects_eaten + 2,
{
}

/// Only a hunting bird is without a nest node: once a bird leaves hunting it
/// keeps a nest node until it hunts again.
pub proof fn law_nest_node_kept_while_nesting(s: BirdNestingState, bird: u64, i: LifecycleInput)
    requires
        s.phase != BirdLifecycle::Hunting ==> s.nest_nav_node is Some,
    ensures
        ({
            let t = lifecycle_spec(s, bird, i).0;
            t.phase != BirdLifecycle::Hunting ==> t.nest_nav_node is Some
        }),
{
}

/// Exactly the building and incubating phases count their timer down.
pub proof fn law_timers_run_while_sitting(s: BirdNestingState, bird: u64, i: LifecycleInput)
    ensures
        lifecycle_spec(s, bird, i).1.count_down == (s.phase == BirdLifecycle::Building || s.phase
            == BirdLifecycle::Incubating),
{
}

/// An egg is laid only into a nest that holds neither an egg nor a hatchling,
/// and the laying bird then incubates.
pub proof fn law_egg_only_in_empty_nest(s: BirdNestingState, bird: u64, i: LifecycleInput)
    ensures
        lifecycle_spec(s, bird, i).1.command is UpdateNest ==> ({
            &&& i.nest_record is Some
            &&& !i.nest_record->0.has_egg
            &&& !i.nest_record->0.has_hatchling
            &&& lifecycle_spec(s, bird, i).0.phase == BirdLifecycle::Incubating
        }),
{
}

/// A hunting bird that eats heads for exactly the branch node it chose, and
/// one that does not eat stays as it is.
pub proof fn law_hunting_bird_heads_for_choice(s: BirdNestingState, bird: u64, i: LifecycleInput)
    requires
        s.phase == BirdLifecycle::Hunting,
    ensures
        i.ate_insect && i.nest_choice is Some ==> lifecycle_spec(s, bird, i).0 == (BirdNestingState {
            phase: BirdLifecycle::FlyingToNest,
            nest_nav_node: i.nest_choice,
            ..s
        }),
        !i.ate_insect ==> lifecycle_spec(s, bird, i).0 == s,
{
}

/// A bird hunting for an egg flies back to its nest as soon as it eats, and
/// on arriving at the empty nest it lays the egg there and incubates; until
/// it eats it keeps hunting.
pub proof fn law_egg_hunter_returns_to_lay(s: BirdNestingState, bird: u64, i: LifecycleInput, j: LifecycleInput, n: Nest)
    requires
        s.phase == BirdLifecycle::HuntingForEgg,
        s.nest is Some,
        s.nest_nav_node is Some,
        j.at_nest,
        j.nest_record == Some(n),
        !n.has_egg,
        !n.has_hatchling,
    ensures
        !i.ate_insect ==> lifecycle_spec(s, bird, i).0 == s,
        i.ate_insect ==> ({
            let t = lifecycle_spec(s, bird, i).0;
            let (u, o) = lifecycle_spec(t, bird, j);
            &&& t.phase == BirdLifecycle::FlyingToNest
            &&& t.nest == s.nest
            &&& t.nest_nav_node == s.nest_nav_node
            &&& u.phase == BirdLifecycle::Incubating
            &&& o.start_timer == Some(NestTimer::Hatch)
            &&& o.command == NestCommand::UpdateNest {
                nest: s.nest->0,
                record: Nest { parent_bird: bird, nav_node: s.nest_nav_node->0, has_egg: true, has_hatchling: false },
            }
        }),
{
}

/// How fast a bird heading for its nest flies.
#[derive(Debug, Clone, Copy, PartialEq, Eq, Structural)]
pub enum FlightPace {
    /// cruising speed
    Cruise,
    /// the defence speed multiple
    Dash,
}

/// Birds flying to their nest cruise, defending birds dash, and no other
/// bird is steered toward its nest.
pub fn nest_flight_pace(phase: BirdLifecycle) -> (r: Option<FlightPace>)
    ensures
        r == match phase {
            BirdLifecycle::FlyingToNest => Some(FlightPace::Cruise),
            BirdLifecycle::Defending => Some(FlightPace::Dash),
            _ => None::<FlightPace>,
        },
{
    match phase {
        BirdLifecycle::FlyingToNest => Some(FlightPace::Cruise),
        BirdLifecycle::Defending => Some(FlightPace::Dash),
        _ => None,
    }
}

/// Update a hatchling's alert from whether a targeting squirrel is within the
/// alert radius; returns whether the parent must now be called to defend
/// (the threat is new).
pub fn hatchling_alert_step(hatchling: &mut Hatchling, under_threat: bool) -> (call_parent: bool)
    ensures
        call_parent == (under_threat && !old(hatchling).alert),
        *final(hatchling) == (Hatchling { alert: under_threat, ..*old(hatchling) }),
{
    if under_threat && !hatchling.alert {
        hatchling.alert = true;
        true
    } else {
        if !under_threat {
            hatchling.alert = false;
        }
        false
    }
}

/// A called parent switches to defending unless it already is; returns
/// whether it switched (its speed is then reset to cruising).
pub fn parent_defend(state: &mut BirdNestingState) -> (switched: bool)
    ensures
        switched == (old(state).phase != BirdLifecycle::Defending),
        *final(state) == (BirdNestingState { phase: BirdLifecycle::Defending, ..*old(state) }),
{
    if state.phase != BirdLifecycle::Defending {
        state.phase = BirdLifecycle::Defending;
        true
    } else {
        false
    }
}

/// Note the nest entity a `SpawnNest` command created.
pub fn record_nest(state: &mut BirdNestingState, nest: u64)
    ensures
        *final(state) == (BirdNestingState { nest: Some(nest), ..*old(state) }),
{
    state.nest = Some(nest);
}

} // verus!
