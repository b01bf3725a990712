use vivarium::components::{SquirrelPhase, SquirrelState, SquirrelTarget};
use vivarium::nav_graph::{NavGraph, NavNodeKind};
use vivarium::select::first_min_among;
use vivarium::squirrel::{flee_target, parent_guards_nest, WanderOutcome};

type P = (f32, f32, f32);

fn dist(a: P, b: P) -> f32 {
    ((a.0 - b.0).powi(2) + (a.1 - b.1).powi(2) + (a.2 - b.2).powi(2)).sqrt()
}

/// Integer key that orders non-negative distances like the distances.
fn key(d: f32) -> u32 {
    let b = d.to_bits();
    if b >> 31 == 1 { !b } else { b | 0x8000_0000 }
}

/// Navigation graph with node positions.
fn test_nav_graph() -> (NavGraph, Vec<P>) {
    let mut nav = NavGraph::new();
    let mut pos = Vec::new();
    // Ground nodes
    nav.add_node(NavNodeKind::Ground);
    pos.push((0.0, -200.0, 0.0));
    nav.add_node(NavNodeKind::Ground);
    pos.push((40.0, -200.0, 0.0));
    nav.add_node(NavNodeKind::Ground);
    pos.push((80.0, -200.0, 0.0));
    nav.add_edge(0, 1);
    nav.add_edge(1, 2);
    // Tree base
    nav.add_node(NavNodeKind::TreeBase);
    pos.push((0.0, -200.0, 0.0));
    nav.add_edge(0, 3);
    // Branch node (where the nest/hatchling is)
    nav.add_node(NavNodeKind::Branch);
    pos.push((0.0, -190.0, 0.0));
    nav.add_edge(3, 4);
    (nav, pos)
}

fn nearest(nav: &NavGraph, pos: &Vec<P>, p: P) -> usize {
    let keys: Vec<u32> = pos.iter().map(|q| key(dist(*q, p))).collect();
    nav.nearest_node(&keys).unwrap_or(0)
}

fn path_between(nav: &NavGraph, pos: &Vec<P>, from: usize, to: usize) -> Option<Vec<usize>> {
    let costs: Vec<Vec<u32>> = nav
        .edges
        .iter()
        .enumerate()
        .map(|(n, row)| row.iter().map(|&m| (dist(pos[n], pos[m]) * 100.0) as u32).collect())
        .collect();
    let h: Vec<u32> = pos.iter().map(|q| (dist(*q, pos[to]) * 100.0) as u32).collect();
    assert!(nav.search_fits_costs(&costs, &h));
    nav.find_path(from, to, &costs, &h)
}

/// One frame of hatchling detection for an idle squirrel at `sq`.
fn detect(nav: &NavGraph, pos: &Vec<P>, state: &mut SquirrelState, sq: P, hatchlings: &Vec<(u64, P)>) -> Option<SquirrelTarget> {
    let keys: Vec<u32> = hatchlings.iter().map(|(_, h)| key(dist(sq, *h))).collect();
    let in_sight: Vec<bool> = hatchlings.iter().map(|(_, h)| dist(sq, *h) < 60.0).collect();
    let (h_entity, h_pos) = hatchlings[first_min_among(&keys, &in_sight)?];
    let nest_nav_node = nearest(nav, pos, h_pos);
    let current = nearest(nav, pos, sq);
    let path = path_between(nav, pos, current, nest_nav_node)?;
    if state.start_path(path, SquirrelPhase::Hunting) {
        Some(SquirrelTarget { hatchling: h_entity, nest_nav_node })
    } else {
        None
    }
}

/// Idle squirrel near a hatchling should detect it and start hunting.
#[test]
fn squirrel_detects_nearby_hatchling() {
    let (nav, pos) = test_nav_graph();
    let hatchlings = vec![(11u64, (0.0, -190.0, 0.0))];
    // Squirrel within sight range (30 units away)
    let mut state = SquirrelState::default();
    let target = detect(&nav, &pos, &mut state, (30.0, -200.0, 0.0), &hatchlings);

    assert_eq!(state.phase, SquirrelPhase::Hunting, "Squirrel should start hunting");
    assert!(!state.path.is_empty(), "Squirrel should have a path to the hatchling");
    assert!(target.is_some(), "Squirrel should have SquirrelTarget component");
    assert_eq!(state.path, vec![1, 0, 3, 4]);
    assert_eq!(target.unwrap(), SquirrelTarget { hatchling: 11, nest_nav_node: 4 });
}

/// Squirrel far from hatchling should stay idle.
#[test]
fn squirrel_ignores_distant_hatchling() {
    let (nav, pos) = test_nav_graph();
    let hatchlings = vec![(11u64, (0.0, -190.0, 0.0))];
    // Squirrel far away (beyond sight range)
    let mut state = SquirrelState::default();
    let target = detect(&nav, &pos, &mut state, (200.0, -200.0, 0.0), &hatchlings);
    assert!(target.is_none());
    assert_eq!(state.phase, SquirrelPhase::Idle, "Squirrel should stay idle when hatchling is far");
}

/// When parent bird is near nest, hunting squirrel should flee.
#[test]
fn squirrel_flees_when_parent_arrives() {
    let (nav, pos) = test_nav_graph();
    let mut state = SquirrelState { phase: SquirrelPhase::Hunting, path: vec![3, 4], path_index: 1 };
    let target = SquirrelTarget { hatchling: 999, nest_nav_node: 4 };
    let sq = (3.0, -191.0, 0.0);
    // Parent bird near the nest: (2,-190,0) is within twice the alert radius
    let bird_nodes = vec![Some(4usize)];
    let close = vec![dist((2.0, -190.0, 0.0), sq) < 40.0];
    let mut keep_target = true;
    if parent_guards_nest(&bird_nodes, &close, target.nest_nav_node) {
        if let Some(flee) = flee_target(&nav) {
            let current = nearest(&nav, &pos, sq);
            if let Some(path) = path_between(&nav, &pos, current, flee) {
                state.start_path(path, SquirrelPhase::Fleeing);
            }
        }
        keep_target = false;
    }
    assert_eq!(state.phase, SquirrelPhase::Fleeing, "Squirrel should flee when parent is near");
    assert!(!keep_target, "SquirrelTarget should be removed when fleeing");
    assert_eq!(*state.path.first().unwrap(), 4);
    assert!([0usize, 1, 2].contains(state.path.last().unwrap()));
}

/// Fleeing squirrel should return to idle when path is done.
#[test]
fn squirrel_returns_to_idle_after_fleeing() {
    let mut state = SquirrelState { phase: SquirrelPhase::Fleeing, path: vec![0, 1], path_index: 1 };
    assert!(state.finish_path());
    assert_eq!(state.phase, SquirrelPhase::Idle, "Squirrel should return to idle after fleeing");
    assert!(state.path.is_empty());
}

#[test]
fn parent_elsewhere_does_not_scare_squirrel() {
    assert!(!parent_guards_nest(&vec![Some(3usize), None], &vec![true, true], 4));
    assert!(!parent_guards_nest(&vec![Some(4usize)], &vec![false], 4));
    assert!(parent_guards_nest(&vec![None, Some(4usize)], &vec![true, true], 4));
}

#[test]
fn moving_squirrel_walks_its_path_edges() {
    let mut state = SquirrelState { phase: SquirrelPhase::Moving, path: vec![5, 6, 7], path_index: 0 };
    assert!(state.is_traversing());
    assert_eq!(state.current_edge(), (5, 6));
    state.advance();
    assert_eq!(state.current_edge(), (6, 7));
    assert!(!state.path_done());
    state.advance();
    assert!(!state.is_traversing());
    assert!(state.path_done());
    assert!(state.finish_path());
    assert_eq!(state.phase, SquirrelPhase::Idle);
    let idle = SquirrelState { phase: SquirrelPhase::Idle, path: vec![1, 2], path_index: 0 };
    assert!(!idle.is_traversing());
}

#[test]
fn idle_squirrel_wanders_along_found_path() {
    let (nav, pos) = test_nav_graph();
    let costs: Vec<Vec<u32>> = nav
        .edges
        .iter()
        .enumerate()
        .map(|(n, row)| row.iter().map(|&m| (dist(pos[n], pos[m]) * 100.0) as u32).collect())
        .collect();
    let h: Vec<u32> = pos.iter().map(|q| (dist(*q, pos[2]) * 100.0) as u32).collect();
    let mut state = SquirrelState::default();
    assert_eq!(state.wander_toward(&nav, 2, 2, &costs, &h), WanderOutcome::AlreadyThere);
    assert_eq!(state.phase, SquirrelPhase::Idle);
    assert_eq!(state.wander_toward(&nav, 4, 2, &costs, &h), WanderOutcome::Started);
    assert_eq!(state.phase, SquirrelPhase::Moving);
    assert_eq!(state.path, vec![4, 3, 0, 1, 2]);

    // a node with no edges cannot be reached
    let mut lonely = nav;
    lonely.add_node(NavNodeKind::Ground);
    let mut costs2 = costs.clone();
    costs2.push(Vec::new());
    let mut h2 = h.clone();
    h2.push(0);
    let mut s2 = SquirrelState::default();
    assert_eq!(s2.wander_toward(&lonely, 0, 5, &costs2, &h2), WanderOutcome::NoPath);
    assert_eq!(s2.phase, SquirrelPhase::Idle);
}

#[test]
fn squirrel_heads_for_nest_and_flees_along_found_paths() {
    let (nav, pos) = test_nav_graph();
    let costs: Vec<Vec<u32>> = nav
        .edges
        .iter()
        .enumerate()
        .map(|(n, row)| row.iter().map(|&m| (dist(pos[n], pos[m]) * 100.0) as u32).collect())
        .collect();
    let h: Vec<u32> = pos.iter().map(|q| (dist(*q, pos[2]) * 100.0) as u32).collect();
    let mut state = SquirrelState::default();
    // already at the nest node: nothing changes
    assert!(!state.head_for(&nav, 2, 2, &costs, &h, SquirrelPhase::Hunting));
    assert_eq!(state.phase, SquirrelPhase::Idle);
    assert!(state.path.is_empty());
    // from the far ground node: hunting along the cheapest path
    assert!(state.head_for(&nav, 4, 2, &costs, &h, SquirrelPhase::Hunting));
    assert_eq!(state.phase, SquirrelPhase::Hunting);
    assert_eq!(state.path, vec![4, 3, 0, 1, 2]);
    assert_eq!(state.path_index, 0);

    // an unreachable flee target leaves the squirrel hunting
    let mut lonely = nav;
    lonely.add_node(NavNodeKind::Ground);
    let mut costs2 = costs.clone();
    costs2.push(Vec::new());
    let mut h2 = h.clone();
    h2.push(0);
    assert!(!state.head_for(&lonely, 2, 5, &costs2, &h2, SquirrelPhase::Fleeing));
    assert_eq!(state.phase, SquirrelPhase::Hunting);
    assert_eq!(state.path, vec![4, 3, 0, 1, 2]);
}
