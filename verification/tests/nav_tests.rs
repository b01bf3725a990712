use vivarium::camera::{camera_mode_after_keys, cardinal_of_octant, find_followed, CameraMode, Cardinal};
use vivarium::lsystem::{leaf_nodes, skeleton, LSystem};
use vivarium::nav_graph::{NavGraph, NavNode, NavNodeKind};
use vivarium::select::{first_min, first_min_among};
use vivarium::squirrel::{edge_surface, EdgeSurface};

#[test]
fn add_node_returns_consecutive_indices() {
    let mut nav = NavGraph::new();
    assert_eq!(nav.add_node(NavNodeKind::Ground), 0);
    assert_eq!(nav.add_node_with_entity(NavNodeKind::Branch, 77), 1);
    assert_eq!(nav.nodes[1], NavNode { kind: NavNodeKind::Branch, entity: Some(77) });
    assert_eq!(nav.nodes[0].entity, None);
    assert_eq!(nav.edges.len(), 2);
}

#[test]
fn add_edge_is_bidirectional_and_not_duplicated() {
    let mut nav = NavGraph::new();
    nav.add_node(NavNodeKind::Ground);
    nav.add_node(NavNodeKind::Ground);
    nav.add_edge(0, 1);
    nav.add_edge(1, 0);
    nav.add_edge(0, 1);
    assert_eq!(nav.edges[0], vec![1]);
    assert_eq!(nav.edges[1], vec![0]);
    nav.add_edge(1, 1);
    assert_eq!(nav.edges[1], vec![0, 1]);
}

#[test]
fn ground_grid_is_four_connected() {
    let mut nav = NavGraph::new();
    nav.add_node(NavNodeKind::TreeBase);
    // one tree base; keys order the 9 cells, cell 4 (the centre) is nearest
    let keys = vec![vec![9, 8, 7, 6, 1, 6, 7, 8, 9]];
    nav.build_ground_nodes(3, &keys);
    assert_eq!(nav.nodes.len(), 10);
    assert!(nav.nodes[1..].iter().all(|n| n.kind == NavNodeKind::Ground && n.entity.is_none()));
    // cell (x, z) is node 1 + 3x + z; neighbours above, left, right, below
    assert_eq!(nav.edges[1], vec![2, 4]);
    assert_eq!(nav.edges[5], vec![2, 4, 6, 8, 0]);
    assert_eq!(nav.edges[9], vec![6, 8]);
    assert_eq!(nav.edges[0], vec![5]);
}

#[test]
fn tree_base_links_to_first_nearest_cell() {
    let mut nav = NavGraph::new();
    nav.add_node(NavNodeKind::Ground);
    nav.add_node(NavNodeKind::TreeBase);
    nav.add_node(NavNodeKind::TreeBase);
    let keys = vec![vec![5, 3, 3, 4], vec![1, 2, 3, 0]];
    nav.build_ground_nodes(2, &keys);
    assert_eq!(nav.edges[1], vec![4]);
    assert_eq!(nav.edges[2], vec![6]);
}

#[test]
fn find_path_follows_edges_and_reports_unreachable() {
    let mut nav = NavGraph::new();
    for _ in 0..5 {
        nav.add_node(NavNodeKind::Ground);
    }
    nav.add_edge(0, 1);
    nav.add_edge(1, 2);
    nav.add_edge(0, 3);
    nav.add_edge(3, 2);
    // node 4 is isolated
    let costs: Vec<Vec<u32>> = nav
        .edges
        .iter()
        .enumerate()
        .map(|(a, row)| row.iter().map(|&b| if (a == 0 && b == 3) || (a == 3 && b == 0) { 10 } else { 1 }).collect())
        .collect();
    let h = vec![0u32; 5];
    assert!(nav.search_fits_costs(&costs, &h));
    assert_eq!(nav.find_path(0, 2, &costs, &h), Some(vec![0, 1, 2]));
    assert_eq!(nav.find_path(2, 2, &costs, &h), Some(vec![2]));
    assert_eq!(nav.find_path(0, 4, &costs, &h), None);
    assert!(!nav.search_fits_costs(&vec![vec![u32::MAX, 0], vec![0, 0], vec![0, 0], vec![0, 0], vec![]], &h));
}

#[test]
fn nearest_node_takes_first_smallest_key() {
    let mut nav = NavGraph::new();
    assert_eq!(nav.nearest_node(&Vec::new()), None);
    for _ in 0..4 {
        nav.add_node(NavNodeKind::Ground);
    }
    assert_eq!(nav.nearest_node(&vec![5, 2, 2, 9]), Some(1));
    assert_eq!(first_min(&vec![3, 3]), Some(0));
    assert_eq!(first_min_among(&vec![1, 5, 4], &vec![false, true, true]), Some(2));
    assert_eq!(first_min_among(&vec![1, 5], &vec![false, false]), None);
}

#[test]
fn kind_filters_list_in_order() {
    let mut nav = NavGraph::new();
    nav.add_node(NavNodeKind::Branch);
    nav.add_node(NavNodeKind::Ground);
    nav.add_node(NavNodeKind::Branch);
    nav.add_node(NavNodeKind::Branch);
    assert_eq!(nav.nodes_of_kind(NavNodeKind::Branch), vec![0, 2, 3]);
    assert_eq!(nav.nodes_of_kind(NavNodeKind::TreeBase), Vec::<usize>::new());
    assert_eq!(nav.free_branch_nodes(&vec![2]), vec![0, 3]);
}

#[test]
fn lsystem_generates_branching_pattern() {
    let zero = LSystem { start: vec!['F'], iterations: 0 };
    assert_eq!(zero.generate(), vec!['F']);
    let one = LSystem { start: vec!['F'], iterations: 1 };
    assert_eq!(one.generate().into_iter().collect::<String>(), "F[+F]F[-F]F");
    let kept = LSystem { start: vec!['+', 'F', 'x'], iterations: 1 };
    assert_eq!(kept.generate().into_iter().collect::<String>(), "+F[+F]F[-F]Fx");
    let three = LSystem { start: vec!['F'], iterations: 3 };
    let s = three.generate();
    assert_eq!(s.iter().filter(|c| **c == 'F').count(), 125);
    assert_eq!(s.iter().filter(|c| **c == '[').count(), s.iter().filter(|c| **c == ']').count());
    assert_eq!(s.len(), 1 + 10 * (1 + 5 + 25));
}

#[test]
fn camera_keys_pick_mode() {
    assert_eq!(CameraMode::default(), CameraMode::Overview);
    let m = CameraMode::Overview;
    assert_eq!(camera_mode_after_keys(m, false, true, false, false), CameraMode::FollowSquirrel(0));
    assert_eq!(camera_mode_after_keys(m, false, false, true, false), CameraMode::FollowSquirrel(1));
    assert_eq!(camera_mode_after_keys(m, false, false, false, true), CameraMode::FollowSquirrel(2));
    assert_eq!(camera_mode_after_keys(CameraMode::FollowSquirrel(1), true, false, false, false), CameraMode::Overview);
    assert_eq!(camera_mode_after_keys(CameraMode::FollowSquirrel(1), false, false, false, false), CameraMode::FollowSquirrel(1));
    assert_eq!(camera_mode_after_keys(m, true, true, false, true), CameraMode::FollowSquirrel(2));
    assert_eq!(find_followed(&vec![2, 0, 1], 1), Some(2));
    assert_eq!(find_followed(&vec![2, 0], 1), None);
}

#[test]
fn wind_octants_name_compass_points() {
    assert_eq!(cardinal_of_octant(0), Some(Cardinal::W));
    assert_eq!(cardinal_of_octant(2), Some(Cardinal::N));
    assert_eq!(cardinal_of_octant(4), Some(Cardinal::E));
    assert_eq!(cardinal_of_octant(7), Some(Cardinal::SW));
    assert_eq!(cardinal_of_octant(9), Some(Cardinal::NW));
    assert_eq!(cardinal_of_octant(-3), None);
    assert_eq!(cardinal_of_octant(-8), Some(Cardinal::W));
}

#[test]
fn edge_surfaces_by_node_kind() {
    assert_eq!(edge_surface(NavNodeKind::Branch, NavNodeKind::Branch), EdgeSurface::Branch);
    assert_eq!(edge_surface(NavNodeKind::Branch, NavNodeKind::TreeBase), EdgeSurface::Transition { from_branch: true });
    assert_eq!(edge_surface(NavNodeKind::Ground, NavNodeKind::Branch), EdgeSurface::Transition { from_branch: false });
    assert_eq!(edge_surface(NavNodeKind::Ground, NavNodeKind::TreeBase), EdgeSurface::Ground);
}

#[test]
fn skeleton_links_segments_along_branches() {
    let production: Vec<char> = "F[+F]F[-F]F".chars().collect();
    assert_eq!(skeleton(&production), vec![(0, 1), (1, 2), (1, 3), (3, 4), (3, 5)]);
    // a closing bracket with nothing saved leaves the turtle where it is
    let unmatched: Vec<char> = "F]F".chars().collect();
    assert_eq!(skeleton(&unmatched), vec![(0, 1), (1, 2)]);
    assert!(skeleton(&Vec::new()).is_empty());
}

#[test]
fn skeleton_of_grown_tree_is_a_tree() {
    let tree = LSystem { start: vec!['F'], iterations: 3 };
    let instructions = tree.generate();
    let links = skeleton(&instructions);
    assert_eq!(links.len(), 125);
    for (k, &(from, to)) in links.iter().enumerate() {
        assert_eq!(to, k + 1);
        assert!(from <= k);
    }
}

#[test]
fn leaves_grow_at_each_closing_bracket() {
    let production: Vec<char> = "F[+F]F[-F]F".chars().collect();
    assert_eq!(leaf_nodes(&production), vec![2, 4]);
    // with nothing saved, the leaf still grows where the turtle stands
    let unmatched: Vec<char> = "F]F]".chars().collect();
    assert_eq!(leaf_nodes(&unmatched), vec![1, 2]);
    let tree = LSystem { start: vec!['F'], iterations: 3 };
    let instructions = tree.generate();
    let leaves = leaf_nodes(&instructions);
    assert_eq!(leaves.len(), instructions.iter().filter(|&&c| c == ']').count());
}

#[test]
fn tree_links_branches_to_nearest_kept_ancestor() {
    let mut nav = NavGraph::new();
    let ground = nav.add_node(NavNodeKind::Ground);
    let production: Vec<char> = "F[+F]F[-F]F".chars().collect();
    let links = skeleton(&production);
    let degenerate = vec![false, false, true, false, false];
    let entities: Vec<u64> = vec![10, 11, 12, 13, 14];
    let base = nav.add_tree(&links, &degenerate, &entities);
    assert_eq!(ground, 0);
    assert_eq!(base, 1);
    assert_eq!(nav.nodes.len(), 6);
    assert_eq!(nav.nodes[1], NavNode { kind: NavNodeKind::TreeBase, entity: None });
    let tips: Vec<Option<u64>> = nav.nodes[2..].iter().map(|n| n.entity).collect();
    assert_eq!(tips, vec![Some(10), Some(11), Some(13), Some(14)]);
    assert!(nav.nodes[2..].iter().all(|n| n.kind == NavNodeKind::Branch));
    assert!(nav.edges[0].is_empty());
    assert_eq!(nav.edges[1], vec![2]);
    assert_eq!(nav.edges[2], vec![1, 3, 4, 5]);
    assert_eq!(nav.edges[3], vec![2]);
    assert_eq!(nav.edges[4], vec![2]);
    assert_eq!(nav.edges[5], vec![2]);
}
