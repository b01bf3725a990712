use vstd::prelude::*;
use crate::select::{first_min, is_first_min_among};
use crate::search::{has_step, admissible, reachable, search_fits, walk_between, walk_cost, astar_path, fits_search};

verus! {

/// What a navigation node stands for.
#[derive(Debug, Clone, Copy, PartialEq, Eq, Structural)]
pub enum NavNodeKind {
    Ground,
    TreeBase,
    Branch,
}

/// A navigation node: its kind and, for branch tips, the entity whose live
/// position it follows (an entity is named by its 64-bit id).
#[derive(Debug, Clone, Copy, PartialEq, Eq, Structural)]
pub struct NavNode {
    pub kind: NavNodeKind,
    pub entity: Option<u64>,
}

/// An undirected graph over node indices, stored as adjacency lists.
pub struct NavGraph {
    pub nodes: Vec<NavNode>,
    pub edges: Vec<Vec<usize>>,
}

/// `s` with `x` appended unless it is already there.
pub open spec fn with_neighbor(s: Seq<usize>, x: usize) -> Seq<usize> {
    if s.contains(x) { s } else { s.push(x) }
}

/// The adjacency lists after adding the undirected edge `a`–`b`.
pub open spec fn spec_add_edge(adj: Seq<Seq<usize>>, a: usize, b: usize) -> Seq<Seq<usize>> {
    let adj1 = adj.update(a as int, with_neighbor(adj[a as int], b));
    adj1.update(b as int, with_neighbor(adj1[b as int], a))
}

/// Adjacency lists whose entries are in range, free of repeats, and symmetric.
pub open spec fn adj_wf(adj: Seq<Seq<usize>>) -> bool {
    &&& forall|a: int, i: int|
        0 <= a < adj.len() && 0 <= i < adj[a].len() ==> #[trigger] adj[a][i] < adj.len()
    &&& forall|a: int| 0 <= a < adj.len() ==> (#[trigger] adj[a]).no_duplicates()
    &&& forall|a: int, i: int|
        0 <= a < adj.len() && 0 <= i < adj[a].len() ==> adj[#[trigger] adj[a][i] as int].contains(
            a as usize,
        )
}

/// Adding an edge keeps adjacency lists well formed.
pub proof fn lemma_add_edge_wf(adj: Seq<Seq<usize>>, a: usize, b: usize)
    requires
        adj_wf(adj),
        a < adj.len(),
        b < adj.len(),
    ensures
        adj_wf(spec_add_edge(adj, a, b)),
        spec_add_edge(adj, a, b).len() == adj.len(),
{
    let ai = a as int;
    let bi = b as int;
    let adj1 = adj.update(ai, with_neighbor(adj[ai], b));
    let adj2 = adj1.update(bi, with_neighbor(adj1[bi], a));
    assert(adj2 == spec_add_edge(adj, a, b));
    // old entries stay
    assert forall|x: int, y: usize| 0 <= x < adj.len() && #[trigger] adj[x].contains(y) implies adj2[x].contains(y) by {
        let k = choose|k: int| 0 <= k < adj[x].len() && adj[x][k] == y;
        assert(adj1[x][k] == y);
        assert(adj1[x].contains(y));
        let k1 = choose|k1: int| 0 <= k1 < adj1[x].len() && adj1[x][k1] == y;
        assert(adj2[x][k1] == y);
    }
    assert(adj1[ai].contains(b)) by {
        if !adj[ai].contains(b) {
            assert(adj1[ai][adj[ai].len() as int] == b);
        }
    }
    assert(adj2[bi].contains(a)) by {
        if !adj1[bi].contains(a) {
            assert(adj2[bi][adj1[bi].len() as int] == a);
        }
    }
    assert(adj2[ai].contains(b)) by {
        let k1 = choose|k1: int| 0 <= k1 < adj1[ai].len() && adj1[ai][k1] == b;
        assert(adj2[ai][k1] == b);
    }
    // every entry of the new lists is an old entry or one of the two new ones
    assert forall|x: int, i: int| 0 <= x < adj2.len() && 0 <= i < adj2[x].len() implies
        (adj[x].contains(#[trigger] adj2[x][i]) || (x == ai && adj2[x][i] == b) || (x == bi
            && adj2[x][i] == a)) by {
        if x == bi {
            if i < adj1[bi].len() {
                if x == ai {
                    if i < adj[ai].len() {
                        assert(adj[x][i] == adj2[x][i]);
                    }
                } else {
                    assert(adj[x][i] == adj2[x][i]);
                }
            }
        } else if x == ai {
            if i < adj[ai].len() {
                assert(adj[x][i] == adj2[x][i]);
            }
        } else {
            assert(adj[x][i] == adj2[x][i]);
        }
    }
    assert forall|x: int, i: int| 0 <= x < adj2.len() && 0 <= i < adj2[x].len() implies
        #[trigger] adj2[x][i] < adj2.len() by {
        if adj[x].contains(adj2[x][i]) {
            let k = choose|k: int| 0 <= k < adj[x].len() && adj[x][k] == adj2[x][i];
            assert(adj[x][k] < adj.len());
        }
    }
    assert forall|x: int, i: int| 0 <= x < adj2.len() && 0 <= i < adj2[x].len() implies
        adj2[#[trigger] adj2[x][i] as int].contains(x as usize) by {
        let y = adj2[x][i];
        if adj[x].contains(y) {
            let k = choose|k: int| 0 <= k < adj[x].len() && adj[x][k] == y;
            assert(adj[y as int].contains(x as usize));
        }
    }
    assert forall|x: int| 0 <= x < adj2.len() implies (#[trigger] adj2[x]).no_duplicates() by {
        assert(adj[x].no_duplicates());
    }
}

/// Index of the grid cell `(x, z)` when a `side` by `side` grid is laid out
/// row by row starting at node `first`.
pub open spec fn grid_index(first: int, side: int, x: int, z: int) -> int {
    first + x * side + z
}

/// Cell `(x1, z1)` comes before cell `(x, z)` in row-by-row order.
pub open spec fn cell_before(x1: int, z1: int, x: int, z: int) -> bool {
    x1 < x || (x1 == x && z1 < z)
}

/// The list of cell `(x, z)` once every cell before `(cx, cz)` has been
/// linked to its later neighbours: the cell above, left, right and below, in
/// that order, each once the earlier of the two cells has been handled.
#[verifier::opaque]
pub open spec fn grid_row(first: int, side: int, x: int, z: int, cx: int, cz: int) -> Seq<usize> {
    let up = if x > 0 && cell_before(x - 1, z, cx, cz) {
        seq![grid_index(first, side, x - 1, z) as usize]
    } else {
        Seq::<usize>::empty()
    };
    let left = if z > 0 && cell_before(x, z - 1, cx, cz) {
        seq![grid_index(first, side, x, z - 1) as usize]
    } else {
        Seq::<usize>::empty()
    };
    let right = if z + 1 < side && cell_before(x, z, cx, cz) {
        seq![grid_index(first, side, x, z + 1) as usize]
    } else {
        Seq::<usize>::empty()
    };
    let down = if x + 1 < side && cell_before(x, z, cx, cz) {
        seq![grid_index(first, side, x + 1, z) as usize]
    } else {
        Seq::<usize>::empty()
    };
    up + left + right + down
}

/// The 4-connected neighbours of cell `(x, z)` of a finished grid: above,
/// left, right, below, as far as they exist.
pub open spec fn grid_neighbors(first: int, side: int, x: int, z: int) -> Seq<usize> {
    grid_row(first, side, x, z, side, 0)
}

/// Grid cells map to distinct indices inside the grid's range.
pub proof fn lemma_grid_index(side: int, x: int, z: int, x2: int, z2: int)
    requires
        0 <= x < side,
        0 <= z < side,
        0 <= x2 < side,
        0 <= z2 < side,
    ensures
        0 <= x * side + z < side * side,
        x * side + z == x2 * side + z2 ==> x == x2 && z == z2,
        (x + 1) * side == x * side + side,
{
    assert(0 <= x * side + z < side * side) by (nonlinear_arith)
        requires 0 <= x < side, 0 <= z < side;
    assert((x + 1) * side == x * side + side) by (nonlinear_arith);
    if x * side + z == x2 * side + z2 {
        if x < x2 {
            assert(x * side + z < x2 * side + z2) by (nonlinear_arith)
                requires x < x2, 0 <= z < side, 0 <= z2, 0 <= x;
        } else if x2 < x {
            assert(x2 * side + z2 < x * side + z) by (nonlinear_arith)
                requires x2 < x, 0 <= z2 < side, 0 <= z, 0 <= x2;
        }
    }
}

/// Every grid cell's list is the one it has once the cells before `(cx, cz)`
/// have been handled.
pub open spec fn grid_inv(adj: Seq<Seq<usize>>, first: int, side: int, cx: int, cz: int) -> bool {
    forall|x: int, z: int|
        0 <= x < side && 0 <= z < side ==> adj[#[trigger] grid_index(first, side, x, z)]
            == grid_row(first, side, x, z, cx, cz)
}

/// The lists after handling cell `(x, z)`: linking it to its right
/// neighbour, then to the one below.
pub open spec fn grid_link_cell(adj: Seq<Seq<usize>>, first: int, side: int, x: int, z: int) -> Seq<Seq<usize>> {
    let i = grid_index(first, side, x, z);
    let adj1 = if z + 1 < side { spec_add_edge(adj, i as usize, (i + 1) as usize) } else { adj };
    if x + 1 < side { spec_add_edge(adj1, i as usize, (i + side) as usize) } else { adj1 }
}

/// After adding the edge `a`–`b`, a list holds `y` exactly when it held it
/// before or the entry is one of the two new ones.
pub proof fn lemma_add_edge_contains(adj: Seq<Seq<usize>>, a: usize, b: usize)
    requires
        a < adj.len(),
        b < adj.len(),
    ensures
        spec_add_edge(adj, a, b).len() == adj.len(),
        forall|x: int, y: usize| 0 <= x < adj.len() ==> (#[trigger] spec_add_edge(adj, a, b)[x].contains(y) <==> (
        adj[x].contains(y) || (x == a && y == b) || (x == b && y == a))),
{
    let ai = a as int;
    let bi = b as int;
    let adj1 = adj.update(ai, with_neighbor(adj[ai], b));
    let adj2 = adj1.update(bi, with_neighbor(adj1[bi], a));
    assert(adj2 == spec_add_edge(adj, a, b));
    assert forall|s: Seq<usize>, z: usize, y: usize| #[trigger] with_neighbor(s, z).contains(y) <==> (s.contains(y)
        || y == z) by {
        if !s.contains(z) {
            let t = s.push(z);
            if t.contains(y) {
                let k = choose|k: int| 0 <= k < t.len() && t[k] == y;
                if k < s.len() {
                    assert(s[k] == y);
                }
            }
            if s.contains(y) {
                let k = choose|k: int| 0 <= k < s.len() && s[k] == y;
                assert(t[k] == y);
            }
            if y == z {
                assert(t[s.len() as int] == y);
            }
        }
    }
    assert forall|x: int, y: usize| 0 <= x < adj.len() implies (#[trigger] adj2[x].contains(y) <==> (adj[x].contains(y)
        || (x == a && y == b) || (x == b && y == a))) by {
        if x == bi {
            assert(adj2[x] == with_neighbor(adj1[bi], a));
            assert(with_neighbor(adj1[bi], a).contains(y) <==> (adj1[bi].contains(y) || y == a));
            if x == ai {
                assert(with_neighbor(adj[ai], b).contains(y) <==> (adj[ai].contains(y) || y == b));
            }
        } else if x == ai {
            assert(adj2[x] == with_neighbor(adj[ai], b));
            assert(with_neighbor(adj[ai], b).contains(y) <==> (adj[ai].contains(y) || y == b));
        } else {
            assert(adj2[x] == adj[x]);
        }
    }
}

/// How many of the first `k` segments of a tree are kept (not degenerate).
pub open spec fn kept_count(degenerate: Seq<bool>, k: int) -> nat
    decreases k,
{
    if k <= 0 {
        0
    } else {
        kept_count(degenerate, k - 1) + if degenerate[k - 1] { 0nat } else { 1nat }
    }
}

/// The navigation node standing for each of the first `n + 1` turtle nodes
/// of a tree whose base is node `base` (segment `k` runs from turtle node
/// `links[k].0` to turtle node `k + 1`): turtle node 0 is the base; the end
/// of a kept segment is the next new branch node; the end of a degenerate
/// segment is whatever its start stands for, so every turtle node stands
/// for its nearest kept ancestor or the base.
pub open spec fn tree_nav(links: Seq<(usize, usize)>, degenerate: Seq<bool>, base: int, n: nat) -> Seq<int>
    decreases n,
{
    if n == 0 {
        seq![base]
    } else {
        let prev = tree_nav(links, degenerate, base, (n - 1) as nat);
        let k = n - 1;
        prev.push(
            if degenerate[k] {
                prev[links[k].0 as int]
            } else {
                base + 1 + kept_count(degenerate, k)
            },
        )
    }
}

/// The map covers turtle nodes `0..=n`.
pub proof fn lemma_tree_nav_len(links: Seq<(usize, usize)>, degenerate: Seq<bool>, base: int, n: nat)
    ensures
        tree_nav(links, degenerate, base, n).len() == n + 1,
    decreases n,
{
    if n > 0 {
        lemma_tree_nav_len(links, degenerate, base, (n - 1) as nat);
    }
}

/// The branch nodes the first `k` segments of a tree add: one per kept
/// segment, following that segment's entity.
pub open spec fn tree_branches(degenerate: Seq<bool>, entities: Seq<u64>, k: nat) -> Seq<NavNode>
    decreases k,
{
    if k == 0 {
        Seq::empty()
    } else {
        tree_branches(degenerate, entities, (k - 1) as nat) + if degenerate[k - 1] {
            Seq::<NavNode>::empty()
        } else {
            seq![NavNode { kind: NavNodeKind::Branch, entity: Some(entities[k - 1]) }]
        }
    }
}

/// Segment `j` joins navigation nodes `a` and `b`: one stands for its end,
/// the other for its start.
pub open spec fn tree_edge(links: Seq<(usize, usize)>, nav: Seq<int>, j: int, a: int, b: int) -> bool {
    ||| a == nav[j + 1] && b == nav[links[j].0 as int]
    ||| b == nav[j + 1] && a == nav[links[j].0 as int]
}

/// Some kept segment among the first `k` joins `a` and `b`.
pub open spec fn tree_linked(links: Seq<(usize, usize)>, degenerate: Seq<bool>, nav: Seq<int>, k: int, a: int, b: int) -> bool {
    exists|j: int| 0 <= j < k && !degenerate[j] && #[trigger] tree_edge(links, nav, j, a, b)
}

/// An added edge can be walked both ways: afterwards `b` is a neighbour of
/// `a` and `a` is a neighbour of `b`.
pub proof fn law_add_edge_links_both_ways(adj: Seq<Seq<usize>>, a: usize, b: usize)
    requires
        a < adj.len(),
        b < adj.len(),
    ensures
        spec_add_edge(adj, a, b)[a as int].contains(b),
        spec_add_edge(adj, a, b)[b as int].contains(a),
{
    let adj1 = adj.update(a as int, with_neighbor(adj[a as int], b));
    let adj2 = spec_add_edge(adj, a, b);
    assert(adj1[a as int].contains(b)) by {
        if !adj[a as int].contains(b) {
            assert(adj1[a as int][adj[a as int].len() as int] == b);
        }
    }
    assert(adj2[b as int].contains(a)) by {
        if !adj1[b as int].contains(a) {
            assert(adj2[b as int][adj1[b as int].len() as int] == a);
        }
    }
    if a != b {
        assert(adj2[a as int] == adj1[a as int]);
    }
}

/// Adding the same edge twice changes nothing the second time.
pub proof fn law_add_edge_idempotent(adj: Seq<Seq<usize>>, a: usize, b: usize)
    requires
        a < adj.len(),
        b < adj.len(),
    ensures
        spec_add_edge(spec_add_edge(adj, a, b), a, b) == spec_add_edge(adj, a, b),
{
    let adj2 = spec_add_edge(adj, a, b);
    law_add_edge_links_both_ways(adj, a, b);
    let adj3 = adj2.update(a as int, with_neighbor(adj2[a as int], b));
    assert(adj3 =~= adj2);
    assert(adj3.update(b as int, with_neighbor(adj3[b as int], a)) =~= adj2);
}


/// A listed step of the weighted lists is an edge of the graph.
pub proof fn lemma_weighted_step(adj: Seq<Seq<usize>>, costs: Seq<Seq<u32>>, x: usize, y: usize)
    requires
        costs_match(adj, costs),
        x < adj.len(),
    ensures
        has_step(weighted(adj, costs), x, y) <==> adj[x as int].contains(y),
{
    let w = weighted(adj, costs);
    if has_step(w, x, y) {
        let k = choose|k: int| 0 <= k < w[x as int].len() && (#[trigger] w[x as int][k]).0 == y;
        assert(adj[x as int][k] == y);
    }
    if adj[x as int].contains(y) {
        let k = choose|k: int| 0 <= k < adj[x as int].len() && adj[x as int][k] == y;
        assert(w[x as int][k].0 == y);
    }
}

/// The graph is undirected: every path can be walked back, so whatever a
/// squirrel reaches it can return from.
pub proof fn law_paths_reversible(g: &NavGraph, costs: Seq<Seq<u32>>, p: Seq<usize>, a: usize, b: usize)
    requires
        g.wf(),
        costs_match(g.adj(), costs),
        walk_between(weighted(g.adj(), costs), p, a, b),
    ensures
        walk_between(weighted(g.adj(), costs), p.reverse(), b, a),
{
    let adj = g.adj();
    let w = weighted(adj, costs);
    let q = p.reverse();
    assert forall|i: int| 0 <= i < q.len() - 1 implies has_step(w, #[trigger] q[i], q[i + 1]) by {
        let j = p.len() - 2 - i;
        assert(q[i] == p[j + 1]);
        assert(q[i + 1] == p[j]);
        assert(has_step(w, p[j], p[j + 1]));
        lemma_weighted_step(adj, costs, p[j], p[j + 1]);
        let k = choose|k: int| 0 <= k < adj[p[j] as int].len() && adj[p[j] as int][k] == p[j + 1];
        assert(adj[adj[p[j] as int][k] as int].contains(p[j]));
        lemma_weighted_step(adj, costs, p[j + 1], p[j]);
    }
    assert forall|i: int| 0 <= i < q.len() implies (#[trigger] q[i]) < w.len() by {
        assert(q[i] == p[p.len() - 1 - i]);
    }
}

/// Rows `add_edge` does not name are left alone; named rows gain the other end.
pub proof fn lemma_add_edge_rows(adj: Seq<Seq<usize>>, a: usize, b: usize)
    requires
        a < adj.len(),
        b < adj.len(),
        a != b,
    ensures
        spec_add_edge(adj, a, b).len() == adj.len(),
        spec_add_edge(adj, a, b)[a as int] == with_neighbor(adj[a as int], b),
        spec_add_edge(adj, a, b)[b as int] == with_neighbor(adj[b as int], a),
        forall|y: int| 0 <= y < adj.len() && y != a && y != b ==> #[trigger] spec_add_edge(adj, a, b)[y] == adj[y],
{
}

/// Moving one cell forward changes only the lists of that cell and of its
/// right and lower neighbours.
pub proof fn lemma_grid_row_unchanged(first: int, side: int, x2: int, z2: int, x: int, z: int)
    requires
        0 <= x2 < side,
        0 <= z2 < side,
        !(x2 == x && z2 == z),
        !(x2 == x && z2 == z + 1),
        !(x2 == x + 1 && z2 == z),
    ensures
        grid_row(first, side, x2, z2, x, z + 1) == grid_row(first, side, x2, z2, x, z),
{
    reveal(grid_row);
    assert(grid_row(first, side, x2, z2, x, z + 1) =~= grid_row(first, side, x2, z2, x, z));
}

/// The lists of the handled cell and of its right and lower neighbours.
pub proof fn lemma_grid_rows_changed(first: int, side: int, x: int, z: int)
    requires
        0 <= x < side,
        0 <= z < side,
        0 <= first,
        first + side * side <= usize::MAX,
    ensures
        grid_row(first, side, x, z, x, z + 1) == ({
            let r0 = grid_row(first, side, x, z, x, z);
            let r1 = if z + 1 < side { r0.push((grid_index(first, side, x, z) + 1) as usize) } else { r0 };
            if x + 1 < side { r1.push((grid_index(first, side, x, z) + side) as usize) } else { r1 }
        }),
        z + 1 < side ==> grid_row(first, side, x, z + 1, x, z + 1)
            == grid_row(first, side, x, z + 1, x, z).push(grid_index(first, side, x, z) as usize),
        x + 1 < side ==> grid_row(first, side, x + 1, z, x, z + 1)
            == grid_row(first, side, x + 1, z, x, z).push(grid_index(first, side, x, z) as usize),
        x + 1 < side ==> grid_row(first, side, x + 1, z, x, z) == Seq::<usize>::empty(),
        z + 1 < side ==> grid_row(first, side, x, z + 1, x, z) == (if x > 0 {
            seq![grid_index(first, side, x - 1, z + 1) as usize]
        } else {
            Seq::<usize>::empty()
        }),
        grid_row(first, side, x, z, x, z) == (if x > 0 {
            seq![grid_index(first, side, x - 1, z) as usize]
        } else {
            Seq::<usize>::empty()
        }) + (if z > 0 {
            seq![grid_index(first, side, x, z - 1) as usize]
        } else {
            Seq::<usize>::empty()
        }),
{
    reveal(grid_row);
    lemma_grid_index(side, x, z, x, z);
    let r0 = grid_row(first, side, x, z, x, z);
    let r1 = if z + 1 < side { r0.push((grid_index(first, side, x, z) + 1) as usize) } else { r0 };
    let r2 = if x + 1 < side { r1.push((grid_index(first, side, x, z) + side) as usize) } else { r1 };
    if x + 1 < side {
        lemma_grid_index(side, x + 1, z, x, z);
    }
    assert(grid_row(first, side, x, z, x, z + 1) =~= r2);
    assert(z + 1 < side ==> grid_row(first, side, x, z + 1, x, z + 1)
            =~= grid_row(first, side, x, z + 1, x, z).push(grid_index(first, side, x, z) as usize));
    assert(x + 1 < side ==> grid_row(first, side, x + 1, z, x, z + 1)
            =~= grid_row(first, side, x + 1, z, x, z).push(grid_index(first, side, x, z) as usize));
    assert(x + 1 < side ==> grid_row(first, side, x + 1, z, x, z) =~= Seq::<usize>::empty());
    assert(z + 1 < side ==> grid_row(first, side, x, z + 1, x, z) =~= (if x > 0 {
            seq![grid_index(first, side, x - 1, z + 1) as usize]
        } else {
            Seq::<usize>::empty()
        }));
    assert(grid_row(first, side, x, z, x, z) =~= (if x > 0 {
            seq![grid_index(first, side, x - 1, z) as usize]
        } else {
            Seq::<usize>::empty()
        }) + (if z > 0 {
            seq![grid_index(first, side, x, z - 1) as usize]
        } else {
            Seq::<usize>::empty()
        }));
}

/// Handling one cell moves the grid lists one cell forward.
#[verifier::rlimit(40)]
pub proof fn lemma_grid_step(adj: Seq<Seq<usize>>, first: int, side: int, x: int, z: int)
    requires
        grid_inv(adj, first, side, x, z),
        0 <= x < side,
        0 <= z < side,
        0 <= first,
        first + side * side <= adj.len(),
        first + side * side <= usize::MAX,
    ensures
        grid_inv(grid_link_cell(adj, first, side, x, z), first, side, x, z + 1),
        grid_link_cell(adj, first, side, x, z).len() == adj.len(),
        forall|y: int| 0 <= y < first ==> grid_link_cell(adj, first, side, x, z)[y] == adj[y],
{
    let i = grid_index(first, side, x, z);
    lemma_grid_index(side, x, z, x, z);
    lemma_grid_rows_changed(first, side, x, z);
    let adj1 = if z + 1 < side { spec_add_edge(adj, i as usize, (i + 1) as usize) } else { adj };
    let b = grid_link_cell(adj, first, side, x, z);
    assert(adj[i] == grid_row(first, side, x, z, x, z));
    if x > 0 {
        lemma_grid_index(side, x - 1, z, x, z);
    }
    if z > 0 {
        lemma_grid_index(side, x, z - 1, x, z);
    }
    if z + 1 < side {
        lemma_grid_index(side, x, z + 1, x, z);
        assert(adj[grid_index(first, side, x, z + 1)] == grid_row(first, side, x, z + 1, x, z));
        if x > 0 {
            lemma_grid_index(side, x - 1, z + 1, x, z);
        }
        assert(!adj[i].contains((i + 1) as usize));
        assert(!adj[i + 1].contains(i as usize));
        lemma_add_edge_rows(adj, i as usize, (i + 1) as usize);
    }
    if x + 1 < side {
        lemma_grid_index(side, x + 1, z, x, z);
        assert(adj[grid_index(first, side, x + 1, z)] == grid_row(first, side, x + 1, z, x, z));
        assert(grid_index(first, side, x + 1, z) == i + side);
        if z + 1 < side {
            lemma_grid_index(side, x + 1, z, x, z + 1);
        }
        assert(adj1[i + side] == adj[i + side]);
        assert(!adj1[i].contains((i + side) as usize));
        assert(!adj1[i + side].contains(i as usize));
        lemma_add_edge_rows(adj1, i as usize, (i + side) as usize);
    }
    assert(b[i] == grid_row(first, side, x, z, x, z + 1));
    assert forall|x2: int, z2: int| 0 <= x2 < side && 0 <= z2 < side implies b[
        #[trigger] grid_index(first, side, x2, z2)] == grid_row(first, side, x2, z2, x, z + 1) by {
        let g = grid_index(first, side, x2, z2);
        lemma_grid_index(side, x2, z2, x, z);
        if x2 == x && z2 == z {
        } else if x2 == x && z2 == z + 1 {
            if x + 1 < side {
                lemma_grid_index(side, x + 1, z, x2, z2);
            }
        } else if x2 == x + 1 && z2 == z {
            if z + 1 < side {
                lemma_grid_index(side, x, z + 1, x2, z2);
            }
        } else {
            if z + 1 < side {
                lemma_grid_index(side, x2, z2, x, z + 1);
            }
            if x + 1 < side {
                lemma_grid_index(side, x2, z2, x + 1, z);
            }
            lemma_grid_row_unchanged(first, side, x2, z2, x, z);
        }
    }
}

/// Finishing a row of cells is starting the next one.
pub proof fn lemma_grid_next_row(adj: Seq<Seq<usize>>, first: int, side: int, x: int)
    requires
        grid_inv(adj, first, side, x, side),
    ensures
        grid_inv(adj, first, side, x + 1, 0),
{
    reveal(grid_row);
    assert forall|x2: int, z2: int| 0 <= x2 < side && 0 <= z2 < side implies adj[
        #[trigger] grid_index(first, side, x2, z2)] == grid_row(first, side, x2, z2, x + 1, 0) by {
        assert(grid_row(first, side, x2, z2, x + 1, 0) =~= grid_row(first, side, x2, z2, x, side));
    }
}

/// Before any cell is handled every grid list is empty.
pub proof fn lemma_grid_start(adj: Seq<Seq<usize>>, first: int, side: int)
    requires
        forall|x: int, z: int| 0 <= x < side && 0 <= z < side ==> adj[#[trigger] grid_index(first, side, x, z)]
            == Seq::<usize>::empty(),
    ensures
        grid_inv(adj, first, side, 0, 0),
{
    reveal(grid_row);
    assert forall|x2: int, z2: int| 0 <= x2 < side && 0 <= z2 < side implies adj[
        #[trigger] grid_index(first, side, x2, z2)] == grid_row(first, side, x2, z2, 0, 0) by {
        assert(grid_row(first, side, x2, z2, 0, 0) =~= Seq::<usize>::empty());
    }
}

/// `r` lists, in increasing order, exactly the indices below `n` that satisfy `p`.
pub open spec fn lists_exactly(r: Seq<usize>, n: int, p: spec_fn(int) -> bool) -> bool {
    &&& forall|k: int| 0 <= k < r.len() ==> (#[trigger] r[k]) < n && p(r[k] as int)
    &&& forall|a: int, b: int| 0 <= a < b < r.len() ==> #[trigger] r[a] < #[trigger] r[b]
    &&& forall|i: int| 0 <= i < n && #[trigger] p(i) ==> r.contains(i as usize)
}

/// All keys count.
pub open spec fn all_true(n: nat) -> Seq<bool> {
    Seq::new(n, |k: int| true)
}

/// The place of the first smallest key.
pub open spec fn first_min_index(keys: Seq<u32>) -> int {
    choose|i: int| is_first_min_among(keys, all_true(keys.len()), i)
}

/// At most one place is the first smallest key.
pub proof fn lemma_first_min_unique(keys: Seq<u32>, e: Seq<bool>, i: int, j: int)
    requires
        e.len() == keys.len(),
        is_first_min_among(keys, e, i),
        is_first_min_among(keys, e, j),
    ensures
        i == j,
{
    if i < j {
        assert(keys[j] < keys[i]);
    } else if j < i {
        assert(keys[i] < keys[j]);
    }
}

/// The ground node each tree base is linked to: the first ground node
/// (counting from `first`) with the smallest distance key in its row.
pub open spec fn base_targets(first: int, keys: Seq<Seq<u32>>) -> Seq<usize> {
    Seq::new(keys.len(), |t: int| (first + first_min_index(keys[t])) as usize)
}

/// The lists after linking `bases[t]` to `targets[t]` for each `t < count`, in order.
pub open spec fn link_all(adj: Seq<Seq<usize>>, bases: Seq<usize>, targets: Seq<usize>, count: int) -> Seq<Seq<usize>>
    decreases count,
{
    if count <= 0 {
        adj
    } else {
        spec_add_edge(link_all(adj, bases, targets, count - 1), bases[count - 1], targets[count - 1])
    }
}

/// The key rows as sequences.
pub open spec fn key_rows(keys: Seq<Vec<u32>>) -> Seq<Seq<u32>> {
    keys.map_values(|r: Vec<u32>| r@)
}

/// Lists after laying a grid of ground nodes onto `adj` from node `first`.
pub open spec fn is_grid_over(adj: Seq<Seq<usize>>, g: Seq<Seq<usize>>, first: int, side: int) -> bool {
    &&& g.len() == first + side * side
    &&& adj.len() == first
    &&& forall|y: int| 0 <= y < first ==> #[trigger] g[y] == adj[y]
    &&& forall|x: int, z: int|
        0 <= x < side && 0 <= z < side ==> g[#[trigger] grid_index(first, side, x, z)]
            == grid_neighbors(first, side, x, z)
}

/// Pairs each listed neighbour with the cost at the same place in `costs`.
pub open spec fn weighted(adj: Seq<Seq<usize>>, costs: Seq<Seq<u32>>) -> Seq<Seq<(usize, u32)>> {
    Seq::new(adj.len(), |x: int| Seq::new(adj[x].len(), |k: int| (adj[x][k], costs[x][k])))
}

/// The cost rows as sequences.
pub open spec fn cost_rows(costs: Seq<Vec<u32>>) -> Seq<Seq<u32>> {
    costs.map_values(|r: Vec<u32>| r@)
}

/// One cost per adjacency entry.
pub open spec fn costs_match(adj: Seq<Seq<usize>>, costs: Seq<Seq<u32>>) -> bool {
    &&& costs.len() == adj.len()
    &&& forall|x: int| 0 <= x < adj.len() ==> (#[trigger] costs[x]).len() == adj[x].len()
}

/// Whether `v` holds `x`.
pub fn contains_index(v: &Vec<usize>, x: usize) -> (r: bool)
    ensures
        r == v@.contains(x),
{
    let mut i: usize = 0;
    while i < v.len()
        invariant
            i <= v@.len(),
            forall|j: int| 0 <= j < i ==> v@[j] != x,
        decreases v@.len() - i,
    {
        if v[i] == x {
            assert(v@[i as int] == x);
            return true;
        }
        i = i + 1;
    }
    false
}

/// How many nodes have the given kind.
pub open spec fn kind_count(nodes: Seq<NavNode>, kind: NavNodeKind) -> nat
    decreases nodes.len(),
{
    if nodes.len() == 0 {
        0
    } else {
        kind_count(nodes.drop_last(), kind) + if nodes.last().kind == kind { 1nat } else { 0nat }
    }
}

/// Listing exactly the nodes of a kind takes as many entries as there are such nodes.
pub proof fn lemma_lists_exactly_len(r: Seq<usize>, nodes: Seq<NavNode>, kind: NavNodeKind)
    requires
        lists_exactly(r, nodes.len() as int, |i: int| nodes[i].kind == kind),
        nodes.len() <= usize::MAX,
    ensures
        r.len() == kind_count(nodes, kind),
    decreases nodes.len(),
{
    let n = nodes.len() as int;
    let pn = |i: int| nodes[i].kind == kind;
    if n == 0 {
        if r.len() > 0 {
            assert(r[0] < 0);
        }
    } else {
        let m = n - 1;
        let prev = nodes.drop_last();
        let pp = |i: int| prev[i].kind == kind;
        if nodes[m].kind == kind {
            assert(pn(m));
            assert(r.contains(m as usize));
            let k = choose|k: int| 0 <= k < r.len() && r[k] == m as usize;
            assert(r[r.len() - 1] == m) by {
                assert(r[r.len() - 1] < n);
                if k < r.len() - 1 {
                    assert(r[k] < r[r.len() - 1]);
                }
            }
            let rd = r.drop_last();
            assert forall|i: int| 0 <= i < m && #[trigger] pp(i) implies rd.contains(
                i as usize,
            ) by {
                assert(pn(i));
                let j = choose|j: int| 0 <= j < r.len() && r[j] == i as usize;
                assert(j != r.len() - 1);
                assert(rd[j] == i as usize);
            }
            assert forall|j: int| 0 <= j < rd.len() implies (#[trigger] rd[j]) < m && pp(rd[j] as int) by {
                assert(r[j] < r[r.len() - 1]);
                assert(pn(r[j] as int));
            }
            lemma_lists_exactly_len(rd, prev, kind);
        } else {
            assert forall|i: int| 0 <= i < m && #[trigger] pp(i) implies r.contains(
                i as usize,
            ) by {
                assert(pn(i));
            }
            assert forall|j: int| 0 <= j < r.len() implies (#[trigger] r[j]) < m && pp(r[j] as int) by {
                assert(pn(r[j] as int));
            }
            lemma_lists_exactly_len(r, prev, kind);
        }
    }
}

impl NavGraph {
    /// The adjacency lists as sequences.
    pub open spec fn adj(&self) -> Seq<Seq<usize>> {
        Seq::new(self.edges@.len(), |i: int| self.edges@[i]@)
    }

    /// One adjacency list per node, in range, without repeats, and symmetric.
    pub open spec fn wf(&self) -> bool {
        &&& self.edges@.len() == self.nodes@.len()
        &&& adj_wf(self.adj())
    }

    pub fn new() -> (g: Self)
        ensures
            g.wf(),
            g.nodes@ == Seq::<NavNode>::empty(),
            g.adj() == Seq::<Seq<usize>>::empty(),
    {
        let g = NavGraph { nodes: Vec::new(), edges: Vec::new() };
        assert(g.adj() =~= Seq::<Seq<usize>>::empty());
        g
    }

    fn push_node(&mut self, node: NavNode) -> (idx: usize)
        requires
            old(self).wf(),
            old(self).nodes@.len() < usize::MAX,
        ensures
            final(self).wf(),
            idx == old(self).nodes@.len(),
            final(self).nodes@ == old(self).nodes@.push(node),
            final(self).adj() == old(self).adj().push(Seq::<usize>::empty()),
    {
        let idx = self.nodes.len();
        self.nodes.push(node);
        self.edges.push(Vec::new());
        assert(self.adj() =~= old(self).adj().push(Seq::<usize>::empty()));
        idx
    }

    /// Add a node and return its index.
    pub fn add_node(&mut self, kind: NavNodeKind) -> (idx: usize)
        requires
            old(self).wf(),
            old(self).nodes@.len() < usize::MAX,
        ensures
            final(self).wf(),
            idx == old(self).nodes@.len(),
            final(self).nodes@ == old(self).nodes@.push(NavNode { kind, entity: None }),
            final(self).adj() == old(self).adj().push(Seq::<usize>::empty()),
    {
        self.push_node(NavNode { kind, entity: None })
    }

    /// Add a node that follows a live entity (a wind-bent branch tip).
    pub fn add_node_with_entity(&mut self, kind: NavNodeKind, entity: u64) -> (idx: usize)
        requires
            old(self).wf(),
            old(self).nodes@.len() < usize::MAX,
        ensures
            final(self).wf(),
            idx == old(self).nodes@.len(),
            final(self).nodes@ == old(self).nodes@.push(NavNode { kind, entity: Some(entity) }),
            final(self).adj() == old(self).adj().push(Seq::<usize>::empty()),
    {
        self.push_node(NavNode { kind, entity: Some(entity) })
    }

    /// Whether `b` is already a neighbour of `a`.
    pub fn is_neighbor(&self, a: usize, b: usize) -> (r: bool)
        requires
            a < self.edges@.len(),
        ensures
            r == self.adj()[a as int].contains(b),
    {
        let row = &self.edges[a];
        let mut i: usize = 0;
        while i < row.len()
            invariant
                row@ == self.adj()[a as int],
                i <= row.len(),
                forall|j: int| 0 <= j < i ==> row@[j] != b,
            decreases row.len() - i,
        {
            if row[i] == b {
                assert(row@[i as int] == b);
                return true;
            }
            i = i + 1;
        }
        false
    }


    /// The successor lists with their costs.
    fn weighted_lists(&self, edge_costs: &Vec<Vec<u32>>) -> (w: Vec<Vec<(usize, u32)>>)
        requires
            self.wf(),
            costs_match(self.adj(), cost_rows(edge_costs@)),
        ensures
            w@.map_values(|row: Vec<(usize, u32)>| row@) == weighted(self.adj(), cost_rows(edge_costs@)),
    {
        let ghost target = weighted(self.adj(), cost_rows(edge_costs@));
        let mut w: Vec<Vec<(usize, u32)>> = Vec::new();
        let n = self.edges.len();
        let mut a: usize = 0;
        while a < n
            invariant
                n == self.edges@.len(),
                self.wf(),
                costs_match(self.adj(), cost_rows(edge_costs@)),
                target == weighted(self.adj(), cost_rows(edge_costs@)),
                a <= n,
                w@.len() == a,
                forall|x: int| 0 <= x < a ==> (#[trigger] w@[x])@ == target[x],
            decreases n - a,
        {
            let row = &self.edges[a];
            let crow = &edge_costs[a];
            assert(row@ == self.adj()[a as int]);
            assert(crow@ == cost_rows(edge_costs@)[a as int]);
            let mut out: Vec<(usize, u32)> = Vec::new();
            let mut k: usize = 0;
            while k < row.len()
                invariant
                    row@ == self.adj()[a as int],
                    crow@ == cost_rows(edge_costs@)[a as int],
                    crow@.len() == row@.len(),
                    target == weighted(self.adj(), cost_rows(edge_costs@)),
                    a < self.adj().len(),
                    k <= row.len(),
                    out@ == target[a as int].subrange(0, k as int),
                decreases row.len() - k,
            {
                out.push((row[k], crow[k]));
                k = k + 1;
                assert(out@ =~= target[a as int].subrange(0, k as int));
            }
            assert(out@ =~= target[a as int]);
            w.push(out);
            a = a + 1;
        }
        assert(w@.map_values(|row: Vec<(usize, u32)>| row@) =~= target);
        w
    }



    /// Lay out a `side` by `side` grid of ground nodes row by row and link
    /// each node to its 4-connected neighbours; returns the first new index.
    pub fn add_ground_grid(&mut self, side: usize) -> (first: usize)
        requires
            old(self).wf(),
            old(self).nodes@.len() + side * side < usize::MAX,
        ensures
            final(self).wf(),
            first == old(self).nodes@.len(),
            final(self).nodes@ == old(self).nodes@ + Seq::new(
                (side * side) as nat,
                |k: int| NavNode { kind: NavNodeKind::Ground, entity: None },
            ),
            final(self).adj().len() == first + side * side,
            forall|y: int| 0 <= y < first ==> #[trigger] final(self).adj()[y] == old(self).adj()[y],
            forall|x: int, z: int|
                0 <= x < side && 0 <= z < side ==> final(self).adj()[#[trigger] grid_index(
                    first as int,
                    side as int,
                    x,
                    z,
                )] == grid_neighbors(first as int, side as int, x, z),
    {
        let first = self.nodes.len();
        let total = side * side;
        let ghost adj0 = self.adj();
        let ghost ground = Seq::new(
            (side * side) as nat,
            |k: int| NavNode { kind: NavNodeKind::Ground, entity: None },
        );
        let mut k: usize = 0;
        while k < total
            invariant
                self.wf(),
                first == old(self).nodes@.len(),
                total == side * side,
                first + total < usize::MAX,
                k <= total,
                adj0 == old(self).adj(),
                adj0.len() == first,
                ground == Seq::new(total as nat, |k: int| NavNode { kind: NavNodeKind::Ground, entity: None }),
                self.nodes@ == old(self).nodes@ + ground.subrange(0, k as int),
                self.adj().len() == first + k,
                forall|y: int| 0 <= y < first ==> #[trigger] self.adj()[y] == adj0[y] && y < adj0.len(),
                forall|y: int| first <= y < first + k ==> #[trigger] self.adj()[y] == Seq::<usize>::empty(),
            decreases total - k,
        {
            self.add_node(NavNodeKind::Ground);
            assert(ground[k as int] == NavNode { kind: NavNodeKind::Ground, entity: None });
            assert(ground.subrange(0, k + 1) =~= ground.subrange(0, k as int).push(ground[k as int]));
            k = k + 1;
            assert(self.nodes@ =~= old(self).nodes@ + ground.subrange(0, k as int));
        }
        assert(ground.subrange(0, total as int) =~= ground);
        proof {
            assert forall|x: int, z: int| 0 <= x < side && 0 <= z < side implies self.adj()[
                #[trigger] grid_index(first as int, side as int, x, z)] == Seq::<usize>::empty() by {
                lemma_grid_index(side as int, x, z, x, z);
            }
            lemma_grid_start(self.adj(), first as int, side as int);
        }
        let mut x: usize = 0;
        while x < side
            invariant
                self.wf(),
                first == old(self).nodes@.len(),
                total == side * side,
                first + total < usize::MAX,
                adj0 == old(self).adj(),
                adj0.len() == first,
                self.nodes@ == old(self).nodes@ + ground,
                self.adj().len() == first + total,
                x <= side,
                forall|y: int| 0 <= y < first ==> #[trigger] self.adj()[y] == adj0[y] && y < adj0.len(),
                grid_inv(self.adj(), first as int, side as int, x as int, 0),
            decreases side - x,
        {
            let mut z: usize = 0;
            proof { lemma_grid_index(side as int, x as int, 0, x as int, 0); }
            let mut i: usize = first + x * side;
            while z < side
                invariant
                    self.wf(),
                    first == old(self).nodes@.len(),
                    total == side * side,
                    first + total < usize::MAX,
                    adj0 == old(self).adj(),
                    adj0.len() == first,
                adj0.len() == first,
                    self.nodes@ == old(self).nodes@ + ground,
                    self.adj().len() == first + total,
                    x < side,
                    z <= side,
                    i == grid_index(first as int, side as int, x as int, z as int),
                    forall|y: int| 0 <= y < first ==> #[trigger] self.adj()[y] == adj0[y] && y < adj0.len(),
                    grid_inv(self.adj(), first as int, side as int, x as int, z as int),
                decreases side - z,
            {
                let ghost before = self.adj();
                proof {
                    lemma_grid_index(side as int, x as int, z as int, x as int, z as int);
                    lemma_grid_step(before, first as int, side as int, x as int, z as int);
                    if x + 1 < side {
                        lemma_grid_index(side as int, x as int + 1, z as int, x as int, z as int);
                    }
                    if z + 1 < side {
                        lemma_grid_index(side as int, x as int, z as int + 1, x as int, z as int);
                    }
                }
                if z + 1 < side {
                    self.add_edge(i, i + 1);
                }
                if x + 1 < side {
                    self.add_edge(i, i + side);
                }
                assert(self.adj() == grid_link_cell(before, first as int, side as int, x as int, z as int));
                z = z + 1;
                i = i + 1;
            }
            proof { lemma_grid_next_row(self.adj(), first as int, side as int, x as int); }
            x = x + 1;
        }
        first
    }


    /// Indices of the nodes of the given kind, in increasing order.
    pub fn nodes_of_kind(&self, kind: NavNodeKind) -> (r: Vec<usize>)
        ensures
            lists_exactly(r@, self.nodes@.len() as int, |i: int| self.nodes@[i].kind == kind),
    {
        let mut r: Vec<usize> = Vec::new();
        let mut i: usize = 0;
        while i < self.nodes.len()
            invariant
                i <= self.nodes@.len(),
                forall|k: int| 0 <= k < r@.len() ==> (#[trigger] r@[k]) < i && self.nodes@[r@[k] as int].kind == kind,
                forall|a: int, b: int| 0 <= a < b < r@.len() ==> #[trigger] r@[a] < #[trigger] r@[b],
                forall|j: int| 0 <= j < i && #[trigger] self.nodes@[j].kind == kind ==> r@.contains(j as usize),
            decreases self.nodes@.len() - i,
        {
            if self.nodes[i].kind == kind {
                let ghost old_r = r@;
                r.push(i);
                assert forall|j: int| 0 <= j < i + 1 && #[trigger] self.nodes@[j].kind == kind implies r@.contains(j as usize) by {
                    if j < i {
                        let k = choose|k: int| 0 <= k < old_r.len() && old_r[k] == j as usize;
                        assert(r@[k] == j as usize);
                    } else {
                        assert(r@[old_r.len() as int] == j as usize);
                    }
                }
            }
            i = i + 1;
        }
        r
    }

    /// Branch nodes that no listed nest occupies, in increasing order.
    pub fn free_branch_nodes(&self, occupied: &Vec<usize>) -> (r: Vec<usize>)
        ensures
            lists_exactly(
                r@,
                self.nodes@.len() as int,
                |i: int| self.nodes@[i].kind == NavNodeKind::Branch && !occupied@.contains(i as usize),
            ),
    {
        let mut r: Vec<usize> = Vec::new();
        let mut i: usize = 0;
        while i < self.nodes.len()
            invariant
                i <= self.nodes@.len(),
                forall|k: int| 0 <= k < r@.len() ==> (#[trigger] r@[k]) < i && self.nodes@[r@[k] as int].kind
                    == NavNodeKind::Branch && !occupied@.contains(r@[k]),
                forall|a: int, b: int| 0 <= a < b < r@.len() ==> #[trigger] r@[a] < #[trigger] r@[b],
                forall|j: int| 0 <= j < i && #[trigger] self.nodes@[j].kind == NavNodeKind::Branch
                    && !occupied@.contains(j as usize) ==> r@.contains(j as usize),
            decreases self.nodes@.len() - i,
        {
            if self.nodes[i].kind == NavNodeKind::Branch && !contains_index(occupied, i) {
                let ghost old_r = r@;
                r.push(i);
                assert forall|j: int| 0 <= j < i + 1 && #[trigger] self.nodes@[j].kind == NavNodeKind::Branch
                    && !occupied@.contains(j as usize) implies r@.contains(j as usize) by {
                    if j < i {
                        let k = choose|k: int| 0 <= k < old_r.len() && old_r[k] == j as usize;
                        assert(r@[k] == j as usize);
                    } else {
                        assert(r@[old_r.len() as int] == j as usize);
                    }
                }
            }
            i = i + 1;
        }
        r
    }

    /// The first node with the smallest distance key, where `distance_keys[i]`
    /// orders node `i` by its distance to the query point.
    pub fn nearest_node(&self, distance_keys: &Vec<u32>) -> (r: Option<usize>)
        requires
            distance_keys@.len() == self.nodes@.len(),
        ensures
            match r {
                None => self.nodes@.len() == 0,
                Some(i) => is_first_min_among(distance_keys@, all_true(distance_keys@.len()), i as int),
            },
    {
        let r = first_min(distance_keys);
        proof {
            if r.is_some() {
                assert(Seq::new(distance_keys@.len(), |k: int| true) =~= all_true(distance_keys@.len()));
            }
        }
        r
    }

    /// Link `bases[t]` to node `first` plus the first smallest key of row `t`.
    fn link_bases(&mut self, bases: &Vec<usize>, first: usize, keys: &Vec<Vec<u32>>)
        requires
            old(self).wf(),
            bases@.len() == keys@.len(),
            forall|t: int| 0 <= t < bases@.len() ==> (#[trigger] bases@[t]) < old(self).nodes@.len(),
            forall|t: int| 0 <= t < keys@.len() ==> (#[trigger] keys@[t])@.len() > 0
                && first + keys@[t]@.len() <= old(self).nodes@.len(),
        ensures
            final(self).wf(),
            final(self).nodes@ == old(self).nodes@,
            final(self).adj() == link_all(old(self).adj(), bases@, base_targets(first as int, key_rows(keys@)), bases@.len() as int),
    {
        let ghost targets = base_targets(first as int, key_rows(keys@));
        let mut t: usize = 0;
        while t < bases.len()
            invariant
                self.wf(),
                self.nodes@ == old(self).nodes@,
                bases@.len() == keys@.len(),
                targets == base_targets(first as int, key_rows(keys@)),
                forall|t: int| 0 <= t < bases@.len() ==> (#[trigger] bases@[t]) < old(self).nodes@.len(),
                forall|t: int| 0 <= t < keys@.len() ==> (#[trigger] keys@[t])@.len() > 0
                    && first + keys@[t]@.len() <= old(self).nodes@.len(),
                t <= bases@.len(),
                self.adj() == link_all(old(self).adj(), bases@, targets, t as int),
            decreases bases@.len() - t,
        {
            let row = &keys[t];
            let nlen = self.nodes.len();
            assert(row@ == keys@[t as int]@);
            assert(first + row@.len() <= nlen);
            let m = first_min(row);
            match m {
                Some(k) => {
                    proof {
                        let kr = key_rows(keys@)[t as int];
                        assert(kr == row@);
                        assert(Seq::new(row@.len(), |k: int| true) =~= all_true(row@.len()));
                        let c = first_min_index(kr);
                        assert(is_first_min_among(kr, all_true(kr.len()), c));
                        lemma_first_min_unique(kr, all_true(kr.len()), k as int, c);
                        assert(targets[t as int] == (first + k) as usize);
                    }
                    self.add_edge(bases[t], first + k);
                },
                None => {
                    assert(false);
                },
            }
            t = t + 1;
        }
    }

    /// Build the sparse grid of ground nodes (`side` by `side`, 4-connected)
    /// and link every tree base to its nearest ground node, where
    /// `base_keys[t][k]` orders grid cell `k` (row by row) by its distance to
    /// the `t`-th tree base.
    pub fn build_ground_nodes(&mut self, side: usize, base_keys: &Vec<Vec<u32>>)
        requires
            old(self).wf(),
            old(self).nodes@.len() + side * side < usize::MAX,
            side > 0,
            base_keys@.len() == kind_count(old(self).nodes@, NavNodeKind::TreeBase),
            forall|t: int| 0 <= t < base_keys@.len() ==> (#[trigger] base_keys@[t])@.len() == side * side,
        ensures
            final(self).wf(),
            final(self).nodes@ == old(self).nodes@ + Seq::new(
                (side * side) as nat,
                |k: int| NavNode { kind: NavNodeKind::Ground, entity: None },
            ),
            exists|g: Seq<Seq<usize>>, bases: Seq<usize>| {
                &&& is_grid_over(old(self).adj(), g, old(self).nodes@.len() as int, side as int)
                &&& lists_exactly(bases, old(self).nodes@.len() as int, |i: int| old(self).nodes@[i].kind == NavNodeKind::TreeBase)
                &&& final(self).adj() == link_all(g, bases, base_targets(old(self).nodes@.len() as int, key_rows(base_keys@)), bases.len() as int)
            },
    {
        let bases = self.nodes_of_kind(NavNodeKind::TreeBase);
        proof {
            lemma_lists_exactly_len(bases@, self.nodes@, NavNodeKind::TreeBase);
        }
        let first = self.add_ground_grid(side);
        let ghost g = self.adj();
        assert(side * side > 0) by (nonlinear_arith)
            requires side > 0;
        proof {
            assert forall|t: int| 0 <= t < bases@.len() implies (#[trigger] bases@[t]) < self.nodes@.len() by {}
        }
        self.link_bases(&bases, first, base_keys);
        proof {
            assert(is_grid_over(old(self).adj(), g, first as int, side as int));
        }
    }

    /// Whether `find_path` can run on these costs and estimates: twice the sum
    /// of all step costs plus the sum of all estimates fits in `u32`.
    pub fn search_fits_costs(&self, edge_costs: &Vec<Vec<u32>>, heuristic: &Vec<u32>) -> (r: bool)
        requires
            self.wf(),
            costs_match(self.adj(), cost_rows(edge_costs@)),
        ensures
            r == search_fits(weighted(self.adj(), cost_rows(edge_costs@)), heuristic@),
    {
        let w = self.weighted_lists(edge_costs);
        fits_search(&w, heuristic)
    }

    /// A* search for a path of nodes from `from` to `to`, where
    /// `edge_costs[x][k]` is the cost of the step from `x` to `edges[x][k]` and
    /// `heuristic[x]` estimates the remaining cost from `x`.
    pub fn find_path(&self, from: usize, to: usize, edge_costs: &Vec<Vec<u32>>, heuristic: &Vec<u32>) -> (r: Option<Vec<usize>>)
        requires
            self.wf(),
            from < self.nodes@.len(),
            to < self.nodes@.len(),
            costs_match(self.adj(), cost_rows(edge_costs@)),
            heuristic@.len() == self.nodes@.len(),
            search_fits(weighted(self.adj(), cost_rows(edge_costs@)), heuristic@),
        ensures
            ({
                let w = weighted(self.adj(), cost_rows(edge_costs@));
                match r {
                    Some(p) => {
                        &&& walk_between(w, p@, from, to)
                        &&& p@.no_duplicates()
                        &&& admissible(w, heuristic@, to) ==> forall|q: Seq<usize>|
                            #[trigger] walk_between(w, q, from, to) ==> walk_cost(w, p@) <= walk_cost(w, q)
                    },
                    None => !reachable(w, from, to),
                }
            }),
    {
        let w = self.weighted_lists(edge_costs);
        proof {
            let ws = weighted(self.adj(), cost_rows(edge_costs@));
            let adj = self.adj();
            assert forall|x: int, k: int, l: int|
                0 <= x < ws.len() && 0 <= k < ws[x].len() && 0 <= l < ws[x].len() && k != l implies
                (#[trigger] ws[x][k]).0 != (#[trigger] ws[x][l]).0 by {
                assert(adj[x].no_duplicates());
            }
            assert forall|x: int, k: int| 0 <= x < ws.len() && 0 <= k < ws[x].len() implies
                (#[trigger] ws[x][k]).0 < ws.len() by {
                assert(adj[x][k] < adj.len());
            }
        }
        astar_path(&w, heuristic, from, to)
    }

    /// Add a bidirectional edge between two nodes (no duplicate entries).
    pub fn add_edge(&mut self, a: usize, b: usize)
        requires
            old(self).wf(),
            a < old(self).nodes@.len(),
            b < old(self).nodes@.len(),
        ensures
            final(self).wf(),
            final(self).nodes@ == old(self).nodes@,
            final(self).adj() == spec_add_edge(old(self).adj(), a, b),
    {
        let ghost adj0 = self.adj();
        if !self.is_neighbor(a, b) {
            self.edges[a].push(b);
        }
        let ghost adj1 = self.adj();
        assert(adj1 =~= adj0.update(a as int, with_neighbor(adj0[a as int], b)));
        if !self.is_neighbor(b, a) {
            self.edges[b].push(a);
        }
        assert(self.adj() =~= adj1.update(b as int, with_neighbor(adj1[b as int], a)));
        proof { lemma_add_edge_wf(adj0, a, b); }
    }

    /// Add a tree: a tree base node, then one branch node per kept
    /// (non-degenerate) segment, following that segment's entity, each
    /// linked to the node of its nearest kept ancestor or to the base.
    /// Segment `k` runs from turtle node `links[k].0` to turtle node `k + 1`
    /// (as `skeleton` gives them). Returns the base node.
    pub fn add_tree(&mut self, links: &Vec<(usize, usize)>, degenerate: &Vec<bool>, entities: &Vec<u64>) -> (base: usize)
        requires
            old(self).wf(),
            degenerate@.len() == links@.len(),
            entities@.len() == links@.len(),
            forall|k: int| 0 <= k < links@.len() ==> (#[trigger] links@[k]).1 == k + 1 && links@[k].0 <= k,
            old(self).nodes@.len() + links@.len() + 1 < usize::MAX,
        ensures
            final(self).wf(),
            base == old(self).nodes@.len(),
            final(self).nodes@ == old(self).nodes@.push(NavNode { kind: NavNodeKind::TreeBase, entity: None })
                + tree_branches(degenerate@, entities@, links@.len() as nat),
            forall|x: int| 0 <= x < base ==> #[trigger] final(self).adj()[x] == old(self).adj()[x],
            forall|a: int, b: usize|
                base <= a < final(self).adj().len() ==> (#[trigger] final(self).adj()[a].contains(b) <==> tree_linked(
                    links@,
                    degenerate@,
                    tree_nav(links@, degenerate@, base as int, links@.len() as nat),
                    links@.len() as int,
                    a,
                    b as int,
                )),
    {
        let base = self.add_node(NavNodeKind::TreeBase);
        let ghost b0 = base as int;
        let mut nav_of: Vec<usize> = Vec::new();
        nav_of.push(base);
        let mut k: usize = 0;
        proof {
            assert(tree_branches(degenerate@, entities@, 0) =~= Seq::<NavNode>::empty());
            assert(self.nodes@ =~= old(self).nodes@.push(NavNode { kind: NavNodeKind::TreeBase, entity: None })
                + tree_branches(degenerate@, entities@, 0));
            assert forall|a: int, b: usize| b0 <= a < self.adj().len() implies (#[trigger] self.adj()[a].contains(b)
                <==> tree_linked(links@, degenerate@, tree_nav(links@, degenerate@, b0, 0), 0, a, b as int)) by {
                assert(self.adj()[a] == Seq::<usize>::empty());
            }
        }
        while k < links.len()
            invariant
                self.wf(),
                b0 == base as int,
                base == old(self).nodes@.len(),
                degenerate@.len() == links@.len(),
                entities@.len() == links@.len(),
                forall|j: int| 0 <= j < links@.len() ==> (#[trigger] links@[j]).1 == j + 1 && links@[j].0 <= j,
                old(self).nodes@.len() + links@.len() + 1 < usize::MAX,
                k <= links@.len(),
                kept_count(degenerate@, k as int) <= k,
                self.nodes@ == old(self).nodes@.push(NavNode { kind: NavNodeKind::TreeBase, entity: None })
                    + tree_branches(degenerate@, entities@, k as nat),
                self.nodes@.len() == b0 + 1 + kept_count(degenerate@, k as int),
                nav_of@.len() == k + 1,
                forall|t: int| 0 <= t <= k ==> #[trigger] nav_of@[t] as int == tree_nav(links@, degenerate@, b0, k as nat)[t],
                forall|t: int| 0 <= t <= k ==> b0 <= #[trigger] nav_of@[t] < self.nodes@.len(),
                forall|x: int| 0 <= x < base ==> #[trigger] self.adj()[x] == old(self).adj()[x],
                forall|a: int, b: usize|
                    b0 <= a < self.adj().len() ==> (#[trigger] self.adj()[a].contains(b) <==> tree_linked(
                        links@,
                        degenerate@,
                        tree_nav(links@, degenerate@, b0, k as nat),
                        k as int,
                        a,
                        b as int,
                    )),
            decreases links@.len() - k,
        {
            let ghost nav = tree_nav(links@, degenerate@, b0, k as nat);
            let ghost nav2 = tree_nav(links@, degenerate@, b0, (k + 1) as nat);
            let ghost adj0 = self.adj();
            proof {
                lemma_tree_nav_len(links@, degenerate@, b0, k as nat);
                lemma_tree_nav_len(links@, degenerate@, b0, (k + 1) as nat);
            }
            let f = links[k].0;
            assert(links@[k as int].0 <= k);
            let from = nav_of[f];
            proof {
                assert(nav2 == nav.push(
                    if degenerate@[k as int] { nav[f as int] } else { b0 + 1 + kept_count(degenerate@, k as int) },
                ));
                assert(tree_branches(degenerate@, entities@, (k + 1) as nat) == tree_branches(degenerate@, entities@, k as nat)
                    + if degenerate@[k as int] {
                    Seq::<NavNode>::empty()
                } else {
                    seq![NavNode { kind: NavNodeKind::Branch, entity: Some(entities@[k as int]) }]
                });
                // earlier segments join the same nodes under the longer map
                assert forall|j: int, a: int, b: int| 0 <= j < k implies #[trigger] tree_edge(links@, nav2, j, a, b)
                    == tree_edge(links@, nav, j, a, b) by {
                    assert(links@[j].0 <= j);
                    assert(nav2[j + 1] == nav[j + 1]);
                    assert(nav2[links@[j].0 as int] == nav[links@[j].0 as int]);
                }
            }
            if degenerate[k] {
                nav_of.push(from);
                proof {
                    assert(self.nodes@ =~= old(self).nodes@.push(NavNode { kind: NavNodeKind::TreeBase, entity: None })
                        + tree_branches(degenerate@, entities@, (k + 1) as nat));
                    assert forall|a: int, b: usize| b0 <= a < self.adj().len() implies (#[trigger] self.adj()[a].contains(b)
                        <==> tree_linked(links@, degenerate@, nav2, k + 1, a, b as int)) by {
                        if tree_linked(links@, degenerate@, nav2, k + 1, a, b as int) {
                            let j = choose|j: int| 0 <= j < k + 1 && !degenerate@[j] && #[trigger] tree_edge(links@, nav2, j, a, b as int);
                            assert(j < k);
                            assert(tree_edge(links@, nav, j, a, b as int));
                        }
                        if tree_linked(links@, degenerate@, nav, k as int, a, b as int) {
                            let j = choose|j: int| 0 <= j < k && !degenerate@[j] && #[trigger] tree_edge(links@, nav, j, a, b as int);
                            assert(tree_edge(links@, nav2, j, a, b as int));
                        }
                    }
                }
            } else {
                let node = self.add_node_with_entity(NavNodeKind::Branch, entities[k]);
                let ghost adj1 = self.adj();
                self.add_edge(from, node);
                nav_of.push(node);
                proof {
                    lemma_add_edge_contains(adj1, from, node);
                    assert(self.nodes@ =~= old(self).nodes@.push(NavNode { kind: NavNodeKind::TreeBase, entity: None })
                        + tree_branches(degenerate@, entities@, (k + 1) as nat));
                    assert(nav2[k + 1] == node as int);
                    assert(nav2[f as int] == from as int);
                    assert forall|x: int| 0 <= x < base implies #[trigger] self.adj()[x] == old(self).adj()[x] by {
                        assert(adj1[x] == adj0[x]);
                    }
                    assert forall|a: int, b: usize| b0 <= a < self.adj().len() implies (#[trigger] self.adj()[a].contains(b)
                        <==> tree_linked(links@, degenerate@, nav2, k + 1, a, b as int)) by {
                        assert(self.adj()[a].contains(b) <==> (adj1[a].contains(b) || (a == from && b == node) || (a == node
                            && b == from)));
                        if a < adj0.len() {
                            assert(adj1[a] == adj0[a]);
                            assert(adj0[a].contains(b) <==> tree_linked(links@, degenerate@, nav, k as int, a, b as int));
                        } else {
                            assert(adj1[a] == Seq::<usize>::empty());
                            assert(!adj1[a].contains(b));
                            assert(a == node);
                            if tree_linked(links@, degenerate@, nav, k as int, a, b as int) {
                                let j = choose|j: int| 0 <= j < k && !degenerate@[j] && #[trigger] tree_edge(links@, nav, j, a, b as int);
                                assert(links@[j].0 <= j);
                                assert(nav_of@[j + 1] as int == nav[j + 1]);
                                assert(nav_of@[links@[j].0 as int] as int == nav[links@[j].0 as int]);
                            }
                        }
                        assert(tree_edge(links@, nav2, k as int, a, b as int) <==> ((a == from && b == node) || (a == node
                            && b == from)));
                        if tree_linked(links@, degenerate@, nav2, k + 1, a, b as int) {
                            let j = choose|j: int| 0 <= j < k + 1 && !degenerate@[j] && #[trigger] tree_edge(links@, nav2, j, a, b as int);
                            if j < k {
                                assert(tree_edge(links@, nav, j, a, b as int));
                                assert(tree_linked(links@, degenerate@, nav, k as int, a, b as int));
                            }
                        }
                        if tree_linked(links@, degenerate@, nav, k as int, a, b as int) {
                            let j = choose|j: int| 0 <= j < k && !degenerate@[j] && #[trigger] tree_edge(links@, nav, j, a, b as int);
                            assert(tree_edge(links@, nav2, j, a, b as int));
                        }
                        if (a == from && b == node) || (a == node && b == from) {
                            assert(tree_edge(links@, nav2, k as int, a, b as int));
                        }
                    }
                }
            }
            k = k + 1;
        }
        base
    }
}

} // verus!
