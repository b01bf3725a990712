use vstd::prelude::*;
use crate::components::{SquirrelPhase, SquirrelState};
use crate::nav_graph::{NavGraph, NavNodeKind, cost_rows, costs_match, weighted, lists_exactly};
use crate::random::{random_below, random_element};
use crate::search::{admissible, reachable, search_fits, walk_between, walk_cost};

verus! {

/// What an idle squirrel's wander attempt came to.
#[derive(Debug, Clone, Copy, PartialEq, Eq, Structural)]
pub enum WanderOutcome {
    /// already at the drawn node: draw a new idle time
    AlreadyThere,
    /// a path of two or more nodes was found and the squirrel is moving
    Started,
    /// the path found has a single node: nothing changes
    Stay,
    /// no path: try again shortly
    NoPath,
}

/// How the ground under an edge of a squirrel's path is shaped.
#[derive(Debug, Clone, Copy, PartialEq, Eq, Structural)]
pub enum EdgeSurface {
    /// both ends on branches: the squirrel hugs the branch
    Branch,
    /// one end on a branch: the branch radius fades along the edge;
    /// `from_branch` tells whether the edge starts on the branch
    Transition { from_branch: bool },
    /// flat ground
    Ground,
}

/// Whether a squirrel in this phase follows its path.
pub open spec fn follows_path(phase: SquirrelPhase) -> bool {
    phase == SquirrelPhase::Moving || phase == SquirrelPhase::Hunting || phase == SquirrelPhase::Fleeing
}

/// The surface of an edge between nodes of these kinds.
pub fn edge_surface(from: NavNodeKind, to: NavNodeKind) -> (r: EdgeSurface)
    ensures
        r == if from == NavNodeKind::Branch && to == NavNodeKind::Branch {
            EdgeSurface::Branch
        } else if from == NavNodeKind::Branch || to == NavNodeKind::Branch {
            EdgeSurface::Transition { from_branch: from == NavNodeKind::Branch }
        } else {
            EdgeSurface::Ground
        },
{
    if from == NavNodeKind::Branch && to == NavNodeKind::Branch {
        EdgeSurface::Branch
    } else if from == NavNodeKind::Branch || to == NavNodeKind::Branch {
        EdgeSurface::Transition { from_branch: from == NavNodeKind::Branch }
    } else {
        EdgeSurface::Ground
    }
}

/// Whether parent bird `i` guards the nest node: its nest is on that node
/// (`nest_nodes[i]`) and it is within twice the alert radius of the squirrel
/// (`close[i]`).
pub fn parent_guards_nest(nest_nodes: &Vec<Option<usize>>, close: &Vec<bool>, nest: usize) -> (r: bool)
    requires
        nest_nodes@.len() == close@.len(),
    ensures
        r == exists|i: int| 0 <= i < close@.len() && nest_nodes@[i] == Some(nest) && #[trigger] close@[i],
{
    let mut i: usize = 0;
    while i < close.len()
        invariant
            nest_nodes@.len() == close@.len(),
            i <= close@.len(),
            forall|k: int| 0 <= k < i ==> !(nest_nodes@[k] == Some(nest) && #[trigger] close@[k]),
        decreases close@.len() - i,
    {
        if close[i] {
            match nest_nodes[i] {
                Some(n) => {
                    if n == nest {
                        return true;
                    }
                },
                None => {},
            }
        }
        i = i + 1;
    }
    false
}

/// A random node of the graph, or `None` for an empty graph.
pub fn random_node(nav: &NavGraph) -> (r: Option<usize>)
    ensures
        match r {
            None => nav.nodes@.len() == 0,
            Some(n) => n < nav.nodes@.len(),
        },
{
    if nav.nodes.len() == 0 {
        None
    } else {
        Some(random_below(nav.nodes.len()))
    }
}

/// A random ground node to flee to, or `None` when the graph has none.
pub fn flee_target(nav: &NavGraph) -> (r: Option<usize>)
    ensures
        match r {
            None => forall|i: int| 0 <= i < nav.nodes@.len() ==> nav.nodes@[i].kind != NavNodeKind::Ground,
            Some(n) => n < nav.nodes@.len() && nav.nodes@[n as int].kind == NavNodeKind::Ground,
        },
{
    let ground = nav.nodes_of_kind(NavNodeKind::Ground);
    let r = random_element(&ground);
    proof {
        let p = |i: int| nav.nodes@[i].kind == NavNodeKind::Ground;
        assert(lists_exactly(ground@, nav.nodes@.len() as int, p));
        match r {
            None => {
                assert forall|i: int| 0 <= i < nav.nodes@.len() implies nav.nodes@[i].kind != NavNodeKind::Ground by {
                    if p(i) {
                        assert(ground@.contains(i as usize));
                    }
                }
            },
            Some(n) => {
                let k = choose|k: int| 0 <= k < ground@.len() && ground@[k] == n;
                assert(p(ground@[k] as int));
            },
        }
    }
    r
}

impl SquirrelState {
    /// The squirrel stands on the last node of its path (or has none).
    pub open spec fn at_path_end(&self) -> bool {
        self.path_index >= if self.path@.len() == 0 { 0 } else { self.path@.len() - 1 }
    }

    /// Whether the path is used up.
    pub fn path_done(&self) -> (r: bool)
        ensures
            r == self.at_path_end(),
    {
        self.path_index >= self.path.len().saturating_sub(1)
    }

    /// A moving, hunting or fleeing squirrel whose path is used up becomes
    /// idle and forgets the path; returns whether it did (the caller then
    /// draws a new idle time). An idle squirrel is left alone.
    pub fn finish_path(&mut self) -> (stopped: bool)
        ensures
            stopped == (follows_path(old(self).phase) && old(self).at_path_end()),
            stopped ==> final(self).phase == SquirrelPhase::Idle && final(self).path@ == Seq::<usize>::empty()
                && final(self).path_index == old(self).path_index,
            !stopped ==> final(self).phase == old(self).phase && final(self).path@ == old(self).path@
                && final(self).path_index == old(self).path_index,
    {
        if self.phase != SquirrelPhase::Idle && self.path_done() {
            self.phase = SquirrelPhase::Idle;
            self.path.clear();
            true
        } else {
            false
        }
    }

    /// Take a found path of two or more nodes and enter `phase` at its start;
    /// a shorter path changes nothing. Returns whether it was taken.
    pub fn start_path(&mut self, path: Vec<usize>, phase: SquirrelPhase) -> (taken: bool)
        ensures
            taken == (path@.len() > 1),
            taken ==> final(self).phase == phase && final(self).path@ == path@ && final(self).path_index == 0,
            !taken ==> final(self).phase == old(self).phase && final(self).path@ == old(self).path@
                && final(self).path_index == old(self).path_index,
    {
        if path.len() > 1 {
            self.path = path;
            self.path_index = 0;
            self.phase = phase;
            true
        } else {
            false
        }
    }

    /// Set off in `phase` (hunting a hatchling, or fleeing) from node `from`
    /// toward node `to` along a path found by `find_path` with the given
    /// costs and estimates. Returns whether the squirrel set off; when it did
    /// not (already there, or no path) nothing changes.
    pub fn head_for(
        &mut self,
        nav: &NavGraph,
        from: usize,
        to: usize,
        edge_costs: &Vec<Vec<u32>>,
        heuristic: &Vec<u32>,
        phase: SquirrelPhase,
    ) -> (started: bool)
        requires
            nav.wf(),
            from < nav.nodes@.len(),
            to < nav.nodes@.len(),
            costs_match(nav.adj(), cost_rows(edge_costs@)),
            heuristic@.len() == nav.nodes@.len(),
            search_fits(weighted(nav.adj(), cost_rows(edge_costs@)), heuristic@),
        ensures
            started <==> (from != to && reachable(weighted(nav.adj(), cost_rows(edge_costs@)), from, to)),
            started ==> {
                &&& final(self).phase == phase
                &&& final(self).path_index == 0
                &&& walk_between(weighted(nav.adj(), cost_rows(edge_costs@)), final(self).path@, from, to)
                &&& final(self).path@.no_duplicates()
                &&& admissible(weighted(nav.adj(), cost_rows(edge_costs@)), heuristic@, to) ==> forall|q: Seq<usize>|
                    #[trigger] walk_between(weighted(nav.adj(), cost_rows(edge_costs@)), q, from, to)
                        ==> walk_cost(weighted(nav.adj(), cost_rows(edge_costs@)), final(self).path@)
                        <= walk_cost(weighted(nav.adj(), cost_rows(edge_costs@)), q)
            },
            !started ==> final(self).phase == old(self).phase && final(self).path@ == old(self).path@
                && final(self).path_index == old(self).path_index,
    {
        match nav.find_path(from, to, edge_costs, heuristic) {
            Some(path) => {
                proof {
                    let p = path@;
                    assert(walk_between(weighted(nav.adj(), cost_rows(edge_costs@)), p, from, to));
                    if from == to && p.len() > 1 {
                        assert(p[0] == p[p.len() - 1]);
                    }
                    if from != to && p.len() <= 1 {
                        assert(p[0] == p.last());
                    }
                }
                self.start_path(path, phase)
            },
            None => false,
        }
    }

    /// An idle squirrel at node `current` whose wait is over tries to walk to
    /// the drawn node `target` along a path found by `find_path` with the
    /// given costs and estimates.
    pub fn wander_toward(
        &mut self,
        nav: &NavGraph,
        current: usize,
        target: usize,
        edge_costs: &Vec<Vec<u32>>,
        heuristic: &Vec<u32>,
    ) -> (out: WanderOutcome)
        requires
            nav.wf(),
            current < nav.nodes@.len(),
            target < nav.nodes@.len(),
            costs_match(nav.adj(), cost_rows(edge_costs@)),
            heuristic@.len() == nav.nodes@.len(),
            search_fits(weighted(nav.adj(), cost_rows(edge_costs@)), heuristic@),
        ensures
            out == WanderOutcome::AlreadyThere <==> current == target,
            out == WanderOutcome::NoPath <==> (current != target && !reachable(
                weighted(nav.adj(), cost_rows(edge_costs@)),
                current,
                target,
            )),
            current != target && reachable(weighted(nav.adj(), cost_rows(edge_costs@)), current, target) ==> out
                == WanderOutcome::Started,
            out == WanderOutcome::Started ==> {
                &&& final(self).phase == SquirrelPhase::Moving
                &&& final(self).path_index == 0
                &&& walk_between(weighted(nav.adj(), cost_rows(edge_costs@)), final(self).path@, current, target)
                &&& final(self).path@.no_duplicates()
                &&& admissible(weighted(nav.adj(), cost_rows(edge_costs@)), heuristic@, target) ==> forall|q: Seq<usize>|
                    #[trigger] walk_between(weighted(nav.adj(), cost_rows(edge_costs@)), q, current, target)
                        ==> walk_cost(weighted(nav.adj(), cost_rows(edge_costs@)), final(self).path@)
                        <= walk_cost(weighted(nav.adj(), cost_rows(edge_costs@)), q)
            },
            out != WanderOutcome::Started ==> final(self).phase == old(self).phase && final(self).path@ == old(
                self,
            ).path@ && final(self).path_index == old(self).path_index,
    {
        if current == target {
            return WanderOutcome::AlreadyThere;
        }
        match nav.find_path(current, target, edge_costs, heuristic) {
            Some(path) => {
                proof {
                    let p = path@;
                    if p.len() <= 1 {
                        assert(p[0] == current && p.last() == target);
                    }
                    assert(walk_between(weighted(nav.adj(), cost_rows(edge_costs@)), p, current, target));
                }
                if self.start_path(path, SquirrelPhase::Moving) {
                    WanderOutcome::Started
                } else {
                    WanderOutcome::Stay
                }
            },
            None => WanderOutcome::NoPath,
        }
    }

    /// The squirrel is between two nodes of its path and walking.
    pub open spec fn on_edge(&self) -> bool {
        &&& follows_path(self.phase)
        &&& self.path@.len() >= 2
        &&& self.path_index + 1 < self.path@.len()
    }

    /// Every squirrel that is not idle walks its path, whether it is moving,
    /// hunting a hatchling or fleeing: it is on an edge exactly when it is not
    /// idle and some node of its path lies beyond the one it stands on.
    pub proof fn law_every_busy_squirrel_walks(&self)
        ensures
            self.on_edge() <==> (self.phase != SquirrelPhase::Idle && self.path_index + 1 < self.path@.len()),
    {
    }

    /// A squirrel that sets off on a path of two or more nodes in a phase
    /// other than idle is then walking its first edge.
    pub proof fn law_set_off_walks_first_edge(after: &Self, path: Seq<usize>, phase: SquirrelPhase)
        requires
            path.len() > 1,
            phase != SquirrelPhase::Idle,
            after.phase == phase,
            after.path@ == path,
            after.path_index == 0,
        ensures
            after.on_edge(),
    {
    }

    /// Whether the squirrel is walking an edge of its path.
    pub fn is_traversing(&self) -> (r: bool)
        ensures
            r == self.on_edge(),
    {
        let moving = match self.phase {
            SquirrelPhase::Moving | SquirrelPhase::Hunting | SquirrelPhase::Fleeing => true,
            SquirrelPhase::Idle => false,
        };
        moving && self.path.len() >= 2 && self.path_index < self.path.len() - 1
    }

    /// The two ends of the edge being walked.
    pub fn current_edge(&self) -> (r: (usize, usize))
        requires
            self.on_edge(),
        ensures
            r == (self.path@[self.path_index as int], self.path@[self.path_index + 1]),
    {
        let len = self.path.len();
        assert(self.path_index + 1 < len);
        (self.path[self.path_index], self.path[self.path_index + 1])
    }

    /// Step on to the next edge of the path.
    pub fn advance(&mut self)
        requires
            old(self).on_edge(),
        ensures
            final(self).path_index == old(self).path_index + 1,
            final(self).phase == old(self).phase,
            final(self).path@ == old(self).path@,
    {
        let len = self.path.len();
        assert(self.path_index + 1 < len);
        self.path_index = self.path_index + 1;
    }
}

} // verus!
