use vstd::prelude::*;

verus! {

/// Phase of a bird's hunt.
#[derive(Debug, Clone, Copy, PartialEq, Eq, Structural)]
pub enum HuntPhase {
    Searching,
    Circling,
    Diving,
}

/// Phase of a bird's nesting lifecycle, layered above the hunt.
#[derive(Debug, Clone, Copy, PartialEq, Eq, Structural)]
pub enum BirdLifecycle {
    /// normal hunting
    Hunting,
    /// steering toward the chosen branch node
    FlyingToNest,
    /// sitting at the branch, building the nest
    Building,
    /// hunting an insect before returning to lay the egg
    HuntingForEgg,
    /// sitting on the egg
    Incubating,
    /// has a hatchling, hunts and delivers food
    Parenting,
    /// alerted, flying fast to the nest
    Defending,
}

/// Phase of a squirrel's behaviour.
#[derive(Debug, Clone, Copy, PartialEq, Eq, Structural)]
pub enum SquirrelPhase {
    Idle,
    Moving,
    /// walking toward a hatchling
    Hunting,
    /// running away from a parent bird
    Fleeing,
}

/// A nest on a tree branch; entities are named by their 64-bit ids.
#[derive(Debug, Clone, Copy, PartialEq, Eq, Structural)]
pub struct Nest {
    pub parent_bird: u64,
    pub nav_node: usize,
    pub has_egg: bool,
    pub has_hatchling: bool,
}

/// A young bird that stays at its nest.
#[derive(Debug, Clone, Copy, PartialEq, Eq, Structural)]
pub struct Hatchling {
    pub nest: u64,
    pub parent_bird: u64,
    pub alert: bool,
}

/// The hatchling a squirrel is after, and the node of its nest.
#[derive(Debug, Clone, Copy, PartialEq, Eq, Structural)]
pub struct SquirrelTarget {
    pub hatchling: u64,
    pub nest_nav_node: usize,
}

/// Which squirrel this is (0, 1, 2, ...), for the follow cameras.
#[derive(Debug, Clone, Copy, PartialEq, Eq, Structural)]
pub struct SquirrelIndex(pub usize);

/// The discrete part of a bird's nesting state: its phase, its nest, the
/// navigation node of the nest, and how many insects it ate while parenting.
/// (The phase timer is kept by the caller.)
#[derive(Debug, Clone, Copy, PartialEq, Eq, Structural)]
pub struct BirdNestingState {
    pub phase: BirdLifecycle,
    pub nest: Option<u64>,
    pub nest_nav_node: Option<usize>,
    pub insects_eaten: u32,
}

impl Default for BirdNestingState {
    fn default() -> (r: Self)
        ensures
            r == (BirdNestingState {
                phase: BirdLifecycle::Hunting,
                nest: None,
                nest_nav_node: None,
                insects_eaten: 0,
            }),
    {
        BirdNestingState { phase: BirdLifecycle::Hunting, nest: None, nest_nav_node: None, insects_eaten: 0 }
    }
}

/// The discrete part of a squirrel's state: its phase, the path of navigation
/// nodes it follows and its place on that path. (Progress along the current
/// edge, the idle timer and the surface normal are kept by the caller.)
#[derive(Debug)]
pub struct SquirrelState {
    pub phase: SquirrelPhase,
    pub path: Vec<usize>,
    pub path_index: usize,
}

impl Default for SquirrelState {
    fn default() -> (r: Self)
        ensures
            r.phase == SquirrelPhase::Idle,
            r.path@ == Seq::<usize>::empty(),
            r.path_index == 0,
    {
        SquirrelState { phase: SquirrelPhase::Idle, path: Vec::new(), path_index: 0 }
    }
}

impl Default for HuntPhase {
    /// The hunt starts out searching.
    fn default() -> (r: Self)
        ensures
            r == HuntPhase::Searching,
    {
        HuntPhase::Searching
    }
}

} // verus!
