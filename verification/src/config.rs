use vstd::prelude::*;

verus! {

/// The simulation's counts (its distances, speeds and times are kept by the
/// caller).
pub struct Config;

impl Config {
    /// insects spawned at start
    pub const INSECT_COUNT: usize = 200;
    /// birds spawned at start
    pub const BIRD_COUNT: usize = 20;
    /// squirrels spawned at start
    pub const SQUIRREL_COUNT: usize = 3;
    /// below this many insects a batch is respawned
    pub const MIN_INSECT_COUNT: usize = 150;
    /// insects per respawn batch
    pub const INSECT_RESPAWN_BATCH: usize = 10;
}

/// How many insects to respawn this frame: a batch when fewer than the
/// minimum are alive, else none.
pub fn respawn_count(alive: usize) -> (r: usize)
    ensures
        r == if alive >= Config::MIN_INSECT_COUNT { 0 } else { Config::INSECT_RESPAWN_BATCH },
{
    if alive >= Config::MIN_INSECT_COUNT {
        0
    } else {
        Config::INSECT_RESPAWN_BATCH
    }
}

/// A respawn batch never overshoots the starting population: the minimum
/// plus one batch stays within the initial count.
pub proof fn law_respawn_stays_within_start_count(alive: usize)
    requires
        alive < Config::MIN_INSECT_COUNT,
    ensures
        alive + Config::INSECT_RESPAWN_BATCH <= Config::INSECT_COUNT,
{
}

} // verus!
