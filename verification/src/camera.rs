use vstd::prelude::*;

verus! {

/// Which camera mode is active.
#[derive(Debug, Clone, Copy, PartialEq, Eq, Structural)]
pub enum CameraMode {
    /// free orbit camera with strafing
    Overview,
    /// follow the squirrel with this index
    FollowSquirrel(usize),
}

impl Default for CameraMode {
    fn default() -> (r: Self)
        ensures
            r == CameraMode::Overview,
    {
        CameraMode::Overview
    }
}

/// The mode after this frame's key presses: `1` selects the overview and
/// `Z`, `X`, `C` follow squirrels 0, 1, 2; when several are pressed the last
/// of that list wins, and with none pressed the mode stays.
pub fn camera_mode_after_keys(mode: CameraMode, key_1: bool, key_z: bool, key_x: bool, key_c: bool) -> (r: CameraMode)
    ensures
        r == if key_c {
            CameraMode::FollowSquirrel(2)
        } else if key_x {
            CameraMode::FollowSquirrel(1)
        } else if key_z {
            CameraMode::FollowSquirrel(0)
        } else if key_1 {
            CameraMode::Overview
        } else {
            mode
        },
{
    let mut m = mode;
    if key_1 {
        m = CameraMode::Overview;
    }
    if key_z {
        m = CameraMode::FollowSquirrel(0);
    }
    if key_x {
        m = CameraMode::FollowSquirrel(1);
    }
    if key_c {
        m = CameraMode::FollowSquirrel(2);
    }
    m
}

/// The position of the first squirrel whose index is `idx`.
pub fn find_followed(indices: &Vec<usize>, idx: usize) -> (r: Option<usize>)
    ensures
        match r {
            None => !indices@.contains(idx),
            Some(k) => k < indices@.len() && indices@[k as int] == idx && forall|j: int|
                0 <= j < k ==> indices@[j] != idx,
        },
{
    let mut k: usize = 0;
    while k < indices.len()
        invariant
            k <= indices@.len(),
            forall|j: int| 0 <= j < k ==> indices@[j] != idx,
        decreases indices@.len() - k,
    {
        if indices[k] == idx {
            return Some(k);
        }
        k = k + 1;
    }
    None
}

/// Compass direction of the wind, in the order of the eight octants that
/// start at due west.
#[derive(Debug, Clone, Copy, PartialEq, Eq, Structural)]
pub enum Cardinal {
    W,
    NW,
    N,
    NE,
    E,
    SE,
    S,
    SW,
}

/// The label of octant `k` in `0..8`, counting from due west.
pub open spec fn octant_label(k: int) -> Cardinal {
    if k == 0 {
        Cardinal::W
    } else if k == 1 {
        Cardinal::NW
    } else if k == 2 {
        Cardinal::N
    } else if k == 3 {
        Cardinal::NE
    } else if k == 4 {
        Cardinal::E
    } else if k == 5 {
        Cardinal::SE
    } else if k == 6 {
        Cardinal::S
    } else {
        Cardinal::SW
    }
}

/// The compass label of an octant number (the wind's heading in degrees,
/// shifted by 202.5 and divided by 45, truncated): the remainder by 8 picks
/// the label. A negative number that is not a multiple of 8 leaves a negative
/// remainder and gets none.
pub fn cardinal_of_octant(octant: i32) -> (r: Option<Cardinal>)
    ensures
        r == if octant < 0 && octant as int % 8 != 0 {
            None::<Cardinal>
        } else {
            Some(octant_label(octant as int % 8))
        },
        r matches Some(c) ==> bearing(c) == (270 + 45 * (octant as int % 8)) % 360,
{
    let m = octant % 8;
    if m == 0 {
        Some(Cardinal::W)
    } else if m == 1 {
        Some(Cardinal::NW)
    } else if m == 2 {
        Some(Cardinal::N)
    } else if m == 3 {
        Some(Cardinal::NE)
    } else if m == 4 {
        Some(Cardinal::E)
    } else if m == 5 {
        Some(Cardinal::SE)
    } else if m == 6 {
        Some(Cardinal::S)
    } else if m == 7 {
        Some(Cardinal::SW)
    } else {
        None
    }
}

/// The compass bearing of a label in degrees, clockwise from north.
pub open spec fn bearing(c: Cardinal) -> int {
    match c {
        Cardinal::N => 0,
        Cardinal::NE => 45,
        Cardinal::E => 90,
        Cardinal::SE => 135,
        Cardinal::S => 180,
        Cardinal::SW => 225,
        Cardinal::W => 270,
        Cardinal::NW => 315,
    }
}

/// Octant labels run clockwise from west in steps of 45 degrees: octant `k`
/// is labelled with the bearing `270 + 45 k` (modulo a full turn), so the
/// eight octants name the eight compass points, each once.
pub proof fn law_octants_run_clockwise_from_west(k: int)
    requires
        0 <= k < 8,
    ensures
        bearing(octant_label(k)) == (270 + 45 * k) % 360,
{
}

} // verus!
