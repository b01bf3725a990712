use vstd::prelude::*;
use crate::components::{BirdLifecycle, SquirrelPhase};
use crate::select::{first_min_among, is_first_min_among, any_eligible};

verus! {

/// Whether `v` holds `x`.
pub fn contains_id(v: &Vec<u64>, x: u64) -> (r: bool)
    ensures
        r == v@.contains(x),
{
    let mut i: usize = 0;
    while i < v.len()
        invariant
            i <= v@.len(),
            forall|j: int| 0 <= j < i ==> v@[j] != x,
        decreases v@.len() - i,
    {
        if v[i] == x {
            assert(v@[i as int] == x);
            return true;
        }
        i = i + 1;
    }
    false
}

/// Candidate `j` may be eaten: it is an insect within eating distance that
/// no bird has eaten yet this frame.
pub open spec fn edible(candidates: Seq<u64>, in_reach: Seq<bool>, eaten: Seq<u64>) -> Seq<bool> {
    Seq::new(candidates.len(), |j: int| in_reach[j] && !eaten.contains(candidates[j]))
}

/// The insect a bird eats: among the candidates near it (`keys` order them
/// by distance, `in_reach[j]` tells whether candidate `j` is an insect within
/// eating distance) the closest one not yet eaten this frame, the first of
/// them on a tie. The caller adds it to `eaten`.
pub fn choose_meal(candidates: &Vec<u64>, keys: &Vec<u32>, in_reach: &Vec<bool>, eaten: &Vec<u64>) -> (r: Option<usize>)
    requires
        keys@.len() == candidates@.len(),
        in_reach@.len() == candidates@.len(),
    ensures
        match r {
            None => !any_eligible(edible(candidates@, in_reach@, eaten@)),
            Some(j) => is_first_min_among(keys@, edible(candidates@, in_reach@, eaten@), j as int),
        },
{
    let mut ok: Vec<bool> = Vec::new();
    let mut j: usize = 0;
    while j < candidates.len()
        invariant
            in_reach@.len() == candidates@.len(),
            j <= candidates@.len(),
            ok@ == edible(candidates@, in_reach@, eaten@).subrange(0, j as int),
        decreases candidates@.len() - j,
    {
        let fresh = !contains_id(eaten, candidates[j]);
        ok.push(in_reach[j] && fresh);
        j = j + 1;
        assert(ok@ =~= edible(candidates@, in_reach@, eaten@).subrange(0, j as int));
    }
    assert(ok@ =~= edible(candidates@, in_reach@, eaten@));
    first_min_among(keys, &ok)
}

/// No insect is eaten twice in a frame: a chosen meal was not eaten before.
pub proof fn law_meal_not_eaten_twice(candidates: Seq<u64>, keys: Seq<u32>, in_reach: Seq<bool>, eaten: Seq<u64>, j: int)
    requires
        keys.len() == candidates.len(),
        in_reach.len() == candidates.len(),
        is_first_min_among(keys, edible(candidates, in_reach, eaten), j),
    ensures
        !eaten.contains(candidates[j]),
        in_reach[j],
{
}

/// Position of a lifecycle phase in the status tally.
pub open spec fn lifecycle_slot(p: BirdLifecycle) -> int {
    match p {
        BirdLifecycle::Hunting => 0,
        BirdLifecycle::FlyingToNest => 1,
        BirdLifecycle::Building => 2,
        BirdLifecycle::HuntingForEgg => 3,
        BirdLifecycle::Incubating => 4,
        BirdLifecycle::Parenting => 5,
        BirdLifecycle::Defending => 6,
    }
}

/// Position of a squirrel phase in the status tally.
pub open spec fn squirrel_slot(p: SquirrelPhase) -> int {
    match p {
        SquirrelPhase::Idle => 0,
        SquirrelPhase::Moving => 1,
        SquirrelPhase::Hunting => 2,
        SquirrelPhase::Fleeing => 3,
    }
}

/// How many of `s` equal `k`.
pub open spec fn count_slot(s: Seq<int>, k: int) -> nat
    decreases s.len(),
{
    if s.len() == 0 {
        0
    } else {
        count_slot(s.drop_last(), k) + if s.last() == k { 1nat } else { 0nat }
    }
}

/// Counts per slot `0..slots` of the given slot numbers.
fn tally(slots_of: Ghost<Seq<int>>, items: &Vec<usize>, slots: usize) -> (r: Vec<u32>)
    requires
        items@.len() <= u32::MAX,
        slots_of@ == items@.map_values(|x: usize| x as int),
        forall|i: int| 0 <= i < items@.len() ==> (#[trigger] items@[i]) < slots,
    ensures
        r@.len() == slots,
        forall|k: int| 0 <= k < slots ==> #[trigger] r@[k] == count_slot(slots_of@, k),
{
    let mut r: Vec<u32> = Vec::new();
    let mut k: usize = 0;
    while k < slots
        invariant
            k <= slots,
            r@ == Seq::new(k as nat, |j: int| 0u32),
        decreases slots - k,
    {
        r.push(0);
        k = k + 1;
        assert(r@ =~= Seq::new(k as nat, |j: int| 0u32));
    }
    let mut i: usize = 0;
    while i < items.len()
        invariant
            items@.len() <= u32::MAX,
            i <= items@.len(),
            r@.len() == slots,
            slots_of@ == items@.map_values(|x: usize| x as int),
            forall|i: int| 0 <= i < items@.len() ==> (#[trigger] items@[i]) < slots,
            forall|k: int| 0 <= k < slots ==> #[trigger] r@[k] == count_slot(slots_of@.subrange(0, i as int), k),
            forall|k: int| 0 <= k < slots ==> #[trigger] r@[k] <= i,
        decreases items@.len() - i,
    {
        let slot = items[i];
        let ghost prev = r@;
        proof {
            assert(slots_of@.subrange(0, i + 1).drop_last() =~= slots_of@.subrange(0, i as int));
            assert(slots_of@.subrange(0, i + 1).last() == slot as int);
        }
        let c = r[slot];
        r.set(slot, c + 1);
        i = i + 1;
    }
    assert(slots_of@.subrange(0, items@.len() as int) =~= slots_of@);
    r
}

/// How many birds are in each lifecycle phase, in the order hunting,
/// flying to nest, building, hunting for egg, incubating, parenting, defending.
pub fn lifecycle_tally(phases: &Vec<BirdLifecycle>) -> (r: Vec<u32>)
    requires
        phases@.len() <= u32::MAX,
    ensures
        r@.len() == 7,
        forall|k: int| 0 <= k < 7 ==> #[trigger] r@[k] == count_slot(phases@.map_values(|p: BirdLifecycle| lifecycle_slot(p)), k),
{
    let mut items: Vec<usize> = Vec::new();
    let mut i: usize = 0;
    while i < phases.len()
        invariant
            i <= phases@.len(),
            items@.len() == i,
            forall|j: int| 0 <= j < i ==> (#[trigger] items@[j]) as int == lifecycle_slot(phases@[j]) && items@[j] < 7,
        decreases phases@.len() - i,
    {
        let s: usize = match phases[i] {
            BirdLifecycle::Hunting => 0,
            BirdLifecycle::FlyingToNest => 1,
            BirdLifecycle::Building => 2,
            BirdLifecycle::HuntingForEgg => 3,
            BirdLifecycle::Incubating => 4,
            BirdLifecycle::Parenting => 5,
            BirdLifecycle::Defending => 6,
        };
        items.push(s);
        i = i + 1;
    }
    assert(items@.map_values(|x: usize| x as int) =~= phases@.map_values(|p: BirdLifecycle| lifecycle_slot(p)));
    tally(Ghost(phases@.map_values(|p: BirdLifecycle| lifecycle_slot(p))), &items, 7)
}

/// How many squirrels are in each phase, in the order idle, moving,
/// hunting, fleeing.
pub fn squirrel_tally(phases: &Vec<SquirrelPhase>) -> (r: Vec<u32>)
    requires
        phases@.len() <= u32::MAX,
    ensures
        r@.len() == 4,
        forall|k: int| 0 <= k < 4 ==> #[trigger] r@[k] == count_slot(phases@.map_values(|p: SquirrelPhase| squirrel_slot(p)), k),
{
    let mut items: Vec<usize> = Vec::new();
    let mut i: usize = 0;
    while i < phases.len()
        invariant
            i <= phases@.len(),
            items@.len() == i,
            forall|j: int| 0 <= j < i ==> (#[trigger] items@[j]) as int == squirrel_slot(phases@[j]) && items@[j] < 4,
        decreases phases@.len() - i,
    {
        let s: usize = match phases[i] {
            SquirrelPhase::Idle => 0,
            SquirrelPhase::Moving => 1,
            SquirrelPhase::Hunting => 2,
            SquirrelPhase::Fleeing => 3,
        };
        items.push(s);
        i = i + 1;
    }
    assert(items@.map_values(|x: usize| x as int) =~= phases@.map_values(|p: SquirrelPhase| squirrel_slot(p)));
    tally(Ghost(phases@.map_values(|p: SquirrelPhase| squirrel_slot(p))), &items, 4)
}

} // verus!
