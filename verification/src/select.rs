use vstd::prelude::*;

verus! {

/// `i` is eligible, no eligible key is smaller than its key, and every
/// eligible entry before it has a strictly larger key: the first of the
/// smallest eligible entries.
pub open spec fn is_first_min_among(keys: Seq<u32>, eligible: Seq<bool>, i: int) -> bool {
    &&& 0 <= i < keys.len()
    &&& eligible[i]
    &&& forall|j: int| 0 <= j < keys.len() && eligible[j] ==> keys[i] <= #[trigger] keys[j]
    &&& forall|j: int| 0 <= j < i && eligible[j] ==> keys[i] < #[trigger] keys[j]
}

/// Some entry is eligible.
pub open spec fn any_eligible(eligible: Seq<bool>) -> bool {
    exists|j: int| 0 <= j < eligible.len() && #[trigger] eligible[j]
}

/// The first eligible entry with the smallest key, if any entry is eligible.
/// Keys are integers that order the candidates the way their distances do.
pub fn first_min_among(keys: &Vec<u32>, eligible: &Vec<bool>) -> (r: Option<usize>)
    requires
        keys@.len() == eligible@.len(),
    ensures
        match r {
            None => !any_eligible(eligible@),
            Some(i) => is_first_min_among(keys@, eligible@, i as int),
        },
{
    let mut best: Option<usize> = None;
    let mut j: usize = 0;
    while j < keys.len()
        invariant
            keys@.len() == eligible@.len(),
            j <= keys@.len(),
            match best {
                None => forall|k: int| 0 <= k < j ==> !#[trigger] eligible@[k],
                Some(i) => {
                    &&& i < j
                    &&& eligible@[i as int]
                    &&& forall|k: int| 0 <= k < j && eligible@[k] ==> keys@[i as int] <= #[trigger] keys@[k]
                    &&& forall|k: int| 0 <= k < i && eligible@[k] ==> keys@[i as int] < #[trigger] keys@[k]
                },
            },
        decreases keys@.len() - j,
    {
        if eligible[j] {
            match best {
                None => {
                    best = Some(j);
                },
                Some(i) => {
                    if keys[j] < keys[i] {
                        best = Some(j);
                    }
                },
            }
        }
        j = j + 1;
    }
    best
}

/// The first entry with the smallest key, if there is any entry.
pub fn first_min(keys: &Vec<u32>) -> (r: Option<usize>)
    ensures
        match r {
            None => keys@.len() == 0,
            Some(i) => is_first_min_among(keys@, Seq::new(keys@.len(), |k: int| true), i as int),
        },
{
    let mut all: Vec<bool> = Vec::new();
    let mut j: usize = 0;
    while j < keys.len()
        invariant
            j <= keys@.len(),
            all@ == Seq::new(j as nat, |k: int| true),
        decreases keys@.len() - j,
    {
        all.push(true);
        j = j + 1;
        assert(all@ =~= Seq::new(j as nat, |k: int| true));
    }
    let r = first_min_among(keys, &all);
    if keys.len() > 0 {
        assert(all@[0]);
    }
    r
}

} // verus!
