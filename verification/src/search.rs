use vstd::prelude::*;

verus! {

/// A weighted adjacency: `w[x]` lists `(successor, cost)` pairs of node `x`.
pub open spec fn has_step(w: Seq<Seq<(usize, u32)>>, x: usize, y: usize) -> bool {
    exists|k: int| 0 <= k < w[x as int].len() && (#[trigger] w[x as int][k]).0 == y
}

/// Every successor is a node, and no node lists the same successor twice.
pub open spec fn weighted_wf(w: Seq<Seq<(usize, u32)>>) -> bool {
    &&& forall|x: int, k: int|
        0 <= x < w.len() && 0 <= k < w[x].len() ==> (#[trigger] w[x][k]).0 < w.len()
    &&& forall|x: int, k: int, l: int|
        0 <= x < w.len() && 0 <= k < w[x].len() && 0 <= l < w[x].len() && k != l ==> (
        #[trigger] w[x][k]).0 != (#[trigger] w[x][l]).0
}

/// `p` is a non-empty walk along listed steps.
pub open spec fn is_walk(w: Seq<Seq<(usize, u32)>>, p: Seq<usize>) -> bool {
    &&& p.len() >= 1
    &&& forall|i: int| 0 <= i < p.len() ==> (#[trigger] p[i]) < w.len()
    &&& forall|i: int| 0 <= i < p.len() - 1 ==> has_step(w, #[trigger] p[i], p[i + 1])
}

/// `p` is a walk from `a` to `b`.
pub open spec fn walk_between(w: Seq<Seq<(usize, u32)>>, p: Seq<usize>, a: usize, b: usize) -> bool {
    &&& is_walk(w, p)
    &&& p[0] == a
    &&& p.last() == b
}

/// Some walk leads from `a` to `b`.
pub open spec fn reachable(w: Seq<Seq<(usize, u32)>>, a: usize, b: usize) -> bool {
    exists|p: Seq<usize>| #[trigger] walk_between(w, p, a, b)
}

/// The cost listed for the step from `x` to `y`.
pub open spec fn step_cost(w: Seq<Seq<(usize, u32)>>, x: usize, y: usize) -> int {
    let k = choose|k: int| 0 <= k < w[x as int].len() && (#[trigger] w[x as int][k]).0 == y;
    w[x as int][k].1 as int
}

/// The summed step costs of a walk.
pub open spec fn walk_cost(w: Seq<Seq<(usize, u32)>>, p: Seq<usize>) -> int
    decreases p.len(),
{
    if p.len() <= 1 {
        0
    } else {
        walk_cost(w, p.drop_last()) + step_cost(w, p[p.len() - 2], p[p.len() - 1])
    }
}

/// The estimate `h` never exceeds the cost of a walk from a node to `goal`.
pub open spec fn admissible(w: Seq<Seq<(usize, u32)>>, h: Seq<u32>, goal: usize) -> bool {
    forall|n: usize, p: Seq<usize>| #[trigger] walk_between(w, p, n, goal) ==> h[n as int] <= walk_cost(w, p)
}

/// Sum of the costs in one list.
pub open spec fn row_cost(r: Seq<(usize, u32)>) -> int
    decreases r.len(),
{
    if r.len() == 0 { 0 } else { row_cost(r.drop_last()) + r.last().1 }
}

/// Sum of all listed costs.
pub open spec fn total_cost(w: Seq<Seq<(usize, u32)>>) -> int
    decreases w.len(),
{
    if w.len() == 0 { 0 } else { total_cost(w.drop_last()) + row_cost(w.last()) }
}

/// Sum of all estimates.
pub open spec fn estimate_sum(h: Seq<u32>) -> int
    decreases h.len(),
{
    if h.len() == 0 { 0 } else { estimate_sum(h.drop_last()) + h.last() }
}

/// Costs and estimates small enough that no sum the search forms leaves `u32`.
pub open spec fn search_fits(w: Seq<Seq<(usize, u32)>>, h: Seq<u32>) -> bool {
    2 * total_cost(w) + estimate_sum(h) <= u32::MAX
}


/// Costs are never negative, so a prefix of a list sums to at most the whole.
pub proof fn lemma_row_cost_prefix(r: Seq<(usize, u32)>, k: int)
    requires
        0 <= k <= r.len(),
    ensures
        row_cost(r.subrange(0, k)) <= row_cost(r),
        k < r.len() ==> row_cost(r.subrange(0, k + 1)) == row_cost(r.subrange(0, k)) + r[k].1,
    decreases r.len(),
{
    if k < r.len() {
        assert(r.subrange(0, k + 1).drop_last() =~= r.subrange(0, k));
    }
    if k == r.len() {
        assert(r.subrange(0, k) =~= r);
    } else {
        lemma_row_cost_prefix(r.drop_last(), k);
        assert(r.drop_last().subrange(0, k) =~= r.subrange(0, k));
    }
}

/// The same for the sum over all lists.
pub proof fn lemma_total_cost_prefix(w: Seq<Seq<(usize, u32)>>, a: int)
    requires
        0 <= a <= w.len(),
    ensures
        total_cost(w.subrange(0, a)) <= total_cost(w),
        a < w.len() ==> total_cost(w.subrange(0, a + 1)) == total_cost(w.subrange(0, a)) + row_cost(w[a]),
    decreases w.len(),
{
    if a < w.len() {
        assert(w.subrange(0, a + 1).drop_last() =~= w.subrange(0, a));
    }
    if a == w.len() {
        assert(w.subrange(0, a) =~= w);
    } else {
        lemma_total_cost_prefix(w.drop_last(), a);
        assert(w.drop_last().subrange(0, a) =~= w.subrange(0, a));
        lemma_row_cost_prefix(w.last(), 0);
        assert(w.last().subrange(0, 0) =~= Seq::<(usize, u32)>::empty());
    }
}

/// The same for estimates.
pub proof fn lemma_estimate_sum_prefix(h: Seq<u32>, k: int)
    requires
        0 <= k <= h.len(),
    ensures
        estimate_sum(h.subrange(0, k)) <= estimate_sum(h),
        k < h.len() ==> estimate_sum(h.subrange(0, k + 1)) == estimate_sum(h.subrange(0, k)) + h[k],
    decreases h.len(),
{
    if k < h.len() {
        assert(h.subrange(0, k + 1).drop_last() =~= h.subrange(0, k));
    }
    if k == h.len() {
        assert(h.subrange(0, k) =~= h);
    } else {
        lemma_estimate_sum_prefix(h.drop_last(), k);
        assert(h.drop_last().subrange(0, k) =~= h.subrange(0, k));
    }
}

/// Whether the costs and estimates are small enough for the search.
pub fn fits_search(w: &Vec<Vec<(usize, u32)>>, h: &Vec<u32>) -> (r: bool)
    ensures
        r == search_fits(w@.map_values(|row: Vec<(usize, u32)>| row@), h@),
{
    let ghost ws = w@.map_values(|row: Vec<(usize, u32)>| row@);
    let mut total: u64 = 0;
    let mut a: usize = 0;
    while a < w.len()
        invariant
            ws == w@.map_values(|row: Vec<(usize, u32)>| row@),
            a <= w.len(),
            total == total_cost(ws.subrange(0, a as int)),
            total <= u32::MAX,
        decreases w.len() - a,
    {
        let row = &w[a];
        assert(row@ == ws[a as int]);
        let mut k: usize = 0;
        let mut rsum: u64 = 0;
        while k < row.len()
            invariant
                ws == w@.map_values(|row: Vec<(usize, u32)>| row@),
                row@ == ws[a as int],
                a < ws.len(),
                k <= row.len(),
                total == total_cost(ws.subrange(0, a as int)),
                total + rsum <= u32::MAX,
                rsum == row_cost(row@.subrange(0, k as int)),
            decreases row.len() - k,
        {
            proof { lemma_row_cost_prefix(row@, k as int); }
            rsum = rsum + row[k].1 as u64;
            k = k + 1;
            if total + rsum > u32::MAX as u64 {
                proof {
                    lemma_row_cost_prefix(row@, k as int);
                    lemma_total_cost_prefix(ws, a as int + 1);
                    lemma_total_cost_prefix(ws, a as int);
                    lemma_row_cost_prefix(row@, row@.len() as int);
                    assert(row@.subrange(0, row@.len() as int) =~= row@);
                    lemma_estimate_sum_prefix(h@, 0);
                    assert(h@.subrange(0, 0) =~= Seq::<u32>::empty());
                }
                return false;
            }
        }
        proof {
            assert(row@.subrange(0, k as int) =~= row@);
            lemma_total_cost_prefix(ws, a as int);
        }
        total = total + rsum;
        a = a + 1;
    }
    assert(ws.subrange(0, a as int) =~= ws);
    if 2 * total > u32::MAX as u64 {
        proof {
            lemma_estimate_sum_prefix(h@, 0);
            assert(h@.subrange(0, 0) =~= Seq::<u32>::empty());
            assert(estimate_sum(h@) >= 0);
            assert(total_cost(ws) == total);
        }
        return false;
    }
    let mut acc: u64 = 2 * total;
    let mut i: usize = 0;
    while i < h.len()
        invariant
            ws == w@.map_values(|row: Vec<(usize, u32)>| row@),
            i <= h.len(),
            total == total_cost(ws),
            acc == 2 * total + estimate_sum(h@.subrange(0, i as int)),
            acc <= u32::MAX,
        decreases h.len() - i,
    {
        proof { lemma_estimate_sum_prefix(h@, i as int); }
        acc = acc + h[i] as u64;
        i = i + 1;
        if acc > u32::MAX as u64 {
            proof { lemma_estimate_sum_prefix(h@, i as int); }
            return false;
        }
    }
    assert(h@.subrange(0, i as int) =~= h@);
    true
}

/// The successors of `n` with their costs, as a fresh list.
pub fn successors_of(w: &Vec<Vec<(usize, u32)>>, n: usize) -> (r: Vec<(usize, u32)>)
    requires
        n < w@.len(),
    ensures
        r@ == w@[n as int]@,
{
    let row = &w[n];
    let mut r: Vec<(usize, u32)> = Vec::new();
    let mut i: usize = 0;
    while i < row.len()
        invariant
            row@ == w@[n as int]@,
            i <= row.len(),
            r@ == row@.subrange(0, i as int),
        decreases row.len() - i,
    {
        r.push(row[i]);
        i = i + 1;
        assert(r@ =~= row@.subrange(0, i as int));
    }
    assert(r@ =~= row@);
    r
}

/// The estimate for node `n`.
pub fn estimate_of(h: &Vec<u32>, n: usize) -> (r: u32)
    requires
        n < h@.len(),
    ensures
        r == h@[n as int],
{
    h[n]
}

/// Whether `n` is the goal.
pub fn is_goal(n: usize, goal: usize) -> (r: bool)
    ensures
        r == (n == goal),
{
    n == goal
}

/// Calls `pathfinding::directed::astar::astar` from `start` over the listed
/// successors, with `h` as the estimate and `goal` as the only target, and
/// returns the node sequence it finds (the cost it also returns is dropped).
/// Claimed of it, as its documentation states: a found path starts at
/// `start`, ends at the goal, follows listed steps and repeats no node; it is
/// a cheapest one whenever the estimate is admissible; `None` comes only when
/// the goal cannot be reached. Which of several cheapest paths comes back is
/// left unsaid. The bound on costs rules out an overflow panic in its sums.
#[verifier::external_body]
pub(crate) fn astar_path(w: &Vec<Vec<(usize, u32)>>, h: &Vec<u32>, start: usize, goal: usize) -> (r: Option<Vec<usize>>)
    requires
        weighted_wf(w@.map_values(|row: Vec<(usize, u32)>| row@)),
        h@.len() == w@.len(),
        start < w@.len(),
        goal < w@.len(),
        search_fits(w@.map_values(|row: Vec<(usize, u32)>| row@), h@),
    ensures
        ({
            let ws = w@.map_values(|row: Vec<(usize, u32)>| row@);
            match r {
                Some(p) => {
                    &&& walk_between(ws, p@, start, goal)
                    &&& p@.no_duplicates()
                    &&& admissible(ws, h@, goal) ==> forall|q: Seq<usize>|
                        #[trigger] walk_between(ws, q, start, goal) ==> walk_cost(ws, p@) <= walk_cost(ws, q)
                },
                None => !reachable(ws, start, goal),
            }
        }),
{
    pathfinding::directed::astar::astar(
        &start,
        |n: &usize| successors_of(w, *n),
        |n: &usize| estimate_of(h, *n),
        |n: &usize| is_goal(*n, goal),
    ).map(|(path, _cost)| path)
}

} // verus!
