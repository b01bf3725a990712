use vstd::prelude::*;
use std::collections::HashMap;

verus! {

/// Number of `i32` values: the stride that packs cell coordinates.
pub open spec fn coord_span() -> int {
    0x1_0000_0000
}

/// A cell of the uniform grid, by its integer coordinates.
pub type Cell = (i32, i32, i32);

/// The single integer that names a cell: the three coordinates, each shifted
/// to be non-negative, as digits of base `2^32`.
pub open spec fn cell_code(c: Cell) -> int {
    (c.0 + 0x8000_0000) * coord_span() * coord_span() + (c.1 + 0x8000_0000) * coord_span() + (c.2
        + 0x8000_0000)
}

/// Distinct cells have distinct codes.
pub proof fn lemma_cell_code_injective(c: Cell, d: Cell)
    requires
        cell_code(c) == cell_code(d),
    ensures
        c == d,
{
    let a0 = c.0 + 0x8000_0000;
    let a1 = c.1 + 0x8000_0000;
    let a2 = c.2 + 0x8000_0000;
    let b0 = d.0 + 0x8000_0000;
    let b1 = d.1 + 0x8000_0000;
    let b2 = d.2 + 0x8000_0000;
    assert(a0 * 0x1_0000_0000_0000_0000 + a1 * 0x1_0000_0000 + a2 == b0 * 0x1_0000_0000_0000_0000 + b1
        * 0x1_0000_0000 + b2);
    assert(a2 == b2 && a1 == b1 && a0 == b0) by (nonlinear_arith)
        requires
            a0 * 0x1_0000_0000_0000_0000 + a1 * 0x1_0000_0000 + a2 == b0 * 0x1_0000_0000_0000_0000 + b1
                * 0x1_0000_0000 + b2,
            0 <= a0 < 0x1_0000_0000,
            0 <= a1 < 0x1_0000_0000,
            0 <= a2 < 0x1_0000_0000,
            0 <= b0 < 0x1_0000_0000,
            0 <= b1 < 0x1_0000_0000,
            0 <= b2 < 0x1_0000_0000,
    ;
}

/// Cell codes fit in an `i128`.
pub proof fn lemma_cell_code_range(c: Cell)
    ensures
        0 <= cell_code(c) < 0x1_0000_0000_0000_0000_0000_0000,
{
    let a0 = c.0 + 0x8000_0000;
    let a1 = c.1 + 0x8000_0000;
    let a2 = c.2 + 0x8000_0000;
    assert(0 <= a0 * 0x1_0000_0000_0000_0000 + a1 * 0x1_0000_0000 + a2 < 0x1_0000_0000_0000_0000_0000_0000) by (nonlinear_arith)
        requires
            0 <= a0 < 0x1_0000_0000,
            0 <= a1 < 0x1_0000_0000,
            0 <= a2 < 0x1_0000_0000,
    ;
}

fn code_of(c: Cell) -> (r: i128)
    ensures
        r == cell_code(c),
{
    proof { lemma_cell_code_range(c); }
    let a0 = c.0 as i128 + 0x8000_0000;
    let a1 = c.1 as i128 + 0x8000_0000;
    let a2 = c.2 as i128 + 0x8000_0000;
    a0 * 0x1_0000_0000_0000_0000 + a1 * 0x1_0000_0000 + a2
}

/// The `k`-th of the 27 offsets of a 3x3x3 block, `x` slowest and `z` fastest.
pub open spec fn block_offset(k: int) -> (int, int, int) {
    (k / 9 - 1, (k / 3) % 3 - 1, k % 3 - 1)
}

/// Whether `v` is an `i32` value.
pub open spec fn in_i32(v: int) -> bool {
    i32::MIN <= v <= i32::MAX
}

/// The cell at the `k`-th block offset from `c`, if its coordinates are `i32`.
pub open spec fn block_cell(c: Cell, k: int) -> Option<Cell> {
    let o = block_offset(k);
    let x = c.0 + o.0;
    let y = c.1 + o.1;
    let z = c.2 + o.2;
    if in_i32(x) && in_i32(y) && in_i32(z) {
        Some((x as i32, y as i32, z as i32))
    } else {
        None
    }
}

/// `d` lies in the 3x3x3 block of cells centred on `c`.
pub open spec fn in_block(c: Cell, d: Cell) -> bool {
    &&& -1 <= d.0 - c.0 <= 1
    &&& -1 <= d.1 - c.1 <= 1
    &&& -1 <= d.2 - c.2 <= 1
}

/// Each cell of the block around `c` is one of the 27 offsets.
pub proof fn lemma_block_offsets(c: Cell, d: Cell)
    requires
        in_block(c, d),
    ensures
        block_cell(c, (d.0 - c.0 + 1) * 9 + (d.1 - c.1 + 1) * 3 + (d.2 - c.2 + 1)) == Some(d),
        0 <= (d.0 - c.0 + 1) * 9 + (d.1 - c.1 + 1) * 3 + (d.2 - c.2 + 1) < 27,
{
    let a = d.0 - c.0 + 1;
    let b = d.1 - c.1 + 1;
    let e = d.2 - c.2 + 1;
    let k = a * 9 + b * 3 + e;
    assert(k / 9 == a && (k / 3) % 3 == b && k % 3 == e) by (nonlinear_arith)
        requires
            0 <= a <= 2,
            0 <= b <= 2,
            0 <= e <= 2,
            k == a * 9 + b * 3 + e,
    ;
}

/// Every offset cell lies in the block.
pub proof fn lemma_block_cell_in_block(c: Cell, k: int)
    requires
        0 <= k < 27,
        block_cell(c, k) is Some,
    ensures
        in_block(c, block_cell(c, k)->0),
{
    assert(0 <= k / 9 <= 2 && 0 <= (k / 3) % 3 <= 2 && 0 <= k % 3 <= 2) by (nonlinear_arith)
        requires 0 <= k < 27;
}

/// The entities that the inserts `ins` record in cell `d`, in order.
pub open spec fn cell_log(ins: Seq<(u64, Cell)>, d: Cell) -> Seq<u64>
    decreases ins.len(),
{
    if ins.len() == 0 {
        Seq::empty()
    } else {
        cell_log(ins.drop_last(), d) + if ins.last().1 == d {
            seq![ins.last().0]
        } else {
            Seq::<u64>::empty()
        }
    }
}

/// A cell's log holds `e` exactly when some insert put `e` into that cell.
pub proof fn lemma_cell_log_contains(ins: Seq<(u64, Cell)>, d: Cell, e: u64)
    ensures
        cell_log(ins, d).contains(e) <==> exists|k: int| 0 <= k < ins.len() && #[trigger] ins[k] == (e, d),
    decreases ins.len(),
{
    if ins.len() > 0 {
        let prev = ins.drop_last();
        lemma_cell_log_contains(prev, d, e);
        let head = cell_log(prev, d);
        let tail = if ins.last().1 == d { seq![ins.last().0] } else { Seq::<u64>::empty() };
        let all = head + tail;
        assert(cell_log(ins, d) == all);
        if all.contains(e) {
            let i = choose|i: int| 0 <= i < all.len() && all[i] == e;
            if i < head.len() {
                assert(head[i] == e);
                let k = choose|k: int| 0 <= k < prev.len() && #[trigger] prev[k] == (e, d);
                assert(ins[k] == (e, d));
            } else {
                assert(tail[i - head.len()] == e);
                assert(ins[ins.len() - 1] == (e, d));
            }
        }
        if exists|k: int| 0 <= k < ins.len() && #[trigger] ins[k] == (e, d) {
            let k = choose|k: int| 0 <= k < ins.len() && #[trigger] ins[k] == (e, d);
            if k < ins.len() - 1 {
                assert(prev[k] == (e, d));
                let i = choose|i: int| 0 <= i < head.len() && head[i] == e;
                assert(all[i] == e);
            } else {
                assert(tail[0] == e);
                assert(all[head.len() as int] == e);
            }
        }
    }
}

/// Uniform-grid index: the entities (by id) recorded in each cell.
pub struct SpatialIndex {
    map: HashMap<i128, Vec<u64>>,
}

impl SpatialIndex {
    /// The entities recorded in cell `c`, in insertion order.
    #[verifier::opaque]
    pub closed spec fn cell(&self, c: Cell) -> Seq<u64> {
        if self.map@.contains_key(cell_code(c) as i128) {
            self.map@[cell_code(c) as i128]@
        } else {
            Seq::empty()
        }
    }


    /// The entities of the first `k` block offsets around `c`, in offset order.
    pub closed spec fn gathered(&self, c: Cell, k: int) -> Seq<u64>
        decreases k,
    {
        if k <= 0 {
            Seq::empty()
        } else {
            self.gathered(c, k - 1) + match block_cell(c, k - 1) {
                Some(d) => self.cell(d),
                None => Seq::empty(),
            }
        }
    }

    /// The entities of the whole 3x3x3 block of cells centred on `c`.
    pub closed spec fn nearby(&self, c: Cell) -> Seq<u64> {
        self.gathered(c, 27)
    }

    /// An entity is gathered from the first `k` offsets exactly when one of
    /// those offset cells holds it.
    pub proof fn lemma_gathered_contains(&self, c: Cell, k: int, e: u64)
        requires
            0 <= k,
        ensures
            self.gathered(c, k).contains(e) <==> exists|j: int|
                0 <= j < k && #[trigger] block_cell(c, j) is Some && self.cell(block_cell(c, j)->0).contains(e),
        decreases k,
    {
        if k > 0 {
            self.lemma_gathered_contains(c, k - 1, e);
            let prev = self.gathered(c, k - 1);
            let last = match block_cell(c, k - 1) {
                Some(d) => self.cell(d),
                None => Seq::<u64>::empty(),
            };
            let all = prev + last;
            assert(self.gathered(c, k) == all);
            if all.contains(e) {
                let i = choose|i: int| 0 <= i < all.len() && all[i] == e;
                if i < prev.len() {
                    assert(prev[i] == e);
                } else {
                    assert(last[i - prev.len()] == e);
                    assert(block_cell(c, k - 1) is Some);
                }
            }
            if exists|j: int| 0 <= j < k && #[trigger] block_cell(c, j) is Some && self.cell(block_cell(c, j)->0).contains(e) {
                let j = choose|j: int| 0 <= j < k && #[trigger] block_cell(c, j) is Some && self.cell(block_cell(c, j)->0).contains(e);
                if j < k - 1 {
                    let i = choose|i: int| 0 <= i < prev.len() && prev[i] == e;
                    assert(all[i] == e);
                } else {
                    let i = choose|i: int| 0 <= i < last.len() && last[i] == e;
                    assert(all[prev.len() + i] == e);
                }
            }
        }
    }

    /// All entities recorded in the 3x3x3 block of cells centred on `c`:
    /// offsets from -1 to 1 on each axis, `x` slowest, cells in insertion
    /// order; offsets that leave the `i32` range are skipped.
    pub fn get_nearby(&self, c: Cell) -> (r: Vec<u64>)
        ensures
            r@ == self.nearby(c),
    {
        let mut r: Vec<u64> = Vec::new();
        let mut k: u32 = 0;
        while k < 27
            invariant
                k <= 27,
                r@ == self.gathered(c, k as int),
            decreases 27 - k,
        {
            let ox = (k / 9) as i64 - 1;
            let oy = ((k / 3) % 3) as i64 - 1;
            let oz = (k % 3) as i64 - 1;
            let x = c.0 as i64 + ox;
            let y = c.1 as i64 + oy;
            let z = c.2 as i64 + oz;
            if i32::MIN as i64 <= x && x <= i32::MAX as i64 && i32::MIN as i64 <= y && y <= i32::MAX as i64
                && i32::MIN as i64 <= z && z <= i32::MAX as i64 {
                let d: Cell = (x as i32, y as i32, z as i32);
                assert(block_cell(c, k as int) == Some(d));
                let key = code_of(d);
                match self.map.get(&key) {
                    Some(row) => {
                        assert(row@ == self.cell(d)) by { reveal(SpatialIndex::cell); }
                        let mut i: usize = 0;
                        let ghost start = r@;
                        while i < row.len()
                            invariant
                                i <= row@.len(),
                                r@ == start + row@.subrange(0, i as int),
                            decreases row@.len() - i,
                        {
                            r.push(row[i]);
                            i = i + 1;
                            assert(r@ =~= start + row@.subrange(0, i as int));
                        }
                        assert(row@.subrange(0, i as int) =~= row@);
                    },
                    None => {
                        assert(self.cell(d) == Seq::<u64>::empty()) by { reveal(SpatialIndex::cell); }
                        assert(r@ + self.cell(d) =~= r@);
                    },
                }
            } else {
                assert(block_cell(c, k as int) is None);
                assert(r@ + Seq::<u64>::empty() =~= r@);
            }
            k = k + 1;
        }
        r
    }


    /// The neighbourhood query finds an entity exactly when some cell of the
    /// 3x3x3 block around the query cell holds it.
    pub proof fn law_nearby_iff_in_block(&self, c: Cell, e: u64)
        ensures
            self.nearby(c).contains(e) <==> exists|d: Cell| in_block(c, d) && #[trigger] self.cell(d).contains(e),
    {
        self.lemma_gathered_contains(c, 27, e);
        if self.nearby(c).contains(e) {
            let j = choose|j: int| 0 <= j < 27 && #[trigger] block_cell(c, j) is Some && self.cell(block_cell(c, j)->0).contains(e);
            lemma_block_cell_in_block(c, j);
        }
        if exists|d: Cell| in_block(c, d) && #[trigger] self.cell(d).contains(e) {
            let d = choose|d: Cell| in_block(c, d) && #[trigger] self.cell(d).contains(e);
            lemma_block_offsets(c, d);
            let j = (d.0 - c.0 + 1) * 9 + (d.1 - c.1 + 1) * 3 + (d.2 - c.2 + 1);
            assert(block_cell(c, j) is Some && self.cell(block_cell(c, j)->0).contains(e));
        }
    }

    /// `after` is `before` with `e` recorded last in cell `c` and every other
    /// cell unchanged: what `insert(e, c)` does.
    pub open spec fn insert_step(before: SpatialIndex, after: SpatialIndex, e: u64, c: Cell) -> bool {
        &&& after.cell(c) == before.cell(c).push(e)
        &&& forall|d: Cell| d != c ==> #[trigger] after.cell(d) == before.cell(d)
    }

    /// After the first `k` inserts from an empty index, each cell holds its log.
    proof fn lemma_states_follow_log(states: Seq<SpatialIndex>, ins: Seq<(u64, Cell)>, k: int, d: Cell)
        requires
            states.len() == ins.len() + 1,
            forall|c: Cell| #[trigger] states[0].cell(c) == Seq::<u64>::empty(),
            forall|j: int| 0 <= j < ins.len() ==> #[trigger] Self::insert_step(states[j], states[j + 1], ins[j].0, ins[j].1),
            0 <= k <= ins.len(),
        ensures
            states[k].cell(d) == cell_log(ins.take(k), d),
        decreases k,
    {
        if k == 0 {
            assert(ins.take(0) =~= Seq::<(u64, Cell)>::empty());
        } else {
            let j = k - 1;
            Self::lemma_states_follow_log(states, ins, j, d);
            assert(Self::insert_step(states[j], states[j + 1], ins[j].0, ins[j].1));
            let pre = ins.take(j);
            let cur = ins.take(k);
            assert(cur.drop_last() =~= pre);
            assert(cur.last() == ins[j]);
            let tail = if ins[j].1 == d { seq![ins[j].0] } else { Seq::<u64>::empty() };
            assert(cell_log(cur, d) == cell_log(pre, d) + tail);
            if ins[j].1 == d {
                assert(states[k].cell(d) =~= cell_log(pre, d) + tail);
            } else {
                assert(cell_log(pre, d) + tail =~= cell_log(pre, d));
            }
        }
    }

    /// Starting from an index with every cell empty (as `new` and `clear`
    /// leave it) and recording the entities of `ins` one after another, each
    /// in its cell, a query from cell `q` finds entity `e` exactly when `e`
    /// was inserted into some cell of the 3x3x3 block around `q`.
    pub proof fn law_inserts_found_iff_in_block(states: Seq<SpatialIndex>, ins: Seq<(u64, Cell)>, q: Cell, e: u64)
        requires
            states.len() == ins.len() + 1,
            forall|c: Cell| #[trigger] states[0].cell(c) == Seq::<u64>::empty(),
            forall|j: int| 0 <= j < ins.len() ==> #[trigger] Self::insert_step(states[j], states[j + 1], ins[j].0, ins[j].1),
        ensures
            states[ins.len() as int].nearby(q).contains(e) <==> exists|k: int|
                0 <= k < ins.len() && (#[trigger] ins[k]).0 == e && in_block(q, ins[k].1),
    {
        let n = ins.len() as int;
        let last = states[n];
        last.law_nearby_iff_in_block(q, e);
        assert(ins.take(n) =~= ins);
        if last.nearby(q).contains(e) {
            let d = choose|d: Cell| in_block(q, d) && #[trigger] last.cell(d).contains(e);
            Self::lemma_states_follow_log(states, ins, n, d);
            lemma_cell_log_contains(ins, d, e);
            let k = choose|k: int| 0 <= k < ins.len() && #[trigger] ins[k] == (e, d);
            assert(ins[k].0 == e && in_block(q, ins[k].1));
        }
        if exists|k: int| 0 <= k < ins.len() && (#[trigger] ins[k]).0 == e && in_block(q, ins[k].1) {
            let k = choose|k: int| 0 <= k < ins.len() && (#[trigger] ins[k]).0 == e && in_block(q, ins[k].1);
            let d = ins[k].1;
            Self::lemma_states_follow_log(states, ins, n, d);
            lemma_cell_log_contains(ins, d, e);
            assert(ins[k] == (e, d));
            assert(last.cell(d).contains(e));
        }
    }

    /// An entity recorded in a cell is found by a query from that cell or any
    /// adjacent one (diagonals included).
    pub proof fn law_insert_then_found_nearby(before: &Self, after: &Self, e: u64, c: Cell, q: Cell)
        requires
            after.cell(c) == before.cell(c).push(e),
            in_block(q, c),
        ensures
            after.nearby(q).contains(e),
    {
        assert(after.cell(c)[before.cell(c).len() as int] == e);
        assert(after.cell(c).contains(e));
        after.law_nearby_iff_in_block(q, e);
        assert(in_block(q, c) && after.cell(c).contains(e));
    }

    /// A query never reports an entity that is recorded only outside the
    /// 3x3x3 block around the query cell.
    pub proof fn law_distant_not_found(&self, e: u64, q: Cell)
        requires
            forall|d: Cell| #[trigger] self.cell(d).contains(e) ==> !in_block(q, d),
        ensures
            !self.nearby(q).contains(e),
    {
        self.law_nearby_iff_in_block(q, e);
    }

    /// With every cell empty (after `new` or `clear`) a query finds nothing.
    pub proof fn law_empty_finds_nothing(&self, q: Cell)
        requires
            forall|c: Cell| #[trigger] self.cell(c) == Seq::<u64>::empty(),
        ensures
            self.nearby(q) == Seq::<u64>::empty(),
    {
        assert forall|e: u64| !self.nearby(q).contains(e) by {
            self.law_nearby_iff_in_block(q, e);
            if exists|d: Cell| in_block(q, d) && #[trigger] self.cell(d).contains(e) {
                let d = choose|d: Cell| in_block(q, d) && #[trigger] self.cell(d).contains(e);
                assert(self.cell(d) == Seq::<u64>::empty());
            }
        }
        if self.nearby(q).len() > 0 {
            assert(self.nearby(q).contains(self.nearby(q)[0]));
        }
    }

    /// An index with every cell empty.
    pub fn new() -> (r: Self)
        ensures
            forall|c: Cell| #[trigger] r.cell(c) == Seq::<u64>::empty(),
    {
        proof { reveal(SpatialIndex::cell); }
        SpatialIndex { map: HashMap::new() }
    }

    /// Forget every recorded entity.
    pub fn clear(&mut self)
        ensures
            forall|c: Cell| #[trigger] final(self).cell(c) == Seq::<u64>::empty(),
    {
        proof { reveal(SpatialIndex::cell); }
        self.map.clear();
    }

    /// Record `entity` in cell `c`.
    pub fn insert(&mut self, entity: u64, c: Cell)
        ensures
            final(self).cell(c) == old(self).cell(c).push(entity),
            forall|d: Cell| d != c ==> #[trigger] final(self).cell(d) == old(self).cell(d),
            Self::insert_step(*old(self), *final(self), entity, c),
    {
        proof { reveal(SpatialIndex::cell); }
        let key = code_of(c);
        let removed = self.map.remove(&key);
        let mut row = match removed {
            Some(v) => v,
            None => Vec::new(),
        };
        row.push(entity);
        self.map.insert(key, row);
        assert forall|d: Cell| d != c implies #[trigger] self.cell(d) == old(self).cell(d) by {
            lemma_cell_code_range(c);
            lemma_cell_code_range(d);
            if cell_code(d) == cell_code(c) {
                lemma_cell_code_injective(d, c);
            }
        }
    }
}

} // verus!
