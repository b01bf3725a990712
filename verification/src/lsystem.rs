use vstd::prelude::*;

verus! {

/// The production for `F`: `F[+F]F[-F]F`.
pub open spec fn production() -> Seq<char> {
    seq!['F', '[', '+', 'F', ']', 'F', '[', '-', 'F', ']', 'F']
}

/// What one symbol becomes in one rewriting step: `F` is replaced by the
/// production, every other symbol is kept.
pub open spec fn rewrite_symbol(c: char) -> Seq<char> {
    if c == 'F' { production() } else { seq![c] }
}

/// One rewriting step applied to every symbol of `s`.
pub open spec fn rewrite(s: Seq<char>) -> Seq<char>
    decreases s.len(),
{
    if s.len() == 0 {
        Seq::empty()
    } else {
        rewrite(s.drop_last()) + rewrite_symbol(s.last())
    }
}

/// `n` rewriting steps applied to `start`.
pub open spec fn derive(start: Seq<char>, n: nat) -> Seq<char>
    decreases n,
{
    if n == 0 { start } else { rewrite(derive(start, (n - 1) as nat)) }
}

/// How many times `c` occurs in `s`.
pub open spec fn count_of(s: Seq<char>, c: char) -> nat
    decreases s.len(),
{
    if s.len() == 0 {
        0
    } else {
        count_of(s.drop_last(), c) + if s.last() == c { 1nat } else { 0nat }
    }
}

/// The branching rewriting system of the trees: a start word and a number of steps.
pub struct LSystem {
    pub start: Vec<char>,
    pub iterations: usize,
}

/// Counting over a concatenation adds the counts.
pub proof fn lemma_count_concat(a: Seq<char>, b: Seq<char>, c: char)
    ensures
        count_of(a + b, c) == count_of(a, c) + count_of(b, c),
    decreases b.len(),
{
    if b.len() > 0 {
        lemma_count_concat(a, b.drop_last(), c);
        assert((a + b).drop_last() =~= a + b.drop_last());
    } else {
        assert(a + b =~= a);
    }
}

/// Rewriting is symbol by symbol: a concatenation is rewritten part by part.
pub proof fn law_rewrite_concat(a: Seq<char>, b: Seq<char>)
    ensures
        rewrite(a + b) == rewrite(a) + rewrite(b),
    decreases b.len(),
{
    if b.len() > 0 {
        law_rewrite_concat(a, b.drop_last());
        assert((a + b).drop_last() =~= a + b.drop_last());
        assert((a + b).last() == b.last());
        assert(rewrite(a) + rewrite(b.drop_last()) + rewrite_symbol(b.last()) =~= rewrite(a) + (rewrite(
            b.drop_last(),
        ) + rewrite_symbol(b.last())));
    } else {
        assert(a + b =~= a);
        assert(rewrite(a) + rewrite(b) =~= rewrite(a));
    }
}

/// Counting after appending one symbol.
pub proof fn lemma_count_push(s: Seq<char>, x: char, c: char)
    ensures
        count_of(s.push(x), c) == count_of(s, c) + if x == c { 1nat } else { 0nat },
{
    assert(s.push(x).drop_last() =~= s);
}

/// The production holds five `F`, two `[` and two `]`.
pub proof fn lemma_production_counts()
    ensures
        count_of(production(), 'F') == 5,
        count_of(production(), '[') == 2,
        count_of(production(), ']') == 2,
{
    let s0 = Seq::<char>::empty();
    let s1 = s0.push('F');
    let s2 = s1.push('[');
    let s3 = s2.push('+');
    let s4 = s3.push('F');
    let s5 = s4.push(']');
    let s6 = s5.push('F');
    let s7 = s6.push('[');
    let s8 = s7.push('-');
    let s9 = s8.push('F');
    let s10 = s9.push(']');
    let s11 = s10.push('F');
    assert(s11 =~= production());
    let cs = seq!['F', '[', ']'];
    assert forall|i: int| 0 <= i < 3 implies count_of(s11, #[trigger] cs[i]) == if cs[i] == 'F' { 5nat } else { 2nat } by {
        let c = cs[i];
        lemma_count_push(s0, 'F', c);
        lemma_count_push(s1, '[', c);
        lemma_count_push(s2, '+', c);
        lemma_count_push(s3, 'F', c);
        lemma_count_push(s4, ']', c);
        lemma_count_push(s5, 'F', c);
        lemma_count_push(s6, '[', c);
        lemma_count_push(s7, '-', c);
        lemma_count_push(s8, 'F', c);
        lemma_count_push(s9, ']', c);
        lemma_count_push(s10, 'F', c);
    }
    assert(cs[0] == 'F');
    assert(cs[1] == '[');
    assert(cs[2] == ']');
}

/// A kept symbol counts once for itself.
pub proof fn lemma_count_single(x: char, c: char)
    ensures
        count_of(seq![x], c) == if x == c { 1nat } else { 0nat },
{
    lemma_count_push(Seq::<char>::empty(), x, c);
    assert(Seq::<char>::empty().push(x) =~= seq![x]);
}

/// One rewriting step multiplies the number of `F` by five.
pub proof fn law_rewrite_quintuples_forward(s: Seq<char>)
    ensures
        count_of(rewrite(s), 'F') == 5 * count_of(s, 'F'),
    decreases s.len(),
{
    if s.len() > 0 {
        law_rewrite_quintuples_forward(s.drop_last());
        lemma_count_concat(rewrite(s.drop_last()), rewrite_symbol(s.last()), 'F');
        lemma_production_counts();
        lemma_count_single(s.last(), 'F');
        lemma_count_push(s.drop_last(), s.last(), 'F');
        assert(s.drop_last().push(s.last()) =~= s);
    }
}

/// One rewriting step adds ten symbols per `F` and keeps every other symbol.
pub proof fn law_rewrite_length(s: Seq<char>)
    ensures
        rewrite(s).len() == s.len() + 10 * count_of(s, 'F'),
    decreases s.len(),
{
    if s.len() > 0 {
        law_rewrite_length(s.drop_last());
    }
}

/// One rewriting step adds as many `[` as `]`, so the bracket balance of the
/// instructions is kept.
pub proof fn law_rewrite_keeps_bracket_balance(s: Seq<char>)
    ensures
        count_of(rewrite(s), '[') - count_of(rewrite(s), ']') == count_of(s, '[') - count_of(s, ']'),
    decreases s.len(),
{
    if s.len() > 0 {
        law_rewrite_keeps_bracket_balance(s.drop_last());
        lemma_count_concat(rewrite(s.drop_last()), rewrite_symbol(s.last()), '[');
        lemma_count_concat(rewrite(s.drop_last()), rewrite_symbol(s.last()), ']');
        lemma_production_counts();
        lemma_count_single(s.last(), '[');
        lemma_count_single(s.last(), ']');
        lemma_count_push(s.drop_last(), s.last(), '[');
        lemma_count_push(s.drop_last(), s.last(), ']');
        assert(s.drop_last().push(s.last()) =~= s);
    }
}

/// After `n` steps from a start word with `f` copies of `F` there are `f * 5^n`.
pub proof fn law_derive_forward_count(start: Seq<char>, n: nat)
    ensures
        count_of(derive(start, n), 'F') == count_of(start, 'F') * vstd::arithmetic::power::pow(5, n),
    decreases n,
{
    reveal(vstd::arithmetic::power::pow);
    if n > 0 {
        law_derive_forward_count(start, (n - 1) as nat);
        law_rewrite_quintuples_forward(derive(start, (n - 1) as nat));
        let p = vstd::arithmetic::power::pow(5, (n - 1) as nat);
        let f = count_of(start, 'F') as int;
        assert(5 * (f * p) == f * (5 * p)) by (nonlinear_arith);
    }
}

impl LSystem {
    /// Apply the production `iterations` times to the start.
    pub fn generate(&self) -> (r: Vec<char>)
        ensures
            r@ == derive(self.start@, self.iterations as nat),
    {
        let mut current: Vec<char> = self.start.clone();
        proof {
            assert(current@ =~= self.start@);
        }
        let mut n: usize = 0;
        while n < self.iterations
            invariant
                n <= self.iterations,
                current@ == derive(self.start@, n as nat),
            decreases self.iterations - n,
        {
            let mut next: Vec<char> = Vec::new();
            let mut i: usize = 0;
            while i < current.len()
                invariant
                    i <= current@.len(),
                    next@ == rewrite(current@.subrange(0, i as int)),
                decreases current@.len() - i,
            {
                let ch = current[i];
                proof {
                    assert(current@.subrange(0, i + 1).drop_last() =~= current@.subrange(0, i as int));
                    assert(current@.subrange(0, i + 1).last() == ch);
                }
                if ch == 'F' {
                    next.push('F');
                    next.push('[');
                    next.push('+');
                    next.push('F');
                    next.push(']');
                    next.push('F');
                    next.push('[');
                    next.push('-');
                    next.push('F');
                    next.push(']');
                    next.push('F');
                } else {
                    next.push(ch);
                }
                i = i + 1;
                assert(next@ =~= rewrite(current@.subrange(0, i as int)));
            }
            assert(current@.subrange(0, i as int) =~= current@);
            current = next;
            n = n + 1;
        }
        current
    }
}

/// The turtle's walk over the instructions `s`: the node it stands on, the
/// nodes saved by the still-open `[`, and the segments drawn so far as
/// (node drawn from, node drawn to). Node 0 is the root; the `k`-th `F` draws
/// a segment to the new node `k + 1`; `[` saves the current node and `]`
/// returns to the last saved one (a `]` with nothing saved changes nothing);
/// every other symbol only turns the turtle.
pub open spec fn turtle(s: Seq<char>) -> (int, Seq<int>, Seq<(int, int)>)
    decreases s.len(),
{
    if s.len() == 0 {
        (0, Seq::empty(), Seq::empty())
    } else {
        let prev = turtle(s.drop_last());
        let node = prev.0;
        let saved = prev.1;
        let segs = prev.2;
        let c = s.last();
        if c == 'F' {
            (segs.len() + 1int, saved, segs.push((node, segs.len() + 1int)))
        } else if c == '[' {
            (node, saved.push(node), segs)
        } else if c == ']' && saved.len() > 0 {
            (saved.last(), saved.drop_last(), segs)
        } else {
            prev
        }
    }
}

/// The walk draws one segment per `F`; the `k`-th segment ends at the new
/// node `k + 1` and starts at an earlier node, so the segments form a tree
/// rooted at node 0; the turtle only ever stands on, or saves, nodes already
/// drawn.
pub proof fn law_turtle_draws_a_tree(s: Seq<char>)
    ensures
        turtle(s).2.len() == count_of(s, 'F'),
        0 <= turtle(s).0 <= turtle(s).2.len(),
        forall|j: int| 0 <= j < turtle(s).1.len() ==> 0 <= #[trigger] turtle(s).1[j] <= turtle(s).2.len(),
        forall|k: int| 0 <= k < turtle(s).2.len() ==> (#[trigger] turtle(s).2[k]).1 == k + 1 && 0 <= turtle(s).2[k].0 <= k,
    decreases s.len(),
{
    if s.len() > 0 {
        law_turtle_draws_a_tree(s.drop_last());
    }
}

/// How many more `[` than `]` the symbols `s` hold.
pub open spec fn bracket_depth(s: Seq<char>) -> int {
    count_of(s, '[') - count_of(s, ']')
}

/// No prefix of `s` closes more brackets than it opened.
pub open spec fn never_overcloses(s: Seq<char>) -> bool {
    forall|i: int| 0 <= i <= s.len() ==> bracket_depth(#[trigger] s.subrange(0, i)) >= 0
}

/// Every bracket `s` opens it closes again, and it never closes one it did not open.
pub open spec fn balanced(s: Seq<char>) -> bool {
    never_overcloses(s) && bracket_depth(s) == 0
}

/// Reading symbols that never close more brackets than they open leaves the
/// nodes saved before them in place, with one more saved node per bracket
/// left open.
proof fn lemma_open_brackets_keep_saved(x: Seq<char>, b: Seq<char>)
    requires
        never_overcloses(b),
    ensures
        turtle(x + b).1.len() == turtle(x).1.len() + bracket_depth(b),
        turtle(x + b).1.subrange(0, turtle(x).1.len() as int) == turtle(x).1,
    decreases b.len(),
{
    if b.len() == 0 {
        assert(x + b =~= x);
        assert(turtle(x).1.subrange(0, turtle(x).1.len() as int) =~= turtle(x).1);
    } else {
        let b1 = b.drop_last();
        assert forall|i: int| 0 <= i <= b1.len() implies bracket_depth(#[trigger] b1.subrange(0, i)) >= 0 by {
            assert(b1.subrange(0, i) =~= b.subrange(0, i));
            assert(bracket_depth(b.subrange(0, i)) >= 0);
        }
        lemma_open_brackets_keep_saved(x, b1);
        assert((x + b).drop_last() =~= x + b1);
        assert((x + b).last() == b.last());
        assert(b.subrange(0, b.len() as int) =~= b);
        assert(bracket_depth(b.subrange(0, b.len() as int)) >= 0);
        assert(b.drop_last() == b1);
        let prev = turtle(x + b1);
        let n = turtle(x).1.len() as int;
        if b.last() == '[' {
            assert(prev.1.push(prev.0).subrange(0, n) =~= prev.1.subrange(0, n));
        } else if b.last() == ']' {
            assert(prev.1.len() > n);
            assert(prev.1.drop_last().subrange(0, n) =~= prev.1.subrange(0, n));
        }
    }
}

/// A `]` returns the turtle to where its matching `[` stood: after
/// `a`, `[`, any bracket-balanced `b`, and `]`, the turtle stands on the node
/// it stood on after `a`, with the same nodes saved.
pub proof fn law_closing_bracket_returns(a: Seq<char>, b: Seq<char>)
    requires
        balanced(b),
    ensures
        turtle(a + seq!['['] + b + seq![']']).0 == turtle(a).0,
        turtle(a + seq!['['] + b + seq![']']).1 == turtle(a).1,
{
    let x = a + seq!['['];
    let s = x + b + seq![']'];
    assert(a + seq!['['] + b + seq![']'] == s);
    assert(x.drop_last() =~= a);
    assert(x.last() == '[');
    assert(turtle(x).1 == turtle(a).1.push(turtle(a).0));
    lemma_open_brackets_keep_saved(x, b);
    let mid = turtle(x + b);
    assert(mid.1.len() == turtle(x).1.len());
    assert(mid.1 =~= mid.1.subrange(0, turtle(x).1.len() as int));
    assert(mid.1 == turtle(x).1);
    assert(s.drop_last() =~= x + b);
    assert(s.last() == ']');
    assert(turtle(x).1.drop_last() =~= turtle(a).1);
}

/// A forward step draws one new segment, from the node the turtle stands on
/// to a node numbered one past all earlier segments, and moves the turtle
/// there; the saved nodes stay as they were.
pub proof fn law_forward_step_grows_from_current_node(a: Seq<char>)
    ensures
        turtle(a + seq!['F']).2 == turtle(a).2.push((turtle(a).0, count_of(a, 'F') + 1int)),
        turtle(a + seq!['F']).0 == count_of(a, 'F') + 1,
        turtle(a + seq!['F']).1 == turtle(a).1,
{
    let s = a + seq!['F'];
    assert(s.drop_last() =~= a);
    law_turtle_draws_a_tree(a);
}

/// Turning symbols draw nothing and move the turtle to no other node.
pub proof fn law_turns_draw_nothing(a: Seq<char>, c: char)
    requires
        c != 'F',
        c != '[',
        c != ']',
    ensures
        turtle(a + seq![c]) == turtle(a),
{
    let s = a + seq![c];
    assert(s.drop_last() =~= a);
}

/// The nodes the turtle stands on at each `]` of `s`, in order: a leaf grows
/// at every branch tip the turtle leaves.
pub open spec fn turtle_leaves(s: Seq<char>) -> Seq<int>
    decreases s.len(),
{
    if s.len() == 0 {
        Seq::empty()
    } else {
        turtle_leaves(s.drop_last()) + if s.last() == ']' {
            seq![turtle(s.drop_last()).0]
        } else {
            Seq::<int>::empty()
        }
    }
}

/// One leaf per `]`, each on a node already drawn.
pub proof fn law_one_leaf_per_closing_bracket(s: Seq<char>)
    ensures
        turtle_leaves(s).len() == count_of(s, ']'),
        forall|k: int| 0 <= k < turtle_leaves(s).len() ==> 0 <= #[trigger] turtle_leaves(s)[k] <= turtle(s).2.len(),
    decreases s.len(),
{
    if s.len() > 0 {
        law_one_leaf_per_closing_bracket(s.drop_last());
        law_turtle_draws_a_tree(s.drop_last());
        law_turtle_draws_a_tree(s);
        let prev = turtle_leaves(s.drop_last());
        let tail = if s.last() == ']' { seq![turtle(s.drop_last()).0] } else { Seq::<int>::empty() };
        assert(turtle_leaves(s) == prev + tail);
        assert forall|k: int| 0 <= k < turtle_leaves(s).len() implies 0 <= #[trigger] turtle_leaves(s)[k]
            <= turtle(s).2.len() by {
            if k < prev.len() {
                assert(turtle_leaves(s)[k] == prev[k]);
            } else {
                assert(turtle_leaves(s)[k] == tail[k - prev.len()]);
            }
        }
    }
}

/// The turtle's walk over `instructions`: its segments and its leaves.
fn walk(instructions: &Vec<char>) -> (out: (Vec<(usize, usize)>, Vec<usize>))
    requires
        instructions@.len() < usize::MAX,
    ensures
        out.0@.len() == turtle(instructions@).2.len(),
        forall|k: int| 0 <= k < out.0@.len() ==> (#[trigger] out.0@[k]).0 == turtle(instructions@).2[k].0
            && out.0@[k].1 == turtle(instructions@).2[k].1,
        out.1@.len() == turtle_leaves(instructions@).len(),
        forall|k: int| 0 <= k < out.1@.len() ==> #[trigger] out.1@[k] == turtle_leaves(instructions@)[k],
{
    let mut r: Vec<(usize, usize)> = Vec::new();
    let mut leaves: Vec<usize> = Vec::new();
    let mut saved: Vec<usize> = Vec::new();
    let mut node: usize = 0;
    let mut i: usize = 0;
    while i < instructions.len()
        invariant
            i <= instructions@.len(),
            instructions@.len() < usize::MAX,
            r@.len() <= i,
            node == turtle(instructions@.subrange(0, i as int)).0,
            saved@.len() == turtle(instructions@.subrange(0, i as int)).1.len(),
            forall|j: int| 0 <= j < saved@.len() ==> #[trigger] saved@[j] == turtle(instructions@.subrange(0, i as int)).1[j],
            r@.len() == turtle(instructions@.subrange(0, i as int)).2.len(),
            forall|k: int| 0 <= k < r@.len() ==> (#[trigger] r@[k]).0 == turtle(instructions@.subrange(0, i as int)).2[k].0
                && r@[k].1 == turtle(instructions@.subrange(0, i as int)).2[k].1,
            leaves@.len() == turtle_leaves(instructions@.subrange(0, i as int)).len(),
            forall|k: int| 0 <= k < leaves@.len() ==> #[trigger] leaves@[k] == turtle_leaves(instructions@.subrange(0, i as int))[k],
        decreases instructions@.len() - i,
    {
        let ghost pre = instructions@.subrange(0, i as int);
        let ghost next = instructions@.subrange(0, i + 1);
        proof {
            assert(next.drop_last() =~= pre);
            assert(next.last() == instructions@[i as int]);
            law_turtle_draws_a_tree(pre);
        }
        let ch = instructions[i];
        if ch == 'F' {
            let to = r.len() + 1;
            r.push((node, to));
            node = to;
        } else if ch == '[' {
            saved.push(node);
        } else if ch == ']' {
            leaves.push(node);
            if saved.len() > 0 {
                let last = saved.len() - 1;
                node = saved[last];
                saved.pop();
            }
        }
        i = i + 1;
        proof {
            assert(instructions@.subrange(0, i as int) == next);
            let lp = turtle_leaves(pre);
            let tail = if next.last() == ']' { seq![turtle(pre).0] } else { Seq::<int>::empty() };
            assert(turtle_leaves(next) == lp + tail);
            assert forall|k: int| 0 <= k < leaves@.len() implies #[trigger] leaves@[k] == turtle_leaves(next)[k] by {
                if k < lp.len() {
                    assert(turtle_leaves(next)[k] == lp[k]);
                } else {
                    assert(turtle_leaves(next)[k] == tail[k - lp.len()]);
                }
            }
        }
    }
    proof {
        assert(instructions@.subrange(0, i as int) =~= instructions@);
    }
    (r, leaves)
}

/// The segments of the turtle's walk over `instructions`, each as
/// (node drawn from, node drawn to).
pub fn skeleton(instructions: &Vec<char>) -> (r: Vec<(usize, usize)>)
    requires
        instructions@.len() < usize::MAX,
    ensures
        r@.len() == turtle(instructions@).2.len(),
        forall|k: int| 0 <= k < r@.len() ==> (#[trigger] r@[k]).0 == turtle(instructions@).2[k].0
            && r@[k].1 == turtle(instructions@).2[k].1,
        r@.len() == count_of(instructions@, 'F'),
        forall|k: int| 0 <= k < r@.len() ==> (#[trigger] r@[k]).1 == k + 1 && r@[k].0 <= k,
{
    let (r, _leaves) = walk(instructions);
    proof {
        law_turtle_draws_a_tree(instructions@);
    }
    r
}

/// The node of each leaf of the turtle's walk over `instructions`: one leaf
/// per `]`, at the node the turtle stands on when it reads it.
pub fn leaf_nodes(instructions: &Vec<char>) -> (r: Vec<usize>)
    requires
        instructions@.len() < usize::MAX,
    ensures
        r@.len() == turtle_leaves(instructions@).len(),
        forall|k: int| 0 <= k < r@.len() ==> #[trigger] r@[k] == turtle_leaves(instructions@)[k],
        r@.len() == count_of(instructions@, ']'),
        forall|k: int| 0 <= k < r@.len() ==> #[trigger] r@[k] <= count_of(instructions@, 'F'),
{
    let (_segments, leaves) = walk(instructions);
    proof {
        law_one_leaf_per_closing_bracket(instructions@);
        law_turtle_draws_a_tree(instructions@);
        assert forall|k: int| 0 <= k < leaves@.len() implies #[trigger] leaves@[k] <= count_of(instructions@, 'F') by {
            assert(leaves@[k] == turtle_leaves(instructions@)[k]);
        }
    }
    leaves
}

} // verus!
