//! Conservation: what scoring adds up by sample and what transposed scoring
//! adds up by slot come to the same total, whatever the leaves are worth.
//!
//! The sums here are sums of integers, which do not depend on their order. The
//! caller's sums are of rounded numbers and agree up to rounding only.

use crate::forest::{landing, Landing};
use crate::layout::{ascending, neighbours};
use crate::node::Node;
use crate::scoring::forest_landings;
use crate::transpose::{forest_lands, lemma_slots_lie_in_output, transposed_landings, tree_lands};
use vstd::prelude::*;

verus! {

/// The sum of `f` over the integers from 0 up to, not including, `n`.
pub open spec fn sum_to(f: spec_fn(int) -> int, n: nat) -> int
    decreases n,
{
    if n == 0 {
        0
    } else {
        sum_to(f, (n - 1) as nat) + f(n - 1)
    }
}

/// The score of one sample, where a leaf at position `p` of the forest is
/// worth `value(p)`: the sum over the trees of the worth of the leaf that the
/// sample reaches.
pub open spec fn score(value: spec_fn(usize) -> int, row: Seq<Landing>) -> int {
    sum_to(|t: int| value(row[t].leaf), row.len())
}

/// The sum of the scores of all samples.
pub open spec fn scores_total(value: spec_fn(usize) -> int, table: Seq<Seq<Landing>>) -> int {
    sum_to(|i: int| score(value, table[i]), table.len())
}

/// What transposed scoring adds up in one slot of its output: over the trees
/// and the samples, the worth of each leaf that names the slot.
pub open spec fn slot_value(value: spec_fn(usize) -> int, table: Seq<Seq<Landing>>, slot: int) -> int {
    sum_to(
        |t: int|
            sum_to(
                |i: int|
                    if table[t][i].slot == slot {
                        value(table[t][i].leaf)
                    } else {
                        0
                    },
                table[t].len(),
            ),
        table.len(),
    )
}

/// The sum of the first `n_values` slots of the output of transposed scoring.
pub open spec fn values_total(
    value: spec_fn(usize) -> int,
    table: Seq<Seq<Landing>>,
    n_values: nat,
) -> int {
    sum_to(|slot: int| slot_value(value, table, slot), n_values)
}

/// Sums of functions that agree below `n` agree.
pub proof fn lemma_sum_congruent(f: spec_fn(int) -> int, g: spec_fn(int) -> int, n: nat)
    requires
        forall|k: int| 0 <= k < n ==> #[trigger] f(k) == g(k),
    ensures
        sum_to(f, n) == sum_to(g, n),
    decreases n,
{
    if n > 0 {
        lemma_sum_congruent(f, g, (n - 1) as nat);
    }
}

/// The sum of a sum of two functions is the sum of their sums.
pub proof fn lemma_sum_splits(
    f: spec_fn(int) -> int,
    g: spec_fn(int) -> int,
    h: spec_fn(int) -> int,
    n: nat,
)
    requires
        forall|k: int| 0 <= k < n ==> #[trigger] h(k) == f(k) + g(k),
    ensures
        sum_to(h, n) == sum_to(f, n) + sum_to(g, n),
    decreases n,
{
    if n > 0 {
        lemma_sum_splits(f, g, h, (n - 1) as nat);
    }
}

/// A function that is `c` at `k` and 0 elsewhere sums to `c`.
pub proof fn lemma_sum_picks(f: spec_fn(int) -> int, n: nat, k: int, c: int)
    requires
        0 <= k < n,
        forall|s: int|
            0 <= s < n ==> #[trigger] f(s) == if s == k {
                c
            } else {
                0
            },
    ensures
        sum_to(f, n) == c,
    decreases n,
{
    if k == n - 1 {
        lemma_sum_nothing(f, (n - 1) as nat);
    } else {
        lemma_sum_picks(f, (n - 1) as nat, k, c);
    }
}

/// A function that is 0 below `n` sums to 0.
pub proof fn lemma_sum_nothing(f: spec_fn(int) -> int, n: nat)
    requires
        forall|s: int| 0 <= s < n ==> #[trigger] f(s) == 0,
    ensures
        sum_to(f, n) == 0,
    decreases n,
{
    if n > 0 {
        lemma_sum_nothing(f, (n - 1) as nat);
    }
}

/// `a` along its second argument, the first held at `i`.
pub open spec fn along(a: spec_fn(int, int) -> int, i: int) -> spec_fn(int) -> int {
    |t: int| a(i, t)
}

/// `a` along its first argument, the second held at `t`.
pub open spec fn across(a: spec_fn(int, int) -> int, t: int) -> spec_fn(int) -> int {
    |i: int| a(i, t)
}

/// For each first argument, the sum of `a` over the second below `m`.
pub open spec fn sums_along(a: spec_fn(int, int) -> int, m: nat) -> spec_fn(int) -> int {
    |i: int| sum_to(along(a, i), m)
}

/// For each second argument, the sum of `a` over the first below `n`.
pub open spec fn sums_across(a: spec_fn(int, int) -> int, n: nat) -> spec_fn(int) -> int {
    |t: int| sum_to(across(a, t), n)
}

/// A sum over a table may be taken row by row or column by column.
pub proof fn lemma_sum_exchange(a: spec_fn(int, int) -> int, n: nat, m: nat)
    ensures
        sum_to(sums_along(a, m), n) == sum_to(sums_across(a, n), m),
    decreases n,
{
    if n == 0 {
        lemma_sum_nothing(sums_across(a, 0), m);
    } else {
        let before = (n - 1) as nat;
        lemma_sum_exchange(a, before, m);
        assert forall|t: int| 0 <= t < m implies #[trigger] sums_across(a, n)(t) == sums_across(
            a,
            before,
        )(t) + along(a, n - 1)(t) by {
            assert(across(a, t)(n - 1) == a(n - 1, t));
        }
        lemma_sum_splits(sums_across(a, before), along(a, n - 1), sums_across(a, n), m);
        assert(sums_along(a, m)(n - 1) == sum_to(along(a, n - 1), m));
    }
}

/// The worth of the leaf that sample `i` reaches in tree `t`.
spec fn worth(
    value: spec_fn(usize) -> int,
    nodes: Seq<Node>,
    trees: Seq<(usize, usize)>,
    rows: Seq<Seq<i64>>,
) -> spec_fn(int, int) -> int {
    |t: int, i: int| value(landing(nodes, trees[t], rows[i]).leaf)
}

/// In tree `t`, the worth of the leaf that sample `i` reaches where that leaf
/// names slot `s`, and 0 where it names another.
spec fn marked(
    value: spec_fn(usize) -> int,
    nodes: Seq<Node>,
    trees: Seq<(usize, usize)>,
    rows: Seq<Seq<i64>>,
    t: int,
) -> spec_fn(int, int) -> int {
    |s: int, i: int|
        if landing(nodes, trees[t], rows[i]).slot == s {
            value(landing(nodes, trees[t], rows[i]).leaf)
        } else {
            0
        }
}

/// For slot `s` and tree `t`, what the samples add to the slot in that tree.
spec fn shares(
    value: spec_fn(usize) -> int,
    nodes: Seq<Node>,
    trees: Seq<(usize, usize)>,
    rows: Seq<Seq<i64>>,
) -> spec_fn(int, int) -> int {
    |s: int, t: int| sum_to(along(marked(value, nodes, trees, rows, t), s), rows.len())
}

/// Over all slots, what the samples add in tree `t` is what their leaves in
/// that tree are worth.
proof fn lemma_tree_is_conserved(
    value: spec_fn(usize) -> int,
    nodes: Seq<Node>,
    trees: Seq<(usize, usize)>,
    rows: Seq<Seq<i64>>,
    n_values: nat,
    t: int,
)
    requires
        0 <= t < trees.len(),
        forall|i: int|
            0 <= i < rows.len() ==> (#[trigger] landing(nodes, trees[t], rows[i])).slot < n_values,
    ensures
        sum_to(across(shares(value, nodes, trees, rows), t), n_values) == sum_to(
            along(worth(value, nodes, trees, rows), t),
            rows.len(),
        ),
{
    let b = marked(value, nodes, trees, rows, t);
    let w = worth(value, nodes, trees, rows);
    let x = shares(value, nodes, trees, rows);
    assert forall|s: int| 0 <= s < n_values implies #[trigger] across(x, t)(s) == sums_along(
        b,
        rows.len(),
    )(s) by {}
    lemma_sum_congruent(across(x, t), sums_along(b, rows.len()), n_values);
    lemma_sum_exchange(b, n_values, rows.len());
    assert forall|i: int| 0 <= i < rows.len() implies #[trigger] sums_across(b, n_values)(i)
        == along(w, t)(i) by {
        let found = landing(nodes, trees[t], rows[i]);
        assert forall|s: int| 0 <= s < n_values implies #[trigger] across(b, i)(s) == if s
            == found.slot as int {
            value(found.leaf)
        } else {
            0
        } by {}
        lemma_sum_picks(across(b, i), n_values, found.slot as int, value(found.leaf));
    }
    lemma_sum_congruent(sums_across(b, n_values), along(w, t), rows.len());
}

/// Conservation. Let every leaf be worth an integer. Where every leaf that a
/// sample reaches names a slot below `n_values`, the slots of the output of
/// transposed scoring sum to what the scores of the samples sum to: every
/// contribution of a sample in a tree is added to one slot and to one score.
pub proof fn lemma_totals_agree(
    value: spec_fn(usize) -> int,
    nodes: Seq<Node>,
    trees: Seq<(usize, usize)>,
    rows: Seq<Seq<i64>>,
    n_values: nat,
)
    requires
        forall|t: int, i: int|
            0 <= t < trees.len() && 0 <= i < rows.len() ==> (#[trigger] landing(
                nodes,
                trees[t],
                rows[i],
            )).slot < n_values,
    ensures
        values_total(value, transposed_landings(nodes, trees, rows), n_values) == scores_total(
            value,
            forest_landings(nodes, trees, rows),
        ),
{
    let by_tree = transposed_landings(nodes, trees, rows);
    let by_sample = forest_landings(nodes, trees, rows);
    let w = worth(value, nodes, trees, rows);
    let x = shares(value, nodes, trees, rows);
    let n_trees = trees.len();
    let n_rows = rows.len();

    // Slot by slot, the output is the sum of the shares over the trees.
    let slots = |slot: int| slot_value(value, by_tree, slot);
    assert forall|s: int| 0 <= s < n_values implies #[trigger] slots(s) == sums_along(x, n_trees)(
        s,
    ) by {
        let outer = |t: int|
            sum_to(
                |i: int|
                    if by_tree[t][i].slot == s {
                        value(by_tree[t][i].leaf)
                    } else {
                        0
                    },
                by_tree[t].len(),
            );
        assert forall|t: int| 0 <= t < n_trees implies #[trigger] outer(t) == along(x, s)(t) by {
            let inner = |i: int|
                if by_tree[t][i].slot == s {
                    value(by_tree[t][i].leaf)
                } else {
                    0
                };
            let b = marked(value, nodes, trees, rows, t);
            assert forall|i: int| 0 <= i < n_rows implies #[trigger] inner(i) == along(b, s)(
                i,
            ) by {}
            lemma_sum_congruent(inner, along(b, s), n_rows);
        }
        lemma_sum_congruent(outer, along(x, s), n_trees);
    }
    lemma_sum_congruent(slots, sums_along(x, n_trees), n_values);
    lemma_sum_exchange(x, n_values, n_trees);

    // Tree by tree, the shares over all slots are the worth of the leaves.
    assert forall|t: int| 0 <= t < n_trees implies #[trigger] sums_across(x, n_values)(t)
        == sums_along(w, n_rows)(t) by {
        lemma_tree_is_conserved(value, nodes, trees, rows, n_values, t);
    }
    lemma_sum_congruent(sums_across(x, n_values), sums_along(w, n_rows), n_trees);
    lemma_sum_exchange(w, n_trees, n_rows);

    // Sample by sample, the worth of the leaves over the trees is the score.
    let scores = |i: int| score(value, by_sample[i]);
    assert forall|i: int| 0 <= i < n_rows implies #[trigger] scores(i) == sums_across(w, n_trees)(
        i,
    ) by {
        let inner = |t: int| value(by_sample[i][t].leaf);
        assert forall|t: int| 0 <= t < n_trees implies #[trigger] inner(t) == across(w, i)(t) by {}
        lemma_sum_congruent(inner, across(w, i), n_trees);
    }
    lemma_sum_congruent(scores, sums_across(w, n_trees), n_rows);
}

/// Conservation for a forest whose leaves land where they should. Where the
/// leaf offsets are ascending and every sample arrives, in every tree, at a
/// leaf whose slot lies in the segment of that tree, the output of transposed
/// scoring, which has as many slots as the last leaf offset says, sums to what
/// the scores of the samples sum to.
pub proof fn lemma_conservation(
    value: spec_fn(usize) -> int,
    nodes: Seq<Node>,
    trees: Seq<(usize, usize)>,
    leaf_offsets: Seq<usize>,
    rows: Seq<Seq<i64>>,
)
    requires
        ascending(leaf_offsets),
        trees.len() == neighbours(leaf_offsets).len(),
        forest_lands(nodes, trees, neighbours(leaf_offsets), rows),
    ensures
        values_total(
            value,
            transposed_landings(nodes, trees, rows),
            leaf_offsets.last() as nat,
        ) == scores_total(value, forest_landings(nodes, trees, rows)),
{
    assert forall|t: int, i: int| 0 <= t < trees.len() && 0 <= i < rows.len() implies (
    #[trigger] landing(nodes, trees[t], rows[i])).slot < leaf_offsets.last() by {
        assert(tree_lands(nodes, trees[t], neighbours(leaf_offsets)[t], rows));
        lemma_slots_lie_in_output(leaf_offsets, t, landing(nodes, trees[t], rows[i]).slot);
    }
    lemma_totals_agree(value, nodes, trees, rows, leaf_offsets.last() as nat);
}

} // verus!
