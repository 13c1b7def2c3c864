//! A forest as the workloads see it: the nodes, and the bounds of each tree.

use crate::layout::{cuts_into_trees, lemma_ascending_is_monotone, neighbours};
use crate::node::Node;
use crate::resolve::{find_leaf_index, leaf_position, reaches_leaf};
use vstd::prelude::*;
use vstd::slice::slice_subrange;

verus! {

/// The nodes of the tree that lies between two neighbouring offsets.
pub open spec fn tree_at(nodes: Seq<Node>, bounds: (usize, usize)) -> Seq<Node> {
    nodes.subrange(bounds.0 as int, bounds.1 as int)
}

/// Whether every pair of bounds encloses a stretch of `n_nodes` nodes.
pub open spec fn bounds_fit(trees: Seq<(usize, usize)>, n_nodes: nat) -> bool {
    forall|t: int| 0 <= t < trees.len() ==> (#[trigger] trees[t]).0 <= trees[t].1 <= n_nodes
}

/// Offsets that cut the nodes into trees give bounds that fit them.
pub proof fn lemma_cut_bounds_fit(offsets: Seq<usize>, n_nodes: nat)
    requires
        cuts_into_trees(offsets, n_nodes),
    ensures
        bounds_fit(neighbours(offsets), n_nodes),
        neighbours(offsets).len() == offsets.len() - 1,
{
    let trees = neighbours(offsets);
    assert forall|t: int| 0 <= t < trees.len() implies (#[trigger] trees[t]).0 <= trees[t].1
        <= n_nodes by {
        assert(offsets[t] <= offsets[t + 1]);
        lemma_ascending_is_monotone(offsets, t + 1, offsets.len() - 1);
    }
}

/// Where a sample arrives in one tree.
#[derive(Clone, Copy, Debug, PartialEq, Eq, Structural)]
pub struct Landing {
    /// The position of the leaf among the nodes of the forest.
    pub leaf: usize,
    /// The leaf's `left`: the position of its weight, or of its output slot.
    pub slot: usize,
}

/// Whether the walk of `sample` through the tree between `bounds` ends in a
/// leaf.
pub open spec fn routes(nodes: Seq<Node>, bounds: (usize, usize), sample: Seq<i64>) -> bool {
    reaches_leaf(tree_at(nodes, bounds), sample)
}

/// Where `sample` arrives in the tree between `bounds`.
pub open spec fn landing(nodes: Seq<Node>, bounds: (usize, usize), sample: Seq<i64>) -> Landing
    recommends
        routes(nodes, bounds, sample),
{
    let at = leaf_position(tree_at(nodes, bounds), sample);
    Landing { leaf: (bounds.0 + at) as usize, slot: tree_at(nodes, bounds)[at as int].left }
}

/// Whether `sample` reaches a leaf in every tree.
pub open spec fn row_routes(nodes: Seq<Node>, trees: Seq<(usize, usize)>, sample: Seq<i64>) -> bool {
    forall|t: int| 0 <= t < trees.len() ==> routes(nodes, #[trigger] trees[t], sample)
}

/// Whether every sample reaches a leaf in the tree between `bounds`.
pub open spec fn tree_routes(nodes: Seq<Node>, bounds: (usize, usize), rows: Seq<Seq<i64>>) -> bool {
    forall|i: int| 0 <= i < rows.len() ==> routes(nodes, bounds, #[trigger] rows[i])
}

/// Whether every sample reaches a leaf in every tree.
pub open spec fn forest_routes(
    nodes: Seq<Node>,
    trees: Seq<(usize, usize)>,
    rows: Seq<Seq<i64>>,
) -> bool {
    forall|i: int| 0 <= i < rows.len() ==> row_routes(nodes, trees, #[trigger] rows[i])
}

/// Where a sample arrives in the tree between `bounds`: the walk is that of
/// [`find_leaf_index`] through the nodes between them. `None` where it ends in
/// no leaf.
pub fn land(nodes: &[Node], bounds: (usize, usize), sample: &[i64]) -> (r: Option<Landing>)
    requires
        bounds.0 <= bounds.1 <= nodes@.len(),
    ensures
        match r {
            Some(found) => routes(nodes@, bounds, sample@) && found == landing(
                nodes@,
                bounds,
                sample@,
            ) && bounds.0 <= found.leaf < bounds.1 && nodes@[found.leaf as int].leaf && found.slot
                == nodes@[found.leaf as int].left,
            None => !routes(nodes@, bounds, sample@),
        },
{
    let tree = slice_subrange(nodes, bounds.0, bounds.1);
    match find_leaf_index(tree, sample) {
        Some(at) => Some(Landing { leaf: bounds.0 + at, slot: tree[at].left }),
        None => None,
    }
}

/// All of a vector of outcomes, in order, where none of them is `None`.
pub(crate) fn gather<T>(results: Vec<Option<T>>) -> (r: Option<Vec<T>>)
    ensures
        match r {
            Some(all) => all@.len() == results@.len() && forall|i: int|
                0 <= i < all@.len() ==> results@[i] == Some(#[trigger] all@[i]),
            None => exists|i: int| 0 <= i < results@.len() && results@[i] is None,
        },
{
    let ghost given = results@;
    let mut all: Vec<T> = Vec::new();
    for outcome in it: results
        invariant
            it.seq() == given,
            all@.len() == it.index(),
            forall|i: int| 0 <= i < all@.len() ==> given[i] == Some(#[trigger] all@[i]),
    {
        match outcome {
            Some(value) => {
                all.push(value);
            },
            None => {
                assert(given[it.index()] is None);
                return None;
            },
        }
    }
    Some(all)
}

} // verus!
