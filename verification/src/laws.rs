//! What holds of the workloads together: that a result does not depend on
//! the pool that computed it, and that transposed scoring sends every sample
//! to the leaves that scoring sends it to.

use crate::attribution::{is_attributed, RowAttribution};
use crate::forest::{forest_routes, landing, routes, tree_at, Landing};
use crate::layout::{neighbours, LayoutError};
use crate::node::Node;
use crate::resolve::path;
use crate::scoring::{forest_landings, is_scored};
use crate::transpose::{is_transposed, transposed_landings};
use vstd::prelude::*;

verus! {

/// Whether two tables hold the same landings.
pub open spec fn same_landings(first: Seq<Vec<Landing>>, second: Seq<Vec<Landing>>) -> bool {
    &&& first.len() == second.len()
    &&& forall|i: int| 0 <= i < first.len() ==> (#[trigger] first[i])@ == second[i]@
}

/// Whether two results of a workload on landings are the same: the same
/// landings, or the same error.
pub open spec fn same_outcome(
    first: Result<Vec<Vec<Landing>>, LayoutError>,
    second: Result<Vec<Vec<Landing>>, LayoutError>,
) -> bool {
    match (first, second) {
        (Ok(a), Ok(b)) => same_landings(a@, b@),
        (Err(x), Err(y)) => x == y,
        _ => false,
    }
}

/// Scoring is determined by the forest and the samples: two results for the
/// same forest and samples are the same, whatever pools of however many
/// threads computed them.
pub proof fn lemma_scoring_is_deterministic(
    nodes: Seq<Node>,
    trees: Seq<(usize, usize)>,
    rows: Seq<Seq<i64>>,
    first: Result<Vec<Vec<Landing>>, LayoutError>,
    second: Result<Vec<Vec<Landing>>, LayoutError>,
)
    requires
        is_scored(nodes, trees, rows, first),
        is_scored(nodes, trees, rows, second),
    ensures
        same_outcome(first, second),
{
}

/// Transposed scoring is determined by the forest, the segments of the output
/// and the samples: two results for the same of these are the same, whatever
/// pools of however many threads computed them.
pub proof fn lemma_transpose_is_deterministic(
    nodes: Seq<Node>,
    trees: Seq<(usize, usize)>,
    segments: Seq<(usize, usize)>,
    rows: Seq<Seq<i64>>,
    first: Result<Vec<Vec<Landing>>, LayoutError>,
    second: Result<Vec<Vec<Landing>>, LayoutError>,
)
    requires
        is_transposed(nodes, trees, segments, rows, first),
        is_transposed(nodes, trees, segments, rows, second),
    ensures
        same_outcome(first, second),
{
}

/// Feature attribution is determined by the forest and the samples: two
/// results for the same forest and samples hold the same steps and the same
/// counts, or are the same error.
pub proof fn lemma_attribution_is_deterministic(
    nodes: Seq<Node>,
    trees: Seq<(usize, usize)>,
    samples: Seq<Seq<i64>>,
    first: Result<Vec<RowAttribution>, LayoutError>,
    second: Result<Vec<RowAttribution>, LayoutError>,
)
    requires
        is_attributed(nodes, trees, samples, first),
        is_attributed(nodes, trees, samples, second),
    ensures
        match (first, second) {
            (Ok(a), Ok(b)) => a@.len() == b@.len() && forall|i: int|
                0 <= i < a@.len() ==> (#[trigger] a@[i]).steps@ == b@[i].steps@
                    && a@[i].hit_count@ == b@[i].hit_count@,
            (Err(x), Err(y)) => x == y,
            _ => false,
        },
{
    if let (Ok(a), Ok(b)) = (first, second) {
        assert forall|i: int| 0 <= i < a@.len() implies (#[trigger] a@[i]).steps@ == b@[i].steps@
            && a@[i].hit_count@ == b@[i].hit_count@ by {
            assert(a@[i].hit_count@ =~= b@[i].hit_count@);
        }
    }
}

/// Transposed scoring sends sample `i` in tree `t` to the leaf that scoring
/// sends it to: each table is the other with rows and columns exchanged. So
/// every contribution of a sample in a tree is counted once in either.
pub proof fn lemma_transpose_exchanges_scoring(
    nodes: Seq<Node>,
    trees: Seq<(usize, usize)>,
    rows: Seq<Seq<i64>>,
    t: int,
    i: int,
)
    requires
        0 <= t < trees.len(),
        0 <= i < rows.len(),
    ensures
        transposed_landings(nodes, trees, rows).len() == trees.len(),
        transposed_landings(nodes, trees, rows)[t].len() == rows.len(),
        forest_landings(nodes, trees, rows).len() == rows.len(),
        forest_landings(nodes, trees, rows)[i].len() == trees.len(),
        transposed_landings(nodes, trees, rows)[t][i] == forest_landings(nodes, trees, rows)[i][t],
{
}

/// A forest of one tree that is one leaf sends every sample to that leaf,
/// however many columns the sample has and whatever they hold.
pub proof fn lemma_single_leaf_catches_every_sample(
    nodes: Seq<Node>,
    node_offsets: Seq<usize>,
    rows: Seq<Seq<i64>>,
)
    requires
        nodes.len() == 1,
        nodes[0].leaf,
        node_offsets == seq![0usize, 1usize],
    ensures
        forest_routes(nodes, neighbours(node_offsets), rows),
        forall|i: int|
            0 <= i < rows.len() ==> #[trigger] forest_landings(
                nodes,
                neighbours(node_offsets),
                rows,
            )[i] == seq![Landing { leaf: 0, slot: nodes[0].left }],
{
    let trees = neighbours(node_offsets);
    assert(trees.len() == 1 && trees[0] == (0usize, 1usize));
    assert(tree_at(nodes, (0usize, 1usize)) == nodes);
    assert forall|i: int| 0 <= i < rows.len() implies routes(nodes, trees[0], #[trigger] rows[i])
        && landing(nodes, trees[0], rows[i]) == (Landing { leaf: 0, slot: nodes[0].left }) by {
        assert(path(nodes, rows[i]) == Some(seq![0usize]));
    }
    assert forall|i: int| 0 <= i < rows.len() implies #[trigger] forest_landings(
        nodes,
        trees,
        rows,
    )[i] == seq![Landing { leaf: 0, slot: nodes[0].left }] by {
        assert(routes(nodes, trees[0], rows[i]));
        assert(forest_landings(nodes, trees, rows)[i] =~= seq![
            Landing { leaf: 0, slot: nodes[0].left },
        ]);
    }
}

} // verus!
