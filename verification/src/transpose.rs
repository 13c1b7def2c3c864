//! Transposed scoring: for every tree, the leaf that every sample reaches in
//! it, and the slot of the output that the leaf names. The work is handed out
//! by tree: the slots of one tree lie in a segment of the output that no other
//! tree writes to.

use crate::error::Error;
use crate::forest::{
    forest_routes, land, landing, lemma_cut_bounds_fit, row_routes, routes, tree_routes, Landing,
};
use crate::layout::{
    adjacent_pairs, ascending, check_data, check_leaf_offsets, check_node_offsets, check_selectors,
    cuts_into_trees, data_verdict, leaf_offsets_verdict, lemma_ascending_is_monotone, neighbours,
    node_offsets_verdict, selectors_verdict, LayoutError, OffsetView,
};
use crate::matrix::{NodeArray, SampleMatrix};
use crate::node::Node;
use crate::pool::{par_map_indices, ExecutionContext};
use crate::scoring::holds_landings;
use vstd::prelude::*;

verus! {

/// Where every sample arrives in one tree, sample by sample.
pub open spec fn tree_landings(nodes: Seq<Node>, bounds: (usize, usize), rows: Seq<Seq<i64>>) -> Seq<
    Landing,
> {
    Seq::new(rows.len(), |i: int| landing(nodes, bounds, rows[i]))
}

/// Where every sample arrives: one row for each tree, one entry for each
/// sample.
pub open spec fn transposed_landings(
    nodes: Seq<Node>,
    trees: Seq<(usize, usize)>,
    rows: Seq<Seq<i64>>,
) -> Seq<Seq<Landing>> {
    Seq::new(trees.len(), |t: int| tree_landings(nodes, trees[t], rows))
}

/// Whether every sample arrives, in the tree between `bounds`, at a leaf whose
/// slot lies in `segment`: at its first bound or after it, and before its
/// second.
pub open spec fn tree_lands(
    nodes: Seq<Node>,
    bounds: (usize, usize),
    segment: (usize, usize),
    rows: Seq<Seq<i64>>,
) -> bool {
    forall|i: int|
        0 <= i < rows.len() ==> segment.0 <= landing(nodes, bounds, #[trigger] rows[i]).slot
            < segment.1
}

/// Whether in every tree every sample arrives at a leaf whose slot lies in the
/// segment of that tree.
pub open spec fn forest_lands(
    nodes: Seq<Node>,
    trees: Seq<(usize, usize)>,
    segments: Seq<(usize, usize)>,
    rows: Seq<Seq<i64>>,
) -> bool {
    forall|t: int|
        0 <= t < trees.len() ==> tree_lands(nodes, #[trigger] trees[t], segments[t], rows)
}

/// Every sample reaches a leaf in every tree exactly where in every tree
/// every sample reaches a leaf.
pub proof fn lemma_routes_by_tree(
    nodes: Seq<Node>,
    trees: Seq<(usize, usize)>,
    rows: Seq<Seq<i64>>,
)
    ensures
        forest_routes(nodes, trees, rows) <==> forall|t: int|
            0 <= t < trees.len() ==> tree_routes(nodes, #[trigger] trees[t], rows),
{
    if forest_routes(nodes, trees, rows) {
        assert forall|t: int| 0 <= t < trees.len() implies tree_routes(
            nodes,
            #[trigger] trees[t],
            rows,
        ) by {
            assert forall|i: int| 0 <= i < rows.len() implies routes(
                nodes,
                trees[t],
                #[trigger] rows[i],
            ) by {
                assert(row_routes(nodes, trees, rows[i]));
            }
        }
    }
    if forall|t: int| 0 <= t < trees.len() ==> tree_routes(nodes, #[trigger] trees[t], rows) {
        assert forall|i: int| 0 <= i < rows.len() implies row_routes(
            nodes,
            trees,
            #[trigger] rows[i],
        ) by {
            assert forall|t: int| 0 <= t < trees.len() implies routes(
                nodes,
                #[trigger] trees[t],
                rows[i],
            ) by {
                assert(tree_routes(nodes, trees[t], rows));
            }
        }
    }
}

/// Whether `r` is what [`land_tree`] gives for the tree between `bounds`: the
/// landings of the samples, or the error that is due.
pub open spec fn is_column(
    nodes: Seq<Node>,
    bounds: (usize, usize),
    segment: (usize, usize),
    rows: Seq<Seq<i64>>,
    r: Result<Vec<Landing>, LayoutError>,
) -> bool {
    match r {
        Ok(column) => tree_routes(nodes, bounds, rows) && tree_lands(nodes, bounds, segment, rows)
            && column@ == tree_landings(nodes, bounds, rows),
        Err(e) => if tree_routes(nodes, bounds, rows) {
            e == LayoutError::LeafOutOfRange && !tree_lands(nodes, bounds, segment, rows)
        } else {
            e == LayoutError::SelectorsOutOfRange
        },
    }
}

/// The leaves that the samples reach in one tree, in the order of the samples.
/// Fails where a sample reaches no leaf; where all reach one, fails where a
/// leaf's slot lies outside `segment`.
pub fn land_tree(
    nodes: &[Node],
    bounds: (usize, usize),
    segment: (usize, usize),
    data: &SampleMatrix,
) -> (r: Result<Vec<Landing>, LayoutError>)
    requires
        bounds.0 <= bounds.1 <= nodes@.len(),
    ensures
        is_column(nodes@, bounds, segment, data@, r),
{
    let mut column: Vec<Landing> = Vec::new();
    let mut outside = false;
    let n_rows = data.nrows();
    let mut i: usize = 0;
    while i < n_rows
        invariant
            i <= n_rows,
            n_rows == data@.len(),
                bounds.0 <= bounds.1 <= nodes@.len(),
            column@.len() == i,
            forall|k: int|
                0 <= k < i ==> routes(nodes@, bounds, #[trigger] data@[k]) && column@[k]
                    == landing(nodes@, bounds, data@[k]),
            outside <==> exists|k: int|
                0 <= k < i && !(segment.0 <= landing(nodes@, bounds, #[trigger] data@[k]).slot
                    < segment.1),
        decreases n_rows - i,
    {
        match land(nodes, bounds, data.row(i)) {
            Some(found) => {
                if found.slot < segment.0 || found.slot >= segment.1 {
                    outside = true;
                }
                column.push(found);
            },
            None => {
                return Err(LayoutError::SelectorsOutOfRange);
            },
        }
        i = i + 1;
    }
    if outside {
        Err(LayoutError::LeafOutOfRange)
    } else {
        assert(column@ =~= tree_landings(nodes@, bounds, data@));
        Ok(column)
    }
}

/// All of a vector of outcomes, in order, where none of them is an error.
/// Of the errors, the one that a walk without a leaf gives goes before the
/// other.
fn gather_columns(results: Vec<Result<Vec<Landing>, LayoutError>>) -> (r: Result<
    Vec<Vec<Landing>>,
    LayoutError,
>)
    requires
        forall|t: int|
            0 <= t < results@.len() ==> (#[trigger] results@[t] matches Err(e) ==> e
                == LayoutError::SelectorsOutOfRange || e == LayoutError::LeafOutOfRange),
    ensures
        match r {
            Ok(all) => all@.len() == results@.len() && forall|t: int|
                0 <= t < all@.len() ==> results@[t] == Ok::<Vec<Landing>, LayoutError>(
                    #[trigger] all@[t],
                ),
            Err(e) => if exists|t: int|
                0 <= t < results@.len() && results@[t] == Err::<Vec<Landing>, LayoutError>(
                    LayoutError::SelectorsOutOfRange,
                ) {
                e == LayoutError::SelectorsOutOfRange
            } else {
                e == LayoutError::LeafOutOfRange && exists|t: int|
                    0 <= t < results@.len() && results@[t] == Err::<Vec<Landing>, LayoutError>(
                        LayoutError::LeafOutOfRange,
                    )
            },
        },
{
    let ghost given = results@;
    let mut all: Vec<Vec<Landing>> = Vec::new();
    let mut outside = false;
    for outcome in it: results
        invariant
            it.seq() == given,
            forall|t: int|
                0 <= t < given.len() ==> (#[trigger] given[t] matches Err(e) ==> e
                    == LayoutError::SelectorsOutOfRange || e == LayoutError::LeafOutOfRange),
            !outside ==> all@.len() == it.index(),
            !outside ==> forall|t: int|
                0 <= t < all@.len() ==> given[t] == Ok::<Vec<Landing>, LayoutError>(
                    #[trigger] all@[t],
                ),
            outside ==> exists|t: int|
                0 <= t < it.index() && given[t] == Err::<Vec<Landing>, LayoutError>(
                    LayoutError::LeafOutOfRange,
                ),
            forall|t: int|
                0 <= t < it.index() ==> given[t] != Err::<Vec<Landing>, LayoutError>(
                    LayoutError::SelectorsOutOfRange,
                ),
    {
        assert(given[it.index()] == outcome);
        match outcome {
            Ok(column) => {
                if !outside {
                    all.push(column);
                }
            },
            Err(LayoutError::SelectorsOutOfRange) => {
                return Err(LayoutError::SelectorsOutOfRange);
            },
            Err(_) => {
                outside = true;
            },
        }
    }
    if outside {
        Err(LayoutError::LeafOutOfRange)
    } else {
        Ok(all)
    }
}

/// Whether `r` is what transposed scoring gives: the landings of the samples
/// tree by tree, or the error that is due. A walk that reaches no leaf is
/// reported before a slot outside its segment.
pub open spec fn is_transposed(
    nodes: Seq<Node>,
    trees: Seq<(usize, usize)>,
    segments: Seq<(usize, usize)>,
    rows: Seq<Seq<i64>>,
    r: Result<Vec<Vec<Landing>>, LayoutError>,
) -> bool {
    match r {
        Ok(columns) => forest_routes(nodes, trees, rows) && forest_lands(
            nodes,
            trees,
            segments,
            rows,
        ) && holds_landings(columns@, transposed_landings(nodes, trees, rows)),
        Err(e) => if forest_routes(nodes, trees, rows) {
            e == LayoutError::LeafOutOfRange && !forest_lands(nodes, trees, segments, rows)
        } else {
            e == LayoutError::SelectorsOutOfRange
        },
    }
}

/// Transposed scoring on a pool that the caller holds. Every sample is walked
/// through every tree; the trees are computed in parallel, and within a tree
/// the samples come in their order. Tree `t` writes only to the slots from
/// `leaf_offsets[t]` up to, not including, `leaf_offsets[t + 1]`. The result
/// does not depend on the pool.
pub fn calc_paths_sum_transpose_impl(
    context: &ExecutionContext,
    selectors: &[Node],
    node_offsets: &[usize],
    leaf_offsets: &[usize],
    data: &SampleMatrix,
) -> (r: Result<Vec<Vec<Landing>>, LayoutError>)
    requires
        cuts_into_trees(node_offsets@, selectors@.len()),
        leaf_offsets@.len() == node_offsets@.len(),
        ascending(leaf_offsets@),
    ensures
        is_transposed(
            selectors@,
            neighbours(node_offsets@),
            neighbours(leaf_offsets@),
            data@,
            r,
        ),
{
    let trees = adjacent_pairs(node_offsets);
    let segments = adjacent_pairs(leaf_offsets);
    let n_nodes = selectors.len();
    proof {
        lemma_cut_bounds_fit(node_offsets@, n_nodes as nat);
    }
    let n_trees = trees.len();
    let unit = |t: usize| -> (r: Result<Vec<Landing>, LayoutError>)
        requires
            t < n_trees,
        ensures
            is_column(selectors@, trees@[t as int], segments@[t as int], data@, r),
        { land_tree(selectors, trees[t], segments[t], data) };
    let columns = par_map_indices(context.pool(), n_trees, unit);
    proof {
        assert forall|t: int| 0 <= t < trees@.len() implies is_column(
            selectors@,
            trees@[t],
            segments@[t],
            data@,
            #[trigger] columns@[t],
        ) by {
            let k = t as usize;
            assert(call_ensures(unit, (k,), columns@[k as int]));
        }
        lemma_routes_by_tree(selectors@, trees@, data@);
    }
    let r = gather_columns(columns);
    proof {
        match &r {
            Ok(all) => {
                assert forall|t: int| 0 <= t < trees@.len() implies tree_routes(
                    selectors@,
                    #[trigger] trees@[t],
                    data@,
                ) && tree_lands(selectors@, trees@[t], segments@[t], data@) && all@[t]@
                    == tree_landings(selectors@, trees@[t], data@) by {
                    assert(columns@[t] == Ok::<Vec<Landing>, LayoutError>(all@[t]));
                }
            },
            Err(e) => {
                if *e == LayoutError::SelectorsOutOfRange {
                    let t = choose|t: int|
                        0 <= t < columns@.len() && columns@[t] == Err::<
                            Vec<Landing>,
                            LayoutError,
                        >(LayoutError::SelectorsOutOfRange);
                    assert(!tree_routes(selectors@, trees@[t], data@));
                } else {
                    assert forall|t: int| 0 <= t < trees@.len() implies tree_routes(
                        selectors@,
                        #[trigger] trees@[t],
                        data@,
                    ) by {
                        assert(is_column(selectors@, trees@[t], segments@[t], data@, columns@[t]));
                    }
                    let t = choose|t: int|
                        0 <= t < columns@.len() && columns@[t] == Err::<
                            Vec<Landing>,
                            LayoutError,
                        >(LayoutError::LeafOutOfRange);
                    assert(!tree_lands(selectors@, trees@[t], segments@[t], data@));
                }
            },
        }
    }
    r
}

/// What transposed scoring gives: the landings tree by tree, and the number of
/// slots of the output that they are added up in.
pub struct Transposed {
    /// The length of the output: the last leaf offset.
    pub n_values: usize,
    /// Row `t` holds, for each sample in order, the leaf that the sample
    /// reaches in tree `t`, and the slot that the leaf names.
    pub landings: Vec<Vec<Landing>>,
}

/// What the checks before transposed scoring find: the first rule that is
/// broken, the nodes first, then the tree offsets, the leaf offsets and the
/// samples.
pub open spec fn transpose_verdict(
    selectors: NodeArray,
    node_offsets: OffsetView,
    leaf_offsets: OffsetView,
    data: SampleMatrix,
) -> Result<(), LayoutError> {
    if selectors_verdict(selectors.standard_layout) is Err {
        selectors_verdict(selectors.standard_layout)
    } else if node_offsets_verdict(node_offsets, selectors.nodes@.len()) is Err {
        node_offsets_verdict(node_offsets, selectors.nodes@.len())
    } else if leaf_offsets_verdict(leaf_offsets, node_offsets@.len()) is Err {
        leaf_offsets_verdict(leaf_offsets, node_offsets@.len())
    } else {
        data_verdict(data.spec_standard_layout())
    }
}

/// Transposed scoring: checks the arrays, builds a pool of `num_threads`
/// threads (for 0, of as many as fit the machine) and walks every sample
/// through every tree.
///
/// The caller adds to the output, at the slot of each landing, the output of
/// its leaf, or that output times the weight of the sample.
pub fn calc_paths_sum_transpose(
    selectors: &NodeArray,
    node_offsets: &OffsetView,
    leaf_offsets: &OffsetView,
    data: &SampleMatrix,
    num_threads: usize,
) -> (r: Result<Transposed, Error>)
    ensures
        match transpose_verdict(*selectors, *node_offsets, *leaf_offsets, *data) {
            Err(e) => r == Err::<Transposed, Error>(Error::Layout(e)),
            Ok(_) => match r {
                Ok(plan) => plan.n_values == leaf_offsets@.last() && is_transposed(
                    selectors.nodes@,
                    neighbours(node_offsets@),
                    neighbours(leaf_offsets@),
                    data@,
                    Ok(plan.landings),
                ),
                Err(Error::Layout(e)) => is_transposed(
                    selectors.nodes@,
                    neighbours(node_offsets@),
                    neighbours(leaf_offsets@),
                    data@,
                    Err(e),
                ),
                Err(Error::Pool(_)) => true,
            },
        },
{
    if let Err(e) = check_selectors(selectors.standard_layout) {
        return Err(Error::Layout(e));
    }
    let nodes = selectors.nodes.as_slice();
    if let Err(e) = check_node_offsets(node_offsets, nodes.len()) {
        return Err(Error::Layout(e));
    }
    if let Err(e) = check_leaf_offsets(leaf_offsets, node_offsets.len()) {
        return Err(Error::Layout(e));
    }
    if let Err(e) = check_data(data.is_standard_layout()) {
        return Err(Error::Layout(e));
    }
    let offsets = match node_offsets.as_slice() {
        Some(offsets) => offsets,
        None => {
            return Err(Error::Layout(LayoutError::NodeOffsetsNotContiguous));
        },
    };
    let segments = match leaf_offsets.as_slice() {
        Some(segments) => segments,
        None => {
            return Err(Error::Layout(LayoutError::LeafOffsetsNotContiguous));
        },
    };
    let n_values = segments[segments.len() - 1];
    let context = match ExecutionContext::new(num_threads) {
        Ok(context) => context,
        Err(e) => {
            return Err(Error::Pool(e));
        },
    };
    match calc_paths_sum_transpose_impl(&context, nodes, offsets, segments, data) {
        Ok(landings) => Ok(Transposed { n_values, landings }),
        Err(e) => Err(Error::Layout(e)),
    }
}

/// A slot that lies in the segment of its tree lies in the output: it is less
/// than the last leaf offset.
pub proof fn lemma_slots_lie_in_output(leaf_offsets: Seq<usize>, t: int, slot: usize)
    requires
        ascending(leaf_offsets),
        0 <= t < neighbours(leaf_offsets).len(),
        neighbours(leaf_offsets)[t].0 <= slot < neighbours(leaf_offsets)[t].1,
    ensures
        slot < leaf_offsets.last(),
{
    lemma_ascending_is_monotone(leaf_offsets, t + 1, leaf_offsets.len() - 1);
}

} // verus!
