//! Scoring: for every sample, the leaf that it reaches in every tree. The
//! work is handed out by sample.

use crate::error::Error;
use crate::forest::{
    bounds_fit, forest_routes, gather, land, landing, lemma_cut_bounds_fit, row_routes, routes,
    Landing,
};
use crate::layout::{
    adjacent_pairs, check_data, check_node_offsets, check_selectors, cuts_into_trees, data_verdict,
    neighbours, node_offsets_verdict, selectors_verdict, LayoutError, OffsetView,
};
use crate::matrix::{NodeArray, SampleMatrix};
use crate::node::Node;
use crate::pool::{par_map_indices, ExecutionContext};
use vstd::prelude::*;

verus! {

/// Where one sample arrives, tree by tree.
pub open spec fn row_landings(nodes: Seq<Node>, trees: Seq<(usize, usize)>, sample: Seq<i64>) -> Seq<
    Landing,
> {
    Seq::new(trees.len(), |t: int| landing(nodes, trees[t], sample))
}

/// Where every sample arrives: one row for each sample, one entry for each
/// tree.
pub open spec fn forest_landings(
    nodes: Seq<Node>,
    trees: Seq<(usize, usize)>,
    rows: Seq<Seq<i64>>,
) -> Seq<Seq<Landing>> {
    Seq::new(rows.len(), |i: int| row_landings(nodes, trees, rows[i]))
}

/// Whether `paths` holds what [`forest_landings`] says.
pub open spec fn holds_landings(paths: Seq<Vec<Landing>>, expected: Seq<Seq<Landing>>) -> bool {
    &&& paths.len() == expected.len()
    &&& forall|i: int| 0 <= i < paths.len() ==> (#[trigger] paths[i])@ == expected[i]
}

/// The leaves that one sample reaches, tree by tree in the order of the
/// trees. `None` where in some tree it reaches none.
pub fn land_row(nodes: &[Node], trees: &[(usize, usize)], sample: &[i64]) -> (r: Option<
    Vec<Landing>,
>)
    requires
        bounds_fit(trees@, nodes@.len()),
    ensures
        match r {
            Some(row) => row_routes(nodes@, trees@, sample@) && row@ == row_landings(
                nodes@,
                trees@,
                sample@,
            ),
            None => !row_routes(nodes@, trees@, sample@),
        },
{
    let mut row: Vec<Landing> = Vec::new();
    let mut t: usize = 0;
    while t < trees.len()
        invariant
            t <= trees.len(),
            bounds_fit(trees@, nodes@.len()),
            row@.len() == t,
            forall|k: int|
                0 <= k < t ==> routes(nodes@, #[trigger] trees@[k], sample@) && row@[k] == landing(
                    nodes@,
                    trees@[k],
                    sample@,
                ),
        decreases trees.len() - t,
    {
        match land(nodes, trees[t], sample) {
            Some(found) => {
                row.push(found);
            },
            None => {
                return None;
            },
        }
        t = t + 1;
    }
    assert(row@ =~= row_landings(nodes@, trees@, sample@));
    Some(row)
}

/// Whether `r` is what scoring gives: the landings of the samples row by row,
/// or the error that is due where some sample reaches no leaf in some tree.
pub open spec fn is_scored(
    nodes: Seq<Node>,
    trees: Seq<(usize, usize)>,
    rows: Seq<Seq<i64>>,
    r: Result<Vec<Vec<Landing>>, LayoutError>,
) -> bool {
    match r {
        Ok(paths) => forest_routes(nodes, trees, rows) && holds_landings(
            paths@,
            forest_landings(nodes, trees, rows),
        ),
        Err(e) => e == LayoutError::SelectorsOutOfRange && !forest_routes(nodes, trees, rows),
    }
}

/// Scoring on a pool that the caller holds. Every sample is walked through
/// every tree; the rows are computed in parallel, and within a row the trees
/// come in their order. The result does not depend on the pool.
///
/// Fails where some sample reaches no leaf in some tree.
pub fn calc_paths_sum_impl(
    context: &ExecutionContext,
    selectors: &[Node],
    node_offsets: &[usize],
    data: &SampleMatrix,
) -> (r: Result<Vec<Vec<Landing>>, LayoutError>)
    requires
        cuts_into_trees(node_offsets@, selectors@.len()),
    ensures
        is_scored(selectors@, neighbours(node_offsets@), data@, r),
{
    let trees = adjacent_pairs(node_offsets);
    let n_nodes = selectors.len();
    proof {
        lemma_cut_bounds_fit(node_offsets@, n_nodes as nat);
    }
    let n_rows = data.nrows();
    let unit = |i: usize| -> (r: Option<Vec<Landing>>)
        requires
            i < n_rows,
        ensures
            match r {
                Some(row) => row_routes(selectors@, trees@, data@[i as int]) && row@
                    == row_landings(selectors@, trees@, data@[i as int]),
                None => !row_routes(selectors@, trees@, data@[i as int]),
            },
        { land_row(selectors, trees.as_slice(), data.row(i)) };
    let rows = par_map_indices(context.pool(), n_rows, unit);
    match gather(rows) {
        Some(paths) => {
            proof {
                assert forall|i: int| 0 <= i < data@.len() implies row_routes(
                    selectors@,
                    trees@,
                    #[trigger] data@[i],
                ) && paths@[i]@ == row_landings(selectors@, trees@, data@[i]) by {
                    let k = i as usize;
                    assert(call_ensures(unit, (k,), rows@[k as int]));
                    assert(rows@[i] == Some(paths@[i]));
                    assert(row_routes(selectors@, trees@, data@[i]));
                    assert(paths@[i]@ == row_landings(selectors@, trees@, data@[i]));
                }
            }
            Ok(paths)
        },
        None => {
            proof {
                let i = choose|i: int| 0 <= i < rows@.len() && rows@[i] is None;
                let k = i as usize;
                assert(call_ensures(unit, (k,), rows@[k as int]));
                assert(!row_routes(selectors@, trees@, data@[i]));
            }
            Err(LayoutError::SelectorsOutOfRange)
        },
    }
}

/// What the checks before scoring find: the first rule that is broken, the
/// nodes first, then the tree offsets, then the samples.
pub open spec fn scoring_verdict(
    selectors: NodeArray,
    node_offsets: OffsetView,
    data: SampleMatrix,
) -> Result<(), LayoutError> {
    if selectors_verdict(selectors.standard_layout) is Err {
        selectors_verdict(selectors.standard_layout)
    } else if node_offsets_verdict(node_offsets, selectors.nodes@.len()) is Err {
        node_offsets_verdict(node_offsets, selectors.nodes@.len())
    } else {
        data_verdict(data.spec_standard_layout())
    }
}

/// Scoring: checks the arrays, builds a pool of `num_threads` threads (for 0,
/// of as many as fit the machine) and walks every sample through every tree.
/// Row `i` of the result holds, for each tree in order, the leaf that sample
/// `i` reaches and that leaf's `left`.
///
/// The caller adds up, for each row, the outputs of its leaves, or those
/// outputs times the weights at the leaves' `left`.
pub fn calc_paths_sum(
    selectors: &NodeArray,
    node_offsets: &OffsetView,
    data: &SampleMatrix,
    num_threads: usize,
) -> (r: Result<Vec<Vec<Landing>>, Error>)
    ensures
        match scoring_verdict(*selectors, *node_offsets, *data) {
            Err(e) => r == Err::<Vec<Vec<Landing>>, Error>(Error::Layout(e)),
            Ok(_) => match r {
                Ok(paths) => is_scored(
                    selectors.nodes@,
                    neighbours(node_offsets@),
                    data@,
                    Ok(paths),
                ),
                Err(Error::Layout(e)) => is_scored(
                    selectors.nodes@,
                    neighbours(node_offsets@),
                    data@,
                    Err(e),
                ),
                Err(Error::Pool(_)) => true,
            },
        },
{
    if let Err(e) = check_selectors(selectors.standard_layout) {
        return Err(Error::Layout(e));
    }
    let nodes = selectors.nodes.as_slice();
    if let Err(e) = check_node_offsets(node_offsets, nodes.len()) {
        return Err(Error::Layout(e));
    }
    if let Err(e) = check_data(data.is_standard_layout()) {
        return Err(Error::Layout(e));
    }
    let offsets = match node_offsets.as_slice() {
        Some(offsets) => offsets,
        None => {
            return Err(Error::Layout(LayoutError::NodeOffsetsNotContiguous));
        },
    };
    let context = match ExecutionContext::new(num_threads) {
        Ok(context) => context,
        Err(e) => {
            return Err(Error::Pool(e));
        },
    };
    match calc_paths_sum_impl(&context, nodes, offsets, data) {
        Ok(paths) => Ok(paths),
        Err(e) => Err(Error::Layout(e)),
    }
}

} // verus!
