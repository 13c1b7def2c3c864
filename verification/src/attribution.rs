//! Feature attribution: for every sample, the steps of its walks from a split
//! to a child, and for every feature the number of splits on it that the
//! sample passed. The work is handed out by sample.

use crate::error::Error;
use crate::forest::{
    bounds_fit, forest_routes, gather, landing, lemma_cut_bounds_fit, row_routes, routes, tree_at,
};
use crate::layout::{
    adjacent_pairs, check_data, check_node_offsets, check_selectors, cuts_into_trees, neighbours,
    LayoutError, OffsetView,
};
use crate::matrix::{NodeArray, SampleMatrix};
use crate::node::Node;
use crate::pool::{par_map_indices, ExecutionContext};
use crate::resolve::{find_path, lemma_path_from_shape, path};
use crate::scoring::scoring_verdict;
use vstd::prelude::*;
use vstd::slice::slice_subrange;

verus! {

/// One step of a walk, from a split to the child that the sample is sent
/// to. Both are positions among the nodes of the forest.
#[derive(Clone, Copy, Debug, PartialEq, Eq, Structural)]
pub struct Step {
    pub parent: usize,
    pub child: usize,
}

/// The steps of a walk through a tree that begins at position `base` of the
/// forest: each position of the walk with the one after it.
pub open spec fn steps_of(walk: Seq<usize>, base: usize) -> Seq<Step> {
    Seq::new(
        if walk.len() >= 1 {
            (walk.len() - 1) as nat
        } else {
            0
        },
        |k: int| Step { parent: (base + walk[k]) as usize, child: (base + walk[k + 1]) as usize },
    )
}

/// The steps of the walk of `sample` through the tree between `bounds`.
pub open spec fn tree_steps(nodes: Seq<Node>, bounds: (usize, usize), sample: Seq<i64>) -> Seq<
    Step,
>
    recommends
        routes(nodes, bounds, sample),
{
    steps_of(path(tree_at(nodes, bounds), sample)->0, bounds.0)
}

/// The steps of the walks of `sample` through the first `upto` trees, tree
/// after tree.
pub open spec fn row_steps(
    nodes: Seq<Node>,
    trees: Seq<(usize, usize)>,
    sample: Seq<i64>,
    upto: nat,
) -> Seq<Step>
    decreases upto,
{
    if upto == 0 {
        Seq::empty()
    } else {
        row_steps(nodes, trees, sample, (upto - 1) as nat) + tree_steps(
            nodes,
            trees[upto - 1],
            sample,
        )
    }
}

/// The number of steps that leave a split on `feature`.
pub open spec fn hits_on(nodes: Seq<Node>, steps: Seq<Step>, feature: int) -> nat
    decreases steps.len(),
{
    if steps.len() == 0 {
        0
    } else {
        hits_on(nodes, steps.drop_last(), feature) + if nodes[steps.last().parent as int].feature
            == feature {
            1nat
        } else {
            0nat
        }
    }
}

/// No feature is hit more often than there are steps.
pub proof fn lemma_hits_bounded(nodes: Seq<Node>, steps: Seq<Step>, feature: int)
    ensures
        hits_on(nodes, steps, feature) <= steps.len(),
    decreases steps.len(),
{
    if steps.len() > 0 {
        lemma_hits_bounded(nodes, steps.drop_last(), feature);
    }
}

/// The steps of a walk lead from the root of the tree to the leaf that scoring
/// finds: the first leaves the root, each begins where the one before it
/// ended, and the last ends in the leaf. A walk without steps is a root that
/// is a leaf.
pub proof fn lemma_steps_lead_to_the_landing(
    nodes: Seq<Node>,
    bounds: (usize, usize),
    sample: Seq<i64>,
)
    requires
        bounds.0 <= bounds.1 <= nodes.len(),
        routes(nodes, bounds, sample),
    ensures
        ({
            let steps = tree_steps(nodes, bounds, sample);
            let leaf = landing(nodes, bounds, sample).leaf;
            &&& steps.len() == 0 ==> leaf == bounds.0
            &&& steps.len() > 0 ==> steps[0].parent == bounds.0 && steps.last().child == leaf
            &&& forall|k: int|
                0 <= k < steps.len() - 1 ==> (#[trigger] steps[k]).child == steps[k + 1].parent
            &&& forall|k: int|
                0 <= k < steps.len() ==> !nodes[(#[trigger] steps[k]).parent as int].leaf
        }),
{
    let tree = tree_at(nodes, bounds);
    lemma_path_from_shape(tree, sample, 0, tree.len());
    let walk = path(tree, sample)->0;
    let steps = tree_steps(nodes, bounds, sample);
    assert forall|k: int| 0 <= k < steps.len() implies !nodes[(#[trigger] steps[k]).parent as int].leaf by {
        assert(walk[k] < tree.len());
        assert(nodes[bounds.0 + walk[k]] == tree[walk[k] as int]);
    }
}

/// What feature attribution finds for one sample.
pub struct RowAttribution {
    /// The steps of the sample's walks, tree after tree, each walk from the
    /// root down.
    pub steps: Vec<Step>,
    /// For each feature, the number of steps that leave a split on it.
    pub hit_count: Vec<usize>,
}

/// Whether `found` is the attribution of `sample`: its steps through all the
/// trees, and their count for each column of the sample.
pub open spec fn is_attribution(
    nodes: Seq<Node>,
    trees: Seq<(usize, usize)>,
    sample: Seq<i64>,
    found: RowAttribution,
) -> bool {
    &&& found.steps@ == row_steps(nodes, trees, sample, trees.len())
    &&& found.hit_count@.len() == sample.len()
    &&& forall|f: int|
        0 <= f < sample.len() ==> #[trigger] found.hit_count@[f] == hits_on(nodes, found.steps@, f)
}

/// Whether `counts` holds, for each feature, the number of hits in `steps`.
pub open spec fn counts_hits(nodes: Seq<Node>, steps: Seq<Step>, counts: Seq<usize>) -> bool {
    forall|f: int| 0 <= f < counts.len() ==> #[trigger] counts[f] == hits_on(nodes, steps, f)
}

/// Walks `sample` through the tree between `bounds`, and adds each step from
/// a split to a child to `steps` and to the count of the split's feature.
/// Returns `false`, and adds nothing, where the walk ends in no leaf.
pub fn walk_tree(
    nodes: &[Node],
    bounds: (usize, usize),
    sample: &[i64],
    steps: &mut Vec<Step>,
    hit_count: &mut Vec<usize>,
) -> (reached: bool)
    requires
        bounds.0 <= bounds.1 <= nodes@.len(),
        old(hit_count)@.len() == sample@.len(),
        counts_hits(nodes@, old(steps)@, old(hit_count)@),
    ensures
        reached == routes(nodes@, bounds, sample@),
        final(hit_count)@.len() == sample@.len(),
        reached ==> final(steps)@ == old(steps)@ + tree_steps(nodes@, bounds, sample@),
        reached ==> counts_hits(nodes@, final(steps)@, final(hit_count)@),
        !reached ==> final(steps)@ == old(steps)@ && final(hit_count)@ == old(hit_count)@,
{
    let tree = slice_subrange(nodes, bounds.0, bounds.1);
    let n_nodes = nodes.len();
    let walk = match find_path(tree, sample) {
        Some(walk) => walk,
        None => {
            return false;
        },
    };
    proof {
        lemma_path_from_shape(tree@, sample@, 0, tree@.len());
    }
    let ghost before = steps@;
    let ghost all = steps_of(walk@, bounds.0);
    let n_visited = walk.len();
    let mut k: usize = 0;
    while k + 1 < n_visited
        invariant
            n_visited == walk@.len(),
            1 <= walk@.len(),
            k + 1 <= walk@.len(),
            bounds.0 <= bounds.1 <= nodes@.len(),
            nodes@.len() == n_nodes,
            tree@ == tree_at(nodes@, bounds),
            path(tree@, sample@) == Some(walk@),
            forall|j: int| 0 <= j < walk@.len() ==> (#[trigger] walk@[j]) < tree@.len(),
            forall|j: int|
                0 <= j < walk@.len() - 1 ==> tree@[(#[trigger] walk@[j]) as int].feature
                    < sample@.len(),
            all == steps_of(walk@, bounds.0),
            steps@ == before + all.subrange(0, k as int),
            hit_count@.len() == sample@.len(),
            counts_hits(nodes@, steps@, hit_count@),
        decreases walk@.len() - k,
    {
        let parent = bounds.0 + walk[k];
        let child = bounds.0 + walk[k + 1];
        let feature = nodes[parent].feature;
        let step = Step { parent, child };
        let ghost earlier = steps@;
        let ghost counted = hit_count@;
        assert(step == all[k as int]);
        assert(nodes@[parent as int] == tree@[walk@[k as int] as int]);
        steps.push(step);
        let n_steps = steps.len();
        proof {
            lemma_hits_bounded(nodes@, earlier, feature as int);
            assert(steps@.drop_last() == earlier);
            assert(before + all.subrange(0, k as int + 1) == (before + all.subrange(
                0,
                k as int,
            )).push(step));
        }
        let count = hit_count[feature];
        hit_count[feature] = count + 1;
        proof {
            assert forall|f: int| 0 <= f < hit_count@.len() implies #[trigger] hit_count@[f]
                == hits_on(nodes@, steps@, f) by {
                assert(counted[f] == hits_on(nodes@, earlier, f));
            }
        }
        k = k + 1;
    }
    proof {
        assert(all.subrange(0, k as int) == all);
    }
    true
}

/// The attribution of one sample: walks it through every tree in order, and
/// at every split that it passes notes the step to the child and counts the
/// split's feature. `None` where in some tree the sample reaches no leaf.
pub fn attribute_row(nodes: &[Node], trees: &[(usize, usize)], sample: &[i64]) -> (r: Option<
    RowAttribution,
>)
    requires
        bounds_fit(trees@, nodes@.len()),
    ensures
        match r {
            Some(found) => row_routes(nodes@, trees@, sample@) && is_attribution(
                nodes@,
                trees@,
                sample@,
                found,
            ),
            None => !row_routes(nodes@, trees@, sample@),
        },
{
    let mut steps: Vec<Step> = Vec::new();
    let mut hit_count: Vec<usize> = Vec::new();
    let mut f: usize = 0;
    while f < sample.len()
        invariant
            f <= sample@.len(),
            hit_count@.len() == f,
            forall|g: int| 0 <= g < f ==> #[trigger] hit_count@[g] == 0,
        decreases sample@.len() - f,
    {
        hit_count.push(0);
        f = f + 1;
    }
    let mut t: usize = 0;
    while t < trees.len()
        invariant
            t <= trees@.len(),
            bounds_fit(trees@, nodes@.len()),
            forall|k: int| 0 <= k < t ==> routes(nodes@, #[trigger] trees@[k], sample@),
            steps@ == row_steps(nodes@, trees@, sample@, t as nat),
            hit_count@.len() == sample@.len(),
            counts_hits(nodes@, steps@, hit_count@),
        decreases trees@.len() - t,
    {
        if !walk_tree(nodes, trees[t], sample, &mut steps, &mut hit_count) {
            return None;
        }
        t = t + 1;
    }
    Some(RowAttribution { steps, hit_count })
}

/// Whether `rows` holds the attribution of every sample.
pub open spec fn holds_attributions(
    nodes: Seq<Node>,
    trees: Seq<(usize, usize)>,
    samples: Seq<Seq<i64>>,
    rows: Seq<RowAttribution>,
) -> bool {
    &&& rows.len() == samples.len()
    &&& forall|i: int|
        0 <= i < rows.len() ==> is_attribution(nodes, trees, samples[i], #[trigger] rows[i])
}

/// Whether `r` is what feature attribution gives: the attribution of every
/// sample, or the error that is due where some sample reaches no leaf in some
/// tree.
pub open spec fn is_attributed(
    nodes: Seq<Node>,
    trees: Seq<(usize, usize)>,
    samples: Seq<Seq<i64>>,
    r: Result<Vec<RowAttribution>, LayoutError>,
) -> bool {
    match r {
        Ok(rows) => forest_routes(nodes, trees, samples) && holds_attributions(
            nodes,
            trees,
            samples,
            rows@,
        ),
        Err(e) => e == LayoutError::SelectorsOutOfRange && !forest_routes(nodes, trees, samples),
    }
}

/// Feature attribution on a pool that the caller holds. The rows are computed
/// in parallel; within a row the trees come in their order, and within a tree
/// the steps from the root down. The result does not depend on the pool.
///
/// Fails where some sample reaches no leaf in some tree.
pub fn calc_feature_delta_sum_impl(
    context: &ExecutionContext,
    selectors: &[Node],
    node_offsets: &[usize],
    data: &SampleMatrix,
) -> (r: Result<Vec<RowAttribution>, LayoutError>)
    requires
        cuts_into_trees(node_offsets@, selectors@.len()),
    ensures
        is_attributed(selectors@, neighbours(node_offsets@), data@, r),
{
    let trees = adjacent_pairs(node_offsets);
    let n_nodes = selectors.len();
    proof {
        lemma_cut_bounds_fit(node_offsets@, n_nodes as nat);
    }
    let n_rows = data.nrows();
    let unit = |i: usize| -> (r: Option<RowAttribution>)
        requires
            i < n_rows,
        ensures
            match r {
                Some(found) => row_routes(selectors@, trees@, data@[i as int]) && is_attribution(
                    selectors@,
                    trees@,
                    data@[i as int],
                    found,
                ),
                None => !row_routes(selectors@, trees@, data@[i as int]),
            },
        { attribute_row(selectors, trees.as_slice(), data.row(i)) };
    let outcomes = par_map_indices(context.pool(), n_rows, unit);
    match gather(outcomes) {
        Some(rows) => {
            proof {
                assert forall|i: int| 0 <= i < data@.len() implies row_routes(
                    selectors@,
                    trees@,
                    #[trigger] data@[i],
                ) && is_attribution(selectors@, trees@, data@[i], rows@[i]) by {
                    let k = i as usize;
                    assert(call_ensures(unit, (k,), outcomes@[k as int]));
                    assert(outcomes@[i] == Some(rows@[i]));
                }
            }
            Ok(rows)
        },
        None => {
            proof {
                let i = choose|i: int| 0 <= i < outcomes@.len() && outcomes@[i] is None;
                let k = i as usize;
                assert(call_ensures(unit, (k,), outcomes@[k as int]));
                assert(!row_routes(selectors@, trees@, data@[i]));
            }
            Err(LayoutError::SelectorsOutOfRange)
        },
    }
}

/// Feature attribution: checks the arrays as scoring does, builds a pool of
/// `num_threads` threads (for 0, of as many as fit the machine) and walks
/// every sample through every tree. Row `i` of the result holds the steps of
/// sample `i` and, for each feature, the number of splits on it that the
/// sample passed.
///
/// The caller adds, for each step, what the step contributes to the sum of
/// the feature of its parent.
pub fn calc_feature_delta_sum(
    selectors: &NodeArray,
    node_offsets: &OffsetView,
    data: &SampleMatrix,
    num_threads: usize,
) -> (r: Result<Vec<RowAttribution>, Error>)
    ensures
        match scoring_verdict(*selectors, *node_offsets, *data) {
            Err(e) => r == Err::<Vec<RowAttribution>, Error>(Error::Layout(e)),
            Ok(_) => match r {
                Ok(rows) => is_attributed(
                    selectors.nodes@,
                    neighbours(node_offsets@),
                    data@,
                    Ok(rows),
                ),
                Err(Error::Layout(e)) => is_attributed(
                    selectors.nodes@,
                    neighbours(node_offsets@),
                    data@,
                    Err(e),
                ),
                Err(Error::Pool(_)) => true,
            },
        },
{
    if let Err(e) = check_selectors(selectors.standard_layout) {
        return Err(Error::Layout(e));
    }
    let nodes = selectors.nodes.as_slice();
    if let Err(e) = check_node_offsets(node_offsets, nodes.len()) {
        return Err(Error::Layout(e));
    }
    if let Err(e) = check_data(data.is_standard_layout()) {
        return Err(Error::Layout(e));
    }
    let offsets = match node_offsets.as_slice() {
        Some(offsets) => offsets,
        None => {
            return Err(Error::Layout(LayoutError::NodeOffsetsNotContiguous));
        },
    };
    let context = match ExecutionContext::new(num_threads) {
        Ok(context) => context,
        Err(e) => {
            return Err(Error::Pool(e));
        },
    };
    match calc_feature_delta_sum_impl(&context, nodes, offsets, data) {
        Ok(rows) => Ok(rows),
        Err(e) => Err(Error::Layout(e)),
    }
}

} // verus!
