use forest_traversal::error::Error;
use forest_traversal::forest::{land, Landing};
use forest_traversal::layout::{LayoutError, OffsetView};
use forest_traversal::matrix::{NodeArray, SampleMatrix};
use forest_traversal::node::Node;
use forest_traversal::ordinal::{sample_ordinal, threshold_ordinal};
use forest_traversal::pool::ExecutionContext;
use forest_traversal::scoring::{calc_paths_sum, calc_paths_sum_impl, land_row};
use ndarray::ArrayView1;

/// A forest as a caller holds it: the library's nodes, and beside them the
/// real outputs of the leaves.
struct RealForest {
    nodes: Vec<Node>,
    values: Vec<f64>,
    offsets: Vec<usize>,
}

fn matrix_of(rows: &[&[f64]], n_cols: usize) -> SampleMatrix {
    let mut ordinals = Vec::new();
    for row in rows {
        assert_eq!(row.len(), n_cols);
        for &entry in row.iter() {
            ordinals.push(sample_ordinal(entry.to_bits()));
        }
    }
    SampleMatrix::new(rows.len(), n_cols, ordinals, true).unwrap()
}

fn single_leaf(value: f64) -> RealForest {
    RealForest { nodes: vec![Node::terminal(0)], values: vec![value], offsets: vec![0, 1] }
}

/// Root split on feature 0 at 0.5; the left leaf is worth 1.0 and has weight
/// 0, the right leaf is worth 2.0 and has weight 1.
fn two_way_split() -> RealForest {
    RealForest {
        nodes: vec![
            Node::split(0, threshold_ordinal(0.5f64.to_bits()), 1, 2),
            Node::terminal(0),
            Node::terminal(1),
        ],
        values: vec![0.5, 1.0, 2.0],
        offsets: vec![0, 3],
    }
}

fn score(
    forest: &RealForest,
    data: &SampleMatrix,
    weights: Option<&[f64]>,
    num_threads: usize,
) -> Result<Vec<f64>, Error> {
    let selectors = NodeArray { standard_layout: true, nodes: forest.nodes.clone() };
    let offsets = OffsetView { inner: ArrayView1::from(&forest.offsets[..]) };
    let paths = calc_paths_sum(&selectors, &offsets, data, num_threads)?;
    Ok(sum_up(forest, &paths, weights))
}

fn sum_up(forest: &RealForest, paths: &[Vec<Landing>], weights: Option<&[f64]>) -> Vec<f64> {
    paths
        .iter()
        .map(|row| {
            let mut sum = 0.0;
            for landing in row {
                match weights {
                    Some(weights) => sum += weights[landing.slot] * forest.values[landing.leaf],
                    None => sum += forest.values[landing.leaf],
                }
            }
            sum
        })
        .collect()
}

#[test]
fn single_leaf_scores_every_sample_alike() {
    let forest = single_leaf(3.0);
    let data = matrix_of(&[&[0.25, -1.0], &[7.0, f64::NAN], &[f64::INFINITY, 0.0]], 2);
    assert_eq!(score(&forest, &data, None, 1).unwrap(), vec![3.0, 3.0, 3.0]);
}

#[test]
fn single_leaf_scores_samples_without_columns() {
    let forest = single_leaf(3.0);
    let data = SampleMatrix::new(4, 0, vec![], true).unwrap();
    assert_eq!(score(&forest, &data, None, 2).unwrap(), vec![3.0, 3.0, 3.0, 3.0]);
}

#[test]
fn no_sample_gives_no_score() {
    let forest = two_way_split();
    let data = SampleMatrix::new(0, 1, vec![], true).unwrap();
    assert_eq!(score(&forest, &data, None, 1).unwrap(), Vec::<f64>::new());
}

#[test]
fn two_way_split_scores_by_side() {
    let forest = two_way_split();
    let data = matrix_of(&[&[0.0], &[1.0]], 1);
    assert_eq!(score(&forest, &data, None, 1).unwrap(), vec![1.0, 2.0]);
}

#[test]
fn entry_equal_to_the_threshold_goes_left() {
    let forest = two_way_split();
    let data = matrix_of(&[&[0.5], &[0.5000000000000001], &[f64::NAN], &[-0.0]], 1);
    assert_eq!(score(&forest, &data, None, 1).unwrap(), vec![1.0, 2.0, 2.0, 1.0]);
}

#[test]
fn weighted_scoring_picks_the_weight_at_the_leafs_left() {
    let forest = two_way_split();
    let data = matrix_of(&[&[0.0], &[1.0]], 1);
    let selectors = NodeArray { standard_layout: true, nodes: forest.nodes.clone() };
    let offsets = OffsetView { inner: ArrayView1::from(&forest.offsets[..]) };
    let paths = calc_paths_sum(&selectors, &offsets, &data, 1).unwrap();
    assert_eq!(
        paths,
        vec![vec![Landing { leaf: 1, slot: 0 }], vec![Landing { leaf: 2, slot: 1 }]]
    );
    let weights = [10.0, 20.0];
    let picked: Vec<f64> = paths.iter().map(|row| weights[row[0].slot]).collect();
    assert_eq!(picked, vec![10.0, 20.0]);
    // Each weight is multiplied by the output of its leaf.
    assert_eq!(sum_up(&forest, &paths, Some(&weights)), vec![10.0 * 1.0, 20.0 * 2.0]);
}

#[test]
fn weighted_scoring_of_leaves_worth_one_gives_the_weights() {
    let mut forest = two_way_split();
    forest.values = vec![0.5, 1.0, 1.0];
    let data = matrix_of(&[&[0.0], &[1.0]], 1);
    assert_eq!(score(&forest, &data, Some(&[10.0, 20.0]), 1).unwrap(), vec![10.0, 20.0]);
}

/// Three trees of different shape over two features.
fn three_trees() -> RealForest {
    RealForest {
        nodes: vec![
            // tree 0
            Node::split(0, threshold_ordinal(0.5f64.to_bits()), 1, 2),
            Node::terminal(0),
            Node::terminal(1),
            // tree 1
            Node::split(1, threshold_ordinal((-1.0f64).to_bits()), 1, 2),
            Node::terminal(2),
            Node::split(0, threshold_ordinal(2.0f64.to_bits()), 3, 4),
            Node::terminal(3),
            Node::terminal(4),
            // tree 2
            Node::terminal(5),
        ],
        values: vec![0.0, 1.0, 2.0, 0.0, 0.125, 0.0, 0.25, 0.5, 100.0],
        offsets: vec![0, 3, 8, 9],
    }
}

fn some_samples() -> SampleMatrix {
    matrix_of(
        &[&[0.0, -2.0], &[1.0, -1.0], &[1.0, 0.0], &[3.0, 0.0], &[0.5, 5.0], &[f64::NAN, f64::NAN]],
        2,
    )
}

#[test]
fn sums_run_over_the_trees_in_order() {
    let forest = three_trees();
    let selectors = NodeArray { standard_layout: true, nodes: forest.nodes.clone() };
    let offsets = OffsetView { inner: ArrayView1::from(&forest.offsets[..]) };
    let paths = calc_paths_sum(&selectors, &offsets, &some_samples(), 3).unwrap();
    let leaves: Vec<Vec<usize>> =
        paths.iter().map(|row| row.iter().map(|landing| landing.leaf).collect()).collect();
    assert_eq!(
        leaves,
        vec![
            vec![1, 4, 8],
            vec![2, 4, 8],
            vec![2, 6, 8],
            vec![2, 7, 8],
            vec![1, 6, 8],
            vec![2, 7, 8],
        ]
    );
    assert_eq!(
        sum_up(&forest, &paths, None),
        vec![101.125, 102.125, 102.25, 102.5, 101.25, 102.5]
    );
}

#[test]
fn scores_do_not_depend_on_the_number_of_threads() {
    let forest = three_trees();
    let data = some_samples();
    let one = score(&forest, &data, None, 1).unwrap();
    for num_threads in [2, 3, 8, 0] {
        assert_eq!(score(&forest, &data, None, num_threads).unwrap(), one);
    }
}

#[test]
fn landings_do_not_depend_on_the_pool() {
    let forest = three_trees();
    let data = some_samples();
    let narrow = ExecutionContext::new(1).unwrap();
    let wide = ExecutionContext::new(5).unwrap();
    let first = calc_paths_sum_impl(&narrow, &forest.nodes, &forest.offsets, &data);
    let second = calc_paths_sum_impl(&wide, &forest.nodes, &forest.offsets, &data);
    assert!(first.is_ok());
    assert_eq!(first, second);
    // The same pool serves a second call.
    assert_eq!(calc_paths_sum_impl(&wide, &forest.nodes, &forest.offsets, &data), first);
}

#[test]
fn one_row_is_walked_tree_by_tree() {
    let forest = three_trees();
    let trees = [(0, 3), (3, 8), (8, 9)];
    let sample = [sample_ordinal(3.0f64.to_bits()), sample_ordinal(0.0f64.to_bits())];
    assert_eq!(
        land_row(&forest.nodes, &trees, &sample),
        Some(vec![
            Landing { leaf: 2, slot: 1 },
            Landing { leaf: 7, slot: 4 },
            Landing { leaf: 8, slot: 5 }
        ])
    );
    assert_eq!(land(&forest.nodes, (3, 8), &sample), Some(Landing { leaf: 7, slot: 4 }));
    assert_eq!(land(&forest.nodes, (4, 4), &sample), None);
    assert_eq!(land_row(&forest.nodes, &[], &sample), Some(vec![]));
}

#[test]
fn checks_come_in_order_before_any_walk() {
    let forest = two_way_split();
    let data = matrix_of(&[&[0.0]], 1);
    let strided_data = SampleMatrix::new(1, 1, vec![0], false).unwrap();
    let good = NodeArray { standard_layout: true, nodes: forest.nodes.clone() };
    let strided = NodeArray { standard_layout: false, nodes: forest.nodes.clone() };
    let unsorted = [3usize, 0];
    let beyond = [0usize, 4];

    let run = |selectors: &NodeArray, offsets: &[usize], data: &SampleMatrix| {
        calc_paths_sum(selectors, &OffsetView { inner: ArrayView1::from(offsets) }, data, 1)
    };
    assert_eq!(
        run(&strided, &unsorted, &strided_data),
        Err(Error::Layout(LayoutError::SelectorsNotContiguous))
    );
    assert_eq!(
        run(&good, &unsorted, &strided_data),
        Err(Error::Layout(LayoutError::NodeOffsetsNotSorted))
    );
    assert_eq!(
        run(&good, &beyond, &strided_data),
        Err(Error::Layout(LayoutError::NodeOffsetsOutOfRange))
    );
    assert_eq!(
        run(&good, &forest.offsets, &strided_data),
        Err(Error::Layout(LayoutError::DataNotContiguous))
    );
    assert!(run(&good, &forest.offsets, &data).is_ok());
}

#[test]
fn strided_nodes_are_rejected_before_the_offsets_are_read() {
    let forest = two_way_split();
    let strided = NodeArray { standard_layout: false, nodes: forest.nodes.clone() };
    let none: [usize; 0] = [];
    assert_eq!(
        calc_paths_sum(
            &strided,
            &OffsetView { inner: ArrayView1::from(&none[..]) },
            &matrix_of(&[&[0.0]], 1),
            1
        ),
        Err(Error::Layout(LayoutError::SelectorsNotContiguous))
    );
}

#[test]
fn walk_without_a_leaf_fails_the_whole_call() {
    let mut forest = two_way_split();
    forest.nodes[0] = Node::split(0, threshold_ordinal(0.5f64.to_bits()), 1, 7);
    let left_only = matrix_of(&[&[0.0], &[0.25]], 1);
    assert_eq!(score(&forest, &left_only, None, 2).unwrap(), vec![1.0, 1.0]);
    let both = matrix_of(&[&[0.0], &[0.75], &[0.25]], 1);
    assert_eq!(
        score(&forest, &both, None, 2),
        Err(Error::Layout(LayoutError::SelectorsOutOfRange))
    );
}

#[test]
fn tree_without_nodes_has_no_leaf() {
    let forest = RealForest {
        nodes: vec![Node::terminal(0)],
        values: vec![1.0],
        offsets: vec![0, 0, 1],
    };
    let data = matrix_of(&[&[0.0]], 1);
    assert_eq!(
        score(&forest, &data, None, 1),
        Err(Error::Layout(LayoutError::SelectorsOutOfRange))
    );
}

#[test]
fn matrix_wants_rows_times_columns_entries() {
    assert!(SampleMatrix::new(2, 3, vec![0; 6], true).is_some());
    assert!(SampleMatrix::new(2, 3, vec![0; 5], true).is_none());
    assert!(SampleMatrix::new(2, 3, vec![0; 7], true).is_none());
    assert!(SampleMatrix::new(usize::MAX, 2, vec![], true).is_none());
    assert!(SampleMatrix::new(0, 5, vec![], false).is_some());
    let matrix = SampleMatrix::new(2, 3, vec![1, 2, 3, 4, 5, 6], false).unwrap();
    assert_eq!(matrix.nrows(), 2);
    assert_eq!(matrix.ncols(), 3);
    assert!(!matrix.is_standard_layout());
    assert_eq!(matrix.row(0), &[1, 2, 3]);
    assert_eq!(matrix.row(1), &[4, 5, 6]);
}

#[test]
fn pool_that_cannot_be_built_is_reported_after_the_checks() {
    let forest = two_way_split();
    let data = matrix_of(&[&[0.0], &[1.0]], 1);
    match score(&forest, &data, None, usize::MAX) {
        Ok(scores) => assert_eq!(scores, vec![1.0, 2.0]),
        Err(Error::Pool(error)) => assert!(!error.reason.is_empty()),
        Err(Error::Layout(error)) => panic!("{}", error.message()),
    }
    let strided = NodeArray { standard_layout: false, nodes: forest.nodes.clone() };
    let offsets = OffsetView { inner: ArrayView1::from(&forest.offsets[..]) };
    assert_eq!(
        calc_paths_sum(&strided, &offsets, &data, usize::MAX),
        Err(Error::Layout(LayoutError::SelectorsNotContiguous))
    );
}

#[test]
fn scoring_without_tree_offsets_is_a_layout_error() {
    let forest = two_way_split();
    let good = NodeArray { standard_layout: true, nodes: forest.nodes.clone() };
    let none: [usize; 0] = [];
    let strided_data = SampleMatrix::new(1, 1, vec![0], false).unwrap();
    for data in [matrix_of(&[&[0.0]], 1), strided_data] {
        let found =
            calc_paths_sum(&good, &OffsetView { inner: ArrayView1::from(&none[..]) }, &data, 1);
        assert_eq!(found, Err(Error::Layout(LayoutError::NodeOffsetsEmpty)));
        assert_eq!(found.unwrap_err().message(), "node_offsets must not be empty");
    }
}
