use forest_traversal::error::Error;
use forest_traversal::forest::Landing;
use forest_traversal::layout::{LayoutError, OffsetView};
use forest_traversal::matrix::{NodeArray, SampleMatrix};
use forest_traversal::node::Node;
use forest_traversal::ordinal::{sample_ordinal, threshold_ordinal};
use forest_traversal::pool::ExecutionContext;
use forest_traversal::scoring::calc_paths_sum;
use forest_traversal::transpose::{
    calc_paths_sum_transpose, calc_paths_sum_transpose_impl, land_tree, Transposed,
};
use ndarray::ArrayView1;

fn split_at(feature: usize, threshold: f64, left: usize, right: usize) -> Node {
    Node::split(feature, threshold_ordinal(threshold.to_bits()), left, right)
}

/// Two trees; the leaves are numbered through the forest by their `left`.
fn numbered_nodes() -> Vec<Node> {
    vec![
        // tree 0: leaves 0 and 1
        split_at(0, 0.5, 1, 2),
        Node::terminal(0),
        Node::terminal(1),
        // tree 1: leaves 2, 3 and 4
        split_at(1, -1.0, 1, 2),
        Node::terminal(2),
        split_at(0, 2.0, 3, 4),
        Node::terminal(3),
        Node::terminal(4),
    ]
}

const NUMBERED_VALUES: [f64; 8] = [0.0, 1.0, 2.0, 0.0, 0.125, 0.0, 0.25, 0.5];

const NODE_OFFSETS: [usize; 3] = [0, 3, 8];

const LEAF_OFFSETS: [usize; 3] = [0, 2, 5];

fn ordinals_of(rows: &[[f64; 2]]) -> SampleMatrix {
    let mut ordinals = Vec::new();
    for row in rows {
        for entry in row {
            ordinals.push(sample_ordinal(entry.to_bits()));
        }
    }
    SampleMatrix::new(rows.len(), 2, ordinals, true).unwrap()
}

fn four_samples() -> SampleMatrix {
    ordinals_of(&[[0.0, -2.0], [1.0, 0.0], [3.0, 0.0], [0.25, 0.0]])
}

fn transpose(
    nodes: &[Node],
    node_offsets: &[usize],
    leaf_offsets: &[usize],
    data: &SampleMatrix,
    num_threads: usize,
) -> Result<Transposed, Error> {
    calc_paths_sum_transpose(
        &NodeArray { standard_layout: true, nodes: nodes.to_vec() },
        &OffsetView { inner: ArrayView1::from(node_offsets) },
        &OffsetView { inner: ArrayView1::from(leaf_offsets) },
        data,
        num_threads,
    )
}

fn add_up(plan: &Transposed, values: &[f64], weights: Option<&[f64]>) -> Vec<f64> {
    let mut output = vec![0.0; plan.n_values];
    for column in &plan.landings {
        for (sample, landing) in column.iter().enumerate() {
            match weights {
                Some(weights) => output[landing.slot] += weights[sample] * values[landing.leaf],
                None => output[landing.slot] += values[landing.leaf],
            }
        }
    }
    output
}

#[test]
fn every_tree_lists_the_leaf_of_every_sample() {
    let plan =
        transpose(&numbered_nodes(), &NODE_OFFSETS, &LEAF_OFFSETS, &four_samples(), 2).unwrap();
    assert_eq!(plan.n_values, 5);
    assert_eq!(
        plan.landings,
        vec![
            vec![
                Landing { leaf: 1, slot: 0 },
                Landing { leaf: 2, slot: 1 },
                Landing { leaf: 2, slot: 1 },
                Landing { leaf: 1, slot: 0 },
            ],
            vec![
                Landing { leaf: 4, slot: 2 },
                Landing { leaf: 6, slot: 3 },
                Landing { leaf: 7, slot: 4 },
                Landing { leaf: 6, slot: 3 },
            ],
        ]
    );
}

#[test]
fn output_adds_up_by_slot() {
    let plan =
        transpose(&numbered_nodes(), &NODE_OFFSETS, &LEAF_OFFSETS, &four_samples(), 1).unwrap();
    assert_eq!(add_up(&plan, &NUMBERED_VALUES, None), vec![2.0, 4.0, 0.125, 0.5, 0.5]);
    assert_eq!(
        add_up(&plan, &NUMBERED_VALUES, Some(&[1.0, 10.0, 100.0, 1000.0])),
        vec![1001.0, 220.0, 0.125, 252.5, 50.0]
    );
}

#[test]
fn transposed_table_is_the_scoring_table_turned() {
    let data = four_samples();
    let plan = transpose(&numbered_nodes(), &NODE_OFFSETS, &LEAF_OFFSETS, &data, 2).unwrap();
    let paths = calc_paths_sum(
        &NodeArray { standard_layout: true, nodes: numbered_nodes() },
        &OffsetView { inner: ArrayView1::from(&NODE_OFFSETS[..]) },
        &data,
        2,
    )
    .unwrap();
    assert_eq!(paths.len(), 4);
    for (sample, row) in paths.iter().enumerate() {
        assert_eq!(row.len(), 2);
        for (tree, landing) in row.iter().enumerate() {
            assert_eq!(plan.landings[tree][sample], *landing);
        }
    }
}

#[test]
fn totals_of_scoring_and_of_transposed_scoring_agree() {
    let data = four_samples();
    let plan = transpose(&numbered_nodes(), &NODE_OFFSETS, &LEAF_OFFSETS, &data, 3).unwrap();
    let paths = calc_paths_sum(
        &NodeArray { standard_layout: true, nodes: numbered_nodes() },
        &OffsetView { inner: ArrayView1::from(&NODE_OFFSETS[..]) },
        &data,
        3,
    )
    .unwrap();
    // The outputs are dyadic, so their sums are exact in any order.
    let by_slot: f64 = add_up(&plan, &NUMBERED_VALUES, None).iter().sum();
    let by_sample: f64 =
        paths.iter().map(|row| row.iter().map(|l| NUMBERED_VALUES[l.leaf]).sum::<f64>()).sum();
    assert_eq!(by_slot, 7.125);
    assert_eq!(by_sample, 7.125);
    // In integers, with every leaf worth its position.
    let by_slot: usize = plan.landings.iter().flatten().map(|l| l.leaf).sum();
    let by_sample: usize = paths.iter().flatten().map(|l| l.leaf).sum();
    assert_eq!(by_slot, 29);
    assert_eq!(by_sample, 29);
}

#[test]
fn transposed_landings_do_not_depend_on_the_number_of_threads() {
    let data = four_samples();
    let one = transpose(&numbered_nodes(), &NODE_OFFSETS, &LEAF_OFFSETS, &data, 1).unwrap();
    for num_threads in [2, 4, 0] {
        let other =
            transpose(&numbered_nodes(), &NODE_OFFSETS, &LEAF_OFFSETS, &data, num_threads)
                .unwrap();
        assert_eq!(other.n_values, one.n_values);
        assert_eq!(other.landings, one.landings);
    }
    let narrow = ExecutionContext::new(1).unwrap();
    let wide = ExecutionContext::new(6).unwrap();
    let nodes = numbered_nodes();
    assert_eq!(
        calc_paths_sum_transpose_impl(&narrow, &nodes, &NODE_OFFSETS, &LEAF_OFFSETS, &data),
        calc_paths_sum_transpose_impl(&wide, &nodes, &NODE_OFFSETS, &LEAF_OFFSETS, &data),
    );
}

#[test]
fn leaf_offsets_are_checked_after_tree_offsets() {
    let data = four_samples();
    let nodes = numbered_nodes();
    assert_eq!(
        transpose(&nodes, &[0, 9], &[], &data, 1).err(),
        Some(Error::Layout(LayoutError::NodeOffsetsOutOfRange))
    );
    assert_eq!(
        transpose(&nodes, &NODE_OFFSETS, &[], &data, 1).err(),
        Some(Error::Layout(LayoutError::LeafOffsetsEmpty))
    );
    assert_eq!(
        transpose(&nodes, &NODE_OFFSETS, &[0, 5], &data, 1).err(),
        Some(Error::Layout(LayoutError::LeafOffsetsLengthMismatch))
    );
    assert_eq!(
        transpose(&nodes, &NODE_OFFSETS, &[0, 5, 2], &data, 1).err(),
        Some(Error::Layout(LayoutError::LeafOffsetsNotSorted))
    );
    let strided_data = SampleMatrix::new(1, 2, vec![0, 0], false).unwrap();
    assert_eq!(
        transpose(&nodes, &NODE_OFFSETS, &[0, 5, 2], &strided_data, 1).err(),
        Some(Error::Layout(LayoutError::LeafOffsetsNotSorted))
    );
    assert_eq!(
        transpose(&nodes, &NODE_OFFSETS, &LEAF_OFFSETS, &strided_data, 1).err(),
        Some(Error::Layout(LayoutError::DataNotContiguous))
    );
}

#[test]
fn slot_outside_the_segment_of_its_tree_is_rejected() {
    let data = four_samples();
    // Leaf 2 belongs to tree 1, whose segment begins at 3 here.
    assert_eq!(
        transpose(&numbered_nodes(), &NODE_OFFSETS, &[0, 3, 5], &data, 2).err(),
        Some(Error::Layout(LayoutError::LeafOutOfRange))
    );
    // Leaf 4 lies at the end of a segment that ends at 4.
    assert_eq!(
        transpose(&numbered_nodes(), &NODE_OFFSETS, &[0, 2, 4], &data, 2).err(),
        Some(Error::Layout(LayoutError::LeafOutOfRange))
    );
    // No sample reaches leaf 4: the segment may end before it.
    let few = ordinals_of(&[[0.0, -2.0], [1.0, 0.0]]);
    let plan = transpose(&numbered_nodes(), &NODE_OFFSETS, &[0, 2, 4], &few, 2).unwrap();
    assert_eq!(plan.n_values, 4);
}

#[test]
fn walk_without_a_leaf_is_reported_before_a_slot_outside() {
    let mut nodes = numbered_nodes();
    // In tree 1 the right child of the root lies outside the tree.
    nodes[3] = split_at(1, -1.0, 1, 9);
    let data = four_samples();
    // Tree 0 has a slot outside its segment, tree 1 a walk without a leaf.
    assert_eq!(
        transpose(&nodes, &NODE_OFFSETS, &[0, 1, 5], &data, 1).err(),
        Some(Error::Layout(LayoutError::SelectorsOutOfRange))
    );
    assert_eq!(
        transpose(&nodes, &NODE_OFFSETS, &LEAF_OFFSETS, &data, 1).err(),
        Some(Error::Layout(LayoutError::SelectorsOutOfRange))
    );
}

#[test]
fn one_tree_is_walked_sample_by_sample() {
    let nodes = numbered_nodes();
    let data = four_samples();
    assert_eq!(
        land_tree(&nodes, (0, 3), (0, 2), &data),
        Ok(vec![
            Landing { leaf: 1, slot: 0 },
            Landing { leaf: 2, slot: 1 },
            Landing { leaf: 2, slot: 1 },
            Landing { leaf: 1, slot: 0 },
        ])
    );
    assert_eq!(land_tree(&nodes, (0, 3), (1, 2), &data), Err(LayoutError::LeafOutOfRange));
    assert_eq!(land_tree(&nodes, (0, 3), (0, 1), &data), Err(LayoutError::LeafOutOfRange));
    assert_eq!(land_tree(&nodes, (3, 5), (2, 5), &data), Err(LayoutError::SelectorsOutOfRange));
}

#[test]
fn transposed_scoring_without_tree_offsets_is_a_layout_error() {
    let data = four_samples();
    let nodes = numbered_nodes();
    // The tree offsets are looked at before the leaf offsets.
    assert_eq!(
        transpose(&nodes, &[], &LEAF_OFFSETS, &data, 1).err(),
        Some(Error::Layout(LayoutError::NodeOffsetsEmpty))
    );
    assert_eq!(
        transpose(&nodes, &[], &[], &data, 1).err(),
        Some(Error::Layout(LayoutError::NodeOffsetsEmpty))
    );
}
