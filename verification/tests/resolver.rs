use forest_traversal::node::Node;
use forest_traversal::resolve::{find_leaf, find_leaf_index, find_path};

fn stump() -> Vec<Node> {
    vec![Node::split(0, 5, 1, 2), Node::terminal(0), Node::terminal(1)]
}

/// Root splits on column 0, its right child on column 1.
fn two_levels() -> Vec<Node> {
    vec![
        Node::split(0, 10, 1, 2),
        Node::terminal(7),
        Node::split(1, -3, 3, 4),
        Node::terminal(8),
        Node::terminal(9),
    ]
}

#[test]
fn node_constructors_set_the_discriminator() {
    let split = Node::split(3, -4, 1, 2);
    assert!(!split.is_leaf());
    assert_eq!(split.feature, 3);
    assert_eq!(split.value, -4);
    assert_eq!(split.left, 1);
    assert_eq!(split.right, 2);
    let leaf = Node::terminal(11);
    assert!(leaf.is_leaf());
    assert_eq!(leaf.left, 11);
}

#[test]
fn stump_sends_entries_at_most_the_threshold_left() {
    let tree = stump();
    assert_eq!(find_leaf_index(&tree, &[4]), Some(1));
    assert_eq!(find_leaf_index(&tree, &[5]), Some(1));
    assert_eq!(find_leaf_index(&tree, &[6]), Some(2));
    assert_eq!(find_leaf(&tree, &[9]), Some(Node::terminal(1)));
    assert_eq!(find_leaf(&tree, &[-9]), Some(Node::terminal(0)));
}

#[test]
fn path_lists_every_position_from_root_to_leaf() {
    let tree = two_levels();
    assert_eq!(find_path(&tree, &[10, 0]), Some(vec![0, 1]));
    assert_eq!(find_path(&tree, &[11, -3]), Some(vec![0, 2, 3]));
    assert_eq!(find_path(&tree, &[11, -2]), Some(vec![0, 2, 4]));
    assert_eq!(find_leaf_index(&tree, &[11, -2]), Some(4));
}

#[test]
fn single_leaf_needs_no_column() {
    let tree = vec![Node::terminal(0)];
    assert_eq!(find_path(&tree, &[]), Some(vec![0]));
    assert_eq!(find_leaf_index(&tree, &[]), Some(0));
    assert_eq!(find_leaf(&tree, &[1, 2, 3]), Some(Node::terminal(0)));
}

#[test]
fn empty_tree_has_no_root() {
    let tree: Vec<Node> = vec![];
    assert_eq!(find_path(&tree, &[1]), None);
    assert_eq!(find_leaf_index(&tree, &[1]), None);
    assert_eq!(find_leaf(&tree, &[1]), None);
}

#[test]
fn child_outside_the_tree_gives_no_leaf() {
    let tree = vec![Node::split(0, 5, 1, 3), Node::terminal(0), Node::terminal(1)];
    assert_eq!(find_leaf_index(&tree, &[5]), Some(1));
    assert_eq!(find_leaf_index(&tree, &[6]), None);
    assert_eq!(find_path(&tree, &[6]), None);
    assert_eq!(find_leaf(&tree, &[6]), None);
}

#[test]
fn column_beyond_the_sample_gives_no_leaf() {
    let tree = vec![Node::split(2, 5, 1, 2), Node::terminal(0), Node::terminal(1)];
    assert_eq!(find_leaf_index(&tree, &[1, 1]), None);
    assert_eq!(find_path(&tree, &[1, 1]), None);
    assert_eq!(find_leaf_index(&tree, &[1, 1, 1]), Some(1));
}

#[test]
fn walk_in_a_circle_gives_no_leaf() {
    let tree = vec![Node::split(0, 5, 1, 2), Node::split(0, 5, 0, 2), Node::terminal(0)];
    assert_eq!(find_leaf_index(&tree, &[0]), None);
    assert_eq!(find_path(&tree, &[0]), None);
    assert_eq!(find_leaf_index(&tree, &[9]), Some(2));
}

#[test]
fn longest_walk_visits_every_node_once() {
    // A chain: each split sends left to a leaf at the end and right to the next split.
    let tree = vec![
        Node::split(0, 0, 4, 1),
        Node::split(0, 1, 4, 2),
        Node::split(0, 2, 4, 3),
        Node::split(0, 3, 4, 4),
        Node::terminal(0),
    ];
    assert_eq!(find_path(&tree, &[9]), Some(vec![0, 1, 2, 3, 4]));
    assert_eq!(find_path(&tree, &[2]), Some(vec![0, 1, 2, 4]));
}
