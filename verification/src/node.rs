//! The record that stores one node of a decision tree.

use vstd::prelude::*;

verus! {

/// One node of a tree, split or leaf: both roles share one record, so that a
/// whole forest lies in one homogeneous array.
///
/// Of a split, `feature` is the column of the sample that is compared, `value`
/// the ordinal of the threshold, and `left` and `right` the positions of the
/// two children, counted from the root of the same tree. Of a leaf, `left` is
/// the position of the leaf's weight, or of its slot in a transposed output,
/// and `feature`, `value` and `right` are not read.
#[derive(Clone, Copy, Debug, PartialEq, Eq, Structural)]
pub struct Node {
    pub feature: usize,
    pub left: usize,
    pub value: i64,
    pub right: usize,
    pub leaf: bool,
}

impl Node {
    /// A split on `feature` at the threshold with ordinal `value`.
    pub fn split(feature: usize, value: i64, left: usize, right: usize) -> (node: Node)
        ensures
            node == (Node { feature, left, value, right, leaf: false }),
    {
        Node { feature, left, value, right, leaf: false }
    }

    /// A leaf whose weight, or output slot, has position `left`.
    pub fn terminal(left: usize) -> (node: Node)
        ensures
            node == (Node { feature: 0, left, value: 0, right: 0, leaf: true }),
    {
        Node { feature: 0, left, value: 0, right: 0, leaf: true }
    }

    /// Whether the node is a leaf.
    pub fn is_leaf(&self) -> (b: bool)
        ensures
            b == self.leaf,
    {
        self.leaf
    }

    /// The child of a split that a sample is sent to: the left one where the
    /// sample's entry in the split's column is at most the threshold, the right
    /// one otherwise.
    pub open spec fn child_for(self, sample: Seq<i64>) -> usize {
        if sample[self.feature as int] <= self.value {
            self.left
        } else {
            self.right
        }
    }
}

} // verus!
