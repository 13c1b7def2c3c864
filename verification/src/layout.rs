//! The checks on the arrays that describe a forest, made once before any
//! sample is routed.

use itertools::Itertools;
use vstd::prelude::*;
use vstd::string::StringExecFns;

verus! {

/// The way in which the arrays handed over fail to describe a forest.
#[derive(Clone, Copy, Debug, PartialEq, Eq, Structural)]
pub enum LayoutError {
    /// The nodes do not lie contiguous and in memory order.
    SelectorsNotContiguous,
    /// A tree offset is greater than the one after it.
    NodeOffsetsNotSorted,
    /// The last tree offset lies beyond the nodes.
    NodeOffsetsOutOfRange,
    /// The tree offsets do not lie contiguous and in memory order.
    NodeOffsetsNotContiguous,
    /// There is no tree offset.
    NodeOffsetsEmpty,
    /// There is no leaf offset.
    LeafOffsetsEmpty,
    /// There are not as many leaf offsets as tree offsets.
    LeafOffsetsLengthMismatch,
    /// A leaf offset is greater than the one after it.
    LeafOffsetsNotSorted,
    /// The leaf offsets do not lie contiguous and in memory order.
    LeafOffsetsNotContiguous,
    /// The samples do not lie contiguous and in memory order.
    DataNotContiguous,
    /// Some walk leaves its tree, reads a column that the sample lacks, or
    /// cannot end.
    SelectorsOutOfRange,
    /// Some leaf names an output slot outside the segment of its tree.
    LeafOutOfRange,
}

impl LayoutError {
    /// The text of [`LayoutError::message`].
    pub open spec fn spec_message(self) -> Seq<char> {
        match self {
            LayoutError::SelectorsNotContiguous => "selectors must be contiguous and in memory order"@,
            LayoutError::NodeOffsetsNotSorted => "node_offsets must be sorted in ascending order"@,
            LayoutError::NodeOffsetsOutOfRange => "node_offsets are out of range of the selectors"@,
            LayoutError::NodeOffsetsNotContiguous => "node_offsets must be contiguous and in memory order"@,
            LayoutError::NodeOffsetsEmpty => "node_offsets must not be empty"@,
            LayoutError::LeafOffsetsEmpty => "leaf_offsets must not be empty"@,
            LayoutError::LeafOffsetsLengthMismatch => "leaf_offsets must have the same length as node_offsets"@,
            LayoutError::LeafOffsetsNotSorted => "leaf_offsets must be sorted in ascending order"@,
            LayoutError::LeafOffsetsNotContiguous => "leaf_offsets must be contiguous and in memory order"@,
            LayoutError::DataNotContiguous => "data must be contiguous and in memory order"@,
            LayoutError::SelectorsOutOfRange => "selectors are out of range of their tree or of the data"@,
            LayoutError::LeafOutOfRange => "selectors are out of range of the leaf_offsets"@,
        }
    }

    /// A sentence that names the rule that was broken.
    pub fn message(&self) -> (text: String)
        ensures
            text@ == self.spec_message(),
    {
        match self {
            LayoutError::SelectorsNotContiguous => String::from_str(
                "selectors must be contiguous and in memory order",
            ),
            LayoutError::NodeOffsetsNotSorted => String::from_str(
                "node_offsets must be sorted in ascending order",
            ),
            LayoutError::NodeOffsetsOutOfRange => String::from_str(
                "node_offsets are out of range of the selectors",
            ),
            LayoutError::NodeOffsetsNotContiguous => String::from_str(
                "node_offsets must be contiguous and in memory order",
            ),
            LayoutError::NodeOffsetsEmpty => String::from_str("node_offsets must not be empty"),
            LayoutError::LeafOffsetsEmpty => String::from_str("leaf_offsets must not be empty"),
            LayoutError::LeafOffsetsLengthMismatch => String::from_str(
                "leaf_offsets must have the same length as node_offsets",
            ),
            LayoutError::LeafOffsetsNotSorted => String::from_str(
                "leaf_offsets must be sorted in ascending order",
            ),
            LayoutError::LeafOffsetsNotContiguous => String::from_str(
                "leaf_offsets must be contiguous and in memory order",
            ),
            LayoutError::DataNotContiguous => String::from_str(
                "data must be contiguous and in memory order",
            ),
            LayoutError::SelectorsOutOfRange => String::from_str(
                "selectors are out of range of their tree or of the data",
            ),
            LayoutError::LeafOutOfRange => String::from_str(
                "selectors are out of range of the leaf_offsets",
            ),
        }
    }
}

/// A table of offsets as the caller holds it: a one-dimensional `ndarray` view,
/// which may skip through its buffer. Verus sees nothing inside it; what it
/// holds is named by [`offsets_in`] and [`in_standard_layout`].
#[verifier::external_body]
pub struct OffsetView<'a> {
    pub inner: ndarray::ArrayView1<'a, usize>,
}

/// The offsets that a view holds, in the order of its index.
pub uninterp spec fn offsets_in(view: OffsetView) -> Seq<usize>;

/// Whether a view lies contiguous and in memory order, so that it is a slice.
pub uninterp spec fn in_standard_layout(view: OffsetView) -> bool;

impl<'a> View for OffsetView<'a> {
    type V = Seq<usize>;

    open spec fn view(&self) -> Seq<usize> {
        offsets_in(*self)
    }
}

impl<'a> OffsetView<'a> {
    /// The number of offsets.
    pub fn len(&self) -> (n: usize)
        ensures
            n == self@.len(),
    {
        view_len(self)
    }

    /// The offsets as a slice, where the view is in standard layout.
    pub fn as_slice(&self) -> (r: Option<&[usize]>)
        ensures
            r is Some <==> in_standard_layout(*self),
            r matches Some(slice) ==> slice@ == self@,
    {
        view_as_slice(self)
    }
}

/// `ArrayBase::len` of `ndarray`: the number of elements of the view.
#[verifier::external_body]
fn view_len(view: &OffsetView) -> (n: usize)
    ensures
        n == offsets_in(*view).len(),
{
    view.inner.len()
}

/// `ArrayBase::as_slice` of `ndarray`: the elements as a slice, in the order
/// of the index, where the view is in standard layout, and `None` where it is
/// not.
#[verifier::external_body]
fn view_as_slice<'a, 'b>(view: &'b OffsetView<'a>) -> (r: Option<&'b [usize]>)
    ensures
        r is Some <==> in_standard_layout(*view),
        r matches Some(slice) ==> slice@ == offsets_in(*view),
{
    view.inner.as_slice()
}

/// The pairs of neighbours of a sequence: the first with the second, the
/// second with the third, and so on. A sequence of fewer than two has none.
pub open spec fn neighbours(s: Seq<usize>) -> Seq<(usize, usize)> {
    Seq::new(
        if s.len() >= 1 {
            (s.len() - 1) as nat
        } else {
            0
        },
        |i: int| (s[i], s[i + 1]),
    )
}

/// `Itertools::tuple_windows` of `itertools`, for pairs, on the copied items
/// of a slice: every window of two neighbours, in order.
#[verifier::external_body]
pub(crate) fn adjacent_pairs(offsets: &[usize]) -> (pairs: Vec<(usize, usize)>)
    ensures
        pairs@ == neighbours(offsets@),
{
    offsets.iter().copied().tuple_windows().collect()
}

/// Whether no offset is greater than the one after it.
pub open spec fn ascending(s: Seq<usize>) -> bool {
    forall|i: int| 0 <= i < s.len() - 1 ==> s[i] <= #[trigger] s[i + 1]
}

/// In an ascending sequence an earlier offset is at most a later one.
pub proof fn lemma_ascending_is_monotone(s: Seq<usize>, i: int, j: int)
    requires
        ascending(s),
        0 <= i <= j < s.len(),
    ensures
        s[i] <= s[j],
    decreases j - i,
{
    if i < j {
        lemma_ascending_is_monotone(s, i, j - 1);
        assert(s[j - 1] <= s[j - 1 + 1]);
    }
}

/// Whether the offsets are ascending, found by comparing each with the next.
fn is_ascending(offsets: &[usize]) -> (b: bool)
    ensures
        b == ascending(offsets@),
{
    let pairs = adjacent_pairs(offsets);
    let mut k: usize = 0;
    while k < pairs.len()
        invariant
            k <= pairs.len(),
            pairs@ == neighbours(offsets@),
            forall|i: int| 0 <= i < k ==> offsets@[i] <= #[trigger] offsets@[i + 1],
        decreases pairs.len() - k,
    {
        let (x, y) = pairs[k];
        if x > y {
            assert(offsets@[k as int] > offsets@[k as int + 1]);
            return false;
        }
        k = k + 1;
    }
    true
}

/// What [`check_selectors`] finds.
pub open spec fn selectors_verdict(standard_layout: bool) -> Result<(), LayoutError> {
    if standard_layout {
        Ok(())
    } else {
        Err(LayoutError::SelectorsNotContiguous)
    }
}

/// Accepts an array of nodes that lies contiguous and in memory order, which
/// is what `standard_layout` says of it.
pub fn check_selectors(standard_layout: bool) -> (r: Result<(), LayoutError>)
    ensures
        r == selectors_verdict(standard_layout),
{
    if !standard_layout {
        return Err(LayoutError::SelectorsNotContiguous);
    }
    Ok(())
}

/// What [`check_data`] finds.
pub open spec fn data_verdict(standard_layout: bool) -> Result<(), LayoutError> {
    if standard_layout {
        Ok(())
    } else {
        Err(LayoutError::DataNotContiguous)
    }
}

/// Accepts a matrix of samples that lies contiguous and in memory order,
/// which is what `standard_layout` says of it.
pub fn check_data(standard_layout: bool) -> (r: Result<(), LayoutError>)
    ensures
        r == data_verdict(standard_layout),
{
    if !standard_layout {
        return Err(LayoutError::DataNotContiguous);
    }
    Ok(())
}

/// Whether offsets cut `n_nodes` nodes into trees: there is an offset, none is
/// greater than the one after it, and the last does not lie beyond the nodes.
pub open spec fn cuts_into_trees(offsets: Seq<usize>, n_nodes: nat) -> bool {
    &&& offsets.len() > 0
    &&& ascending(offsets)
    &&& offsets.last() <= n_nodes
}

/// What [`check_node_offsets`] finds: the first rule that is broken, in the
/// order in which they are checked.
pub open spec fn node_offsets_verdict(node_offsets: OffsetView, n_nodes: nat) -> Result<
    (),
    LayoutError,
> {
    if !in_standard_layout(node_offsets) {
        Err(LayoutError::NodeOffsetsNotContiguous)
    } else if node_offsets@.len() == 0 {
        Err(LayoutError::NodeOffsetsEmpty)
    } else if !ascending(node_offsets@) {
        Err(LayoutError::NodeOffsetsNotSorted)
    } else if node_offsets@.last() > n_nodes {
        Err(LayoutError::NodeOffsetsOutOfRange)
    } else {
        Ok(())
    }
}

/// Checks the tree offsets against the number of nodes: there is an offset,
/// none is greater than the one after it, and the last does not lie beyond the
/// nodes.
pub fn check_node_offsets(node_offsets: &OffsetView, selectors_length: usize) -> (r: Result<
    (),
    LayoutError,
>)
    ensures
        r == node_offsets_verdict(*node_offsets, selectors_length as nat),
        r is Ok ==> cuts_into_trees(node_offsets@, selectors_length as nat),
{
    if let Some(offsets) = node_offsets.as_slice() {
        if offsets.len() == 0 {
            return Err(LayoutError::NodeOffsetsEmpty);
        }
        if !is_ascending(offsets) {
            return Err(LayoutError::NodeOffsetsNotSorted);
        }
        if offsets[offsets.len() - 1] > selectors_length {
            return Err(LayoutError::NodeOffsetsOutOfRange);
        }
        Ok(())
    } else {
        Err(LayoutError::NodeOffsetsNotContiguous)
    }
}

/// What [`check_leaf_offsets`] finds: the first rule that is broken, in the
/// order in which they are checked.
pub open spec fn leaf_offsets_verdict(leaf_offsets: OffsetView, node_offset_len: nat) -> Result<
    (),
    LayoutError,
> {
    if leaf_offsets@.len() == 0 {
        Err(LayoutError::LeafOffsetsEmpty)
    } else if leaf_offsets@.len() != node_offset_len {
        Err(LayoutError::LeafOffsetsLengthMismatch)
    } else if !in_standard_layout(leaf_offsets) {
        Err(LayoutError::LeafOffsetsNotContiguous)
    } else if !ascending(leaf_offsets@) {
        Err(LayoutError::LeafOffsetsNotSorted)
    } else {
        Ok(())
    }
}

/// Checks the leaf offsets, which cut a transposed output into one segment for
/// each tree, against the number of tree offsets.
pub fn check_leaf_offsets(leaf_offsets: &OffsetView, node_offset_len: usize) -> (r: Result<
    (),
    LayoutError,
>)
    ensures
        r == leaf_offsets_verdict(*leaf_offsets, node_offset_len as nat),
{
    if leaf_offsets.len() == 0 {
        return Err(LayoutError::LeafOffsetsEmpty);
    }
    if leaf_offsets.len() != node_offset_len {
        return Err(LayoutError::LeafOffsetsLengthMismatch);
    }
    if let Some(offsets) = leaf_offsets.as_slice() {
        if !is_ascending(offsets) {
            return Err(LayoutError::LeafOffsetsNotSorted);
        }
        Ok(())
    } else {
        Err(LayoutError::LeafOffsetsNotContiguous)
    }
}

} // verus!
