//! The arrays of nodes and of samples as the caller presents them.

use crate::node::Node;
use vstd::prelude::*;
use vstd::slice::slice_subrange;

verus! {

/// The nodes of a forest, tree after tree, with what the caller knows of the
/// buffer that they came from: whether it lay contiguous and in memory order.
pub struct NodeArray {
    pub standard_layout: bool,
    pub nodes: Vec<Node>,
}

/// A matrix of samples, one row for each sample and one column for each
/// feature, row after row in one buffer. An entry is the ordinal of a real
/// number. `standard_layout` is what the caller knows of the buffer that the
/// entries came from.
pub struct SampleMatrix {
    standard_layout: bool,
    n_rows: usize,
    n_cols: usize,
    values: Vec<i64>,
}

impl View for SampleMatrix {
    type V = Seq<Seq<i64>>;

    /// The rows of the matrix.
    closed spec fn view(&self) -> Seq<Seq<i64>> {
        Seq::new(
            self.n_rows as nat,
            |i: int| self.values@.subrange(i * self.n_cols, (i + 1) * self.n_cols),
        )
    }
}

impl SampleMatrix {
    /// The buffer holds exactly the entries of the rows.
    #[verifier::type_invariant]
    spec fn holds_all_rows(self) -> bool {
        self.values@.len() == self.n_rows * self.n_cols
    }

    /// The number of columns.
    pub closed spec fn spec_ncols(&self) -> nat {
        self.n_cols as nat
    }

    /// Whether the caller's buffer lay contiguous and in memory order.
    pub closed spec fn spec_standard_layout(&self) -> bool {
        self.standard_layout
    }

    proof fn lemma_row_bounds(&self, i: int)
        requires
            self.values@.len() == self.n_rows * self.n_cols,
            0 <= i < self.n_rows,
        ensures
            0 <= i * self.n_cols <= (i + 1) * self.n_cols <= self.values@.len(),
            (i + 1) * self.n_cols - i * self.n_cols == self.n_cols,
    {
        assert(0 <= i * self.n_cols <= (i + 1) * self.n_cols <= self.n_rows * self.n_cols
            && (i + 1) * self.n_cols - i * self.n_cols == self.n_cols) by (nonlinear_arith)
            requires
                0 <= i < self.n_rows,
                0 <= self.n_cols,
        ;
    }

    /// A matrix of `n_rows` rows and `n_cols` columns over `values`, which
    /// holds the rows one after another. `None` where `values` does not hold
    /// exactly `n_rows` times `n_cols` entries.
    pub fn new(n_rows: usize, n_cols: usize, values: Vec<i64>, standard_layout: bool) -> (r: Option<
        SampleMatrix,
    >)
        ensures
            r is Some <==> values@.len() == n_rows * n_cols,
            r matches Some(m) ==> {
                &&& m@.len() == n_rows
                &&& m.spec_ncols() == n_cols
                &&& m.spec_standard_layout() == standard_layout
                &&& forall|i: int|
                    0 <= i < n_rows ==> #[trigger] m@[i] == values@.subrange(
                        i * n_cols,
                        (i + 1) * n_cols,
                    )
            },
    {
        let len = values.len();
        match n_rows.checked_mul(n_cols) {
            Some(n) => {
                if n == len {
                    Some(SampleMatrix { standard_layout, n_rows, n_cols, values })
                } else {
                    None
                }
            },
            None => None,
        }
    }

    /// The number of rows.
    pub fn nrows(&self) -> (n: usize)
        ensures
            n == self@.len(),
    {
        self.n_rows
    }

    /// The number of columns.
    pub fn ncols(&self) -> (n: usize)
        ensures
            n == self.spec_ncols(),
    {
        self.n_cols
    }

    /// Whether the caller's buffer lay contiguous and in memory order.
    pub fn is_standard_layout(&self) -> (b: bool)
        ensures
            b == self.spec_standard_layout(),
    {
        self.standard_layout
    }

    /// The row of one sample.
    pub fn row(&self, i: usize) -> (sample: &[i64])
        requires
            i < self@.len(),
        ensures
            sample@ == self@[i as int],
            sample@.len() == self.spec_ncols(),
    {
        let values = self.values.as_slice();
        let len = values.len();
        proof {
            use_type_invariant(self);
            self.lemma_row_bounds(i as int);
        }
        slice_subrange(values, i * self.n_cols, (i + 1) * self.n_cols)
    }
}

} // verus!
