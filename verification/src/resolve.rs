//! The walk of one sample from the root of one tree to a leaf.

use crate::node::Node;
use vstd::prelude::*;

verus! {

/// The positions visited from `at` on, the leaf last, with at most `fuel`
/// steps from a split to a child. There is no such walk where a position lies
/// outside the tree, where a split names a column that the sample lacks, or
/// where the steps run out before a leaf is reached.
pub open spec fn path_from(tree: Seq<Node>, sample: Seq<i64>, at: usize, fuel: nat) -> Option<
    Seq<usize>,
>
    decreases fuel,
{
    if at >= tree.len() {
        None
    } else if tree[at as int].leaf {
        Some(seq![at])
    } else if fuel == 0 || tree[at as int].feature >= sample.len() {
        None
    } else {
        match path_from(tree, sample, tree[at as int].child_for(sample), (fuel - 1) as nat) {
            Some(rest) => Some(seq![at] + rest),
            None => None,
        }
    }
}

/// The walk from the root, which is position 0. A walk that reaches a leaf
/// visits no position twice, so as many steps as the tree has nodes are
/// allowed: a walk that needs more never ends.
pub open spec fn path(tree: Seq<Node>, sample: Seq<i64>) -> Option<Seq<usize>> {
    path_from(tree, sample, 0, tree.len())
}

/// Whether the walk of `sample` through `tree` ends in a leaf.
pub open spec fn reaches_leaf(tree: Seq<Node>, sample: Seq<i64>) -> bool {
    path(tree, sample) is Some
}

/// The position of the leaf in which the walk ends.
pub open spec fn leaf_position(tree: Seq<Node>, sample: Seq<i64>) -> usize
    recommends
        reaches_leaf(tree, sample),
{
    path(tree, sample)->0.last()
}

/// A walk starts where it was asked to, stays inside the tree, passes splits
/// only and ends in a leaf; each position follows from the one before by the
/// comparison at that split.
pub proof fn lemma_path_from_shape(tree: Seq<Node>, sample: Seq<i64>, at: usize, fuel: nat)
    requires
        path_from(tree, sample, at, fuel) is Some,
    ensures
        ({
            let p = path_from(tree, sample, at, fuel)->0;
            &&& 1 <= p.len() <= fuel + 1
            &&& p[0] == at
            &&& forall|k: int| 0 <= k < p.len() ==> (#[trigger] p[k]) < tree.len()
            &&& tree[p.last() as int].leaf
            &&& forall|k: int|
                0 <= k < p.len() - 1 ==> {
                    &&& !tree[(#[trigger] p[k]) as int].leaf
                    &&& tree[p[k] as int].feature < sample.len()
                    &&& p[k + 1] == tree[p[k] as int].child_for(sample)
                }
        }),
    decreases fuel,
{
    if !tree[at as int].leaf {
        let next = tree[at as int].child_for(sample);
        lemma_path_from_shape(tree, sample, next, (fuel - 1) as nat);
        let rest = path_from(tree, sample, next, (fuel - 1) as nat)->0;
        let p = path_from(tree, sample, at, fuel)->0;
        assert(p == seq![at] + rest);
        assert forall|k: int| 0 <= k < p.len() implies (#[trigger] p[k]) < tree.len() by {
            if k > 0 {
                assert(p[k] == rest[k - 1]);
            }
        }
        assert forall|k: int| 0 <= k < p.len() - 1 implies {
            &&& !tree[(#[trigger] p[k]) as int].leaf
            &&& tree[p[k] as int].feature < sample.len()
            &&& p[k + 1] == tree[p[k] as int].child_for(sample)
        } by {
            assert(p[k + 1] == rest[k]);
            if k > 0 {
                assert(p[k] == rest[k - 1]);
            }
        }
    }
}

/// A walk that was found with some steps is found with more.
pub proof fn lemma_more_fuel_finds_the_same(
    tree: Seq<Node>,
    sample: Seq<i64>,
    at: usize,
    fuel: nat,
    more: nat,
)
    requires
        path_from(tree, sample, at, fuel) is Some,
        more >= fuel,
    ensures
        path_from(tree, sample, at, more) == path_from(tree, sample, at, fuel),
    decreases fuel,
{
    if !tree[at as int].leaf {
        lemma_more_fuel_finds_the_same(
            tree,
            sample,
            tree[at as int].child_for(sample),
            (fuel - 1) as nat,
            (more - 1) as nat,
        );
    }
}

/// A walk is found with as many steps as it takes.
pub proof fn lemma_walk_needs_its_steps_only(
    tree: Seq<Node>,
    sample: Seq<i64>,
    at: usize,
    fuel: nat,
)
    requires
        path_from(tree, sample, at, fuel) is Some,
    ensures
        path_from(tree, sample, at, (path_from(tree, sample, at, fuel)->0.len() - 1) as nat)
            == path_from(tree, sample, at, fuel),
    decreases fuel,
{
    lemma_path_from_shape(tree, sample, at, fuel);
    if !tree[at as int].leaf {
        let next = tree[at as int].child_for(sample);
        lemma_path_from_shape(tree, sample, next, (fuel - 1) as nat);
        lemma_walk_needs_its_steps_only(tree, sample, next, (fuel - 1) as nat);
    }
}

/// From any of its positions on, a walk is the walk from that position.
pub proof fn lemma_rest_of_walk_is_a_walk(
    tree: Seq<Node>,
    sample: Seq<i64>,
    at: usize,
    fuel: nat,
    j: int,
)
    requires
        path_from(tree, sample, at, fuel) is Some,
        0 <= j < path_from(tree, sample, at, fuel)->0.len(),
    ensures
        j <= fuel,
        path_from(tree, sample, path_from(tree, sample, at, fuel)->0[j], (fuel - j) as nat) == Some(
            path_from(tree, sample, at, fuel)->0.skip(j),
        ),
    decreases j,
{
    let p = path_from(tree, sample, at, fuel)->0;
    lemma_path_from_shape(tree, sample, at, fuel);
    if j == 0 {
        assert(p.skip(0) == p);
    } else {
        let next = tree[at as int].child_for(sample);
        let rest = path_from(tree, sample, next, (fuel - 1) as nat)->0;
        assert(p == seq![at] + rest);
        lemma_rest_of_walk_is_a_walk(tree, sample, next, (fuel - 1) as nat, j - 1);
        assert(p[j] == rest[j - 1]);
        assert(p.skip(j) == rest.skip(j - 1));
    }
}

/// A walk visits no position twice.
pub proof fn lemma_walk_does_not_return(
    tree: Seq<Node>,
    sample: Seq<i64>,
    at: usize,
    fuel: nat,
    j: int,
    k: int,
)
    requires
        path_from(tree, sample, at, fuel) is Some,
        0 <= j < k < path_from(tree, sample, at, fuel)->0.len(),
    ensures
        path_from(tree, sample, at, fuel)->0[j] != path_from(tree, sample, at, fuel)->0[k],
{
    let p = path_from(tree, sample, at, fuel)->0;
    lemma_rest_of_walk_is_a_walk(tree, sample, at, fuel, j);
    lemma_rest_of_walk_is_a_walk(tree, sample, at, fuel, k);
    if p[j] == p[k] {
        lemma_more_fuel_finds_the_same(tree, sample, p[k], (fuel - k) as nat, (fuel - j) as nat);
        assert(p.skip(j).len() != p.skip(k).len());
    }
}

/// There are no more different positions below `n` than `n`.
proof fn lemma_different_positions_are_few(p: Seq<usize>, n: nat)
    requires
        forall|i: int| 0 <= i < p.len() ==> (#[trigger] p[i]) < n,
        forall|i: int, j: int| 0 <= i < j < p.len() ==> p[i] != p[j],
    ensures
        p.len() <= n,
    decreases n,
{
    if p.len() > 0 {
        if n == 0 {
            assert(p[0] < n);
        } else if exists|i: int| 0 <= i < p.len() && p[i] == n - 1 {
            let at = choose|i: int| 0 <= i < p.len() && p[i] == n - 1;
            let q = p.remove(at);
            assert forall|i: int| 0 <= i < q.len() implies (#[trigger] q[i]) < n - 1 by {
                if i < at {
                    assert(q[i] == p[i]);
                } else {
                    assert(q[i] == p[i + 1]);
                }
            }
            assert forall|i: int, j: int| 0 <= i < j < q.len() implies q[i] != q[j] by {
                let a = if i < at {
                    i
                } else {
                    i + 1
                };
                let b = if j < at {
                    j
                } else {
                    j + 1
                };
                assert(q[i] == p[a] && q[j] == p[b]);
            }
            lemma_different_positions_are_few(q, (n - 1) as nat);
        } else {
            lemma_different_positions_are_few(p, (n - 1) as nat);
        }
    }
}

/// As many steps as the tree has nodes are enough: what more steps find,
/// they find, and where they find no walk there is none to find.
pub proof fn lemma_fuel_suffices(tree: Seq<Node>, sample: Seq<i64>, fuel: nat)
    requires
        fuel >= tree.len(),
    ensures
        path_from(tree, sample, 0, fuel) == path(tree, sample),
{
    if path_from(tree, sample, 0, fuel) is Some {
        let p = path_from(tree, sample, 0, fuel)->0;
        lemma_path_from_shape(tree, sample, 0, fuel);
        assert forall|i: int, j: int| 0 <= i < j < p.len() implies p[i] != p[j] by {
            lemma_walk_does_not_return(tree, sample, 0, fuel, i, j);
        }
        lemma_different_positions_are_few(p, tree.len());
        lemma_walk_needs_its_steps_only(tree, sample, 0, fuel);
        lemma_more_fuel_finds_the_same(tree, sample, 0, (p.len() - 1) as nat, tree.len());
    } else if path(tree, sample) is Some {
        lemma_more_fuel_finds_the_same(tree, sample, 0, tree.len(), fuel);
    }
}

/// The walk of a sample through a tree, as the positions visited: the root
/// first, the leaf last. `None` where the walk leaves the tree, reads a column
/// that the sample lacks, or cannot end.
pub fn find_path(tree: &[Node], sample: &[i64]) -> (r: Option<Vec<usize>>)
    ensures
        match r {
            Some(p) => path(tree@, sample@) == Some(p@),
            None => path(tree@, sample@) is None,
        },
{
    let mut visited: Vec<usize> = Vec::new();
    let mut at: usize = 0;
    let mut fuel: usize = tree.len();
    loop
        invariant
            fuel <= tree.len(),
            path(tree@, sample@) == match path_from(tree@, sample@, at, fuel as nat) {
                Some(rest) => Some(visited@ + rest),
                None => None,
            },
        decreases fuel,
    {
        if at >= tree.len() {
            return None;
        }
        let node = tree[at];
        if node.is_leaf() {
            proof {
                assert(visited@ + seq![at] == visited@.push(at));
            }
            visited.push(at);
            return Some(visited);
        }
        if fuel == 0 || node.feature >= sample.len() {
            return None;
        }
        let next = if sample[node.feature] <= node.value {
            node.left
        } else {
            node.right
        };
        proof {
            let rest_opt = path_from(tree@, sample@, next, (fuel - 1) as nat);
            if rest_opt is Some {
                assert(visited@ + (seq![at] + rest_opt->0) == visited@.push(at) + rest_opt->0);
            }
        }
        visited.push(at);
        at = next;
        fuel = fuel - 1;
    }
}

/// The position of the leaf that a sample is sent to, without keeping the
/// walk. `None` where [`find_path`] finds no walk.
pub fn find_leaf_index(tree: &[Node], sample: &[i64]) -> (r: Option<usize>)
    ensures
        match r {
            Some(at) => reaches_leaf(tree@, sample@) && at == leaf_position(tree@, sample@) && at
                < tree@.len() && tree@[at as int].leaf,
            None => !reaches_leaf(tree@, sample@),
        },
{
    let mut at: usize = 0;
    let mut fuel: usize = tree.len();
    loop
        invariant
            fuel <= tree.len(),
            reaches_leaf(tree@, sample@) <==> path_from(tree@, sample@, at, fuel as nat) is Some,
            reaches_leaf(tree@, sample@) ==> leaf_position(tree@, sample@) == path_from(
                tree@,
                sample@,
                at,
                fuel as nat,
            )->0.last(),
        decreases fuel,
    {
        if at >= tree.len() {
            return None;
        }
        let node = tree[at];
        if node.is_leaf() {
            return Some(at);
        }
        if fuel == 0 || node.feature >= sample.len() {
            return None;
        }
        let next = if sample[node.feature] <= node.value {
            node.left
        } else {
            node.right
        };
        proof {
            if path_from(tree@, sample@, next, (fuel - 1) as nat) is Some {
                lemma_path_from_shape(tree@, sample@, next, (fuel - 1) as nat);
            }
        }
        at = next;
        fuel = fuel - 1;
    }
}

/// The leaf that a sample is sent to, by value: the walk starts at the root
/// and at each split goes left where the sample's entry is at most the
/// threshold, right otherwise. `None` where [`find_path`] finds no walk.
pub fn find_leaf(tree: &[Node], sample: &[i64]) -> (r: Option<Node>)
    ensures
        match r {
            Some(leaf) => reaches_leaf(tree@, sample@) && leaf == tree@[leaf_position(
                tree@,
                sample@,
            ) as int] && leaf.leaf,
            None => !reaches_leaf(tree@, sample@),
        },
{
    match find_leaf_index(tree, sample) {
        Some(at) => Some(tree[at]),
        None => None,
    }
}

} // verus!
