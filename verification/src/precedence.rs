//! Rank-ordered reduction builds the tree that precedence and
//! left-to-right grouping call for.
//!
//! The tree of a run of operands and operators has at its root the operator
//! that binds loosest, the rightmost of them where several do; to its left
//! stands the tree of the items before it, to its right the tree of the items
//! behind it. [`lemma_reduce_is_tree`] shows that [`reduce`], which joins the
//! tightest operator first, arrives at this tree.

use crate::ast::{Exp, Sequence};
use crate::parser::{
    alternating, is_next_operator, join_at, lemma_join_alternating, lemma_next_operator_unique,
    next_operator, node_at, rank_at, reduce,
};
use vstd::prelude::*;

verus! {

/// Tells whether the operator at index `r` of `items` is the one applied
/// last: none has a higher rank, and none of the same rank stands further
/// right.
pub open spec fn is_last_operator(items: Seq<Sequence>, r: int) -> bool {
    &&& 0 <= r < items.len()
    &&& items[r] is Op
    &&& forall|j: int|
        0 <= j < items.len() && (#[trigger] items[j]) is Op ==> rank_at(items, j) < rank_at(
            items,
            r,
        ) || (rank_at(items, j) == rank_at(items, r) && j <= r)
}

/// The index of the operator of `items` that is applied last.
pub open spec fn last_operator(items: Seq<Sequence>) -> int {
    choose|r: int| is_last_operator(items, r)
}

/// The tree of an alternating run by precedence and left-to-right grouping:
/// the operator applied last, over the trees of what stands on either side
/// of it.
pub open spec fn tree_of(items: Seq<Sequence>) -> Exp
    decreases items.len(),
{
    let r = last_operator(items);
    if items.len() >= 3 && 1 <= r <= items.len() - 2 {
        Exp::Exp {
            op: items[r]->Op_0,
            left: Box::new(tree_of(items.take(r))),
            right: Box::new(tree_of(items.skip(r + 1))),
        }
    } else {
        items[0].as_exp().unwrap()
    }
}

/// Among the operators before index `n` of an alternating run there is one
/// to join next.
proof fn lemma_first_candidate(items: Seq<Sequence>, n: int) -> (best: int)
    requires
        alternating(items),
        2 <= n <= items.len(),
    ensures
        0 <= best < n,
        items[best] is Op,
        forall|j: int|
            0 <= j < n && (#[trigger] items[j]) is Op ==> rank_at(items, best) < rank_at(items, j)
                || (rank_at(items, best) == rank_at(items, j) && best <= j),
    decreases n,
{
    if n == 2 {
        assert(items[1] is Op);
        assert(!(items[0] is Op));
        1
    } else {
        let before = lemma_first_candidate(items, n - 1);
        if items[n - 1] is Op && rank_at(items, n - 1) < rank_at(items, before) {
            n - 1
        } else {
            before
        }
    }
}

/// Among the operators before index `n` of an alternating run there is one
/// that is applied last.
proof fn lemma_last_candidate(items: Seq<Sequence>, n: int) -> (best: int)
    requires
        alternating(items),
        2 <= n <= items.len(),
    ensures
        0 <= best < n,
        items[best] is Op,
        forall|j: int|
            0 <= j < n && (#[trigger] items[j]) is Op ==> rank_at(items, j) < rank_at(items, best)
                || (rank_at(items, j) == rank_at(items, best) && j <= best),
    decreases n,
{
    if n == 2 {
        assert(items[1] is Op);
        assert(!(items[0] is Op));
        1
    } else {
        let before = lemma_last_candidate(items, n - 1);
        if items[n - 1] is Op && rank_at(items, n - 1) >= rank_at(items, before) {
            n - 1
        } else {
            before
        }
    }
}

/// An alternating run with an operator has one to join next, between two
/// operands.
pub proof fn lemma_next_operator_exists(items: Seq<Sequence>)
    requires
        alternating(items),
        items.len() >= 3,
    ensures
        is_next_operator(items, next_operator(items)),
        1 <= next_operator(items) <= items.len() - 2,
        next_operator(items) % 2 == 1,
{
    let best = lemma_first_candidate(items, items.len() as int);
    assert(is_next_operator(items, best));
    assert(items[next_operator(items)] is Op);
}

/// The operator applied last is determined by the run.
pub proof fn lemma_last_operator_unique(items: Seq<Sequence>, r: int)
    requires
        is_last_operator(items, r),
    ensures
        last_operator(items) == r,
{
    let k = last_operator(items);
    assert(is_last_operator(items, k));
    assert(items[r] is Op);
    assert(items[k] is Op);
}

/// An alternating run with an operator has one that is applied last, between
/// two operands.
pub proof fn lemma_last_operator_exists(items: Seq<Sequence>)
    requires
        alternating(items),
        items.len() >= 3,
    ensures
        is_last_operator(items, last_operator(items)),
        1 <= last_operator(items) <= items.len() - 2,
        last_operator(items) % 2 == 1,
{
    let best = lemma_last_candidate(items, items.len() as int);
    assert(is_last_operator(items, best));
    assert(items[last_operator(items)] is Op);
}

/// What stands before an operator of an alternating run alternates, and so
/// does what stands behind it.
proof fn lemma_sides_alternate(items: Seq<Sequence>, r: int)
    requires
        alternating(items),
        1 <= r <= items.len() - 2,
        r % 2 == 1,
    ensures
        alternating(items.take(r)),
        alternating(items.skip(r + 1)),
{
    let left = items.take(r);
    let right = items.skip(r + 1);
    assert forall|k: int| 0 <= k < left.len() implies ((#[trigger] left[k]) is Op <==> k % 2
        == 1) by {
        assert(left[k] == items[k]);
    }
    assert forall|k: int| 0 <= k < right.len() implies ((#[trigger] right[k]) is Op <==> k % 2
        == 1) by {
        assert(right[k] == items[k + r + 1]);
    }
}

/// Joining the operator that is due next leaves the tree as it is.
proof fn lemma_join_keeps_tree(items: Seq<Sequence>)
    requires
        alternating(items),
        items.len() >= 3,
    ensures
        tree_of(join_at(items, next_operator(items))) == tree_of(items),
    decreases items.len(),
{
    lemma_next_operator_exists(items);
    lemma_last_operator_exists(items);
    let n = items.len() as int;
    let i = next_operator(items);
    let r = last_operator(items);
    let joined = join_at(items, i);
    lemma_join_alternating(items, i);
    assert(items[1] is Op);
    if n == 3 {
        assert(i == 1 && r == 1);
        assert(joined.len() == 1);
        assert(joined[0] == Sequence::Exp(node_at(items, 1)));
        assert(items.take(1).len() == 1);
        assert(items.take(1)[0] == items[0]);
        assert(items.skip(2).len() == 1);
        assert(items.skip(2)[0] == items[2]);
        assert(tree_of(items.take(1)) == items[0].as_exp().unwrap());
        assert(tree_of(items.skip(2)) == items[2].as_exp().unwrap());
        assert(tree_of(items) == node_at(items, 1));
        assert(tree_of(joined) == node_at(items, 1));
    } else {
        assert(items[3] is Op);
        assert(i != r);
        lemma_sides_alternate(items, r);
        if i < r {
            let left = items.take(r);
            assert(is_last_operator(joined, r - 2)) by {
                assert(joined[r - 2] == items[r]);
                assert forall|j: int| 0 <= j < joined.len() && (#[trigger] joined[j]) is Op implies
                    rank_at(joined, j) < rank_at(joined, r - 2) || (rank_at(joined, j) == rank_at(
                    joined,
                    r - 2,
                ) && j <= r - 2) by {
                    if j < i - 1 {
                        assert(joined[j] == items[j]);
                    } else {
                        assert(joined[j] == items[j + 2]);
                    }
                }
            }
            lemma_last_operator_unique(joined, r - 2);
            assert(is_next_operator(left, i)) by {
                assert(left[i] == items[i]);
                assert forall|j: int| 0 <= j < left.len() && (#[trigger] left[j]) is Op implies
                    rank_at(left, i) < rank_at(left, j) || (rank_at(left, i) == rank_at(left, j)
                    && i <= j) by {
                    assert(left[j] == items[j]);
                }
            }
            lemma_next_operator_unique(left, i);
            assert(joined.take(r - 2) =~= join_at(left, i));
            assert(joined.skip(r - 1) =~= items.skip(r + 1));
            lemma_join_keeps_tree(left);
            assert(joined[r - 2] == items[r]);
            assert(tree_of(joined) == Exp::Exp {
                op: items[r]->Op_0,
                left: Box::new(tree_of(joined.take(r - 2))),
                right: Box::new(tree_of(joined.skip(r - 1))),
            });
        } else {
            let right = items.skip(r + 1);
            let k = i - (r + 1);
            assert(is_last_operator(joined, r)) by {
                assert(joined[r] == items[r]);
                assert forall|j: int| 0 <= j < joined.len() && (#[trigger] joined[j]) is Op implies
                    rank_at(joined, j) < rank_at(joined, r) || (rank_at(joined, j) == rank_at(
                    joined,
                    r,
                ) && j <= r) by {
                    if j < i - 1 {
                        assert(joined[j] == items[j]);
                    } else {
                        assert(joined[j] == items[j + 2]);
                    }
                }
            }
            lemma_last_operator_unique(joined, r);
            assert(is_next_operator(right, k)) by {
                assert(right[k] == items[i]);
                assert forall|j: int| 0 <= j < right.len() && (#[trigger] right[j]) is Op implies
                    rank_at(right, k) < rank_at(right, j) || (rank_at(right, k) == rank_at(
                    right,
                    j,
                ) && k <= j) by {
                    assert(right[j] == items[j + r + 1]);
                }
            }
            lemma_next_operator_unique(right, k);
            assert(joined.take(r) =~= items.take(r));
            assert(joined.skip(r + 1) =~= join_at(right, k));
            lemma_join_keeps_tree(right);
            assert(tree_of(joined) == Exp::Exp {
                op: items[r]->Op_0,
                left: Box::new(tree_of(joined.take(r))),
                right: Box::new(tree_of(joined.skip(r + 1))),
            });
        }
    }
}

/// Rank-ordered reduction builds the tree of precedence and left-to-right
/// grouping: at the root stands the loosest operator, the rightmost where
/// several bind as loosely, over the trees of the two sides.
pub proof fn lemma_reduce_is_tree(items: Seq<Sequence>)
    requires
        alternating(items),
    ensures
        reduce(items) == tree_of(items),
    decreases items.len(),
{
    if items.len() >= 3 {
        lemma_next_operator_exists(items);
        let i = next_operator(items);
        lemma_join_alternating(items, i);
        lemma_reduce_is_tree(join_at(items, i));
        lemma_join_keeps_tree(items);
    }
}

} // verus!
