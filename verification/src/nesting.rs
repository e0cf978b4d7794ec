//! What it means that a forest is nested as its depths say: each element
//! hangs under the nearest element before it that is less deep, and no
//! other forest holds the same elements in the same order.

use crate::model::NodeModel;
use crate::tree::{flatten, nested, Tree};
use vstd::prelude::*;

verus! {

/// The index, in the source order of `forest`, of the parent of the element
/// with the index `k`; -1 where that element is a root.
pub open spec fn parent_of(forest: Seq<Tree>, k: int) -> int
    decreases forest,
{
    if forest.len() == 0 {
        -1
    } else {
        let before = flatten(forest.drop_last()).len() as int;
        if k < before {
            parent_of(forest.drop_last(), k)
        } else if k == before {
            -1
        } else {
            let inner = parent_of(forest.last().children, k - before - 1);
            if inner < 0 {
                before
            } else {
                inner + before + 1
            }
        }
    }
}

/// Whether the element `nodes[k]` hangs rightly under `nodes[parent]`: that
/// element is the nearest one before it that is less deep. With -1 for
/// `parent`: no element before it is less deep.
pub open spec fn hangs_under(nodes: Seq<NodeModel>, k: int, parent: int) -> bool {
    &&& -1 <= parent < k
    &&& parent >= 0 ==> nodes[parent].depth < nodes[k].depth
    &&& forall|j: int| parent < j < k ==> (#[trigger] nodes[j]).depth >= nodes[k].depth
}

/// A nested forest without its last tree is nested.
proof fn lemma_nested_drop_last(forest: Seq<Tree>, bound: int)
    requires
        nested(forest, bound),
        forest.len() > 0,
    ensures
        nested(forest.drop_last(), bound),
        nested(forest.last().children, forest.last().element.depth as int),
        forest.last().element.depth > bound,
{
    let shorter = forest.drop_last();
    assert forall|i: int| 0 <= i < shorter.len() implies (#[trigger] shorter[i]).element.depth
        > bound by {
        assert(shorter[i] == forest[i]);
    }
    assert forall|i: int, j: int| 0 <= i < j < shorter.len() implies (
    #[trigger] shorter[i]).element.depth >= (#[trigger] shorter[j]).element.depth by {
        assert(shorter[i] == forest[i]);
        assert(shorter[j] == forest[j]);
    }
    assert forall|i: int| 0 <= i < shorter.len() implies nested(
        (#[trigger] shorter[i]).children,
        shorter[i].element.depth as int,
    ) by {
        assert(shorter[i] == forest[i]);
    }
    assert(forest.last() == forest[forest.len() - 1]);
}

/// Every element of a forest that is nested under the depth `bound` is
/// deeper than `bound`.
pub proof fn lemma_deeper_than_bound(forest: Seq<Tree>, bound: int)
    requires
        nested(forest, bound),
    ensures
        forall|i: int|
            0 <= i < flatten(forest).len() ==> (#[trigger] flatten(forest)[i]).depth > bound,
    decreases forest,
{
    if forest.len() > 0 {
        let last = forest.last();
        lemma_nested_drop_last(forest, bound);
        lemma_deeper_than_bound(forest.drop_last(), bound);
        lemma_deeper_than_bound(last.children, last.element.depth as int);
        let first = flatten(forest.drop_last());
        let inner = flatten(last.children);
        assert forall|i: int| 0 <= i < flatten(forest).len() implies (#[trigger] flatten(
            forest,
        )[i]).depth > bound by {
            if i < first.len() {
                assert(flatten(forest)[i] == first[i]);
            } else if i > first.len() {
                assert(flatten(forest)[i] == inner[i - first.len() - 1]);
            }
        }
    }
}

/// No element of a nested forest is less deep than the last root.
pub proof fn lemma_last_root_is_shallowest(forest: Seq<Tree>, bound: int)
    requires
        nested(forest, bound),
        forest.len() > 0,
    ensures
        forall|i: int|
            0 <= i < flatten(forest).len() ==> (#[trigger] flatten(forest)[i]).depth
                >= forest.last().element.depth,
    decreases forest,
{
    let last = forest.last();
    let shorter = forest.drop_last();
    lemma_nested_drop_last(forest, bound);
    lemma_deeper_than_bound(last.children, last.element.depth as int);
    let first = flatten(shorter);
    let inner = flatten(last.children);
    if shorter.len() > 0 {
        lemma_last_root_is_shallowest(shorter, bound);
        assert(shorter.last() == forest[forest.len() - 2]);
        assert(forest[forest.len() - 2].element.depth >= forest[forest.len() - 1].element.depth);
    } else {
        assert(first.len() == 0);
    }
    assert forall|i: int| 0 <= i < flatten(forest).len() implies (#[trigger] flatten(
        forest,
    )[i]).depth >= last.element.depth by {
        if i < first.len() {
            assert(flatten(forest)[i] == first[i]);
        } else if i > first.len() {
            assert(flatten(forest)[i] == inner[i - first.len() - 1]);
        }
    }
}

/// In a nested forest every element hangs under the nearest element before
/// it that is less deep, and is a root where no element before it is less
/// deep. This holds whatever the depths are: an element that is deeper than
/// the one before it by more than one level hangs under it all the same.
pub proof fn lemma_parent_is_nearest_shallower(forest: Seq<Tree>, bound: int, k: int)
    requires
        nested(forest, bound),
        0 <= k < flatten(forest).len(),
    ensures
        hangs_under(flatten(forest), k, parent_of(forest, k)),
    decreases forest,
{
    let all = flatten(forest);
    let last = forest.last();
    let shorter = forest.drop_last();
    let first = flatten(shorter);
    let inner = flatten(last.children);
    let before = first.len() as int;
    lemma_nested_drop_last(forest, bound);
    assert(all == first + seq![last.element] + inner);
    if k < before {
        lemma_parent_is_nearest_shallower(shorter, bound, k);
        assert forall|j: int| 0 <= j <= k implies all[j] == first[j] by {}
    } else if k == before {
        if shorter.len() > 0 {
            lemma_last_root_is_shallowest(shorter, bound);
            assert(shorter.last() == forest[forest.len() - 2]);
            assert(forest[forest.len() - 2].element.depth >= forest[forest.len()
                - 1].element.depth);
        }
        assert forall|j: int| -1 < j < k implies (#[trigger] all[j]).depth >= all[k].depth by {
            assert(all[j] == first[j]);
        }
    } else {
        let below = k - before - 1;
        lemma_parent_is_nearest_shallower(last.children, last.element.depth as int, below);
        lemma_deeper_than_bound(last.children, last.element.depth as int);
        let up = parent_of(last.children, below);
        assert(all[k] == inner[below]);
        assert(all[before] == last.element);
        assert forall|j: int| parent_of(forest, k) < j < k implies (#[trigger] all[j]).depth
            >= all[k].depth by {
            assert(all[j] == inner[j - before - 1]);
        }
        if up >= 0 {
            assert(all[up + before + 1] == inner[up]);
        }
    }
}

/// The depths decide the forest: two forests that are nested under the same
/// depth and hold the same elements in the same order are one forest.
pub proof fn lemma_nesting_is_unique(one: Seq<Tree>, other: Seq<Tree>, bound: int)
    requires
        nested(one, bound),
        nested(other, bound),
        flatten(one) == flatten(other),
    ensures
        one == other,
    decreases one,
{
    let all = flatten(one);
    if one.len() == 0 {
        if other.len() > 0 {
            assert(flatten(other).len() > 0);
        }
        assert(one =~= other);
    } else {
        if other.len() == 0 {
            assert(flatten(one).len() > 0);
        }
        let a = one.last();
        let b = other.last();
        let first_a = flatten(one.drop_last());
        let first_b = flatten(other.drop_last());
        let inner_a = flatten(a.children);
        let inner_b = flatten(b.children);
        lemma_nested_drop_last(one, bound);
        lemma_nested_drop_last(other, bound);
        assert(all == first_a + seq![a.element] + inner_a);
        assert(all == first_b + seq![b.element] + inner_b);
        lemma_last_root_is_no_earlier(one, other, bound);
        lemma_last_root_is_no_earlier(other, one, bound);
        let n = first_a.len() as int;
        assert(all[n] == a.element);
        assert(all[n] == b.element);
        assert(first_a == all.take(n));
        assert(first_b == all.take(n));
        assert(inner_a == all.skip(n + 1));
        assert(inner_b == all.skip(n + 1));
        lemma_nesting_is_unique(one.drop_last(), other.drop_last(), bound);
        lemma_nesting_is_unique(a.children, b.children, a.element.depth as int);
        assert(a == b);
        assert(one == one.drop_last().push(a));
        assert(other == other.drop_last().push(b));
    }
}

/// The last root of a nested forest does not stand before the last root of
/// another nested forest with the same elements.
proof fn lemma_last_root_is_no_earlier(one: Seq<Tree>, other: Seq<Tree>, bound: int)
    requires
        nested(one, bound),
        nested(other, bound),
        flatten(one) == flatten(other),
        one.len() > 0,
        other.len() > 0,
    ensures
        flatten(one.drop_last()).len() >= flatten(other.drop_last()).len(),
{
    let all = flatten(one);
    let a = one.last();
    let b = other.last();
    let first_a = flatten(one.drop_last());
    let first_b = flatten(other.drop_last());
    let inner_a = flatten(a.children);
    let na = first_a.len() as int;
    let nb = first_b.len() as int;
    if na < nb {
        lemma_nested_drop_last(one, bound);
        lemma_nested_drop_last(other, bound);
        assert(all == first_a + seq![a.element] + inner_a);
        assert(all == first_b + seq![b.element] + flatten(b.children));
        // the last root of `one` lies among the earlier trees of `other`
        assert(other.drop_last().len() > 0);
        lemma_last_root_is_shallowest(other.drop_last(), bound);
        assert(other.drop_last().last() == other[other.len() - 2]);
        assert(other[other.len() - 2].element.depth >= other[other.len() - 1].element.depth);
        assert(all[na] == a.element);
        assert(all[na] == first_b[na]);
        assert(a.element.depth >= b.element.depth);
        // the last root of `other` lies under the last root of `one`
        lemma_deeper_than_bound(a.children, a.element.depth as int);
        assert(all[nb] == b.element);
        assert(all[nb] == inner_a[nb - na - 1]);
        assert(b.element.depth > a.element.depth);
    }
}

} // verus!
