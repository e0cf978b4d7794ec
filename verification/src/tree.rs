//! The tree assembler: turns the flat list of parsed elements, each with
//! its depth, into the forest that the depths describe.
//!
//! An element is the child of the nearest element before it that is less
//! deep; where there is none, it is a root. No list of depths is refused.

use crate::model::{ElementNode, NodeModel};
use crate::nesting::{hangs_under, lemma_parent_is_nearest_shallower, parent_of};
use vstd::prelude::*;

verus! {

/// An element with the elements nested under it, as mathematical values.
pub struct Tree {
    pub element: NodeModel,
    pub children: Seq<Tree>,
}

/// An element with the elements nested under it, in source order.
#[derive(Debug, PartialEq, Eq)]
pub struct TreeNode {
    pub element: ElementNode,
    pub children: Vec<TreeNode>,
}

/// A node with the nodes under it, as mathematical values.
pub open spec fn tree_of(node: TreeNode) -> Tree
    decreases node,
{
    Tree {
        element: node.element@,
        children: Seq::new(
            node.children.len() as nat,
            |i: int|
                if 0 <= i < node.children.len() {
                    tree_of(node.children[i])
                } else {
                    arbitrary()
                },
        ),
    }
}

impl View for TreeNode {
    type V = Tree;

    open spec fn view(&self) -> Tree {
        tree_of(*self)
    }
}

/// The views of a list of trees, in order.
pub open spec fn forest_view(v: Seq<TreeNode>) -> Seq<Tree> {
    Seq::new(v.len(), |i: int| v[i]@)
}

/// The views of a list of elements, in order.
pub open spec fn nodes_view(v: Seq<ElementNode>) -> Seq<NodeModel> {
    Seq::new(v.len(), |i: int| v[i]@)
}

/// The elements of a forest in source order: each element before the
/// elements nested under it, each tree before the trees that follow it.
pub open spec fn flatten(forest: Seq<Tree>) -> Seq<NodeModel>
    decreases forest,
{
    if forest.len() == 0 {
        Seq::empty()
    } else {
        flatten(forest.drop_last()) + seq![forest.last().element] + flatten(
            forest.last().children,
        )
    }
}

/// Whether the forest is nested as its depths say, under an element of
/// depth `bound`: every tree in it is deeper than `bound`, no tree is deeper
/// than one before it, and the children of each tree are nested under it in
/// the same way.
pub open spec fn nested(forest: Seq<Tree>, bound: int) -> bool
    decreases forest,
{
    &&& forall|i: int| 0 <= i < forest.len() ==> (#[trigger] forest[i]).element.depth > bound
    &&& forall|i: int, j: int|
        0 <= i < j < forest.len() ==> (#[trigger] forest[i]).element.depth >= (
        #[trigger] forest[j]).element.depth
    &&& forall|i: int|
        0 <= i < forest.len() ==> nested(
            (#[trigger] forest[i]).children,
            forest[i].element.depth as int,
        )
}

/// Whether the open element `open[j]` stands rightly below the next one:
/// it is less deep, and none of its children is less deep than the next.
spec fn linked(open: Seq<Tree>, j: int) -> bool {
    &&& open[j].element.depth < open[j + 1].element.depth
    &&& forall|k: int|
        0 <= k < open[j].children.len() ==> (#[trigger] open[j].children[k]).element.depth
            >= open[j + 1].element.depth
}

/// What the assembler keeps between two elements: the finished roots, and
/// the chain of elements that are still open, each to become the last child
/// of the one before it.
spec fn assembling(roots: Seq<Tree>, open: Seq<Tree>) -> bool {
    &&& nested(roots, -1)
    &&& forall|j: int|
        0 <= j < open.len() ==> nested((#[trigger] open[j]).children, open[j].element.depth as int)
    &&& forall|j: int| 0 <= j < open.len() - 1 ==> #[trigger] linked(open, j)
    &&& open.len() > 0 ==> forall|k: int|
        0 <= k < roots.len() ==> (#[trigger] roots[k]).element.depth >= open[0].element.depth
}

/// Whether an element of depth `depth` may become the next child of the
/// innermost open element, or the next root where none is open.
spec fn admits(roots: Seq<Tree>, open: Seq<Tree>, depth: nat) -> bool {
    if open.len() == 0 {
        forall|k: int| 0 <= k < roots.len() ==> (#[trigger] roots[k]).element.depth >= depth
    } else {
        forall|k: int|
            0 <= k < open.last().children.len() ==> (
            #[trigger] open.last().children[k]).element.depth >= depth
    }
}

/// The children of a node's view are the views of its children.
pub proof fn lemma_children_view(node: TreeNode)
    ensures
        node@.children == forest_view(node.children@),
{
    assert(node@.children.len() == node.children@.len());
    assert forall|i: int| 0 <= i < node.children@.len() implies node@.children[i] == forest_view(
        node.children@,
    )[i] by {
        assert(node@.children[i] == node.children[i]@);
    }
    assert(node@.children =~= forest_view(node.children@));
}

/// Flattening a forest with one more tree at its end.
pub proof fn lemma_flatten_push(forest: Seq<Tree>, tree: Tree)
    ensures
        flatten(forest.push(tree)) == flatten(forest) + seq![tree.element] + flatten(
            tree.children,
        ),
{
    assert(forest.push(tree).drop_last() == forest);
}

/// The tree `parent` with `child` as one more child at the end.
spec fn with_child(parent: Tree, child: Tree) -> Tree {
    Tree { element: parent.element, children: parent.children.push(child) }
}

/// The chain of open elements after the innermost one has been attached to
/// the one below it.
spec fn folded(open: Seq<Tree>) -> Seq<Tree> {
    open.drop_last().drop_last().push(with_child(open[open.len() - 2], open.last()))
}

/// A nested forest stays nested with one more tree at its end that is deeper
/// than the bound and no deeper than the trees before it.
proof fn lemma_nested_push(forest: Seq<Tree>, bound: int, tree: Tree)
    requires
        nested(forest, bound),
        nested(tree.children, tree.element.depth as int),
        tree.element.depth > bound,
        forall|k: int| 0 <= k < forest.len() ==> (#[trigger] forest[k]).element.depth
            >= tree.element.depth,
    ensures
        nested(forest.push(tree), bound),
{
    let longer = forest.push(tree);
    assert forall|i: int| 0 <= i < longer.len() implies (#[trigger] longer[i]).element.depth
        > bound by {
        if i < forest.len() {
            assert(longer[i] == forest[i]);
        }
    }
    assert forall|i: int, j: int| 0 <= i < j < longer.len() implies (
    #[trigger] longer[i]).element.depth >= (#[trigger] longer[j]).element.depth by {
        assert(longer[i] == forest[i]);
        if j < forest.len() {
            assert(longer[j] == forest[j]);
        }
    }
    assert forall|i: int| 0 <= i < longer.len() implies nested(
        (#[trigger] longer[i]).children,
        longer[i].element.depth as int,
    ) by {
        if i < forest.len() {
            assert(longer[i] == forest[i]);
        }
    }
}

/// Attaching the innermost open element to the one below it keeps what the
/// assembler holds, and the source order of the elements.
proof fn lemma_fold(roots: Seq<Tree>, open: Seq<Tree>)
    requires
        assembling(roots, open),
        open.len() >= 2,
    ensures
        assembling(roots, folded(open)),
        flatten(folded(open)) == flatten(open),
        admits(roots, folded(open), open.last().element.depth),
{
    let n = open.len() as int;
    let done = open[n - 1];
    let parent = open[n - 2];
    let joined = with_child(parent, done);
    let below = open.drop_last().drop_last();
    let after = folded(open);
    assert(forall|k: int| 0 <= k < n - 2 ==> after[k] == open[k]);
    assert(after[n - 2] == joined);
    assert(linked(open, n - 2));
    assert(nested(joined.children, joined.element.depth as int)) by {
        lemma_nested_push(parent.children, parent.element.depth as int, done);
    }
    assert forall|j: int| 0 <= j < after.len() implies nested(
        (#[trigger] after[j]).children,
        after[j].element.depth as int,
    ) by {
        if j < n - 2 {
            assert(after[j] == open[j]);
        }
    }
    assert forall|j: int| 0 <= j < after.len() - 1 implies #[trigger] linked(after, j) by {
        assert(linked(open, j));
        assert(after[j] == open[j]);
        assert(after[j + 1].element == open[j + 1].element);
    }
    assert(after[0].element == open[0].element);
    assert(flatten(after) == flatten(open)) by {
        lemma_flatten_push(below, joined);
        lemma_flatten_push(parent.children, done);
        assert(open.drop_last().last() == parent);
        assert(flatten(open.drop_last()) == flatten(below) + seq![parent.element] + flatten(
            parent.children,
        ));
    }
    assert(after.last() == joined);
    assert forall|k: int| 0 <= k < joined.children.len() implies (
    #[trigger] joined.children[k]).element.depth >= done.element.depth by {
        if k < parent.children.len() {
            assert(joined.children[k] == parent.children[k]);
        }
    }
}

/// Making the only open element the last root keeps what the assembler
/// holds, and the source order of the elements.
proof fn lemma_settle(roots: Seq<Tree>, open: Seq<Tree>)
    requires
        assembling(roots, open),
        open.len() == 1,
    ensures
        assembling(roots.push(open[0]), Seq::empty()),
        flatten(roots.push(open[0])) == flatten(roots) + flatten(open),
        admits(roots.push(open[0]), Seq::empty(), open[0].element.depth),
{
    let done = open[0];
    let after = roots.push(done);
    lemma_nested_push(roots, -1, done);
    lemma_flatten_push(roots, done);
    assert(flatten(open.drop_last()) == Seq::<NodeModel>::empty());
    assert(flatten(open) == seq![done.element] + flatten(done.children));
    assert(flatten(after) == flatten(roots) + (seq![done.element] + flatten(done.children)));
    assert forall|k: int| 0 <= k < after.len() implies (#[trigger] after[k]).element.depth
        >= done.element.depth by {
        if k < roots.len() {
            assert(after[k] == roots[k]);
        }
    }
}

/// Closes the innermost open element: it becomes the last child of the
/// element below it, or the last root where it is the only open one.
fn close_top(roots: &mut Vec<TreeNode>, open: &mut Vec<TreeNode>)
    requires
        old(open).len() > 0,
        assembling(forest_view(old(roots)@), forest_view(old(open)@)),
    ensures
        final(open).len() == old(open).len() - 1,
        assembling(forest_view(final(roots)@), forest_view(final(open)@)),
        flatten(forest_view(final(roots)@)) + flatten(forest_view(final(open)@)) == flatten(
            forest_view(old(roots)@),
        ) + flatten(forest_view(old(open)@)),
        admits(
            forest_view(final(roots)@),
            forest_view(final(open)@),
            old(open)@.last().element.depth as nat,
        ),
{
    let ghost r0 = forest_view(roots@);
    let ghost o0 = forest_view(open@);
    let done = open.pop().unwrap();
    assert(done@ == o0.last());
    if open.len() > 0 {
        let mut parent = open.pop().unwrap();
        let ghost below = forest_view(open@);
        let ghost lower = parent@;
        assert(lower == o0[o0.len() - 2]);
        assert(below == o0.drop_last().drop_last());
        proof {
            lemma_children_view(parent);
        }
        parent.children.push(done);
        proof {
            lemma_children_view(parent);
            assert(forest_view(parent.children@) == lower.children.push(done@));
            assert(parent@ == with_child(lower, done@));
        }
        let ghost joined = parent@;
        open.push(parent);
        proof {
            assert(forest_view(open@) == below.push(joined));
            lemma_fold(r0, o0);
        }
    } else {
        roots.push(done);
        proof {
            assert(forest_view(roots@) == r0.push(done@));
            assert(forest_view(open@) == Seq::<Tree>::empty());
            assert(o0[0] == done@);
            lemma_settle(r0, o0);
            assert(flatten(Seq::<Tree>::empty()) == Seq::<NodeModel>::empty());
        }
    }
}

/// Opening a new element above the open chain keeps what the assembler
/// holds, and puts the element at the end of the source order.
proof fn lemma_open(roots: Seq<Tree>, open: Seq<Tree>, leaf: Tree)
    requires
        assembling(roots, open),
        admits(roots, open, leaf.element.depth),
        leaf.children.len() == 0,
        open.len() > 0 ==> open.last().element.depth < leaf.element.depth,
    ensures
        assembling(roots, open.push(leaf)),
        flatten(open.push(leaf)) == flatten(open) + seq![leaf.element],
{
    let after = open.push(leaf);
    lemma_flatten_push(open, leaf);
    assert(flatten(leaf.children) == Seq::<NodeModel>::empty());
    assert(flatten(after) == flatten(open) + seq![leaf.element]);
    assert forall|j: int| 0 <= j < after.len() implies nested(
        (#[trigger] after[j]).children,
        after[j].element.depth as int,
    ) by {
        if j < open.len() {
            assert(after[j] == open[j]);
        }
    }
    assert forall|j: int| 0 <= j < after.len() - 1 implies #[trigger] linked(after, j) by {
        assert(after[j] == open[j]);
        if j < open.len() - 1 {
            assert(linked(open, j));
            assert(after[j + 1] == open[j + 1]);
        }
    }
}

/// Assembles the forest that the depths of `nodes` describe.
///
/// The forest holds the elements of `nodes` in their order, and each element
/// is nested under the nearest element before it that is less deep. Every
/// list is accepted: an element that is deeper than the one before it by
/// more than one level is its child all the same.
pub fn nest_elements(nodes: Vec<ElementNode>) -> (forest: Vec<TreeNode>)
    ensures
        flatten(forest_view(forest@)) == nodes_view(nodes@),
        nested(forest_view(forest@), -1),
        forall|k: int|
            0 <= k < nodes@.len() ==> hangs_under(
                nodes_view(nodes@),
                k,
                #[trigger] parent_of(forest_view(forest@), k),
            ),
{
    let ghost all = nodes_view(nodes@);
    let mut roots: Vec<TreeNode> = Vec::new();
    let mut open: Vec<TreeNode> = Vec::new();
    assert(flatten(forest_view(roots@)) + flatten(forest_view(open@)) == all.take(0));
    for node in it: nodes
        invariant
            it.seq() == nodes@,
            all == nodes_view(nodes@),
            assembling(forest_view(roots@), forest_view(open@)),
            flatten(forest_view(roots@)) + flatten(forest_view(open@)) == all.take(it.index()),
            open.len() == 0 ==> roots.len() == 0,
            open.len() > 0 ==> open@.last().children.len() == 0,
    {
        let depth = node.depth;
        proof {
            if open.len() > 0 {
                lemma_children_view(open@.last());
            }
        }
        while open.len() > 0 && open[open.len() - 1].element.depth >= depth
            invariant
                assembling(forest_view(roots@), forest_view(open@)),
                flatten(forest_view(roots@)) + flatten(forest_view(open@)) == all.take(
                    it.index(),
                ),
                admits(forest_view(roots@), forest_view(open@), depth as nat),
            decreases open.len(),
        {
            close_top(&mut roots, &mut open);
        }
        let ghost before = forest_view(open@);
        let leaf = TreeNode { element: node, children: Vec::new() };
        proof {
            lemma_children_view(leaf);
            lemma_open(forest_view(roots@), before, leaf@);
        }
        open.push(leaf);
        proof {
            assert(forest_view(open@) == before.push(leaf@));
            assert(all.take(it.index() + 1) == all.take(it.index()).push(node@));
            assert(flatten(forest_view(roots@)) + (flatten(before) + seq![node@])
                == all.take(it.index()).push(node@));
        }
    }
    assert(all.take(all.len() as int) == all);
    while open.len() > 0
        invariant
            assembling(forest_view(roots@), forest_view(open@)),
            flatten(forest_view(roots@)) + flatten(forest_view(open@)) == all,
        decreases open.len(),
    {
        close_top(&mut roots, &mut open);
    }
    assert(flatten(forest_view(open@)) == Seq::<NodeModel>::empty());
    assert(flatten(forest_view(roots@)) + Seq::<NodeModel>::empty() == flatten(
        forest_view(roots@),
    ));
    assert forall|k: int| 0 <= k < all.len() implies hangs_under(
        all,
        k,
        #[trigger] parent_of(forest_view(roots@), k),
    ) by {
        lemma_parent_is_nearest_shallower(forest_view(roots@), -1, k);
    }
    roots
}

} // verus!
