//! The status tree and its mathematical model.

use std::borrow::Cow;
use std::sync::atomic::AtomicU8;
use std::sync::Arc;
use vstd::prelude::*;

verus! {

/// All possible display node types.
pub enum CLIDisplayNodeType {
    /// Just text.
    Message(Cow<'static, str>),
    /// Text with an animated spinner at the end.
    SpinningMessage(Cow<'static, str>),
    /// A progress bar. The cell belongs to the caller, who may write 0 to 100
    /// into it from any thread; the tree only reads it.
    ProgressBar(Arc<AtomicU8>),
}

/// A node of the status tree: one terminal line, and the lines nested under it
/// in the order in which they are drawn.
pub struct CLIDisplayNode {
    /// What the line of this node shows.
    pub node_type: CLIDisplayNodeType,
    /// The nodes nested under this one, first child first.
    pub sub_nodes: Vec<CLIDisplayNode>,
}

/// The model of a tree: the content at its root and the models of the subtrees
/// under it, first child first.
pub ghost struct TreeView<C> {
    pub content: C,
    pub children: Seq<TreeView<C>>,
}

/// The model of a [`CLIDisplayNode`].
pub type NodeView = TreeView<CLIDisplayNodeType>;

/// The number of nodes in a sequence of sibling subtrees.
pub open spec fn forest_count<C>(forest: Seq<TreeView<C>>) -> nat
    decreases forest, 0nat,
{
    if forest.len() == 0 {
        0
    } else {
        forest_count(forest.drop_last()) + forest.last().node_count()
    }
}

impl<C> TreeView<C> {
    /// A node without children.
    pub open spec fn leaf(content: C) -> Self {
        TreeView { content, children: Seq::empty() }
    }

    /// True if the node has no children.
    pub open spec fn is_leaf(self) -> bool {
        self.children.len() == 0
    }

    /// The number of nodes in the tree, which is the number of terminal lines
    /// it occupies.
    pub open spec fn node_count(self) -> nat
        decreases self, 1nat,
    {
        1 + forest_count(self.children)
    }

    /// This node with a new leaf after its last child.
    pub open spec fn with_new_leaf(self, content: C) -> Self {
        TreeView { content: self.content, children: self.children.push(Self::leaf(content)) }
    }

    /// This node with its last child replaced.
    pub open spec fn with_last(self, last: Self) -> Self
        recommends
            self.children.len() > 0,
    {
        TreeView {
            content: self.content,
            children: self.children.update(self.children.len() - 1, last),
        }
    }

    /// This node without its last child.
    pub open spec fn without_last(self) -> Self
        recommends
            self.children.len() > 0,
    {
        TreeView { content: self.content, children: self.children.drop_last() }
    }

    /// The tree after a new leaf was added at the deepest open branch: follow
    /// the last child as long as that child has children of its own, and add
    /// the leaf as the next child of the node where this stops.
    pub open spec fn append(self, content: C) -> Self
        decreases self,
    {
        if self.children.len() == 0 || self.children.last().is_leaf() {
            self.with_new_leaf(content)
        } else {
            self.with_last(self.children.last().append(content))
        }
    }

    /// The tree after a new nesting level was opened: follow the last child
    /// down to a node without children, and give that node the new leaf as its
    /// first child.
    pub open spec fn descend(self, content: C) -> Self
        decreases self,
    {
        if self.children.len() == 0 {
            self.with_new_leaf(content)
        } else {
            self.with_last(self.children.last().descend(content))
        }
    }

    /// The tree after the deepest leaf was removed: follow the last child as
    /// long as that child has children of its own, and remove the last child
    /// of the node where this stops. A node without children stays as it is.
    pub open spec fn remove(self) -> Self
        decreases self,
    {
        if self.children.len() == 0 {
            self
        } else if self.children.last().is_leaf() {
            self.without_last()
        } else {
            self.with_last(self.children.last().remove())
        }
    }

    /// The tree with another content at its root and the same children.
    pub open spec fn with_content(self, content: C) -> Self {
        TreeView { content, children: self.children }
    }
}

/// The models of a sequence of sibling nodes, in the same order.
pub open spec fn forest_view(forest: Seq<CLIDisplayNode>) -> Seq<NodeView>
    decreases forest, 0nat,
{
    if forest.len() == 0 {
        Seq::empty()
    } else {
        forest_view(forest.drop_last()).push(forest.last()@)
    }
}

impl View for CLIDisplayNode {
    type V = NodeView;

    open spec fn view(&self) -> NodeView
        decreases self, 1nat,
    {
        TreeView { content: self.node_type, children: forest_view(self.sub_nodes@) }
    }
}

/// The model of a sequence of nodes holds the model of each node at the
/// node's own place.
pub proof fn lemma_forest_view(forest: Seq<CLIDisplayNode>)
    ensures
        forest_view(forest).len() == forest.len(),
        forall|i: int| 0 <= i < forest.len() ==> forest_view(forest)[i] == (#[trigger] forest[i])@,
    decreases forest.len(),
{
    if forest.len() > 0 {
        let elder = forest.drop_last();
        lemma_forest_view(elder);
        assert(forest_view(forest) == forest_view(elder).push(forest.last()@));
        assert forall|i: int| 0 <= i < forest.len() implies forest_view(forest)[i] == (
        #[trigger] forest[i])@ by {
            if i < elder.len() {
                assert(elder[i] == forest[i]);
            }
        }
    }
}

impl CLIDisplayNode {
    /// The model of a node, child by child.
    pub proof fn lemma_view(self)
        ensures
            self@.content == self.node_type,
            self@.children.len() == self.sub_nodes@.len(),
            forall|i: int|
                #![trigger self@.children[i]]
                #![trigger self.sub_nodes@[i]]
                0 <= i < self.sub_nodes@.len() ==> self@.children[i] == self.sub_nodes@[i]@,
    {
        lemma_forest_view(self.sub_nodes@);
    }

    /// A node with the given content and no children.
    pub fn new(node_type: CLIDisplayNodeType) -> (node: Self)
        ensures
            node@ == NodeView::leaf(node_type),
            node.node_type == node_type,
            node.sub_nodes@.len() == 0,
    {
        let node = Self { node_type, sub_nodes: Vec::new() };
        proof {
            node.lemma_view();
            assert(node@.children =~= Seq::empty());
        }
        node
    }
}

/// Counting the nodes of sibling subtrees with one more subtree at the end.
pub proof fn lemma_forest_count_push<C>(forest: Seq<TreeView<C>>, tree: TreeView<C>)
    ensures
        forest_count(forest.push(tree)) == forest_count(forest) + tree.node_count(),
{
    assert(forest.push(tree).drop_last() =~= forest);
}

/// Counting the nodes of sibling subtrees of which the last was replaced.
pub proof fn lemma_forest_count_update_last<C>(forest: Seq<TreeView<C>>, tree: TreeView<C>)
    requires
        forest.len() > 0,
    ensures
        forest_count(forest.update(forest.len() - 1, tree)) == forest_count(forest.drop_last())
            + tree.node_count(),
{
    assert(forest.update(forest.len() - 1, tree).drop_last() =~= forest.drop_last());
}

impl<C> TreeView<C> {
    /// A new leaf at the deepest open branch is one node more.
    pub proof fn append_adds_one_node(self, content: C)
        ensures
            self.append(content).node_count() == self.node_count() + 1,
        decreases self,
    {
        if self.children.len() == 0 || self.children.last().is_leaf() {
            lemma_forest_count_push(self.children, Self::leaf(content));
            assert(forest_count(Self::leaf(content).children) == 0);
        } else {
            let last = self.children.last();
            last.append_adds_one_node(content);
            lemma_forest_count_update_last(self.children, last.append(content));
        }
    }

    /// A new nesting level is one node more.
    pub proof fn descend_adds_one_node(self, content: C)
        ensures
            self.descend(content).node_count() == self.node_count() + 1,
        decreases self,
    {
        if self.children.len() == 0 {
            lemma_forest_count_push(self.children, Self::leaf(content));
            assert(forest_count(Self::leaf(content).children) == 0);
        } else {
            let last = self.children.last();
            last.descend_adds_one_node(content);
            lemma_forest_count_update_last(self.children, last.descend(content));
        }
    }

    /// Removing takes one node from a tree that has more than its root, and
    /// none from a tree that is only a root.
    pub proof fn remove_takes_one_node(self)
        ensures
            self.is_leaf() ==> self.remove() == self,
            !self.is_leaf() ==> self.remove().node_count() + 1 == self.node_count(),
            self.node_count() >= 1,
        decreases self,
    {
        if self.children.len() > 0 {
            let last = self.children.last();
            assert(forest_count(self.children) == forest_count(self.children.drop_last())
                + last.node_count());
            if last.is_leaf() {
                assert(forest_count(last.children) == 0);
            } else {
                last.remove_takes_one_node();
                lemma_forest_count_update_last(self.children, last.remove());
            }
        }
    }

    /// Removing undoes the appending of a leaf: from any tree, `append` and
    /// then `remove` give the tree back.
    pub proof fn remove_undoes_append(self, content: C)
        ensures
            self.append(content).remove() == self,
            !self.append(content).is_leaf(),
        decreases self,
    {
        if self.children.len() == 0 || self.children.last().is_leaf() {
            assert(self.with_new_leaf(content).children.drop_last() =~= self.children);
        } else {
            let last = self.children.last();
            last.remove_undoes_append(content);
            let grown = self.with_last(last.append(content));
            assert(grown.children.update(grown.children.len() - 1, last) =~= self.children);
        }
    }

    /// Removing undoes the opening of a nesting level: from any tree,
    /// `descend` and then `remove` give the tree back.
    pub proof fn remove_undoes_descend(self, content: C)
        ensures
            self.descend(content).remove() == self,
            !self.descend(content).is_leaf(),
        decreases self,
    {
        if self.children.len() == 0 {
            assert(self.with_new_leaf(content).children.drop_last() =~= self.children);
        } else {
            let last = self.children.last();
            last.remove_undoes_descend(content);
            let grown = self.with_last(last.descend(content));
            assert(grown.children.update(grown.children.len() - 1, last) =~= self.children);
        }
    }
}

} // verus!
