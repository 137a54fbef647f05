//! Editing the status tree at its deepest open branch.

use crate::node::CLIDisplayNode;
use crate::node::CLIDisplayNodeType;
use crate::node::NodeView;
use crate::terminal::ERASE_LINE;
use vstd::prelude::*;
use vstd::string::StringExecFns;

verus! {

/// One edit of a status tree.
pub ghost enum Edit {
    /// A new leaf at the deepest open branch.
    Push(CLIDisplayNodeType),
    /// A new nesting level under the deepest node.
    MakeSub(CLIDisplayNodeType),
    /// The removal of the deepest leaf.
    Pop,
    /// Another content for the root.
    ReplaceRoot(CLIDisplayNodeType),
}

/// The model of a [`CLIModificationElement`]: the tree as the edits so far
/// have left it, and the lines added so far less the lines removed so far.
pub ghost struct ElementView {
    pub tree: NodeView,
    pub line_delta: int,
}

impl ElementView {
    /// The state after one edit. A removal on a tree that is only a root
    /// changes nothing and is not counted.
    pub open spec fn apply(self, edit: Edit) -> ElementView {
        match edit {
            Edit::Push(content) => ElementView {
                tree: self.tree.append(content),
                line_delta: self.line_delta + 1,
            },
            Edit::MakeSub(content) => ElementView {
                tree: self.tree.descend(content),
                line_delta: self.line_delta + 1,
            },
            Edit::Pop => if self.tree.is_leaf() {
                self
            } else {
                ElementView { tree: self.tree.remove(), line_delta: self.line_delta - 1 }
            },
            Edit::ReplaceRoot(content) => ElementView {
                tree: self.tree.with_content(content),
                line_delta: self.line_delta,
            },
        }
    }

    /// The state after a sequence of edits, made in order.
    pub open spec fn apply_all(self, edits: Seq<Edit>) -> ElementView
        decreases edits.len(),
    {
        if edits.len() == 0 {
            self
        } else {
            self.apply_all(edits.drop_last()).apply(edits.last())
        }
    }

    /// Whatever the edits, the tree has grown by exactly the lines that were
    /// counted: the number of its nodes after them is the number before them
    /// plus the insertions and less the removals that took a node away. A
    /// tree that starts as a bare root with a count of zero so holds one node
    /// more than the count.
    pub proof fn line_delta_is_exact(self, edits: Seq<Edit>)
        ensures
            self.apply_all(edits).tree.node_count() - self.apply_all(edits).line_delta
                == self.tree.node_count() - self.line_delta,
            self.tree.is_leaf() && self.line_delta == 0 ==> self.apply_all(edits).tree.node_count()
                == 1 + self.apply_all(edits).line_delta,
        decreases edits.len(),
    {
        self.tree.remove_takes_one_node();
        if edits.len() > 0 {
            let before = self.apply_all(edits.drop_last());
            self.line_delta_is_exact(edits.drop_last());
            match edits.last() {
                Edit::Push(content) => {
                    before.tree.append_adds_one_node(content);
                },
                Edit::MakeSub(content) => {
                    before.tree.descend_adds_one_node(content);
                },
                Edit::Pop => {
                    before.tree.remove_takes_one_node();
                },
                Edit::ReplaceRoot(content) => {},
            }
        }
    }

    /// An insertion followed at once by a removal leaves the tree and the
    /// count as they were.
    pub proof fn pop_undoes_insertion(self, content: CLIDisplayNodeType)
        ensures
            self.apply(Edit::Push(content)).apply(Edit::Pop) == self,
            self.apply(Edit::MakeSub(content)).apply(Edit::Pop) == self,
    {
        self.tree.remove_undoes_append(content);
        self.tree.remove_undoes_descend(content);
    }

    /// A removal on a tree that is only a root changes neither the tree nor
    /// the count.
    pub proof fn pop_keeps_bare_root(self)
        requires
            self.tree.is_leaf(),
        ensures
            self.apply(Edit::Pop) == self,
    {
    }
}

/// This is the struct through which a status tree is changed. It borrows the
/// tree for one batch of edits and counts the lines that the batch has added,
/// less the lines that it has removed. Every edit leaves the element with the
/// same borrow, so that the tree ends up as the last edit left it.
pub struct CLIModificationElement<'a> {
    /// The tree that is edited.
    pub root_node: &'a mut CLIDisplayNode,
    /// The lines added so far less the lines removed so far.
    pub additions: isize,
}

fn append_leaf(node: &mut CLIDisplayNode, node_type: CLIDisplayNodeType)
    ensures
        final(node)@ == old(node)@.append(node_type),
    decreases *old(node),
{
    let n: usize = node.sub_nodes.len();
    proof {
        node.lemma_view();
    }
    if n == 0 || node.sub_nodes[n - 1].sub_nodes.len() == 0 {
        proof {
            if n > 0 {
                node.sub_nodes@[n - 1].lemma_view();
            }
        }
        let leaf = CLIDisplayNode::new(node_type);
        node.sub_nodes.push(leaf);
        proof {
            node.lemma_view();
            assert(node@.children =~= old(node)@.children.push(NodeView::leaf(node_type)));
        }
    } else {
        proof {
            node.sub_nodes@[n - 1].lemma_view();
        }
        append_leaf(&mut node.sub_nodes[n - 1], node_type);
        proof {
            node.lemma_view();
            assert(node@.children =~= old(node)@.children.update(
                n - 1,
                old(node)@.children[n - 1].append(node_type),
            ));
        }
    }
}

fn open_level(node: &mut CLIDisplayNode, node_type: CLIDisplayNodeType)
    ensures
        final(node)@ == old(node)@.descend(node_type),
    decreases *old(node),
{
    let n: usize = node.sub_nodes.len();
    proof {
        node.lemma_view();
    }
    if n == 0 {
        let leaf = CLIDisplayNode::new(node_type);
        node.sub_nodes.push(leaf);
        proof {
            node.lemma_view();
            assert(node@.children =~= old(node)@.children.push(NodeView::leaf(node_type)));
        }
    } else {
        open_level(&mut node.sub_nodes[n - 1], node_type);
        proof {
            node.lemma_view();
            assert(node@.children =~= old(node)@.children.update(
                n - 1,
                old(node)@.children[n - 1].descend(node_type),
            ));
        }
    }
}

fn remove_leaf(node: &mut CLIDisplayNode)
    requires
        old(node).sub_nodes@.len() > 0,
    ensures
        final(node)@ == old(node)@.remove(),
    decreases *old(node),
{
    let n: usize = node.sub_nodes.len();
    proof {
        node.lemma_view();
        node.sub_nodes@[n - 1].lemma_view();
    }
    if node.sub_nodes[n - 1].sub_nodes.len() == 0 {
        node.sub_nodes.pop();
        proof {
            node.lemma_view();
            assert(node@.children =~= old(node)@.children.drop_last());
        }
    } else {
        remove_leaf(&mut node.sub_nodes[n - 1]);
        proof {
            node.lemma_view();
            assert(node@.children =~= old(node)@.children.update(
                n - 1,
                old(node)@.children[n - 1].remove(),
            ));
        }
    }
}

impl<'a> CLIModificationElement<'a> {
    /// The tree as the edits so far have left it.
    pub open spec fn tree(&self) -> NodeView {
        (*self.root_node)@
    }

    /// The lines added so far less the lines removed so far.
    pub open spec fn line_delta(&self) -> int {
        self.additions as int
    }

    /// The tree and the count together.
    pub open spec fn state(&self) -> ElementView {
        ElementView { tree: self.tree(), line_delta: self.line_delta() }
    }

    /// Starts a batch of edits on `root_node`, with a count of zero. The tree
    /// is left as the element leaves it.
    pub fn new(root_node: &'a mut CLIDisplayNode) -> (element: Self)
        ensures
            element.tree() == old(root_node)@,
            element.line_delta() == 0,
            *final(element.root_node) == *final(root_node),
    {
        CLIModificationElement { root_node, additions: 0 }
    }

    /// The lines added so far less the lines removed so far.
    pub fn additions(&self) -> (additions: isize)
        ensures
            additions == self.line_delta(),
    {
        self.additions
    }

    /// Removes the last displayed item. The root is never removed: on a tree
    /// that is only a root this does nothing.
    pub fn pop(&mut self)
        requires
            !old(self).tree().is_leaf() ==> old(self).line_delta() > isize::MIN,
        ensures
            final(self).state() == old(self).state().apply(Edit::Pop),
            *final(final(self).root_node) == *final(old(self).root_node),
    {
        proof {
            self.root_node.lemma_view();
        }
        if self.root_node.sub_nodes.len() == 0 {
            return ;
        }
        self.additions = self.additions - 1;
        remove_leaf(self.root_node);
    }

    /// Adds another parallel task, or a subtask if only the root node is
    /// present.
    pub fn push(&mut self, node_type: CLIDisplayNodeType)
        requires
            old(self).line_delta() < isize::MAX,
        ensures
            final(self).state() == old(self).state().apply(Edit::Push(node_type)),
            *final(final(self).root_node) == *final(old(self).root_node),
    {
        self.additions = self.additions + 1;
        append_leaf(self.root_node, node_type);
    }

    /// Makes a new subtask for the current task.
    pub fn make_sub(&mut self, node_type: CLIDisplayNodeType)
        requires
            old(self).line_delta() < isize::MAX,
        ensures
            final(self).state() == old(self).state().apply(Edit::MakeSub(node_type)),
            *final(final(self).root_node) == *final(old(self).root_node),
    {
        self.additions = self.additions + 1;
        open_level(self.root_node, node_type);
    }

    /// Replaces the content of the root node and keeps its children.
    pub fn replace_root(&mut self, node_type: CLIDisplayNodeType)
        ensures
            final(self).state() == old(self).state().apply(Edit::ReplaceRoot(node_type)),
            *final(final(self).root_node) == *final(old(self).root_node),
    {
        proof {
            self.root_node.lemma_view();
        }
        self.root_node.node_type = node_type;
        proof {
            self.root_node.lemma_view();
            assert(self.tree().children =~= old(self).tree().children);
        }
    }

    /// The text that puts `text` on a line of its own above the status tree:
    /// it erases the first line of the tree, writes the text and ends the
    /// line. The next frame paints the tree below it. Only who holds the
    /// element may write to the terminal beside the frames, hence the
    /// receiver.
    pub fn erasing_line(&self, text: &str) -> (line: String)
        ensures
            line@ == ERASE_LINE@ + text@ + "\n"@,
    {
        let mut line = String::from_str(ERASE_LINE);
        line.append(text);
        line.append("\n");
        line
    }
}

} // verus!
