//! A snapshot of the status tree: the tree with every progress cell read once.
//!
//! The cells change while the tree is drawn. A snapshot holds plain values, so
//! the text of a frame is a function of the snapshot and the tick alone.

use crate::cell::read_cell;
use crate::node::CLIDisplayNode;
use crate::node::CLIDisplayNodeType;
use crate::node::NodeView;
use crate::node::TreeView;
use std::borrow::Cow;
use vstd::prelude::*;

verus! {

/// The content of one line, with the progress cell read.
#[derive(Clone, Copy, Debug, PartialEq, Eq)]
pub enum LineSnapshot<'a> {
    /// Just text.
    Message(&'a str),
    /// Text with an animated spinner at the end.
    SpinningMessage(&'a str),
    /// A progress bar and the value that its cell held.
    ProgressBar(u8),
}

/// The model of a [`LineSnapshot`].
pub ghost enum LineView {
    Message(Seq<char>),
    SpinningMessage(Seq<char>),
    ProgressBar(u8),
}

impl<'a> View for LineSnapshot<'a> {
    type V = LineView;

    open spec fn view(&self) -> LineView {
        match self {
            LineSnapshot::Message(text) => LineView::Message(text@),
            LineSnapshot::SpinningMessage(text) => LineView::SpinningMessage(text@),
            LineSnapshot::ProgressBar(value) => LineView::ProgressBar(*value),
        }
    }
}

/// A status tree with every progress cell read once.
#[derive(Debug, PartialEq, Eq)]
pub struct TreeSnapshot<'a> {
    /// What the line of this node shows.
    pub content: LineSnapshot<'a>,
    /// The snapshots of the nodes nested under this one, first child first.
    pub children: Vec<TreeSnapshot<'a>>,
}

/// The model of a [`TreeSnapshot`].
pub type SnapshotView = TreeView<LineView>;

/// The models of a sequence of sibling snapshots, in the same order.
pub open spec fn forest_snapshot_view(forest: Seq<TreeSnapshot<'_>>) -> Seq<SnapshotView>
    decreases forest, 0nat,
{
    if forest.len() == 0 {
        Seq::empty()
    } else {
        forest_snapshot_view(forest.drop_last()).push(forest.last()@)
    }
}

impl<'a> View for TreeSnapshot<'a> {
    type V = SnapshotView;

    open spec fn view(&self) -> SnapshotView
        decreases self, 1nat,
    {
        TreeView { content: self.content@, children: forest_snapshot_view(self.children@) }
    }
}

/// The model of a sequence of snapshots holds the model of each snapshot at
/// the snapshot's own place.
pub proof fn lemma_forest_snapshot_view(forest: Seq<TreeSnapshot<'_>>)
    ensures
        forest_snapshot_view(forest).len() == forest.len(),
        forall|i: int|
            0 <= i < forest.len() ==> forest_snapshot_view(forest)[i] == (#[trigger] forest[i])@,
    decreases forest.len(),
{
    if forest.len() > 0 {
        let elder = forest.drop_last();
        lemma_forest_snapshot_view(elder);
        assert(forest_snapshot_view(forest) == forest_snapshot_view(elder).push(forest.last()@));
        assert forall|i: int| 0 <= i < forest.len() implies forest_snapshot_view(forest)[i] == (
        #[trigger] forest[i])@ by {
            if i < elder.len() {
                assert(elder[i] == forest[i]);
            }
        }
    }
}

impl<'a> TreeSnapshot<'a> {
    /// The model of a snapshot, child by child.
    pub proof fn lemma_view(self)
        ensures
            self@.content == self.content@,
            self@.children.len() == self.children@.len(),
            forall|i: int|
                #![trigger self@.children[i]]
                #![trigger self.children@[i]]
                0 <= i < self.children@.len() ==> self@.children[i] == self.children@[i]@,
    {
        lemma_forest_snapshot_view(self.children@);
    }
}

/// True if `line` is the content `content` with its progress cell read: the
/// same kind of line with the same text. The value of a progress bar is
/// whatever the cell held.
pub open spec fn line_freezes(line: LineView, content: CLIDisplayNodeType) -> bool {
    match content {
        CLIDisplayNodeType::Message(text) => line == LineView::Message(text@),
        CLIDisplayNodeType::SpinningMessage(text) => line == LineView::SpinningMessage(text@),
        CLIDisplayNodeType::ProgressBar(_) => line is ProgressBar,
    }
}

/// True if `snapshot` is the tree `tree` with its progress cells read: the
/// same shape, and node by node the same kind of line with the same text.
pub open spec fn freezes(snapshot: SnapshotView, tree: NodeView) -> bool
    decreases tree,
{
    &&& line_freezes(snapshot.content, tree.content)
    &&& snapshot.children.len() == tree.children.len()
    &&& forall|i: int|
        0 <= i < tree.children.len() ==> freezes(
            #[trigger] snapshot.children[i],
            tree.children[i],
        )
}

/// The value that a line's progress cell held, if the line has a cell.
pub open spec fn line_cells(line: LineView) -> Seq<u8> {
    match line {
        LineView::ProgressBar(value) => seq![value],
        _ => Seq::empty(),
    }
}

/// The values that the progress cells of sibling subtrees held, in the order
/// in which the lines are painted.
pub open spec fn forest_cells(forest: Seq<SnapshotView>) -> Seq<u8>
    decreases forest, 0nat,
{
    if forest.len() == 0 {
        Seq::empty()
    } else {
        forest_cells(forest.drop_last()) + cells(forest.last())
    }
}

/// The values that the progress cells of a tree held, in the order in which
/// the lines are painted.
pub open spec fn cells(snapshot: SnapshotView) -> Seq<u8>
    decreases snapshot, 1nat,
{
    line_cells(snapshot.content) + forest_cells(snapshot.children)
}

/// Two snapshots of one tree hold equally many cell values.
proof fn lemma_cell_count(first: SnapshotView, second: SnapshotView, tree: NodeView)
    requires
        freezes(first, tree),
        freezes(second, tree),
    ensures
        cells(first).len() == cells(second).len(),
    decreases tree, 1nat,
{
    lemma_forest_cell_count(first.children, second.children, tree.children);
}

proof fn lemma_forest_cell_count(
    first: Seq<SnapshotView>,
    second: Seq<SnapshotView>,
    trees: Seq<NodeView>,
)
    requires
        first.len() == trees.len(),
        second.len() == trees.len(),
        forall|i: int| 0 <= i < trees.len() ==> freezes(#[trigger] first[i], trees[i]),
        forall|i: int| 0 <= i < trees.len() ==> freezes(#[trigger] second[i], trees[i]),
    ensures
        forest_cells(first).len() == forest_cells(second).len(),
    decreases trees, 0nat,
{
    if trees.len() > 0 {
        lemma_forest_cell_count(first.drop_last(), second.drop_last(), trees.drop_last());
        assert(freezes(first.last(), trees.last()));
        assert(freezes(second.last(), trees.last()));
        lemma_cell_count(first.last(), second.last(), trees.last());
    }
}

/// A snapshot is determined by the tree and the values that its cells held:
/// two snapshots of one tree that hold the same values are the same snapshot.
pub proof fn snapshot_is_determined_by_cells(
    first: SnapshotView,
    second: SnapshotView,
    tree: NodeView,
)
    requires
        freezes(first, tree),
        freezes(second, tree),
        cells(first) == cells(second),
    ensures
        first == second,
    decreases tree, 1nat,
{
    let head = line_cells(first.content);
    assert(head.len() == line_cells(second.content).len());
    assert(forest_cells(first.children) =~= cells(first).subrange(
        head.len() as int,
        cells(first).len() as int,
    ));
    assert(forest_cells(second.children) =~= cells(second).subrange(
        head.len() as int,
        cells(second).len() as int,
    ));
    match tree.content {
        CLIDisplayNodeType::ProgressBar(_) => {
            assert(cells(first)[0] == first.content->ProgressBar_0);
            assert(cells(second)[0] == second.content->ProgressBar_0);
        },
        _ => {},
    }
    assert(first.content == second.content);
    lemma_forest_is_determined_by_cells(first.children, second.children, tree.children);
}

proof fn lemma_forest_is_determined_by_cells(
    first: Seq<SnapshotView>,
    second: Seq<SnapshotView>,
    trees: Seq<NodeView>,
)
    requires
        first.len() == trees.len(),
        second.len() == trees.len(),
        forall|i: int| 0 <= i < trees.len() ==> freezes(#[trigger] first[i], trees[i]),
        forall|i: int| 0 <= i < trees.len() ==> freezes(#[trigger] second[i], trees[i]),
        forest_cells(first) == forest_cells(second),
    ensures
        first == second,
    decreases trees, 0nat,
{
    if trees.len() > 0 {
        let n = trees.len() as int;
        assert(freezes(first.last(), trees.last()));
        assert(freezes(second.last(), trees.last()));
        lemma_cell_count(first.last(), second.last(), trees.last());
        lemma_forest_cell_count(first.drop_last(), second.drop_last(), trees.drop_last());
        let all = forest_cells(first);
        let cut = forest_cells(first.drop_last()).len() as int;
        assert(forest_cells(first.drop_last()) =~= all.subrange(0, cut));
        assert(forest_cells(second.drop_last()) =~= all.subrange(0, cut));
        assert(cells(first.last()) =~= all.subrange(cut, all.len() as int));
        assert(cells(second.last()) =~= all.subrange(cut, all.len() as int));
        lemma_forest_is_determined_by_cells(
            first.drop_last(),
            second.drop_last(),
            trees.drop_last(),
        );
        snapshot_is_determined_by_cells(first.last(), second.last(), trees.last());
        assert(first =~= first.drop_last().push(first.last()));
        assert(second =~= second.drop_last().push(second.last()));
    } else {
        assert(first =~= second);
    }
}

fn text_of<'a>(text: &'a Cow<'static, str>) -> (slice: &'a str)
    ensures
        slice@ == text@,
{
    match text {
        Cow::Borrowed(borrowed) => borrowed,
        Cow::Owned(owned) => owned.as_str(),
    }
}

impl CLIDisplayNodeType {
    /// The content with its progress cell, if it has one, read now.
    pub fn freeze<'a>(&'a self) -> (line: LineSnapshot<'a>)
        ensures
            line_freezes(line@, *self),
    {
        match self {
            CLIDisplayNodeType::Message(text) => LineSnapshot::Message(text_of(text)),
            CLIDisplayNodeType::SpinningMessage(text) => LineSnapshot::SpinningMessage(
                text_of(text),
            ),
            CLIDisplayNodeType::ProgressBar(cell) => LineSnapshot::ProgressBar(read_cell(cell)),
        }
    }
}

impl CLIDisplayNode {
    /// The tree with each of its progress cells read once, now.
    pub fn freeze<'a>(&'a self) -> (snapshot: TreeSnapshot<'a>)
        ensures
            freezes(snapshot@, self@),
        decreases self,
    {
        let content = self.node_type.freeze();
        let mut children: Vec<TreeSnapshot<'a>> = Vec::new();
        let n: usize = self.sub_nodes.len();
        let mut i: usize = 0;
        while i < n
            invariant
                i <= n,
                n == self.sub_nodes@.len(),
                children@.len() == i,
                forall|j: int| 0 <= j < i ==> freezes((#[trigger] children@[j])@, self.sub_nodes@[j]@),
            decreases n - i,
        {
            let child = self.sub_nodes[i].freeze();
            children.push(child);
            i += 1;
        }
        let snapshot = TreeSnapshot { content, children };
        proof {
            snapshot.lemma_view();
            self.lemma_view();
        }
        snapshot
    }
}

} // verus!
