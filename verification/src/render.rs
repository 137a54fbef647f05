//! The text of a frame.
//!
//! A frame paints the snapshot of a tree line by line, parents before
//! children, and then moves the cursor back up to the first line, so that the
//! next frame is painted over this one.

use crate::node::forest_count;
use crate::node::TreeView;
use crate::snapshot::LineSnapshot;
use crate::snapshot::LineView;
use crate::snapshot::SnapshotView;
use crate::snapshot::TreeSnapshot;
use crate::terminal::CURSOR_UP;
use crate::terminal::ERASE_LINE;
use crate::terminal::LAST_BRANCH;
use crate::terminal::MID_BRANCH;
use vstd::prelude::*;
use vstd::string::StringExecFns;

verus! {

/// `unit` written `times` times in a row.
pub open spec fn repeated(unit: Seq<char>, times: nat) -> Seq<char>
    decreases times,
{
    if times == 0 {
        Seq::empty()
    } else {
        repeated(unit, (times - 1) as nat) + unit
    }
}

/// The spinner glyph at a tick: the ticks run through `/`, `-`, `\` and `|`.
pub open spec fn spinner(tick: nat) -> Seq<char> {
    if tick % 4 == 0 {
        "/"@
    } else if tick % 4 == 1 {
        "-"@
    } else if tick % 4 == 2 {
        "\\"@
    } else {
        "|"@
    }
}

/// The number of filled cells of a progress bar: one for every five units of
/// the value, and never more than twenty.
pub open spec fn fill(value: u8) -> nat {
    if value / 5 > 20 {
        20
    } else {
        (value / 5) as nat
    }
}

/// The number of blank cells of a progress bar, after the filled cells and the
/// spinner glyph.
pub open spec fn blanks(value: u8) -> nat {
    if fill(value) < 19 {
        (19 - fill(value)) as nat
    } else {
        0
    }
}

/// The line of a progress bar: between the brackets the filled cells, the
/// spinner glyph unless the bar is full, and blank cells up to a width of
/// twenty.
pub open spec fn bar_text(value: u8, tick: nat) -> Seq<char> {
    "["@ + repeated("#"@, fill(value)) + (if fill(value) != 20 {
        spinner(tick)
    } else {
        Seq::empty()
    }) + repeated(" "@, blanks(value)) + "]\n"@
}

/// The text of one line's content, with the newline that ends it.
pub open spec fn line_text(line: LineView, tick: nat) -> Seq<char> {
    match line {
        LineView::Message(text) => text + "\n"@,
        LineView::SpinningMessage(text) => text + " "@ + spinner(tick) + "\n"@,
        LineView::ProgressBar(value) => bar_text(value, tick),
    }
}

/// What stands before the content of a node at `depth`: nothing at the root;
/// below it one indent of two spaces for every level but the first, and the
/// branch glyph.
pub open spec fn branch_text(depth: nat, last: bool) -> Seq<char> {
    if depth == 0 {
        Seq::empty()
    } else {
        repeated("  "@, (depth - 1) as nat) + (if last {
            LAST_BRANCH@
        } else {
            MID_BRANCH@
        })
    }
}

/// The lines of sibling subtrees at `depth` of which none is the last child.
pub open spec fn elder_text(forest: Seq<SnapshotView>, depth: nat, tick: nat) -> Seq<char>
    decreases forest, 0nat,
{
    if forest.len() == 0 {
        Seq::empty()
    } else {
        elder_text(forest.drop_last(), depth, tick) + display_text(
            forest.last(),
            depth,
            tick,
            false,
        )
    }
}

/// The lines of all the children of a node, which stand at `depth`.
pub open spec fn forest_text(forest: Seq<SnapshotView>, depth: nat, tick: nat) -> Seq<char>
    decreases forest, 1nat,
{
    if forest.len() == 0 {
        Seq::empty()
    } else {
        elder_text(forest.drop_last(), depth, tick) + display_text(
            forest.last(),
            depth,
            tick,
            true,
        )
    }
}

/// The lines of a subtree whose root stands at `depth`: for each node, parents
/// before children, the sequence that erases the line, the branch, and the
/// content.
pub open spec fn display_text(node: SnapshotView, depth: nat, tick: nat, last: bool) -> Seq<char>
    decreases node, 2nat,
{
    ERASE_LINE@ + branch_text(depth, last) + line_text(node.content, tick) + forest_text(
        node.children,
        depth + 1,
        tick,
    )
}

/// The text that moves the cursor from below a painted tree back to its first
/// line: one step up for every node.
pub open spec fn go_back_text(node: SnapshotView) -> Seq<char> {
    repeated(CURSOR_UP@, node.node_count())
}

/// The number of lines to clear below a frame that follows a batch of edits:
/// the lines that the batch removed beyond those that it added.
pub open spec fn removed_lines(additions: int) -> nat {
    if additions < 0 {
        (-additions) as nat
    } else {
        0
    }
}

/// The text that clears `removed` stale lines below a frame and returns to the
/// first of them: each line is erased, with a newline between one and the
/// next, and the cursor moves up as many lines as it went down.
pub open spec fn cleanup_text(removed: nat) -> Seq<char> {
    if removed == 0 {
        Seq::empty()
    } else {
        repeated(ERASE_LINE@ + "\n"@, (removed - 1) as nat) + ERASE_LINE@ + repeated(
            CURSOR_UP@,
            (removed - 1) as nat,
        )
    }
}

/// The frame of a scheduled tick: the tree, the way back to its first line,
/// and a carriage return.
pub open spec fn scheduled_frame_text(node: SnapshotView, tick: nat) -> Seq<char> {
    display_text(node, 0, tick, true) + go_back_text(node) + "\r"@
}

/// The frame that follows a batch of edits: the tree, the clearing of the
/// lines that the batch removed, the way back to the first line, and a
/// carriage return.
pub open spec fn mutation_frame_text(node: SnapshotView, tick: nat, additions: int) -> Seq<char> {
    display_text(node, 0, tick, true) + cleanup_text(removed_lines(additions)) + go_back_text(node)
        + "\r"@
}

/// Repeating a text `a + b` times is repeating it `a` times and then `b`
/// times.
pub proof fn lemma_repeated_add(unit: Seq<char>, a: nat, b: nat)
    ensures
        repeated(unit, a + b) == repeated(unit, a) + repeated(unit, b),
    decreases b,
{
    if b == 0 {
        assert(repeated(unit, a) + repeated(unit, 0) =~= repeated(unit, a));
    } else {
        lemma_repeated_add(unit, a, (b - 1) as nat);
        assert(repeated(unit, a + b) == repeated(unit, (a + b - 1) as nat) + unit);
        assert((repeated(unit, a) + repeated(unit, (b - 1) as nat)) + unit =~= repeated(unit, a)
            + (repeated(unit, (b - 1) as nat) + unit));
    }
}

fn spinner_glyph(tick: usize) -> (glyph: &'static str)
    ensures
        glyph@ == spinner(tick as nat),
{
    let phase: usize = tick % 4;
    if phase == 0 {
        "/"
    } else if phase == 1 {
        "-"
    } else if phase == 2 {
        "\\"
    } else {
        "|"
    }
}

fn append_repeated(out: &mut String, unit: &str, times: usize)
    ensures
        final(out)@ == old(out)@ + repeated(unit@, times as nat),
{
    let mut i: usize = 0;
    assert(out@ =~= old(out)@ + repeated(unit@, 0));
    while i < times
        invariant
            i <= times,
            out@ == old(out)@ + repeated(unit@, i as nat),
        decreases times - i,
    {
        out.append(unit);
        i += 1;
        assert(out@ =~= old(out)@ + repeated(unit@, i as nat));
    }
}

/// The line of a progress bar whose cell holds `value`.
pub fn progress_bar(value: u8, tick: usize) -> (text: String)
    ensures
        text@ == bar_text(value, tick as nat),
{
    let fifth: u8 = value / 5;
    let progress: u8 = if fifth > 20 {
        20
    } else {
        fifth
    };
    let mut text = String::new();
    text.append("[");
    append_repeated(&mut text, "#", progress as usize);
    if progress != 20 {
        text.append(spinner_glyph(tick));
    }
    if progress < 19 {
        append_repeated(&mut text, " ", (19 - progress) as usize);
    }
    assert(repeated(" "@, 0) =~= Seq::empty());
    text.append("]\n");
    assert(text@ =~= bar_text(value, tick as nat));
    text
}

impl<'a> LineSnapshot<'a> {
    /// The text of this content at `tick_counter`, with the newline that ends
    /// it.
    pub fn display(&self, tick_counter: usize) -> (text: String)
        ensures
            text@ == line_text(self@, tick_counter as nat),
    {
        match self {
            LineSnapshot::Message(message) => {
                let mut text = String::from_str(message);
                text.append("\n");
                text
            },
            LineSnapshot::SpinningMessage(message) => {
                let mut text = String::from_str(message);
                text.append(" ");
                text.append(spinner_glyph(tick_counter));
                text.append("\n");
                text
            },
            LineSnapshot::ProgressBar(value) => progress_bar(*value, tick_counter),
        }
    }
}

/// The lines of the elder siblings grow by one subtree at a time.
proof fn lemma_elder_text_step(forest: Seq<SnapshotView>, i: int, depth: nat, tick: nat)
    requires
        0 <= i < forest.len(),
    ensures
        elder_text(forest.take(i + 1), depth, tick) == elder_text(forest.take(i), depth, tick)
            + display_text(forest[i], depth, tick, false),
{
    assert(forest.take(i + 1).drop_last() =~= forest.take(i));
    assert(forest.take(i + 1).last() == forest[i]);
}

/// The nodes of sibling subtrees are counted one subtree at a time.
proof fn lemma_forest_count_step<C>(forest: Seq<TreeView<C>>, i: int)
    requires
        0 <= i < forest.len(),
    ensures
        forest_count(forest.take(i + 1)) == forest_count(forest.take(i)) + forest[i].node_count(),
{
    assert(forest.take(i + 1).drop_last() =~= forest.take(i));
    assert(forest.take(i + 1).last() == forest[i]);
}

/// What a child of a node at `depth` writes before its branch glyph, given
/// what the node itself writes there.
fn indent_below(indent: &str, nested: bool, Ghost(depth): Ghost<nat>) -> (below: String)
    requires
        nested <==> depth > 0,
        nested ==> indent@ == repeated("  "@, (depth - 1) as nat),
    ensures
        below@ == repeated("  "@, depth),
{
    let mut below = String::new();
    if nested {
        below.append(indent);
        below.append("  ");
    }
    assert(below@ =~= repeated("  "@, depth));
    below
}

impl<'a> TreeSnapshot<'a> {
    /// Appends the line of this node to `out`. `indent` is what a node at
    /// `depth` writes before its branch glyph.
    fn line_into(
        &self,
        indent: &str,
        nested: bool,
        last: bool,
        tick: usize,
        out: &mut String,
        Ghost(depth): Ghost<nat>,
    )
        requires
            nested <==> depth > 0,
            nested ==> indent@ == repeated("  "@, (depth - 1) as nat),
        ensures
            final(out)@ == old(out)@ + (ERASE_LINE@ + branch_text(depth, last) + line_text(
                self@.content,
                tick as nat,
            )),
    {
        out.append(ERASE_LINE);
        if nested {
            out.append(indent);
            if last {
                out.append(LAST_BRANCH);
            } else {
                out.append(MID_BRANCH);
            }
        }
        let line = self.content.display(tick);
        out.append(line.as_str());
        proof {
            self.lemma_view();
            assert(out@ =~= old(out)@ + (ERASE_LINE@ + branch_text(depth, last) + line_text(
                self@.content,
                tick as nat,
            )));
        }
    }

    /// Appends the lines of the children of this node, which stands at
    /// `depth`, to `out`. `indent` is what the children write before their
    /// branch glyphs.
    fn children_into(&self, indent: &str, tick: usize, out: &mut String, Ghost(depth): Ghost<nat>)
        requires
            indent@ == repeated("  "@, depth),
        ensures
            final(out)@ == old(out)@ + forest_text(self@.children, depth + 1, tick as nat),
        decreases self, 0nat,
    {
        let n: usize = self.children.len();
        proof {
            self.lemma_view();
        }
        if n == 0 {
            assert(out@ =~= old(out)@ + forest_text(self@.children, depth + 1, tick as nat));
            return ;
        }
        let mut i: usize = 0;
        proof {
            assert(self@.children.take(0) =~= Seq::empty());
            assert(out@ =~= old(out)@ + elder_text(
                self@.children.take(0),
                depth + 1,
                tick as nat,
            ));
        }
        while i + 1 < n
            invariant
                i + 1 <= n,
                n == self.children@.len(),
                n == self@.children.len(),
                indent@ == repeated("  "@, depth),
                forall|j: int| 0 <= j < n ==> (#[trigger] self@.children[j]) == self.children@[j]@,
                out@ == old(out)@ + elder_text(
                    self@.children.take(i as int),
                    depth + 1,
                    tick as nat,
                ),
            decreases n - i,
        {
            self.children[i].display_into(indent, true, false, tick, out, Ghost(depth + 1));
            proof {
                lemma_elder_text_step(self@.children, i as int, depth + 1, tick as nat);
                assert(out@ =~= old(out)@ + elder_text(
                    self@.children.take(i + 1),
                    depth + 1,
                    tick as nat,
                ));
            }
            i += 1;
        }
        self.children[i].display_into(indent, true, true, tick, out, Ghost(depth + 1));
        proof {
            assert(self@.children.take(n - 1) =~= self@.children.drop_last());
            assert(self@.children.last() == self.children@[n - 1]@);
            assert(out@ =~= old(out)@ + forest_text(self@.children, depth + 1, tick as nat));
        }
    }

    /// Appends the lines of this subtree to `out`. `indent` is what a node at
    /// `depth` writes before its branch glyph.
    fn display_into(
        &self,
        indent: &str,
        nested: bool,
        last: bool,
        tick: usize,
        out: &mut String,
        Ghost(depth): Ghost<nat>,
    )
        requires
            nested <==> depth > 0,
            nested ==> indent@ == repeated("  "@, (depth - 1) as nat),
        ensures
            final(out)@ == old(out)@ + display_text(self@, depth, tick as nat, last),
        decreases self, 1nat,
    {
        self.line_into(indent, nested, last, tick, out, Ghost(depth));
        let below = indent_below(indent, nested, Ghost(depth));
        self.children_into(below.as_str(), tick, out, Ghost(depth));
        assert(out@ =~= old(out)@ + display_text(self@, depth, tick as nat, last));
    }

    /// Appends one step up for every node of this subtree to `out`, children
    /// before parents.
    fn go_back_into(&self, out: &mut String)
        ensures
            final(out)@ == old(out)@ + go_back_text(self@),
        decreases self,
    {
        let n: usize = self.children.len();
        let mut i: usize = 0;
        proof {
            self.lemma_view();
            assert(self@.children.take(0) =~= Seq::empty());
            assert(out@ =~= old(out)@ + repeated(CURSOR_UP@, 0));
        }
        while i < n
            invariant
                i <= n,
                n == self.children@.len(),
                n == self@.children.len(),
                forall|j: int| 0 <= j < n ==> (#[trigger] self@.children[j]) == self.children@[j]@,
                out@ == old(out)@ + repeated(
                    CURSOR_UP@,
                    forest_count(self@.children.take(i as int)),
                ),
            decreases n - i,
        {
            self.children[i].go_back_into(out);
            proof {
                lemma_forest_count_step(self@.children, i as int);
                lemma_repeated_add(
                    CURSOR_UP@,
                    forest_count(self@.children.take(i as int)),
                    self@.children[i as int].node_count(),
                );
                assert(out@ =~= old(out)@ + repeated(
                    CURSOR_UP@,
                    forest_count(self@.children.take(i + 1)),
                ));
            }
            i += 1;
        }
        out.append(CURSOR_UP);
        proof {
            assert(self@.children.take(n as int) =~= self@.children);
            lemma_repeated_add(CURSOR_UP@, forest_count(self@.children), 1);
            assert(repeated(CURSOR_UP@, 1) =~= CURSOR_UP@);
            assert(out@ =~= old(out)@ + go_back_text(self@));
        }
    }

    /// The lines of this subtree at `tick_counter`, from its root down. The
    /// root stands at `depth`; `last` says whether it is the last child of
    /// its parent, which selects its branch glyph.
    pub fn display(&self, depth: usize, tick_counter: usize, last: bool) -> (text: String)
        ensures
            text@ == display_text(self@, depth as nat, tick_counter as nat, last),
    {
        let mut indent = String::new();
        if depth > 0 {
            append_repeated(&mut indent, "  ", depth - 1);
        }
        let mut text = String::new();
        self.display_into(
            indent.as_str(),
            depth > 0,
            last,
            tick_counter,
            &mut text,
            Ghost(depth as nat),
        );
        assert(text@ =~= display_text(self@, depth as nat, tick_counter as nat, last));
        text
    }

    /// The text that moves the cursor from below the painted tree back to its
    /// first line: one step up for every node.
    pub fn go_back(&self) -> (text: String)
        ensures
            text@ == go_back_text(self@),
    {
        let mut text = String::new();
        self.go_back_into(&mut text);
        assert(text@ =~= go_back_text(self@));
        text
    }

    /// The frame of a scheduled tick: the tree, the way back to its first
    /// line, and a carriage return.
    pub fn scheduled_frame(&self, tick: usize) -> (text: String)
        ensures
            text@ == scheduled_frame_text(self@, tick as nat),
    {
        let mut text = String::new();
        self.display_into("", false, true, tick, &mut text, Ghost(0));
        self.go_back_into(&mut text);
        text.append("\r");
        assert(text@ =~= scheduled_frame_text(self@, tick as nat));
        text
    }
}

impl<'a> TreeSnapshot<'a> {
    /// The frame that follows a batch of edits which added `additions` lines
    /// more than it removed: the tree, the clearing of the lines that the
    /// batch removed beyond those that it added, the way back to the first
    /// line, and a carriage return.
    pub fn mutation_frame(&self, tick: usize, additions: isize) -> (text: String)
        ensures
            text@ == mutation_frame_text(self@, tick as nat, additions as int),
    {
        let mut text = String::new();
        self.display_into("", false, true, tick, &mut text, Ghost(0));
        let removed: usize = if additions < 0 {
            (-(additions + 1)) as usize + 1
        } else {
            0
        };
        assert(removed == removed_lines(additions as int));
        let ghost painted = text@;
        if removed > 0 {
            proof {
                reveal_strlit("\x1b[2K\r\n");
                reveal_strlit("\x1b[2K\r");
                reveal_strlit("\n");
                assert("\x1b[2K\r\n"@ =~= ERASE_LINE@ + "\n"@);
            }
            append_repeated(&mut text, "\x1b[2K\r\n", removed - 1);
            text.append(ERASE_LINE);
            append_repeated(&mut text, CURSOR_UP, removed - 1);
            assert(text@ =~= painted + cleanup_text(removed as nat));
        }
        self.go_back_into(&mut text);
        text.append("\r");
        assert(text@ =~= mutation_frame_text(self@, tick as nat, additions as int));
        text
    }

    /// The text that moves the cursor from the first line of the painted tree
    /// to the line below its last: one newline for every node.
    pub fn closing_text(&self) -> (text: String)
        ensures
            text@ == repeated("\n"@, self@.node_count()),
        decreases self,
    {
        let mut text = String::new();
        let n: usize = self.children.len();
        let mut i: usize = 0;
        proof {
            self.lemma_view();
            assert(self@.children.take(0) =~= Seq::empty());
            assert(text@ =~= repeated("\n"@, 0));
        }
        while i < n
            invariant
                i <= n,
                n == self.children@.len(),
                n == self@.children.len(),
                forall|j: int| 0 <= j < n ==> (#[trigger] self@.children[j]) == self.children@[j]@,
                text@ == repeated("\n"@, forest_count(self@.children.take(i as int))),
            decreases n - i,
        {
            let below = self.children[i].closing_text();
            text.append(below.as_str());
            proof {
                lemma_forest_count_step(self@.children, i as int);
                lemma_repeated_add(
                    "\n"@,
                    forest_count(self@.children.take(i as int)),
                    self@.children[i as int].node_count(),
                );
            }
            i += 1;
        }
        text.append("\n");
        proof {
            assert(self@.children.take(n as int) =~= self@.children);
            lemma_repeated_add("\n"@, forest_count(self@.children), 1);
            assert(repeated("\n"@, 1) =~= "\n"@);
        }
        text
    }
}

} // verus!
