//! What holds of every frame.

use crate::modification::Edit;
use crate::modification::ElementView;
use crate::node::forest_count;
use crate::node::NodeView;
use crate::render::bar_text;
use crate::render::blanks;
use crate::render::branch_text;
use crate::render::cleanup_text;
use crate::render::display_text;
use crate::render::elder_text;
use crate::render::fill;
use crate::render::forest_text;
use crate::render::go_back_text;
use crate::render::line_text;
use crate::render::mutation_frame_text;
use crate::render::removed_lines;
use crate::render::repeated;
use crate::render::scheduled_frame_text;
use crate::render::spinner;
use crate::snapshot::cells;
use crate::snapshot::freezes;
use crate::snapshot::snapshot_is_determined_by_cells;
use crate::snapshot::LineView;
use crate::snapshot::SnapshotView;
use crate::terminal::control_sequences;
use crate::terminal::CURSOR_UP;
use crate::terminal::ERASE_LINE;
use crate::terminal::LAST_BRANCH;
use crate::terminal::MID_BRANCH;
use vstd::prelude::*;

verus! {

/// A progress bar never shows fewer filled cells for a larger value, shows at
/// most twenty, and shows twenty from the value 100 on.
pub proof fn fill_is_monotonic_and_saturating(smaller: u8, larger: u8)
    requires
        smaller <= larger,
    ensures
        fill(smaller) <= fill(larger),
        fill(larger) <= 20,
        fill(larger) == if larger / 5 < 20 { (larger / 5) as int } else { 20 },
        larger >= 100 ==> fill(larger) == 20,
        larger < 100 ==> fill(larger) < 20,
{
}

/// Between its brackets a progress bar is twenty cells wide, whatever its
/// value and the tick.
pub proof fn bar_is_twenty_wide(value: u8, tick: nat)
    ensures
        bar_text(value, tick).len() == 23,
        bar_text(value, tick).first() == '[',
        bar_text(value, tick)[21] == ']',
        bar_text(value, tick)[22] == '\n',
{
    reveal_strlit("[");
    reveal_strlit("#");
    reveal_strlit(" ");
    reveal_strlit("]\n");
    reveal_strlit("/");
    reveal_strlit("-");
    reveal_strlit("\\");
    reveal_strlit("|");
    lemma_repeated_len("#"@, fill(value));
    lemma_repeated_len(" "@, blanks(value));
}

/// A text repeated is as long as the text times the number of repetitions.
pub proof fn lemma_repeated_len(unit: Seq<char>, times: nat)
    ensures
        repeated(unit, times).len() == times * unit.len(),
    decreases times,
{
    let width = unit.len() as int;
    if times > 0 {
        lemma_repeated_len(unit, (times - 1) as nat);
        assert(times * width == (times - 1) * width + width) by (nonlinear_arith);
    } else {
        assert(times * width == 0) by (nonlinear_arith)
            requires
                times == 0,
        ;
    }
}

/// The text of a frame depends on the tick only through the place of the
/// tick in the cycle of four.
pub proof fn frame_repeats_every_four_ticks(node: SnapshotView, depth: nat, tick: nat, last: bool)
    ensures
        display_text(node, depth, tick + 4, last) == display_text(node, depth, tick, last),
    decreases node, 2nat,
{
    assert(spinner(tick + 4) == spinner(tick));
    assert(line_text(node.content, tick + 4) == line_text(node.content, tick));
    lemma_forest_repeats_every_four_ticks(node.children, depth + 1, tick);
}

proof fn lemma_forest_repeats_every_four_ticks(forest: Seq<SnapshotView>, depth: nat, tick: nat)
    ensures
        elder_text(forest, depth, tick + 4) == elder_text(forest, depth, tick),
        forest_text(forest, depth, tick + 4) == forest_text(forest, depth, tick),
    decreases forest, 1nat,
{
    if forest.len() > 0 {
        lemma_forest_repeats_every_four_ticks(forest.drop_last(), depth, tick);
        frame_repeats_every_four_ticks(forest.last(), depth, tick, true);
        frame_repeats_every_four_ticks(forest.last(), depth, tick, false);
    }
}

/// With the tick and the values of the progress cells held fixed, painting a
/// tree twice gives the same text: two snapshots of one tree that hold the
/// same cell values give, at one tick, the same frames.
pub proof fn frozen_frames_are_identical(
    first: SnapshotView,
    second: SnapshotView,
    tree: NodeView,
    tick: nat,
    additions: int,
)
    requires
        freezes(first, tree),
        freezes(second, tree),
        cells(first) == cells(second),
    ensures
        display_text(first, 0, tick, true) == display_text(second, 0, tick, true),
        scheduled_frame_text(first, tick) == scheduled_frame_text(second, tick),
        mutation_frame_text(first, tick, additions) == mutation_frame_text(second, tick, additions),
{
    snapshot_is_determined_by_cells(first, second, tree);
}

/// The frame that follows a batch of edits clears exactly the lines by which
/// the tree has shrunk: the count that the batch kept, started at zero, is the
/// number of nodes after the batch less the number before it, so the lines
/// cleared are the nodes that the tree has lost, and none if it has grown.
pub proof fn cleanup_clears_the_shrinkage(before: NodeView, edits: Seq<Edit>)
    ensures
        ({
            let start = ElementView { tree: before, line_delta: 0 };
            let after = start.apply_all(edits);
            removed_lines(after.line_delta) == if after.tree.node_count() < before.node_count() {
                before.node_count() - after.tree.node_count()
            } else {
                0
            }
        }),
{
    let start = ElementView { tree: before, line_delta: 0 };
    start.line_delta_is_exact(edits);
}

/// The number of line ends in a text.
pub open spec fn newlines(text: Seq<char>) -> nat
    decreases text.len(),
{
    if text.len() == 0 {
        0
    } else {
        newlines(text.drop_last()) + if text.last() == '\n' {
            1nat
        } else {
            0nat
        }
    }
}

/// True if the text of the line holds no line end of its own.
pub open spec fn line_is_plain(line: LineView) -> bool {
    match line {
        LineView::Message(text) => newlines(text) == 0,
        LineView::SpinningMessage(text) => newlines(text) == 0,
        LineView::ProgressBar(_) => true,
    }
}

/// True if no text in the tree holds a line end of its own.
pub open spec fn is_plain(node: SnapshotView) -> bool
    decreases node,
{
    &&& line_is_plain(node.content)
    &&& forall|i: int| 0 <= i < node.children.len() ==> is_plain(#[trigger] node.children[i])
}

/// The line ends of two texts in a row are those of the one and those of the
/// other.
pub proof fn lemma_newlines_add(a: Seq<char>, b: Seq<char>)
    ensures
        newlines(a + b) == newlines(a) + newlines(b),
    decreases b.len(),
{
    if b.len() == 0 {
        assert(a + b =~= a);
    } else {
        lemma_newlines_add(a, b.drop_last());
        assert((a + b).drop_last() =~= a + b.drop_last());
        assert((a + b).last() == b.last());
    }
}

/// A text without line ends has none however often it is repeated.
proof fn lemma_newlines_repeated(unit: Seq<char>, times: nat)
    requires
        newlines(unit) == 0,
    ensures
        newlines(repeated(unit, times)) == 0,
    decreases times,
{
    if times > 0 {
        lemma_newlines_repeated(unit, (times - 1) as nat);
        lemma_newlines_add(repeated(unit, (times - 1) as nat), unit);
    }
}

/// The line ends in the control sequences, the glyphs and the other fixed
/// pieces of a frame.
proof fn lemma_newlines_of_pieces()
    ensures
        newlines(ERASE_LINE@) == 0,
        newlines(CURSOR_UP@) == 0,
        newlines(LAST_BRANCH@) == 0,
        newlines(MID_BRANCH@) == 0,
        newlines("  "@) == 0,
        newlines(" "@) == 0,
        newlines("["@) == 0,
        newlines("#"@) == 0,
        newlines("\n"@) == 1,
        newlines("]\n"@) == 1,
        newlines("\r"@) == 0,
        forall|tick: nat| newlines(#[trigger] spinner(tick)) == 0,
{
    control_sequences();
    reveal_strlit("  ");
    reveal_strlit(" ");
    reveal_strlit("[");
    reveal_strlit("#");
    reveal_strlit("\n");
    reveal_strlit("]\n");
    reveal_strlit("\r");
    reveal_strlit("/");
    reveal_strlit("-");
    reveal_strlit("\\");
    reveal_strlit("|");
    reveal_with_fuel(newlines, 8);
}

/// The content of a plain line ends the line once.
proof fn lemma_newlines_of_line(line: LineView, tick: nat)
    requires
        line_is_plain(line),
    ensures
        newlines(line_text(line, tick)) == 1,
{
    lemma_newlines_of_pieces();
    match line {
        LineView::Message(text) => {
            lemma_newlines_add(text, "\n"@);
        },
        LineView::SpinningMessage(text) => {
            lemma_newlines_add(text, " "@);
            lemma_newlines_add(text + " "@, spinner(tick));
            lemma_newlines_add(text + " "@ + spinner(tick), "\n"@);
        },
        LineView::ProgressBar(value) => {
            let filled = repeated("#"@, fill(value));
            let frontier = if fill(value) != 20 {
                spinner(tick)
            } else {
                Seq::empty()
            };
            let blank = repeated(" "@, blanks(value));
            lemma_newlines_repeated("#"@, fill(value));
            lemma_newlines_repeated(" "@, blanks(value));
            lemma_newlines_add("["@, filled);
            lemma_newlines_add("["@ + filled, frontier);
            lemma_newlines_add("["@ + filled + frontier, blank);
            lemma_newlines_add("["@ + filled + frontier + blank, "]\n"@);
        },
    }
}

/// A plain tree is painted on as many lines as it has nodes, so the way back
/// up, one step for every node, ends on the first line of the tree.
pub proof fn frame_has_one_line_per_node(node: SnapshotView, depth: nat, tick: nat, last: bool)
    requires
        is_plain(node),
    ensures
        newlines(display_text(node, depth, tick, last)) == node.node_count(),
        go_back_text(node) == repeated(CURSOR_UP@, node.node_count()),
    decreases node, 2nat,
{
    lemma_newlines_of_pieces();
    lemma_newlines_of_line(node.content, tick);
    lemma_forest_has_one_line_per_node(node.children, depth + 1, tick);
    let branch = branch_text(depth, last);
    if depth > 0 {
        lemma_newlines_repeated("  "@, (depth - 1) as nat);
        lemma_newlines_add(repeated("  "@, (depth - 1) as nat), if last {
            LAST_BRANCH@
        } else {
            MID_BRANCH@
        });
    }
    assert(newlines(branch) == 0);
    let line = line_text(node.content, tick);
    let below = forest_text(node.children, depth + 1, tick);
    lemma_newlines_add(ERASE_LINE@, branch);
    lemma_newlines_add(ERASE_LINE@ + branch, line);
    lemma_newlines_add(ERASE_LINE@ + branch + line, below);
}

proof fn lemma_forest_has_one_line_per_node(forest: Seq<SnapshotView>, depth: nat, tick: nat)
    requires
        forall|i: int| 0 <= i < forest.len() ==> is_plain(#[trigger] forest[i]),
    ensures
        newlines(elder_text(forest, depth, tick)) == forest_count(forest),
        newlines(forest_text(forest, depth, tick)) == forest_count(forest),
    decreases forest, 1nat,
{
    if forest.len() > 0 {
        let elder = forest.drop_last();
        assert forall|i: int| 0 <= i < elder.len() implies is_plain(#[trigger] elder[i]) by {
            assert(elder[i] == forest[i]);
        }
        lemma_forest_has_one_line_per_node(elder, depth, tick);
        assert(is_plain(forest.last()));
        frame_has_one_line_per_node(forest.last(), depth, tick, true);
        frame_has_one_line_per_node(forest.last(), depth, tick, false);
        lemma_newlines_add(
            elder_text(elder, depth, tick),
            display_text(forest.last(), depth, tick, true),
        );
        lemma_newlines_add(
            elder_text(elder, depth, tick),
            display_text(forest.last(), depth, tick, false),
        );
    }
}

/// The clearing of stale lines below a frame moves the cursor down by one
/// line less than it clears, and up again by as many.
pub proof fn cleanup_returns_below_the_frame(removed: nat)
    ensures
        newlines(cleanup_text(removed)) == if removed == 0 {
            0
        } else {
            removed - 1
        },
{
    lemma_newlines_of_pieces();
    if removed > 0 {
        let steps = (removed - 1) as nat;
        lemma_newlines_add(ERASE_LINE@, "\n"@);
        lemma_newlines_steps(steps);
        lemma_newlines_repeated(CURSOR_UP@, steps);
        lemma_newlines_add(repeated(ERASE_LINE@ + "\n"@, steps), ERASE_LINE@);
        lemma_newlines_add(
            repeated(ERASE_LINE@ + "\n"@, steps) + ERASE_LINE@,
            repeated(CURSOR_UP@, steps),
        );
    }
}

proof fn lemma_newlines_steps(steps: nat)
    requires
        newlines(ERASE_LINE@ + "\n"@) == 1,
    ensures
        newlines(repeated(ERASE_LINE@ + "\n"@, steps)) == steps,
    decreases steps,
{
    if steps > 0 {
        lemma_newlines_steps((steps - 1) as nat);
        lemma_newlines_add(repeated(ERASE_LINE@ + "\n"@, (steps - 1) as nat), ERASE_LINE@ + "\n"@);
    }
}

} // verus!
