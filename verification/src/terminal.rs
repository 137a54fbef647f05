//! The control sequences that the frames are made of.

use vstd::prelude::*;

verus! {

/// Hides the cursor.
pub const CURSOR_HIDE: &'static str = "\x1B[?25l";

/// Shows the cursor.
pub const CURSOR_SHOW: &'static str = "\x1B[?25h";

/// Erases the current line and returns to its first column.
pub const ERASE_LINE: &'static str = "\x1b[2K\r";

/// Moves the cursor up one line.
pub const CURSOR_UP: &'static str = "\x1b[1A";

/// The branch glyph before the last child of a node.
pub const LAST_BRANCH: &'static str = "\u{2514}\u{2574}";

/// The branch glyph before a child that has a sibling after it.
pub const MID_BRANCH: &'static str = "\u{251C}\u{2574}";

/// The control sequences and glyphs, character by character.
pub proof fn control_sequences()
    ensures
        CURSOR_HIDE@ == seq!['\x1b', '[', '?', '2', '5', 'l'],
        CURSOR_SHOW@ == seq!['\x1b', '[', '?', '2', '5', 'h'],
        ERASE_LINE@ == seq!['\x1b', '[', '2', 'K', '\r'],
        CURSOR_UP@ == seq!['\x1b', '[', '1', 'A'],
        LAST_BRANCH@ == seq!['\u{2514}', '\u{2574}'],
        MID_BRANCH@ == seq!['\u{251C}', '\u{2574}'],
{
    reveal_strlit("\x1B[?25l");
    reveal_strlit("\x1B[?25h");
    reveal_strlit("\x1b[2K\r");
    reveal_strlit("\x1b[1A");
    reveal_strlit("\u{2514}\u{2574}");
    reveal_strlit("\u{251C}\u{2574}");
    assert(CURSOR_HIDE@ =~= seq!['\x1b', '[', '?', '2', '5', 'l']);
    assert(CURSOR_SHOW@ =~= seq!['\x1b', '[', '?', '2', '5', 'h']);
    assert(ERASE_LINE@ =~= seq!['\x1b', '[', '2', 'K', '\r']);
    assert(CURSOR_UP@ =~= seq!['\x1b', '[', '1', 'A']);
    assert(LAST_BRANCH@ =~= seq!['\u{2514}', '\u{2574}']);
    assert(MID_BRANCH@ =~= seq!['\u{251C}', '\u{2574}']);
}

} // verus!
