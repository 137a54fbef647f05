use cli_progress::render::progress_bar;
use cli_progress::schedule::LoopAction;
use cli_progress::schedule::LoopEvent;
use cli_progress::schedule::RenderLoop;
use cli_progress::schedule::Wait;
use cli_progress::terminal::CURSOR_HIDE;
use cli_progress::terminal::CURSOR_SHOW;
use cli_progress::terminal::CURSOR_UP;
use cli_progress::terminal::ERASE_LINE;
use cli_progress::terminal::LAST_BRANCH;
use cli_progress::terminal::MID_BRANCH;
use cli_progress::CLIDisplayNode;
use cli_progress::CLIDisplayNodeType;
use cli_progress::CLIModificationElement;
use cli_progress::LineSnapshot;
use cli_progress::TreeSnapshot;
use std::borrow::Cow;
use std::sync::atomic::AtomicU8;
use std::sync::atomic::Ordering;
use std::sync::Arc;

fn node<'a>(content: LineSnapshot<'a>, children: Vec<TreeSnapshot<'a>>) -> TreeSnapshot<'a> {
    TreeSnapshot { content, children }
}

fn line(text: &str) -> TreeSnapshot<'_> {
    node(LineSnapshot::Message(text), Vec::new())
}

fn sample() -> TreeSnapshot<'static> {
    node(
        LineSnapshot::SpinningMessage("Build"),
        vec![
            node(LineSnapshot::Message("compile"), vec![line("lexer"), line("parser")]),
            node(LineSnapshot::ProgressBar(50), Vec::new()),
        ],
    )
}

fn hashes(bar: &str) -> usize {
    bar.chars().filter(|c| *c == '#').count()
}

#[test]
fn control_sequences_are_exact() {
    assert_eq!(CURSOR_HIDE.as_bytes(), [0x1b, b'[', b'?', b'2', b'5', b'l']);
    assert_eq!(CURSOR_SHOW.as_bytes(), [0x1b, b'[', b'?', b'2', b'5', b'h']);
    assert_eq!(ERASE_LINE.as_bytes(), [0x1b, b'[', b'2', b'K', b'\r']);
    assert_eq!(CURSOR_UP.as_bytes(), [0x1b, b'[', b'1', b'A']);
    assert_eq!(LAST_BRANCH, "└╴");
    assert_eq!(MID_BRANCH, "├╴");
}

#[test]
fn message_prints_verbatim() {
    assert_eq!(LineSnapshot::Message("hello world").display(0), "hello world\n");
    assert_eq!(LineSnapshot::Message("hello world").display(3), "hello world\n");
    assert_eq!(LineSnapshot::Message("").display(7), "\n");
}

#[test]
fn spinner_runs_through_four_glyphs() {
    let content = LineSnapshot::SpinningMessage("Loading");
    assert_eq!(content.display(0), "Loading /\n");
    assert_eq!(content.display(1), "Loading -\n");
    assert_eq!(content.display(2), "Loading \\\n");
    assert_eq!(content.display(3), "Loading |\n");
    assert_eq!(content.display(4), "Loading /\n");
    assert_eq!(content.display(usize::MAX), "Loading |\n");
}

#[test]
fn spinner_advances_by_one_glyph_per_tick() {
    let tree = CLIDisplayNode::new(CLIDisplayNodeType::SpinningMessage(Cow::Borrowed(
        "Loading",
    )));
    let snapshot = tree.freeze();
    let mut state = RenderLoop::new(4);
    assert_eq!(state.current_action(), LoopAction::Paint);
    let first = snapshot.scheduled_frame(state.tick);
    assert_eq!(
        state.step(LoopEvent::Painted),
        LoopAction::Park(Wait::Timeout { nanos: 250_000_000 })
    );
    assert_eq!(state.step(LoopEvent::Woken { stop: false }), LoopAction::Paint);
    assert_eq!(state.tick, 1);
    let second = snapshot.scheduled_frame(state.tick);
    assert_eq!(first, "\x1b[2K\rLoading /\n\x1b[1A\r");
    assert_eq!(second, "\x1b[2K\rLoading -\n\x1b[1A\r");
}

#[test]
fn empty_progress_bar() {
    assert_eq!(progress_bar(0, 0), "[/                   ]\n");
    assert_eq!(progress_bar(4, 1), "[-                   ]\n");
}

#[test]
fn progress_bar_fills_one_cell_per_five() {
    assert_eq!(progress_bar(5, 0), "[#/                  ]\n");
    assert_eq!(progress_bar(9, 2), "[#\\                  ]\n");
    assert_eq!(progress_bar(50, 3), "[##########|         ]\n");
    assert_eq!(progress_bar(94, 0), "[##################/ ]\n");
    assert_eq!(progress_bar(95, 0), "[###################/]\n");
    assert_eq!(progress_bar(99, 1), "[###################-]\n");
}

#[test]
fn full_progress_bar_has_no_spinner() {
    assert_eq!(progress_bar(100, 0), "[####################]\n");
    assert_eq!(progress_bar(100, 1), "[####################]\n");
    assert_eq!(progress_bar(100, 2), "[####################]\n");
    assert_eq!(progress_bar(100, 3), "[####################]\n");
}

#[test]
fn progress_bar_clamps_overshoot() {
    assert_eq!(progress_bar(101, 0), "[####################]\n");
    assert_eq!(progress_bar(104, 0), "[####################]\n");
    assert_eq!(progress_bar(105, 0), "[####################]\n");
    assert_eq!(progress_bar(255, 3), "[####################]\n");
}

#[test]
fn progress_bar_fill_is_monotonic_and_saturating() {
    let mut previous = 0;
    for value in 0..=255u8 {
        let bar = progress_bar(value, 0);
        let fill = hashes(&bar);
        assert!(fill >= previous);
        assert!(fill <= 20);
        assert_eq!(fill, std::cmp::min(20, value as usize / 5));
        assert_eq!(bar.chars().count(), 23);
        previous = fill;
    }
}

#[test]
fn progress_content_displays_the_bar() {
    assert_eq!(LineSnapshot::ProgressBar(50).display(3), progress_bar(50, 3));
    assert_eq!(LineSnapshot::ProgressBar(100).display(0), "[####################]\n");
}

#[test]
fn three_full_bars_under_one_root() {
    let cells = [
        Arc::new(AtomicU8::new(0)),
        Arc::new(AtomicU8::new(0)),
        Arc::new(AtomicU8::new(0)),
    ];
    let mut tree = CLIDisplayNode::new(CLIDisplayNodeType::Message(Cow::Borrowed("bars")));
    let mut element = CLIModificationElement::new(&mut tree);
    for cell in &cells {
        element.push(CLIDisplayNodeType::ProgressBar(cell.clone()));
    }
    assert_eq!(
        tree.freeze().display(0, 1, true),
        "\x1b[2K\rbars\n\
         \x1b[2K\r├╴[-                   ]\n\
         \x1b[2K\r├╴[-                   ]\n\
         \x1b[2K\r└╴[-                   ]\n"
    );
    for cell in &cells {
        cell.store(100, Ordering::Relaxed);
    }
    let snapshot = tree.freeze();
    for child in &snapshot.children {
        assert_eq!(child.content.display(1), "[####################]\n");
    }
    assert_eq!(
        snapshot.display(0, 1, true),
        "\x1b[2K\rbars\n\
         \x1b[2K\r├╴[####################]\n\
         \x1b[2K\r├╴[####################]\n\
         \x1b[2K\r└╴[####################]\n"
    );
}

#[test]
fn root_has_no_branch() {
    assert_eq!(line("root").display(0, 0, true), "\x1b[2K\rroot\n");
    assert_eq!(line("root").display(0, 0, false), "\x1b[2K\rroot\n");
}

#[test]
fn nested_lines_are_indented_and_branched() {
    assert_eq!(
        sample().display(0, 2, true),
        "\x1b[2K\rBuild \\\n\
         \x1b[2K\r├╴compile\n\
         \x1b[2K\r  ├╴lexer\n\
         \x1b[2K\r  └╴parser\n\
         \x1b[2K\r└╴[##########\\         ]\n"
    );
}

#[test]
fn display_below_the_root_uses_the_given_depth() {
    assert_eq!(line("x").display(1, 0, true), "\x1b[2K\r└╴x\n");
    assert_eq!(line("x").display(1, 0, false), "\x1b[2K\r├╴x\n");
    assert_eq!(line("x").display(3, 0, false), "\x1b[2K\r    ├╴x\n");
    assert_eq!(
        node(LineSnapshot::Message("x"), vec![line("y")]).display(2, 0, true),
        "\x1b[2K\r  └╴x\n\x1b[2K\r    └╴y\n"
    );
}

#[test]
fn deep_chain_indents_two_spaces_per_level() {
    let tree = node(
        LineSnapshot::Message("a"),
        vec![node(
            LineSnapshot::Message("b"),
            vec![node(LineSnapshot::Message("c"), vec![line("d")])],
        )],
    );
    assert_eq!(
        tree.display(0, 0, true),
        "\x1b[2K\ra\n\x1b[2K\r└╴b\n\x1b[2K\r  └╴c\n\x1b[2K\r    └╴d\n"
    );
}

#[test]
fn go_back_moves_up_once_per_node() {
    assert_eq!(line("root").go_back(), "\x1b[1A");
    assert_eq!(sample().go_back(), "\x1b[1A".repeat(5));
}

#[test]
fn closing_text_is_one_newline_per_node() {
    assert_eq!(line("root").closing_text(), "\n");
    assert_eq!(sample().closing_text(), "\n\n\n\n\n");
}

#[test]
fn scheduled_frame_paints_then_returns() {
    assert_eq!(
        sample().scheduled_frame(0),
        "\x1b[2K\rBuild /\n\
         \x1b[2K\r├╴compile\n\
         \x1b[2K\r  ├╴lexer\n\
         \x1b[2K\r  └╴parser\n\
         \x1b[2K\r└╴[##########/         ]\n\
         \x1b[1A\x1b[1A\x1b[1A\x1b[1A\x1b[1A\r"
    );
}

#[test]
fn frame_ends_on_the_first_line_of_the_region() {
    let frame = sample().scheduled_frame(0);
    let down = frame.matches('\n').count();
    let up = frame.matches("\x1b[1A").count();
    assert_eq!(down, 5);
    assert_eq!(up, down);
}

#[test]
fn mutation_frame_without_shrinkage_is_the_scheduled_frame() {
    let tree = sample();
    assert_eq!(tree.mutation_frame(1, 0), tree.scheduled_frame(1));
    assert_eq!(tree.mutation_frame(1, 3), tree.scheduled_frame(1));
    assert_eq!(tree.mutation_frame(1, isize::MAX), tree.scheduled_frame(1));
}

#[test]
fn mutation_frame_clears_one_removed_line() {
    let tree = node(LineSnapshot::Message("root"), vec![line("a")]);
    assert_eq!(
        tree.mutation_frame(0, -1),
        "\x1b[2K\rroot\n\x1b[2K\r└╴a\n\x1b[2K\r\x1b[1A\x1b[1A\r"
    );
}

#[test]
fn removing_two_of_three_clears_two_lines() {
    let mut tree = CLIDisplayNode::new(CLIDisplayNodeType::Message(Cow::Borrowed("root")));
    let mut setup = CLIModificationElement::new(&mut tree);
    setup.push(CLIDisplayNodeType::Message(Cow::Borrowed("a")));
    setup.push(CLIDisplayNodeType::Message(Cow::Borrowed("b")));
    setup.push(CLIDisplayNodeType::Message(Cow::Borrowed("c")));
    let mut element = CLIModificationElement::new(&mut tree);
    element.pop();
    element.pop();
    let additions = element.additions();
    assert_eq!(additions, -2);
    let frame = tree.freeze().mutation_frame(0, additions);
    assert_eq!(
        frame,
        "\x1b[2K\rroot\n\
         \x1b[2K\r└╴a\n\
         \x1b[2K\r\n\x1b[2K\r\x1b[1A\
         \x1b[1A\x1b[1A\r"
    );
    let painted = "\x1b[2K\rroot\n\x1b[2K\r└╴a\n";
    let cleanup = &frame[painted.len()..frame.len() - "\x1b[1A\x1b[1A\r".len()];
    assert_eq!(cleanup.matches("\x1b[2K\r").count(), 2);
    assert_eq!(frame.matches('\n').count(), frame.matches("\x1b[1A").count());
    assert_eq!(frame.matches("\x1b[2K\r").count(), 4);
}

#[test]
fn mutation_frame_clears_many_lines() {
    let frame = line("root").mutation_frame(0, -4);
    assert_eq!(
        frame,
        "\x1b[2K\rroot\n\
         \x1b[2K\r\n\x1b[2K\r\n\x1b[2K\r\n\x1b[2K\r\
         \x1b[1A\x1b[1A\x1b[1A\
         \x1b[1A\r"
    );
}

#[test]
fn mixed_batch_clears_the_net_shrinkage() {
    let mut tree = CLIDisplayNode::new(CLIDisplayNodeType::Message(Cow::Borrowed("root")));
    let mut setup = CLIModificationElement::new(&mut tree);
    setup.push(CLIDisplayNodeType::Message(Cow::Borrowed("a")));
    setup.push(CLIDisplayNodeType::Message(Cow::Borrowed("b")));
    setup.push(CLIDisplayNodeType::Message(Cow::Borrowed("c")));
    let before = tree.freeze().go_back().matches("\x1b[1A").count();
    let mut element = CLIModificationElement::new(&mut tree);
    element.pop();
    element.pop();
    element.push(CLIDisplayNodeType::Message(Cow::Borrowed("d")));
    element.pop();
    let additions = element.additions();
    let snapshot = tree.freeze();
    let after = snapshot.go_back().matches("\x1b[1A").count();
    assert_eq!(additions, -2);
    assert_eq!(before - after, 2);
    assert_eq!(snapshot.mutation_frame(0, additions).matches("\x1b[2K\r").count(), after + 2);
}

#[test]
fn rendering_twice_gives_identical_text() {
    let cell = Arc::new(AtomicU8::new(35));
    let mut tree = CLIDisplayNode::new(CLIDisplayNodeType::SpinningMessage(Cow::Borrowed(
        "Working",
    )));
    let mut element = CLIModificationElement::new(&mut tree);
    element.push(CLIDisplayNodeType::ProgressBar(cell.clone()));
    element.make_sub(CLIDisplayNodeType::Message(Cow::Borrowed("part")));
    let first = tree.freeze();
    let second = tree.freeze();
    assert_eq!(first, second);
    assert_eq!(first.scheduled_frame(6).as_bytes(), second.scheduled_frame(6).as_bytes());
    assert_eq!(first.scheduled_frame(6).as_bytes(), first.scheduled_frame(6).as_bytes());
    assert_eq!(first.mutation_frame(6, -1).as_bytes(), second.mutation_frame(6, -1).as_bytes());
    assert_eq!(
        first.scheduled_frame(6),
        "\x1b[2K\rWorking \\\n\
         \x1b[2K\r└╴[#######\\            ]\n\
         \x1b[2K\r  └╴part\n\
         \x1b[1A\x1b[1A\x1b[1A\r"
    );
}

#[test]
fn frame_repeats_every_four_ticks() {
    let tree = sample();
    for tick in 0..8 {
        assert_eq!(tree.scheduled_frame(tick), tree.scheduled_frame(tick + 4));
    }
    assert_ne!(tree.scheduled_frame(0), tree.scheduled_frame(1));
}
