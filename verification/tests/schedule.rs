use cli_progress::schedule::next_tick;
use cli_progress::schedule::wait_mode;
use cli_progress::schedule::Lifecycle;
use cli_progress::schedule::LifecycleAction;
use cli_progress::schedule::LifecycleEvent;
use cli_progress::schedule::LoopAction;
use cli_progress::schedule::LoopEvent;
use cli_progress::schedule::LoopPhase;
use cli_progress::schedule::RenderLoop;
use cli_progress::schedule::Wait;
use cli_progress::schedule::NANOS_PER_SECOND;

#[test]
fn zero_tick_rate_waits_for_notification() {
    assert_eq!(wait_mode(0), Wait::Notification);
}

#[test]
fn tick_rate_four_waits_a_quarter_second() {
    assert_eq!(wait_mode(4), Wait::Timeout { nanos: 250_000_000 });
}

#[test]
fn tick_interval_is_one_second_over_the_rate() {
    assert_eq!(NANOS_PER_SECOND, 1_000_000_000);
    assert_eq!(wait_mode(1), Wait::Timeout { nanos: 1_000_000_000 });
    assert_eq!(wait_mode(3), Wait::Timeout { nanos: 333_333_333 });
    assert_eq!(wait_mode(10), Wait::Timeout { nanos: 100_000_000 });
    assert_eq!(wait_mode(1_000_000_000), Wait::Timeout { nanos: 1 });
    assert_eq!(wait_mode(1_000_000_001), Wait::Timeout { nanos: 0 });
    assert_eq!(wait_mode(u32::MAX), Wait::Timeout { nanos: 0 });
}

#[test]
fn tick_interval_matches_duration_division() {
    for rate in [1u32, 2, 3, 4, 7, 10, 60, 144, 1000, 999_999_999, u32::MAX] {
        let expected = std::time::Duration::from_secs(1) / rate;
        assert_eq!(expected.as_secs(), if rate == 1 { 1 } else { 0 });
        assert_eq!(
            wait_mode(rate),
            Wait::Timeout { nanos: expected.as_nanos() as u32 }
        );
    }
}

#[test]
fn next_tick_counts_up_and_wraps() {
    assert_eq!(next_tick(0), 1);
    assert_eq!(next_tick(41), 42);
    assert_eq!(next_tick(usize::MAX - 1), usize::MAX);
    assert_eq!(next_tick(usize::MAX), 0);
}

#[test]
fn render_loop_starts_by_painting() {
    let state = RenderLoop::new(4);
    assert_eq!(state, RenderLoop { tick_rate: 4, tick: 0, phase: LoopPhase::Painting });
    assert_eq!(state.current_action(), LoopAction::Paint);
}

#[test]
fn render_loop_paints_then_parks_then_paints() {
    let mut state = RenderLoop::new(4);
    assert_eq!(
        state.step(LoopEvent::Painted),
        LoopAction::Park(Wait::Timeout { nanos: 250_000_000 })
    );
    assert_eq!(state.tick, 1);
    assert_eq!(state.phase, LoopPhase::Parked);
    assert_eq!(state.step(LoopEvent::Woken { stop: false }), LoopAction::Paint);
    assert_eq!(state.tick, 1);
    assert_eq!(state.phase, LoopPhase::Painting);
    assert_eq!(
        state.step(LoopEvent::Painted),
        LoopAction::Park(Wait::Timeout { nanos: 250_000_000 })
    );
    assert_eq!(state.tick, 2);
}

#[test]
fn render_loop_on_demand_waits_without_timeout() {
    let mut state = RenderLoop::new(0);
    assert_eq!(state.step(LoopEvent::Painted), LoopAction::Park(Wait::Notification));
    assert_eq!(state.step(LoopEvent::Woken { stop: false }), LoopAction::Paint);
}

#[test]
fn render_loop_exits_when_woken_with_stop() {
    let mut state = RenderLoop::new(10);
    state.step(LoopEvent::Painted);
    assert_eq!(state.step(LoopEvent::Woken { stop: true }), LoopAction::Exit);
    assert_eq!(state.phase, LoopPhase::Exited);
    assert_eq!(state.tick, 1);
}

#[test]
fn render_loop_stays_exited() {
    let mut state = RenderLoop::new(10);
    state.step(LoopEvent::Painted);
    state.step(LoopEvent::Woken { stop: true });
    let exited = state;
    assert_eq!(state.step(LoopEvent::Painted), LoopAction::Exit);
    assert_eq!(state.step(LoopEvent::Woken { stop: false }), LoopAction::Exit);
    assert_eq!(state.step(LoopEvent::Woken { stop: true }), LoopAction::Exit);
    assert_eq!(state, exited);
}

#[test]
fn render_loop_ignores_events_out_of_phase() {
    let mut state = RenderLoop::new(2);
    assert_eq!(state.step(LoopEvent::Woken { stop: true }), LoopAction::Paint);
    assert_eq!(state, RenderLoop::new(2));
    state.step(LoopEvent::Painted);
    let parked = state;
    assert_eq!(
        state.step(LoopEvent::Painted),
        LoopAction::Park(Wait::Timeout { nanos: 500_000_000 })
    );
    assert_eq!(state, parked);
}

#[test]
fn render_loop_tick_wraps() {
    let mut state = RenderLoop { tick_rate: 1, tick: usize::MAX, phase: LoopPhase::Painting };
    state.step(LoopEvent::Painted);
    assert_eq!(state.tick, 0);
}

#[test]
fn lifecycle_runs_stops_and_joins() {
    let mut state = Lifecycle::new();
    assert_eq!(state, Lifecycle::Running);
    assert_eq!(state.step(LifecycleEvent::TeardownRequested), LifecycleAction::StopLoop);
    assert_eq!(state, Lifecycle::Stopping);
    assert_eq!(state.step(LifecycleEvent::LoopEnded), LifecycleAction::RestoreCursor);
    assert_eq!(state, Lifecycle::Joined);
}

#[test]
fn lifecycle_joins_once() {
    let mut state = Lifecycle::new();
    let events = [
        LifecycleEvent::LoopEnded,
        LifecycleEvent::TeardownRequested,
        LifecycleEvent::TeardownRequested,
        LifecycleEvent::LoopEnded,
        LifecycleEvent::LoopEnded,
        LifecycleEvent::TeardownRequested,
        LifecycleEvent::LoopEnded,
    ];
    let mut stops = 0;
    let mut restores = 0;
    for event in events {
        match state.step(event) {
            LifecycleAction::StopLoop => stops += 1,
            LifecycleAction::RestoreCursor => restores += 1,
            LifecycleAction::Nothing => {}
        }
    }
    assert_eq!(stops, 1);
    assert_eq!(restores, 1);
    assert_eq!(state, Lifecycle::Joined);
}

#[test]
fn lifecycle_has_no_restart() {
    let mut state = Lifecycle::Joined;
    assert_eq!(state.step(LifecycleEvent::TeardownRequested), LifecycleAction::Nothing);
    assert_eq!(state, Lifecycle::Joined);
    assert_eq!(state.step(LifecycleEvent::LoopEnded), LifecycleAction::Nothing);
    assert_eq!(state, Lifecycle::Joined);
}

#[test]
fn lifecycle_ignores_loop_end_while_running() {
    let mut state = Lifecycle::Running;
    assert_eq!(state.step(LifecycleEvent::LoopEnded), LifecycleAction::Nothing);
    assert_eq!(state, Lifecycle::Running);
}
