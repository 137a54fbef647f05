//! The decisions of the render loop and of the manager's life cycle.
//!
//! The loop itself waits on a condition variable and writes to the terminal,
//! which this library does not do. It is run by the program around the
//! library, which performs each action that is decided here and reports back
//! what happened.

use crate::render::spinner;
use vstd::prelude::*;

verus! {

/// One second, in nanoseconds.
pub const NANOS_PER_SECOND: u32 = 1_000_000_000;

/// How the render loop waits between two frames.
#[derive(Clone, Copy, Debug, PartialEq, Eq, Structural)]
pub enum Wait {
    /// Until it is notified, but no longer than `nanos` nanoseconds.
    Timeout { nanos: u32 },
    /// Until it is notified, however long that takes.
    Notification,
}

/// The wait between two frames at `tick_rate` ticks per second: a rate of
/// zero paints on demand only, any other rate paints every `1 / tick_rate`
/// seconds, counted in whole nanoseconds.
pub open spec fn wait_for(tick_rate: u32) -> Wait {
    if tick_rate == 0 {
        Wait::Notification
    } else {
        Wait::Timeout { nanos: NANOS_PER_SECOND / tick_rate }
    }
}

/// The tick that follows `tick`. The counter starts again at zero after the
/// largest value.
pub open spec fn tick_after(tick: usize) -> usize {
    if tick == usize::MAX {
        0
    } else {
        (tick + 1) as usize
    }
}

/// The wait between two frames at `tick_rate` ticks per second.
pub fn wait_mode(tick_rate: u32) -> (wait: Wait)
    ensures
        wait == wait_for(tick_rate),
{
    if tick_rate == 0 {
        Wait::Notification
    } else {
        Wait::Timeout { nanos: NANOS_PER_SECOND / tick_rate }
    }
}

/// The tick that follows `tick`.
pub fn next_tick(tick: usize) -> (next: usize)
    ensures
        next == tick_after(tick),
{
    if tick == usize::MAX {
        0
    } else {
        tick + 1
    }
}

/// Where the render loop stands.
#[derive(Clone, Copy, Debug, PartialEq, Eq, Structural)]
pub enum LoopPhase {
    /// It is about to paint a frame.
    Painting,
    /// It has painted and waits for the next tick or for a notification.
    Parked,
    /// It has seen the stop flag and has ended.
    Exited,
}

/// What happened to the render loop.
#[derive(Clone, Copy, Debug, PartialEq, Eq, Structural)]
pub enum LoopEvent {
    /// The frame was painted.
    Painted,
    /// The wait ended, by timeout or by notification, and the stop flag then
    /// read `stop`.
    Woken { stop: bool },
}

/// What the render loop does next.
#[derive(Clone, Copy, Debug, PartialEq, Eq, Structural)]
pub enum LoopAction {
    /// Paint a frame of the tree at the current tick.
    Paint,
    /// Wait, holding the scheduling mutex, and read the stop flag afterwards.
    Park(Wait),
    /// Leave the loop.
    Exit,
}

/// The state of the render loop.
#[derive(Clone, Copy, Debug, PartialEq, Eq, Structural)]
pub struct RenderLoop {
    /// Ticks per second; zero paints on demand only.
    pub tick_rate: u32,
    /// The number of frames that the loop has painted, which selects the
    /// spinner glyph.
    pub tick: usize,
    /// Where the loop stands.
    pub phase: LoopPhase,
}

impl RenderLoop {
    /// What the loop does in its present state.
    pub open spec fn action(self) -> LoopAction {
        match self.phase {
            LoopPhase::Painting => LoopAction::Paint,
            LoopPhase::Parked => LoopAction::Park(wait_for(self.tick_rate)),
            LoopPhase::Exited => LoopAction::Exit,
        }
    }

    /// The state after an event. A painted frame advances the tick and parks
    /// the loop. The end of a wait ends the loop if the stop flag was set, and
    /// otherwise leads to the next frame. An event that does not belong to the
    /// phase changes nothing.
    pub open spec fn after(self, event: LoopEvent) -> RenderLoop {
        match (self.phase, event) {
            (LoopPhase::Painting, LoopEvent::Painted) => RenderLoop {
                tick_rate: self.tick_rate,
                tick: tick_after(self.tick),
                phase: LoopPhase::Parked,
            },
            (LoopPhase::Parked, LoopEvent::Woken { stop }) => RenderLoop {
                tick_rate: self.tick_rate,
                tick: self.tick,
                phase: if stop {
                    LoopPhase::Exited
                } else {
                    LoopPhase::Painting
                },
            },
            _ => self,
        }
    }

    /// The state after a sequence of events, in order.
    pub open spec fn after_all(self, events: Seq<LoopEvent>) -> RenderLoop
        decreases events.len(),
    {
        if events.len() == 0 {
            self
        } else {
            self.after_all(events.drop_last()).after(events.last())
        }
    }

    /// A loop that is about to paint its first frame, at tick zero.
    pub fn new(tick_rate: u32) -> (state: Self)
        ensures
            state == (RenderLoop { tick_rate, tick: 0, phase: LoopPhase::Painting }),
    {
        RenderLoop { tick_rate, tick: 0, phase: LoopPhase::Painting }
    }

    /// What the loop does in its present state.
    pub fn current_action(&self) -> (action: LoopAction)
        ensures
            action == self.action(),
    {
        match self.phase {
            LoopPhase::Painting => LoopAction::Paint,
            LoopPhase::Parked => LoopAction::Park(wait_mode(self.tick_rate)),
            LoopPhase::Exited => LoopAction::Exit,
        }
    }

    /// Takes in an event and says what the loop does next.
    pub fn step(&mut self, event: LoopEvent) -> (action: LoopAction)
        ensures
            *final(self) == old(self).after(event),
            action == final(self).action(),
    {
        match (self.phase, event) {
            (LoopPhase::Painting, LoopEvent::Painted) => {
                self.tick = next_tick(self.tick);
                self.phase = LoopPhase::Parked;
            },
            (LoopPhase::Parked, LoopEvent::Woken { stop }) => {
                if stop {
                    self.phase = LoopPhase::Exited;
                } else {
                    self.phase = LoopPhase::Painting;
                }
            },
            _ => {},
        }
        self.current_action()
    }

    /// A loop that has ended stays ended, whatever is reported to it.
    pub proof fn exited_is_final(self, events: Seq<LoopEvent>)
        requires
            self.phase == LoopPhase::Exited,
        ensures
            self.after_all(events) == self,
        decreases events.len(),
    {
        if events.len() > 0 {
            self.exited_is_final(events.drop_last());
        }
    }

    /// The loop ends on no other event than a wait that ended with the stop
    /// flag set, and then at once.
    pub proof fn exits_on_stop_only(self, event: LoopEvent)
        requires
            self.phase != LoopPhase::Exited,
        ensures
            self.after(event).phase == LoopPhase::Exited <==> self.phase == LoopPhase::Parked
                && event == (LoopEvent::Woken { stop: true }),
    {
    }

    /// The tick advances with every painted frame and with nothing else, and
    /// the tick rate never changes.
    pub proof fn tick_counts_frames(self, event: LoopEvent)
        ensures
            self.after(event).tick_rate == self.tick_rate,
            self.after(event).tick == if self.phase == LoopPhase::Painting && event
                == LoopEvent::Painted {
                tick_after(self.tick)
            } else {
                self.tick
            },
    {
    }
}

/// With each tick the spinner moves on by one glyph in its cycle of four, also
/// where the counter starts again at zero.
pub proof fn spinner_advances_with_tick(tick: usize)
    ensures
        spinner(tick_after(tick) as nat) == spinner((tick + 1) as nat),
        (tick_after(tick) as nat) % 4 == (tick as nat % 4 + 1) % 4,
{
    if tick == usize::MAX {
        assert(usize::MAX == 0xffff_ffff || usize::MAX == 0xffff_ffff_ffff_ffff);
    }
}

/// Where the manager stands between its construction and the end of its
/// teardown.
#[derive(Clone, Copy, Debug, PartialEq, Eq, Structural)]
pub enum Lifecycle {
    /// The render loop runs.
    Running,
    /// The render loop was told to stop and has not ended yet.
    Stopping,
    /// The render loop has ended and the cursor is visible again.
    Joined,
}

/// What happened to the manager.
#[derive(Clone, Copy, Debug, PartialEq, Eq, Structural)]
pub enum LifecycleEvent {
    /// Teardown was asked for, by the owner or by the end of its scope.
    TeardownRequested,
    /// The render loop has ended.
    LoopEnded,
}

/// What the manager does next.
#[derive(Clone, Copy, Debug, PartialEq, Eq, Structural)]
pub enum LifecycleAction {
    /// Nothing.
    Nothing,
    /// Set the stop flag, notify every waiter and wait for the render loop to
    /// end.
    StopLoop,
    /// Show the cursor again.
    RestoreCursor,
}

impl Lifecycle {
    /// The state after an event. Teardown is taken up once, while the loop
    /// runs; the loop's end is taken up once, while it is awaited. Any other
    /// event changes nothing.
    pub open spec fn after(self, event: LifecycleEvent) -> Lifecycle {
        match (self, event) {
            (Lifecycle::Running, LifecycleEvent::TeardownRequested) => Lifecycle::Stopping,
            (Lifecycle::Stopping, LifecycleEvent::LoopEnded) => Lifecycle::Joined,
            _ => self,
        }
    }

    /// What the manager does on an event.
    pub open spec fn action_on(self, event: LifecycleEvent) -> LifecycleAction {
        match (self, event) {
            (Lifecycle::Running, LifecycleEvent::TeardownRequested) => LifecycleAction::StopLoop,
            (Lifecycle::Stopping, LifecycleEvent::LoopEnded) => LifecycleAction::RestoreCursor,
            _ => LifecycleAction::Nothing,
        }
    }

    /// The state after a sequence of events, in order.
    pub open spec fn after_all(self, events: Seq<LifecycleEvent>) -> Lifecycle
        decreases events.len(),
    {
        if events.len() == 0 {
            self
        } else {
            self.after_all(events.drop_last()).after(events.last())
        }
    }

    /// How often the manager entered the state `Joined` in the course of a
    /// sequence of events.
    pub open spec fn joins(self, events: Seq<LifecycleEvent>) -> nat
        decreases events.len(),
    {
        if events.len() == 0 {
            0
        } else {
            let before = self.after_all(events.drop_last());
            self.joins(events.drop_last()) + if before != Lifecycle::Joined && before.after(
                events.last(),
            ) == Lifecycle::Joined {
                1nat
            } else {
                0nat
            }
        }
    }

    /// The state of a manager that was just constructed.
    pub fn new() -> (state: Self)
        ensures
            state == Lifecycle::Running,
    {
        Lifecycle::Running
    }

    /// Takes in an event and says what the manager does next.
    pub fn step(&mut self, event: LifecycleEvent) -> (action: LifecycleAction)
        ensures
            *final(self) == old(self).after(event),
            action == old(self).action_on(event),
    {
        match (*self, event) {
            (Lifecycle::Running, LifecycleEvent::TeardownRequested) => {
                *self = Lifecycle::Stopping;
                LifecycleAction::StopLoop
            },
            (Lifecycle::Stopping, LifecycleEvent::LoopEnded) => {
                *self = Lifecycle::Joined;
                LifecycleAction::RestoreCursor
            },
            _ => LifecycleAction::Nothing,
        }
    }

    /// There is no way back: a manager never returns to an earlier state, and
    /// one that is joined stays joined and does nothing more.
    pub proof fn no_restart(self, event: LifecycleEvent)
        ensures
            self == Lifecycle::Joined ==> self.after(event) == Lifecycle::Joined && self.action_on(
                event,
            ) == LifecycleAction::Nothing,
            self == Lifecycle::Stopping ==> self.after(event) != Lifecycle::Running,
            self.after(event) == Lifecycle::Joined && self != Lifecycle::Joined ==> self
                == Lifecycle::Stopping && event == LifecycleEvent::LoopEnded,
            self.action_on(event) == LifecycleAction::RestoreCursor <==> self != Lifecycle::Joined
                && self.after(event) == Lifecycle::Joined,
    {
    }

    /// Whatever events arrive, in whatever order, the manager is joined at
    /// most once, and exactly once if it ends up joined.
    pub proof fn joined_at_most_once(self, events: Seq<LifecycleEvent>)
        requires
            self != Lifecycle::Joined,
        ensures
            self.joins(events) == if self.after_all(events) == Lifecycle::Joined {
                1nat
            } else {
                0nat
            },
        decreases events.len(),
    {
        if events.len() > 0 {
            self.joined_at_most_once(events.drop_last());
        }
    }
}

} // verus!
