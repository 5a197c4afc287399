//! The click scheduler: what the click thread does next.
//!
//! The thread that owns the virtual mouse runs a loop of waiting, clicking and
//! reporting. Every decision in that loop is made here, by [`step`], from the
//! scheduler's state and what just happened; the thread only performs the
//! action asked for (wait for a command, wait with a timeout, sleep, click)
//! and reports back. Times are nanoseconds since the virtual device was made.
use std::time::Duration;
use vstd::prelude::*;
use crate::config::{
    duration_as_secs, duration_secs_spec, interval_nanos_spec, secs_of, Button, ClickConfig,
    ClickMode,
};

verus! {

/// How long after the virtual device appears before the first click: udev and
/// the compositor need time to pick it up.
pub const SETTLE_NANOS: u128 = 400_000_000;

/// Snapshot of what the engine is doing, cheap enough to read on every bus call.
#[derive(Debug, Clone, PartialEq, Eq, Default)]
pub struct EngineState {
    pub running: bool,
    pub clicks: u64,
    /// `None` for an endless run.
    pub remaining: Option<Duration>,
}

impl EngineState {
    /// Whole seconds left in a timed run (`0` when endless), at most `u32::MAX`.
    pub fn remaining_seconds(&self) -> (s: u32)
        ensures
            s == match self.remaining {
                None => 0,
                Some(d) => if secs_of(d) > u32::MAX {
                    u32::MAX as int
                } else {
                    secs_of(d) as int
                },
            },
    {
        match self.remaining {
            None => 0,
            Some(d) => {
                let secs = duration_as_secs(d);
                if secs > 0xFFFF_FFFF {
                    0xFFFF_FFFF
                } else {
                    secs as u32
                }
            },
        }
    }
}

/// An active run: the gap between clicks, the button, when a timed run ends,
/// and when the next click is due.
#[derive(Debug, Clone, Copy, PartialEq, Eq, Structural)]
pub struct Run {
    pub interval: u64,
    pub button: Button,
    pub deadline: Option<u128>,
    pub next: u128,
}

/// What the engine reports: running or not, clicks so far, and the time left
/// in a timed run.
#[derive(Debug, Clone, Copy, PartialEq, Eq, Structural)]
pub struct Snapshot {
    pub running: bool,
    pub clicks: u64,
    pub remaining: Option<u128>,
}

/// The scheduler's whole state.
#[derive(Debug, Clone, Copy, PartialEq, Eq, Structural)]
pub struct Core {
    /// The run in progress, if any.
    pub run: Option<Run>,
    /// A start that waits for the device to settle.
    pub pending: Option<ClickConfig>,
    /// What was last reported.
    pub snapshot: Snapshot,
}

/// A command sent to the click thread.
#[derive(Debug, Clone, Copy, PartialEq, Eq, Structural)]
pub enum Command {
    Start(ClickConfig),
    Stop,
    Shutdown,
}

/// What happened, with the time it was observed.
#[derive(Debug, Clone, Copy, PartialEq, Eq, Structural)]
pub enum Event {
    /// A command arrived.
    Received(Command, u128),
    /// Every sender is gone.
    Closed,
    /// The settle sleep is over.
    Settled(u128),
    /// The thread looked at the clock.
    Woke(u128),
    /// A timed wait ended without a command.
    TimedOut(u128),
    /// A press/release pair was emitted.
    Clicked(u128),
    /// Emitting a click failed.
    ClickFailed,
}

/// What the click thread should do next.
#[derive(Debug, Clone, Copy, PartialEq, Eq, Structural)]
pub enum Action {
    /// Block until a command arrives.
    Receive,
    /// Wait for a command for at most this many nanoseconds.
    ReceiveFor(u128),
    /// Sleep this many nanoseconds, then report [`Event::Settled`].
    Settle(u128),
    /// Read the clock and report [`Event::Woke`].
    Poll,
    /// Press and release this button.
    Click(Button),
    /// Leave the loop.
    Exit,
}

/// The next state, the action, and whether listeners are to be told.
#[derive(Debug, Clone, Copy, PartialEq, Eq, Structural)]
pub struct Step {
    pub core: Core,
    pub action: Action,
    pub notify: bool,
}

/// `a + b`, or `u128::MAX` past it.
pub open spec fn sat_add(a: u128, b: u128) -> u128 {
    if a + b > u128::MAX {
        u128::MAX
    } else {
        (a + b) as u128
    }
}

/// `a - b`, or `0` below it.
pub open spec fn sat_sub(a: u128, b: u128) -> u128 {
    if a < b {
        0
    } else {
        (a - b) as u128
    }
}

/// Nanoseconds in a timed run of these settings, `None` when endless.
pub open spec fn run_nanos(cfg: ClickConfig) -> Option<u128> {
    match duration_secs_spec(cfg) {
        Some(s) => Some((s * 1_000_000_000) as u128),
        None => None,
    }
}

/// A run of `cfg` beginning at `now`: the first click is due at once.
pub open spec fn run_from(cfg: ClickConfig, now: u128) -> Run {
    Run {
        interval: interval_nanos_spec(cfg.cpm),
        button: cfg.button,
        deadline: match run_nanos(cfg) {
            Some(n) => Some(sat_add(now, n)),
            None => None,
        },
        next: now,
    }
}

/// Starting a run from idle: running, no clicks yet, the whole length to go.
pub open spec fn started(core: Core, cfg: ClickConfig, now: u128) -> Step {
    Step {
        core: Core {
            run: Some(run_from(cfg, now)),
            pending: None,
            snapshot: Snapshot { running: true, clicks: 0, remaining: run_nanos(cfg) },
        },
        action: Action::Poll,
        notify: true,
    }
}

/// Ending a run: not running, the clicks kept, no countdown.
pub open spec fn stopped(core: Core) -> Step {
    Step {
        core: Core {
            run: None,
            pending: None,
            snapshot: Snapshot { running: false, clicks: core.snapshot.clicks, remaining: None },
        },
        action: Action::Receive,
        notify: true,
    }
}

/// Nothing changes; the thread goes on with `action`.
pub open spec fn unchanged(core: Core, action: Action) -> Step {
    Step { core, action, notify: false }
}

/// How long to wait for a command before the next click is due or the run ends.
pub open spec fn wait_spec(r: Run, now: u128) -> u128 {
    let w = sat_sub(r.next, now);
    match r.deadline {
        Some(d) => if sat_sub(d, now) < w {
            sat_sub(d, now)
        } else {
            w
        },
        None => w,
    }
}

/// When the click after this one is due: one interval on from the schedule,
/// or one interval from now when the schedule has fallen more than an
/// interval behind (after a suspend, say), so there is never a burst.
pub open spec fn next_due(r: Run, now: u128) -> u128 {
    let n = sat_add(r.next, r.interval as u128);
    if sat_add(n, r.interval as u128) < now {
        sat_add(now, r.interval as u128)
    } else {
        n
    }
}

/// Whole seconds of a countdown, as listeners compare them.
pub open spec fn countdown_secs(rem: Option<u128>) -> Option<u128> {
    match rem {
        Some(n) => Some(n / 1_000_000_000),
        None => None,
    }
}

/// The scheduler's decision on `ev` in state `core`.
pub open spec fn step_spec(core: Core, ev: Event) -> Step {
    match ev {
        Event::Closed => unchanged(core, Action::Exit),
        Event::Received(Command::Shutdown, _) => unchanged(core, Action::Exit),
        Event::Received(Command::Stop, _) => match core.run {
            Some(_) => stopped(core),
            None => unchanged(core, Action::Receive),
        },
        Event::Received(Command::Start(cfg), now) => match core.run {
            Some(_) => Step {
                core: Core { run: Some(run_from(cfg, now)), pending: None, snapshot: core.snapshot },
                action: Action::Poll,
                notify: false,
            },
            None => if sat_sub(SETTLE_NANOS, now) > 0 {
                Step {
                    core: Core { run: None, pending: Some(cfg), snapshot: core.snapshot },
                    action: Action::Settle(sat_sub(SETTLE_NANOS, now)),
                    notify: false,
                }
            } else {
                started(core, cfg, now)
            },
        },
        Event::Settled(now) => match (core.run, core.pending) {
            (None, Some(cfg)) => started(core, cfg, now),
            _ => unchanged(core, Action::Receive),
        },
        Event::Woke(now) => match core.run {
            None => unchanged(core, Action::Receive),
            Some(r) => match r.deadline {
                Some(d) => if now >= d {
                    stopped(core)
                } else {
                    unchanged(core, Action::ReceiveFor(wait_spec(r, now)))
                },
                None => unchanged(core, Action::ReceiveFor(wait_spec(r, now))),
            },
        },
        Event::TimedOut(now) => match core.run {
            None => unchanged(core, Action::Receive),
            Some(r) => if now < r.next {
                unchanged(core, Action::Poll)
            } else {
                unchanged(core, Action::Click(r.button))
            },
        },
        Event::Clicked(now) => match core.run {
            None => unchanged(core, Action::Receive),
            Some(r) => {
                let rem = match r.deadline {
                    Some(d) => Some(sat_sub(d, now)),
                    None => None,
                };
                Step {
                    core: Core {
                        run: Some(Run { next: next_due(r, now), ..r }),
                        pending: None,
                        snapshot: Snapshot {
                            running: core.snapshot.running,
                            clicks: (core.snapshot.clicks + 1) as u64,
                            remaining: rem,
                        },
                    },
                    action: Action::Poll,
                    notify: countdown_secs(core.snapshot.remaining) != countdown_secs(rem),
                }
            },
        },
        Event::ClickFailed => match core.run {
            Some(_) => stopped(core),
            None => unchanged(core, Action::Receive),
        },
    }
}

/// The state before anything has happened: idle, nothing counted.
pub fn initial() -> (c: Core)
    ensures
        c.run is None,
        c.pending is None,
        c.snapshot == (Snapshot { running: false, clicks: 0, remaining: None }),
{
    Core { run: None, pending: None, snapshot: Snapshot { running: false, clicks: 0, remaining: None } }
}

fn start_run(cfg: ClickConfig, now: u128) -> (r: Run)
    ensures
        r == run_from(cfg, now),
{
    let deadline = match cfg.duration_secs() {
        Some(s) => Some(now.saturating_add(s as u128 * 1_000_000_000)),
        None => None,
    };
    Run { interval: cfg.interval_nanos(), button: cfg.button, deadline, next: now }
}

fn run_length(cfg: ClickConfig) -> (r: Option<u128>)
    ensures
        r == run_nanos(cfg),
{
    match cfg.duration_secs() {
        Some(s) => Some(s as u128 * 1_000_000_000),
        None => None,
    }
}

fn start(core: Core, cfg: ClickConfig, now: u128) -> (s: Step)
    ensures
        s == started(core, cfg, now),
{
    Step {
        core: Core {
            run: Some(start_run(cfg, now)),
            pending: None,
            snapshot: Snapshot { running: true, clicks: 0, remaining: run_length(cfg) },
        },
        action: Action::Poll,
        notify: true,
    }
}

fn stop(core: Core) -> (s: Step)
    ensures
        s == stopped(core),
{
    Step {
        core: Core {
            run: None,
            pending: None,
            snapshot: Snapshot { running: false, clicks: core.snapshot.clicks, remaining: None },
        },
        action: Action::Receive,
        notify: true,
    }
}

/// Decide what the click thread does after `ev`.
pub fn step(core: Core, ev: Event) -> (s: Step)
    requires
        ev is Clicked ==> core.snapshot.clicks < u64::MAX,
    ensures
        s == step_spec(core, ev),
{
    match ev {
        Event::Closed => Step { core, action: Action::Exit, notify: false },
        Event::Received(Command::Shutdown, _) => Step { core, action: Action::Exit, notify: false },
        Event::Received(Command::Stop, _) => match core.run {
            Some(_) => stop(core),
            None => Step { core, action: Action::Receive, notify: false },
        },
        Event::Received(Command::Start(cfg), now) => match core.run {
            Some(_) => Step {
                core: Core { run: Some(start_run(cfg, now)), pending: None, snapshot: core.snapshot },
                action: Action::Poll,
                notify: false,
            },
            None => {
                let settle = SETTLE_NANOS.saturating_sub(now);
                if settle > 0 {
                    Step {
                        core: Core { run: None, pending: Some(cfg), snapshot: core.snapshot },
                        action: Action::Settle(settle),
                        notify: false,
                    }
                } else {
                    start(core, cfg, now)
                }
            },
        },
        Event::Settled(now) => match (core.run, core.pending) {
            (None, Some(cfg)) => start(core, cfg, now),
            _ => Step { core, action: Action::Receive, notify: false },
        },
        Event::Woke(now) => match core.run {
            None => Step { core, action: Action::Receive, notify: false },
            Some(r) => {
                let timed_out = match r.deadline {
                    Some(d) => now >= d,
                    None => false,
                };
                if timed_out {
                    stop(core)
                } else {
                    let mut wait = r.next.saturating_sub(now);
                    match r.deadline {
                        Some(d) => {
                            let left = d.saturating_sub(now);
                            if left < wait {
                                wait = left;
                            }
                        },
                        None => {},
                    }
                    Step { core, action: Action::ReceiveFor(wait), notify: false }
                }
            },
        },
        Event::TimedOut(now) => match core.run {
            None => Step { core, action: Action::Receive, notify: false },
            Some(r) => {
                if now < r.next {
                    Step { core, action: Action::Poll, notify: false }
                } else {
                    Step { core, action: Action::Click(r.button), notify: false }
                }
            },
        },
        Event::Clicked(now) => match core.run {
            None => Step { core, action: Action::Receive, notify: false },
            Some(r) => {
                let interval = r.interval as u128;
                let mut next = r.next.saturating_add(interval);
                if next.saturating_add(interval) < now {
                    next = now.saturating_add(interval);
                }
                let rem = match r.deadline {
                    Some(d) => Some(d.saturating_sub(now)),
                    None => None,
                };
                let before = match core.snapshot.remaining {
                    Some(n) => Some(n / 1_000_000_000),
                    None => None,
                };
                let after = match rem {
                    Some(n) => Some(n / 1_000_000_000),
                    None => None,
                };
                let changed = match (before, after) {
                    (Some(a), Some(b)) => a != b,
                    (None, None) => false,
                    _ => true,
                };
                Step {
                    core: Core {
                        run: Some(Run { interval: r.interval, button: r.button, deadline: r.deadline, next }),
                        pending: None,
                        snapshot: Snapshot {
                            running: core.snapshot.running,
                            clicks: core.snapshot.clicks + 1,
                            remaining: rem,
                        },
                    },
                    action: Action::Poll,
                    notify: changed,
                }
            },
        },
        Event::ClickFailed => match core.run {
            Some(_) => stop(core),
            None => Step { core, action: Action::Receive, notify: false },
        },
    }
}


/// The scheduler reports running exactly while a run is in progress.
pub open spec fn core_wf(core: Core) -> bool {
    core.snapshot.running == (core.run is Some)
}

/// The engine reports running exactly while a run is in progress: true of the
/// initial state and kept by every step.
pub proof fn law_running_tracks_run(core: Core, ev: Event)
    requires
        core_wf(core),
    ensures
        core_wf(step_spec(core, ev).core),
        ({
            let c = Core {
                run: None,
                pending: None,
                snapshot: Snapshot { running: false, clicks: 0, remaining: None },
            };
            core_wf(c)
        }),
{
}

/// Stopping stops: a stop during a run ends it, reports not running with the
/// clicks kept and no countdown, tells listeners, and waits for the next command.
pub proof fn law_stop_stops(core: Core, now: u128)
    requires
        core.run is Some,
    ensures
        ({
            let s = step_spec(core, Event::Received(Command::Stop, now));
            &&& s.core.run is None
            &&& !s.core.snapshot.running
            &&& s.core.snapshot.clicks == core.snapshot.clicks
            &&& s.core.snapshot.remaining is None
            &&& s.notify
            &&& s.action == Action::Receive
        }),
{
}

/// A timed run stops itself: once its deadline has passed, the next look at
/// the clock ends it.
pub proof fn law_timed_run_ends(core: Core, now: u128)
    requires
        core.run matches Some(r) && r.deadline matches Some(d) && now >= d,
    ensures
        step_spec(core, Event::Woke(now)).core.run is None,
        !step_spec(core, Event::Woke(now)).core.snapshot.running,
        step_spec(core, Event::Woke(now)).notify,
{
}

/// Restarting with new settings takes effect at once: the run is replaced by
/// one of the new settings whose first click is due now, and the count goes on.
pub proof fn law_restart_takes_effect(core: Core, cfg: ClickConfig, now: u128)
    requires
        core.run is Some,
    ensures
        step_spec(core, Event::Received(Command::Start(cfg), now)).core.run == Some(
            run_from(cfg, now),
        ),
        run_from(cfg, now).next == now,
        step_spec(core, Event::Received(Command::Start(cfg), now)).core.snapshot == core.snapshot,
{
}

/// Each click counts once, and a schedule that has fallen behind is resynced
/// rather than caught up: afterwards the next click is due later than the one
/// just made and at most one interval before now.
pub proof fn law_click_advances(core: Core, now: u128)
    requires
        core.run matches Some(r) && r.interval > 0 && r.next + 2 * r.interval <= u128::MAX && now
            + r.interval <= u128::MAX,
        core.snapshot.clicks < u64::MAX,
    ensures
        ({
            let r = core.run->0;
            let s = step_spec(core, Event::Clicked(now));
            &&& s.core.snapshot.clicks == core.snapshot.clicks + 1
            &&& s.core.run matches Some(r2) && r2.next > r.next && r2.next + r.interval >= now
                && r2.interval == r.interval && r2.deadline == r.deadline
        }),
{
}

/// Every run clicks at a positive interval, so the schedule always moves on.
pub proof fn law_interval_positive(cfg: ClickConfig, now: u128)
    ensures
        run_from(cfg, now).interval > 0,
{
    let c: u64 = if cfg.cpm < 1 {
        1
    } else {
        cfg.cpm as u64
    };
    assert(60_000_000_000u64 / c >= 13) by (nonlinear_arith)
        requires
            1 <= c <= 0xffff_ffff,
    ;
}

} // verus!
