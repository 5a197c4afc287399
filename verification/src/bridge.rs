//! What the window's bus thread decides: which steps a button press takes,
//! what a status poll shows, when the window needs waking, and how starting
//! the service falls back when systemd puts it on another bus.
use vstd::prelude::*;
use crate::text::{chars_of, eq_chars, string_of};

verus! {

/// How the service was launched.
#[derive(Debug, Clone, Copy, PartialEq, Eq, Structural)]
pub enum Launched {
    /// `systemctl --user start` reported success.
    Systemd,
    /// The binary was run directly.
    Direct,
}

/// What the window asks of the bus thread.
#[derive(Debug, Clone, Copy, PartialEq, Eq, Structural)]
pub enum Cmd {
    /// Start clicking if stopped, stop it if running.
    Toggle,
    /// Tell the service to re-read its configuration.
    Reload,
    /// Launch the service.
    StartDaemon,
    /// Shut the service down.
    StopDaemon,
    /// Poll now instead of waiting for the next tick.
    Refresh,
}

/// One step of carrying out a command.
#[derive(Debug, Clone, Copy, PartialEq, Eq, Structural)]
pub enum Op {
    /// Launch the service and wait for it on this bus.
    StartService,
    /// Stop it through systemd, or ask it to quit.
    StopService,
    /// Wait for the service to leave the bus.
    WaitGone,
    /// Ask it to re-read its configuration.
    Reload,
    /// Ask it to toggle clicking.
    Toggle,
}

/// The steps for `cmd`, given whether the service is on the bus: toggling
/// starts it first when it is not; reloading an absent service is nothing to
/// do, since it reads its configuration when it starts.
pub open spec fn plan_spec(cmd: Cmd, present: bool) -> Seq<Op> {
    match cmd {
        Cmd::Refresh => Seq::empty(),
        Cmd::StartDaemon => seq![Op::StartService],
        Cmd::StopDaemon => seq![Op::StopService, Op::WaitGone],
        Cmd::Reload => if present {
            seq![Op::Reload]
        } else {
            Seq::empty()
        },
        Cmd::Toggle => if present {
            seq![Op::Toggle]
        } else {
            seq![Op::StartService, Op::Toggle]
        },
    }
}

pub fn handle(cmd: Cmd, present: bool) -> (r: Vec<Op>)
    ensures
        r@ == plan_spec(cmd, present),
{
    let mut r: Vec<Op> = Vec::new();
    match cmd {
        Cmd::Refresh => {},
        Cmd::StartDaemon => r.push(Op::StartService),
        Cmd::StopDaemon => {
            r.push(Op::StopService);
            r.push(Op::WaitGone);
        },
        Cmd::Reload => {
            if present {
                r.push(Op::Reload);
            }
        },
        Cmd::Toggle => {
            if !present {
                r.push(Op::StartService);
            }
            r.push(Op::Toggle);
        },
    }
    assert(r@ =~= plan_spec(cmd, present));
    r
}

/// What to do once a launch has been waited for.
#[derive(Debug, Clone, Copy, PartialEq, Eq, Structural)]
pub enum StartNext {
    /// The service is on this bus.
    Done,
    /// systemd started it somewhere else: run the binary directly and wait again.
    SpawnDirect,
    /// It did not come up.
    Fail,
}

/// After launching `how` and waiting, with the service `came_up` or not.
pub fn start_daemon(how: Launched, came_up: bool) -> (r: StartNext)
    ensures
        came_up ==> r == StartNext::Done,
        !came_up && how == Launched::Systemd ==> r == StartNext::SpawnDirect,
        !came_up && how == Launched::Direct ==> r == StartNext::Fail,
{
    if came_up {
        StartNext::Done
    } else if how == Launched::Systemd {
        StartNext::SpawnDirect
    } else {
        StartNext::Fail
    }
}

/// Why waiting for the service to appear (`want`) or leave failed.
pub fn wait_message(want: bool) -> (s: String)
    ensures
        want ==> s@ == "the RatClick service did not start — run `ratclick doctor` in a terminal"@,
        !want ==> s@ == "the RatClick service did not stop"@,
{
    if want {
        string_of(&chars_of("the RatClick service did not start — run `ratclick doctor` in a terminal"))
    } else {
        string_of(&chars_of("the RatClick service did not stop"))
    }
}

/// Everything the window needs to render itself.
#[derive(Debug, Clone, PartialEq, Eq, Default)]
pub struct Snapshot {
    pub daemon_up: bool,
    pub running: bool,
    pub cpm: u32,
    pub button: String,
    pub mode: String,
    pub remaining_seconds: u32,
    pub clicks: u64,
    /// Set when the last operation failed, for a toast.
    pub error: Option<String>,
}

/// What a snapshot shows, with its text as characters.
pub open spec fn shown(s: Snapshot) -> (bool, bool, u32, Seq<char>, Seq<char>, u32, u64, Option<Seq<char>>) {
    (
        s.daemon_up,
        s.running,
        s.cpm,
        s.button@,
        s.mode@,
        s.remaining_seconds,
        s.clicks,
        match s.error {
            Some(e) => Some(e@),
            None => None,
        },
    )
}

pub open spec fn blank() -> (bool, bool, u32, Seq<char>, Seq<char>, u32, u64, Option<Seq<char>>) {
    (false, false, 0, Seq::empty(), Seq::empty(), 0, 0, None)
}

/// A poll: nothing when the service is not on the bus or did not answer,
/// otherwise what its `Status` said.
pub fn poll_status(present: bool, status: Option<(bool, u32, String, String, u32, u64)>) -> (s: Snapshot)
    ensures
        !present ==> shown(s) == blank(),
        present && status is None ==> shown(s) == blank(),
        present ==> (status matches Some(t) ==> shown(s) == (true, t.0, t.1, t.2@, t.3@, t.4, t.5, None::<Seq<char>>)),
{
    let none = Snapshot {
        daemon_up: false,
        running: false,
        cpm: 0,
        button: string_of(&Vec::new()),
        mode: string_of(&Vec::new()),
        remaining_seconds: 0,
        clicks: 0,
        error: None,
    };
    if !present {
        return none;
    }
    match status {
        None => none,
        Some(t) => {
            let (running, cpm, button, mode, remaining_seconds, clicks) = t;
            Snapshot { daemon_up: true, running, cpm, button, mode, remaining_seconds, clicks, error: None }
        },
    }
}

fn same_text(a: &String, b: &String) -> (r: bool)
    ensures
        r == (a@ == b@),
{
    eq_chars(&chars_of(a.as_str()), &chars_of(b.as_str()))
}

/// Does the window need waking? Only when something changed since the last
/// snapshot sent, or when there is an error to show.
pub fn should_publish(last: &Option<Snapshot>, snap: &Snapshot) -> (b: bool)
    ensures
        b == (snap.error is Some || match last {
            None => true,
            Some(l) => shown(*l) != shown(*snap),
        }),
{
    if snap.error.is_some() {
        return true;
    }
    match last {
        None => true,
        Some(l) => {
            let errs_same = match (&l.error, &snap.error) {
                (None, None) => true,
                (Some(x), Some(y)) => same_text(x, y),
                _ => false,
            };
            !(l.daemon_up == snap.daemon_up && l.running == snap.running && l.cpm == snap.cpm
                && same_text(&l.button, &snap.button) && same_text(&l.mode, &snap.mode)
                && l.remaining_seconds == snap.remaining_seconds && l.clicks == snap.clicks
                && errs_same)
        },
    }
}

/// A keyd change the window asks an elevated `ratclick` to make.
#[derive(Debug, Clone, Copy, PartialEq, Eq, Structural)]
pub enum KeydAction {
    Apply,
    Clear,
}

impl KeydAction {
    /// The `ratclick shortcut` subcommand that carries it out.
    pub fn verb(self) -> (s: &'static str)
        ensures
            self == KeydAction::Apply ==> s@ == "apply"@,
            self == KeydAction::Clear ==> s@ == "clear"@,
    {
        match self {
            KeydAction::Apply => "apply",
            KeydAction::Clear => "clear",
        }
    }
}

} // verus!
