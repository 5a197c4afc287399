//! The session-bus contract between `ratclickd`, the command line, the GUI
//! and the GNOME Shell extension, and the status text they all show.
use vstd::prelude::*;
use crate::text::{chars_of, dec, dec2, push_all, push_dec, push_dec2, push_str, same, string_of};

verus! {

/// Well-known bus name owned by the daemon.
///
/// Deliberately not the GUI's application ID: `GtkApplication` claims that
/// name for single-instance behaviour, and the two would race for it.
pub const BUS_NAME: &'static str = "io.github.dixonsolutions.RatClick.Daemon";

/// Object path the daemon exports.
pub const OBJECT_PATH: &'static str = "/io/github/dixonsolutions/RatClick/Daemon";

/// Interface carrying the methods and signals.
pub const INTERFACE: &'static str = "io.github.dixonsolutions.RatClick1";

/// The GUI's `GtkApplication` ID, also the desktop-entry and icon name.
pub const APP_ID: &'static str = "io.github.dixonsolutions.RatClick";

/// Daemon state as reported by `Status` and the `StateChanged` signal.
#[derive(Debug, Clone, PartialEq, Eq)]
pub struct Status {
    /// Whether the click loop is currently running.
    pub running: bool,
    pub cpm: u32,
    pub button: String,
    /// `"endless"` or `"timed"`.
    pub mode: String,
    /// Seconds left in a timed run; `0` when endless or stopped.
    pub remaining_seconds: u32,
    /// Clicks emitted during the current run.
    pub clicks: u64,
}

/// A countdown: `45s`, `2m 05s`, `1h 02m 05s`.
pub open spec fn format_remaining_spec(seconds: u32) -> Seq<char> {
    let h = (seconds / 3600) as u64;
    let m = ((seconds % 3600) / 60) as u64;
    let s = (seconds % 60) as u64;
    if h > 0 {
        dec(h) + "h "@ + dec2(m) + "m "@ + dec2(s) + "s"@
    } else if m > 0 {
        dec(m) + "m "@ + dec2(s) + "s"@
    } else {
        dec(s) + "s"@
    }
}

/// The one-line summary of a status.
pub open spec fn summary_spec(running: bool, cpm: u32, button: Seq<char>, mode: Seq<char>, remaining: u32) -> Seq<char> {
    if !running {
        "stopped ("@ + dec(cpm as u64) + " CPM, "@ + mode + ")"@
    } else if mode == "timed"@ {
        "clicking "@ + button + " at "@ + dec(cpm as u64) + " CPM — "@ + format_remaining_spec(remaining) + " left"@
    } else {
        "clicking "@ + button + " at "@ + dec(cpm as u64) + " CPM — endless"@
    }
}

impl Status {
    /// Compact one-line rendering shared by `ratclick status` and the panel
    /// indicator's tooltip.
    pub fn summary(&self) -> (s: String)
        ensures
            s@ == summary_spec(self.running, self.cpm, self.button@, self.mode@, self.remaining_seconds),
    {
        let mode = chars_of(self.mode.as_str());
        let button = chars_of(self.button.as_str());
        let mut out: Vec<char> = Vec::new();
        if !self.running {
            push_str(&mut out, "stopped (");
            push_dec(&mut out, self.cpm as u64);
            push_str(&mut out, " CPM, ");
            push_all(&mut out, &mode);
            push_str(&mut out, ")");
        } else if same(&mode, "timed") {
            push_str(&mut out, "clicking ");
            push_all(&mut out, &button);
            push_str(&mut out, " at ");
            push_dec(&mut out, self.cpm as u64);
            push_str(&mut out, " CPM — ");
            push_all(&mut out, &chars_of(format_remaining(self.remaining_seconds).as_str()));
            push_str(&mut out, " left");
        } else {
            push_str(&mut out, "clicking ");
            push_all(&mut out, &button);
            push_str(&mut out, " at ");
            push_dec(&mut out, self.cpm as u64);
            push_str(&mut out, " CPM — endless");
        }
        string_of(&out)
    }
}

/// Render a countdown the way both the command line and the GUI want it.
pub fn format_remaining(seconds: u32) -> (r: String)
    ensures
        r@ == format_remaining_spec(seconds),
{
    let h = (seconds / 3600) as u64;
    let m = ((seconds % 3600) / 60) as u64;
    let s = (seconds % 60) as u64;
    let mut out: Vec<char> = Vec::new();
    if h > 0 {
        push_dec(&mut out, h);
        push_str(&mut out, "h ");
        push_dec2(&mut out, m);
        push_str(&mut out, "m ");
        push_dec2(&mut out, s);
        push_str(&mut out, "s");
    } else if m > 0 {
        push_dec(&mut out, m);
        push_str(&mut out, "m ");
        push_dec2(&mut out, s);
        push_str(&mut out, "s");
    } else {
        push_dec(&mut out, s);
        push_str(&mut out, "s");
    }
    string_of(&out)
}


pub open spec fn bool_text(b: bool) -> Seq<char> {
    if b {
        "true"@
    } else {
        "false"@
    }
}

/// What `ratclick status` prints: for scripts, one `key=value` line each;
/// otherwise a sentence, and the clicks so far while clicking. `None` means
/// the service is not running.
pub open spec fn status_lines_spec(
    status: Option<(bool, u32, Seq<char>, Seq<char>, u32, u64)>,
    porcelain: bool,
) -> Seq<Seq<char>> {
    match status {
        None => if porcelain {
            seq!["daemon=stopped"@]
        } else {
            seq!["RatClick is not running."@]
        },
        Some(t) => if porcelain {
            seq![
                "daemon=running"@,
                "clicking="@ + bool_text(t.0),
                "cpm="@ + dec(t.1 as u64),
                "button="@ + t.2,
                "mode="@ + t.3,
                "remaining_seconds="@ + dec(t.4 as u64),
                "clicks="@ + dec(t.5),
            ]
        } else {
            let first = "RatClick is "@ + summary_spec(t.0, t.1, t.2, t.3, t.4);
            if t.0 {
                seq![first, "  "@ + dec(t.5) + " clicks so far this run"@]
            } else {
                seq![first]
            }
        },
    }
}

pub open spec fn status_view(s: Status) -> (bool, u32, Seq<char>, Seq<char>, u32, u64) {
    (s.running, s.cpm, s.button@, s.mode@, s.remaining_seconds, s.clicks)
}

fn line(parts: Vec<char>) -> (s: String)
    ensures
        s@ == parts@,
{
    string_of(&parts)
}

fn keyed(key: &str, value: &[char]) -> (s: String)
    ensures
        s@ == key@ + value@,
{
    let mut out = chars_of(key);
    push_all(&mut out, value);
    string_of(&out)
}

fn decimal(n: u64) -> (v: Vec<char>)
    ensures
        v@ == dec(n),
{
    let mut out: Vec<char> = Vec::new();
    push_dec(&mut out, n);
    out
}

pub fn status_lines(status: Option<&Status>, porcelain: bool) -> (r: Vec<String>)
    ensures
        crate::shortcut::gvariant::texts(r@) == status_lines_spec(
            match status {
                Some(s) => Some(status_view(*s)),
                None => None,
            },
            porcelain,
        ),
{
    let mut r: Vec<String> = Vec::new();
    match status {
        None => {
            if porcelain {
                r.push(string_of(&chars_of("daemon=stopped")));
            } else {
                r.push(string_of(&chars_of("RatClick is not running.")));
            }
        },
        Some(st) => {
            if porcelain {
                r.push(string_of(&chars_of("daemon=running")));
                r.push(keyed("clicking=", &chars_of(if st.running { "true" } else { "false" })));
                r.push(keyed("cpm=", &decimal(st.cpm as u64)));
                r.push(keyed("button=", &chars_of(st.button.as_str())));
                r.push(keyed("mode=", &chars_of(st.mode.as_str())));
                r.push(keyed("remaining_seconds=", &decimal(st.remaining_seconds as u64)));
                r.push(keyed("clicks=", &decimal(st.clicks)));
            } else {
                r.push(keyed("RatClick is ", &chars_of(st.summary().as_str())));
                if st.running {
                    let mut l = chars_of("  ");
                    push_dec(&mut l, st.clicks);
                    push_str(&mut l, " clicks so far this run");
                    r.push(line(l));
                }
            }
        },
    }
    let ghost want = status_lines_spec(
        match status {
            Some(s) => Some(status_view(*s)),
            None => None,
        },
        porcelain,
    );
    assert(crate::shortcut::gvariant::texts(r@) =~= want);
    r
}

} // verus!
