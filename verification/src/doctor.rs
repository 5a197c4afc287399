//! What `ratclick doctor` concludes from what it found: one verdict per
//! check, with the fix to try where something is wrong.
use vstd::prelude::*;
use crate::accel::{model, to_display_spec, Accel};
use crate::config::{backend_name, binding_models, button_name, mode_name, Config, ShortcutBackend};
use crate::shortcut::gvariant::texts;
use crate::shortcut::keyd::contains_accel;
use crate::shortcut::BackendStatus;
use crate::text::{chars_of, dec, join, push_all, push_dec, push_str, same, string_of, views, words, words_of};

verus! {

/// How a check came out.
#[derive(Debug, Clone, Copy, PartialEq, Eq, Structural)]
pub enum Verdict {
    /// All is well.
    Pass,
    /// Worth knowing, not a problem.
    Note,
    /// A problem; the detail says what to do.
    Fail,
}

/// One line of the report: the verdict, what was checked, and the detail.
#[derive(Debug)]
pub struct Check {
    pub verdict: Verdict,
    pub what: String,
    pub detail: String,
}

pub open spec fn check_view(c: Check) -> (Verdict, Seq<char>, Seq<char>) {
    (c.verdict, c.what@, c.detail@)
}

pub open spec fn checks_view(v: Seq<Check>) -> Seq<(Verdict, Seq<char>, Seq<char>)> {
    v.map_values(|c: Check| check_view(c))
}

fn check(verdict: Verdict, what: &str, detail: Vec<char>) -> (c: Check)
    ensures
        check_view(c) == (verdict, what@, detail@),
{
    Check { verdict, what: string_of(&chars_of(what)), detail: string_of(&detail) }
}

fn push_check(out: &mut Vec<Check>, c: Check)
    ensures
        checks_view(final(out)@) == checks_view(old(out)@).push(check_view(c)),
{
    let ghost before = checks_view(out@);
    out.push(c);
    assert(checks_view(out@) =~= before.push(check_view(c)));
}

// ---------------------------------------------------------------------------
// Input device
// ---------------------------------------------------------------------------

/// `/dev/uinput`: whether it exists, why it could not be opened for writing
/// (`None` when it could), and whether the user is in the `input` group.
pub open spec fn uinput_spec(exists: bool, open_error: Option<Seq<char>>, in_group: bool) -> Seq<
    (Verdict, Seq<char>, Seq<char>),
> {
    if !exists {
        seq![
            (
                Verdict::Fail,
                "/dev/uinput"@,
                "missing — load the module with `sudo modprobe uinput`"@,
            ),
        ]
    } else {
        let device = match open_error {
            None => (Verdict::Pass, "/dev/uinput"@, "writable"@),
            Some(e) => (
                Verdict::Fail,
                "/dev/uinput"@,
                "not writable ("@ + e
                    + ") — add yourself with `sudo usermod -aG input $USER`, then log out and back in"@,
            ),
        };
        let group = if in_group {
            (Verdict::Pass, "input group"@, "you are a member"@)
        } else {
            (Verdict::Note, "input group"@, "not a member — works today only because of a udev ACL"@)
        };
        seq![device, group]
    }
}

pub fn uinput_checks(exists: bool, open_error: Option<&str>, in_group: bool) -> (r: Vec<Check>)
    ensures
        checks_view(r@) == uinput_spec(
            exists,
            match open_error {
                Some(e) => Some(e@),
                None => None,
            },
            in_group,
        ),
{
    let mut r: Vec<Check> = Vec::new();
    if !exists {
        push_check(
            &mut r,
            check(
                Verdict::Fail,
                "/dev/uinput",
                chars_of("missing — load the module with `sudo modprobe uinput`"),
            ),
        );
        return r;
    }
    match open_error {
        None => push_check(&mut r, check(Verdict::Pass, "/dev/uinput", chars_of("writable"))),
        Some(e) => {
            let mut d: Vec<char> = Vec::new();
            push_str(&mut d, "not writable (");
            push_str(&mut d, e);
            push_str(
                &mut d,
                ") — add yourself with `sudo usermod -aG input $USER`, then log out and back in",
            );
            push_check(&mut r, check(Verdict::Fail, "/dev/uinput", d));
        },
    }
    if in_group {
        push_check(&mut r, check(Verdict::Pass, "input group", chars_of("you are a member")));
    } else {
        push_check(
            &mut r,
            check(
                Verdict::Note,
                "input group",
                chars_of("not a member — works today only because of a udev ACL"),
            ),
        );
    }
    r
}

/// Is `input` among the groups `id -nG` printed?
pub fn in_input_group(id_output: &str) -> (b: bool)
    ensures
        b == words(id_output@).contains("input"@),
{
    let ws = words_of(&chars_of(id_output));
    let ghost wv = views(ws@);
    let mut i: usize = 0;
    while i < ws.len()
        invariant
            i <= ws.len(),
            wv == views(ws@),
            wv == words(id_output@),
            forall|j: int| 0 <= j < i ==> wv[j] != "input"@,
        decreases ws.len() - i,
    {
        assert(wv[i as int] == ws@[i as int]@);
        if same(&ws[i], "input") {
            return true;
        }
        i = i + 1;
    }
    false
}

// ---------------------------------------------------------------------------
// Session and service
// ---------------------------------------------------------------------------

pub open spec fn or_unknown(v: Option<Seq<char>>) -> Seq<char> {
    match v {
        Some(s) => s,
        None => "unknown"@,
    }
}

/// The session type and desktop (`None` when unset), and whether a session
/// bus address is set.
pub open spec fn session_spec(session: Option<Seq<char>>, desktop: Option<Seq<char>>, bus: bool) -> Seq<
    (Verdict, Seq<char>, Seq<char>),
> {
    seq![
        (Verdict::Pass, "session"@, or_unknown(session) + " / "@ + or_unknown(desktop)),
        if bus {
            (Verdict::Pass, "session bus"@, "available"@)
        } else {
            (Verdict::Fail, "session bus"@, "DBUS_SESSION_BUS_ADDRESS is not set"@)
        },
    ]
}

pub open spec fn opt_text(v: Option<&str>) -> Option<Seq<char>> {
    match v {
        Some(s) => Some(s@),
        None => None,
    }
}

pub fn session_checks(session: Option<&str>, desktop: Option<&str>, bus: bool) -> (r: Vec<Check>)
    ensures
        checks_view(r@) == session_spec(opt_text(session), opt_text(desktop), bus),
{
    let mut r: Vec<Check> = Vec::new();
    let mut d: Vec<char> = Vec::new();
    push_str(&mut d, match session {
        Some(s) => s,
        None => "unknown",
    });
    push_str(&mut d, " / ");
    push_str(&mut d, match desktop {
        Some(s) => s,
        None => "unknown",
    });
    push_check(&mut r, check(Verdict::Pass, "session", d));
    if bus {
        push_check(&mut r, check(Verdict::Pass, "session bus", chars_of("available")));
    } else {
        push_check(
            &mut r,
            check(Verdict::Fail, "session bus", chars_of("DBUS_SESSION_BUS_ADDRESS is not set")),
        );
    }
    assert(checks_view(r@) =~= session_spec(opt_text(session), opt_text(desktop), bus));
    r
}

/// Whether the service is on the bus (with the version it reported, `None`
/// when it did not say), and whether its systemd unit is installed.
pub open spec fn daemon_spec(running: bool, version: Option<Seq<char>>, unit: bool) -> Seq<
    (Verdict, Seq<char>, Seq<char>),
> {
    seq![
        if running {
            (
                Verdict::Pass,
                "ratclickd"@,
                "running (version "@ + (match version {
                    Some(v) => v,
                    None => "?"@,
                }) + ")"@,
            )
        } else {
            (Verdict::Note, "ratclickd"@, "not running (it starts on demand)"@)
        },
        if unit {
            (Verdict::Pass, "systemd unit"@, "ratclick.service is installed"@)
        } else {
            (Verdict::Note, "systemd unit"@, "not installed; the daemon is launched directly"@)
        },
    ]
}

pub fn daemon_checks(running: bool, version: Option<&str>, unit: bool) -> (r: Vec<Check>)
    ensures
        checks_view(r@) == daemon_spec(running, opt_text(version), unit),
{
    let mut r: Vec<Check> = Vec::new();
    if running {
        let mut d: Vec<char> = Vec::new();
        push_str(&mut d, "running (version ");
        push_str(&mut d, match version {
            Some(v) => v,
            None => "?",
        });
        push_str(&mut d, ")");
        push_check(&mut r, check(Verdict::Pass, "ratclickd", d));
    } else {
        push_check(
            &mut r,
            check(Verdict::Note, "ratclickd", chars_of("not running (it starts on demand)")),
        );
    }
    if unit {
        push_check(
            &mut r,
            check(Verdict::Pass, "systemd unit", chars_of("ratclick.service is installed")),
        );
    } else {
        push_check(
            &mut r,
            check(
                Verdict::Note,
                "systemd unit",
                chars_of("not installed; the daemon is launched directly"),
            ),
        );
    }
    assert(checks_view(r@) =~= daemon_spec(running, opt_text(version), unit));
    r
}

// ---------------------------------------------------------------------------
// Configuration and shortcut
// ---------------------------------------------------------------------------

/// The configuration as loaded, or why it could not be.
pub open spec fn config_spec(loaded: Result<Config, Seq<char>>) -> (Verdict, Seq<char>, Seq<char>) {
    match loaded {
        Ok(c) => if !c.setup_complete {
            (Verdict::Note, "config"@, "no setup yet — run `ratclick setup`"@)
        } else {
            (
                Verdict::Pass,
                "config"@,
                dec(c.click.cpm as u64) + " CPM, "@ + button_name(c.click.button) + " button, "@
                    + mode_name(c.click.mode),
            )
        },
        Err(e) => (Verdict::Fail, "config"@, e),
    }
}

pub fn config_check(loaded: Result<&Config, &str>) -> (c: Check)
    ensures
        check_view(c) == config_spec(
            match loaded {
                Ok(cfg) => Ok(*cfg),
                Err(e) => Err(e@),
            },
        ),
{
    match loaded {
        Ok(cfg) => {
            if cfg.needs_setup() {
                check(Verdict::Note, "config", chars_of("no setup yet — run `ratclick setup`"))
            } else {
                let mut d: Vec<char> = Vec::new();
                push_dec(&mut d, cfg.click.cpm as u64);
                push_str(&mut d, " CPM, ");
                push_str(&mut d, cfg.click.button.as_str());
                push_str(&mut d, " button, ");
                push_str(&mut d, cfg.click.mode.as_str());
                check(Verdict::Pass, "config", d)
            }
        },
        Err(e) => check(Verdict::Fail, "config", chars_of(e)),
    }
}

/// One backend's line: named, marked when it is the one in use; a backend
/// that cannot be used is a problem only when it is the one in use.
pub open spec fn backend_line(s: BackendStatus, configured: ShortcutBackend) -> (
    Verdict,
    Seq<char>,
    Seq<char>,
) {
    let chosen = s.backend == configured;
    (
        if s.available {
            Verdict::Pass
        } else if chosen {
            Verdict::Fail
        } else {
            Verdict::Note
        },
        if chosen {
            backend_name(s.backend) + " (in use)"@
        } else {
            backend_name(s.backend)
        },
        s.detail@,
    )
}

/// The lines of the backends, leaving out "none".
pub open spec fn backend_lines(ss: Seq<BackendStatus>, configured: ShortcutBackend) -> Seq<
    (Verdict, Seq<char>, Seq<char>),
>
    decreases ss.len(),
{
    if ss.len() == 0 {
        Seq::empty()
    } else {
        let r = backend_lines(ss.drop_last(), configured);
        if ss.last().backend == ShortcutBackend::Off {
            r
        } else {
            r.push(backend_line(ss.last(), configured))
        }
    }
}

pub fn backend_checks(statuses: &[BackendStatus], configured: ShortcutBackend) -> (r: Vec<Check>)
    ensures
        checks_view(r@) == backend_lines(statuses@, configured),
{
    let mut r: Vec<Check> = Vec::new();
    let mut i: usize = 0;
    assert(statuses@.subrange(0, 0) =~= Seq::<BackendStatus>::empty());
    while i < statuses.len()
        invariant
            i <= statuses.len(),
            checks_view(r@) == backend_lines(statuses@.subrange(0, i as int), configured),
        decreases statuses.len() - i,
    {
        assert(statuses@.subrange(0, i + 1).drop_last() =~= statuses@.subrange(0, i as int));
        let s = &statuses[i];
        if s.backend != ShortcutBackend::Off {
            let chosen = s.backend == configured;
            let mut label: Vec<char> = Vec::new();
            push_str(&mut label, s.backend.as_str());
            if chosen {
                push_str(&mut label, " (in use)");
            }
            let verdict = if s.available {
                Verdict::Pass
            } else if chosen {
                Verdict::Fail
            } else {
                Verdict::Note
            };
            let c = Check {
                verdict,
                what: string_of(&label),
                detail: string_of(&chars_of(s.detail.as_str())),
            };
            push_check(&mut r, c);
        }
        i = i + 1;
    }
    assert(statuses@.subrange(0, statuses@.len() as int) =~= statuses@);
    r
}

/// The lines for one configured accelerator: whether the backend reads it
/// back, and what else holds it (`others`, described), if anything.
pub open spec fn accel_lines(
    a: (u8, Seq<char>),
    live: Seq<(u8, Seq<char>)>,
    others: Seq<Seq<char>>,
) -> Seq<(Verdict, Seq<char>, Seq<char>)> {
    let d = to_display_spec(a.0, a.1);
    let first = if live.contains(a) {
        (Verdict::Pass, "binding"@, d + " is registered"@)
    } else {
        (
            Verdict::Fail,
            "binding"@,
            d + " is configured but not registered — run `ratclick shortcut apply`"@,
        )
    };
    if others.len() == 0 {
        seq![first]
    } else {
        seq![first, (Verdict::Note, "conflict"@, d + " is also bound to "@ + join(others, "; "@))]
    }
}

pub open spec fn accels_lines(
    bs: Seq<(u8, Seq<char>)>,
    live: Seq<(u8, Seq<char>)>,
    conflicts: Seq<Seq<Seq<char>>>,
) -> Seq<(Verdict, Seq<char>, Seq<char>)>
    decreases bs.len(),
{
    if bs.len() == 0 {
        Seq::empty()
    } else {
        accels_lines(bs.drop_last(), live, conflicts) + accel_lines(
            bs.last(),
            live,
            conflicts[bs.len() - 1],
        )
    }
}

pub open spec fn conflict_texts(v: Seq<Vec<String>>) -> Seq<Seq<Seq<char>>> {
    v.map_values(|x: Vec<String>| texts(x@))
}

/// The shortcut section: nothing configured, a backend with no key, or one
/// set of lines per configured accelerator.
pub open spec fn shortcut_spec(
    backend: ShortcutBackend,
    bindings: Seq<(u8, Seq<char>)>,
    live: Seq<(u8, Seq<char>)>,
    conflicts: Seq<Seq<Seq<char>>>,
) -> Seq<(Verdict, Seq<char>, Seq<char>)> {
    if backend == ShortcutBackend::Off {
        seq![(Verdict::Note, "binding"@, "no global shortcut configured"@)]
    } else if bindings.len() == 0 {
        seq![(Verdict::Note, "binding"@, "backend selected but no key chosen"@)]
    } else {
        accels_lines(bindings, live, conflicts)
    }
}

fn joined(v: &Vec<String>, sep: &str) -> (r: Vec<char>)
    ensures
        r@ == join(texts(v@), sep@),
{
    let ghost tv = texts(v@);
    let mut out: Vec<char> = Vec::new();
    let mut i: usize = 0;
    assert(tv.subrange(0, 0) =~= Seq::<Seq<char>>::empty());
    while i < v.len()
        invariant
            i <= v.len(),
            tv == texts(v@),
            out@ == join(tv.subrange(0, i as int), sep@),
        decreases v.len() - i,
    {
        assert(tv.subrange(0, i + 1).drop_last() =~= tv.subrange(0, i as int));
        assert(tv[i as int] == v@[i as int]@);
        if i > 0 {
            push_str(&mut out, sep);
        }
        push_all(&mut out, &chars_of(v[i].as_str()));
        proof {
            if i == 0 {
                assert(tv.subrange(0, 1) =~= seq![tv[0]]);
                assert(join(tv.subrange(0, 0), sep@) =~= Seq::<char>::empty());
            }
        }
        assert(out@ =~= join(tv.subrange(0, i + 1), sep@));
        i = i + 1;
    }
    assert(tv.subrange(0, tv.len() as int) =~= tv);
    out
}

/// The shortcut section, given the configured backend and accelerators,
/// what the backend reads back, and for each accelerator the descriptions
/// of whatever else holds it (not consulted when the backend is "none").
pub fn shortcut_checks(
    backend: ShortcutBackend,
    bindings: &[Accel],
    live: &[Accel],
    conflicts: &[Vec<String>],
) -> (r: Vec<Check>)
    requires
        backend != ShortcutBackend::Off ==> conflicts@.len() == bindings@.len(),
    ensures
        checks_view(r@) == shortcut_spec(
            backend,
            binding_models(bindings@),
            binding_models(live@),
            conflict_texts(conflicts@),
        ),
{
    let mut r: Vec<Check> = Vec::new();
    if backend == ShortcutBackend::Off {
        push_check(
            &mut r,
            check(Verdict::Note, "binding", chars_of("no global shortcut configured")),
        );
        assert(checks_view(r@) =~= shortcut_spec(
            backend,
            binding_models(bindings@),
            binding_models(live@),
            conflict_texts(conflicts@),
        ));
        return r;
    }
    if bindings.len() == 0 {
        push_check(
            &mut r,
            check(Verdict::Note, "binding", chars_of("backend selected but no key chosen")),
        );
        assert(checks_view(r@) =~= shortcut_spec(
            backend,
            binding_models(bindings@),
            binding_models(live@),
            conflict_texts(conflicts@),
        ));
        return r;
    }
    let ghost bs = binding_models(bindings@);
    let ghost lv = binding_models(live@);
    let ghost cs = conflict_texts(conflicts@);
    let mut i: usize = 0;
    assert(bs.subrange(0, 0) =~= Seq::<(u8, Seq<char>)>::empty());
    while i < bindings.len()
        invariant
            i <= bindings.len(),
            conflicts@.len() == bindings@.len(),
            bs == binding_models(bindings@),
            lv == binding_models(live@),
            cs == conflict_texts(conflicts@),
            checks_view(r@) == accels_lines(bs.subrange(0, i as int), lv, cs),
        decreases bindings.len() - i,
    {
        let ghost sub = bs.subrange(0, i + 1);
        assert(sub.drop_last() =~= bs.subrange(0, i as int));
        assert(sub.last() == bs[i as int]);
        assert(bs[i as int] == model(bindings@[i as int]));
        assert(cs[i as int] == texts(conflicts@[i as int]@));
        let a = &bindings[i];
        let display = chars_of(a.to_display().as_str());
        let ghost before = checks_view(r@);
        if contains_accel(live, a) {
            let mut d = display.clone();
            push_str(&mut d, " is registered");
            push_check(&mut r, check(Verdict::Pass, "binding", d));
        } else {
            let mut d = display.clone();
            push_str(&mut d, " is configured but not registered — run `ratclick shortcut apply`");
            push_check(&mut r, check(Verdict::Fail, "binding", d));
        }
        if conflicts[i].len() > 0 {
            let mut d = display.clone();
            push_str(&mut d, " is also bound to ");
            push_all(&mut d, &joined(&conflicts[i], "; "));
            push_check(&mut r, check(Verdict::Note, "conflict", d));
        }
        assert(checks_view(r@) =~= before + accel_lines(bs[i as int], lv, cs[i as int]));
        i = i + 1;
    }
    assert(bs.subrange(0, bs.len() as int) =~= bs);
    r
}

// ---------------------------------------------------------------------------
// The verdict
// ---------------------------------------------------------------------------

pub open spec fn failures_spec(v: Seq<(Verdict, Seq<char>, Seq<char>)>) -> nat
    decreases v.len(),
{
    if v.len() == 0 {
        0
    } else {
        failures_spec(v.drop_last()) + if v.last().0 == Verdict::Fail {
            1nat
        } else {
            0nat
        }
    }
}

/// How many of the checks found a problem.
pub fn failures(checks: &[Check]) -> (n: usize)
    ensures
        n == failures_spec(checks_view(checks@)),
{
    let ghost cv = checks_view(checks@);
    let mut n: usize = 0;
    let mut i: usize = 0;
    assert(cv.subrange(0, 0) =~= Seq::<(Verdict, Seq<char>, Seq<char>)>::empty());
    while i < checks.len()
        invariant
            i <= checks.len(),
            cv == checks_view(checks@),
            n == failures_spec(cv.subrange(0, i as int)),
            n <= i,
        decreases checks.len() - i,
    {
        assert(cv.subrange(0, i + 1).drop_last() =~= cv.subrange(0, i as int));
        assert(cv[i as int] == check_view(checks@[i as int]));
        if checks[i].verdict == Verdict::Fail {
            n = n + 1;
        }
        i = i + 1;
    }
    assert(cv.subrange(0, cv.len() as int) =~= cv);
    n
}

/// The closing line.
pub fn closing_line(problems: usize) -> (s: String)
    ensures
        problems == 0 ==> s@ == "No problems found."@,
        problems > 0 ==> s@ == dec(problems as u64) + " problem(s) found."@,
{
    if problems == 0 {
        return string_of(&chars_of("No problems found."));
    }
    let mut out: Vec<char> = Vec::new();
    push_dec(&mut out, problems as u64);
    push_str(&mut out, " problem(s) found.");
    string_of(&out)
}


// ---------------------------------------------------------------------------
// The window's installation check
// ---------------------------------------------------------------------------

/// A row of the window's installation check: its title, whether the check
/// passed, and the detail under it.
pub open spec fn row_view(r: (String, bool, String)) -> (Seq<char>, bool, Seq<char>) {
    (r.0@, r.1, r.2@)
}

pub open spec fn row_views(v: Seq<(String, bool, String)>) -> Seq<(Seq<char>, bool, Seq<char>)> {
    v.map_values(|r: (String, bool, String)| row_view(r))
}

/// The backend rows, leaving out "none", the one in use marked.
pub open spec fn backend_rows(ss: Seq<BackendStatus>, configured: ShortcutBackend) -> Seq<
    (Seq<char>, bool, Seq<char>),
>
    decreases ss.len(),
{
    if ss.len() == 0 {
        Seq::empty()
    } else {
        let r = backend_rows(ss.drop_last(), configured);
        let s = ss.last();
        if s.backend == ShortcutBackend::Off {
            r
        } else {
            r.push(
                (
                    if s.backend == configured {
                        backend_name(s.backend) + " (in use)"@
                    } else {
                        backend_name(s.backend)
                    },
                    s.available,
                    s.detail@,
                ),
            )
        }
    }
}

/// One row per configured accelerator: registered when the backend reads it back.
pub open spec fn binding_rows(bs: Seq<(u8, Seq<char>)>, live: Seq<(u8, Seq<char>)>) -> Seq<
    (Seq<char>, bool, Seq<char>),
> {
    bs.map_values(
        |a: (u8, Seq<char>)|
            (
                to_display_spec(a.0, a.1),
                live.contains(a),
                if live.contains(a) {
                    "Registered"@
                } else {
                    "Configured but not registered"@
                },
            ),
    )
}

/// The rows the window's installation check shows, in order: the input
/// device, each backend but "none", then the shortcut.
pub open spec fn doctor_rows_spec(
    uinput_ok: bool,
    statuses: Seq<BackendStatus>,
    configured: ShortcutBackend,
    bindings: Seq<(u8, Seq<char>)>,
    live: Seq<(u8, Seq<char>)>,
) -> Seq<(Seq<char>, bool, Seq<char>)> {
    seq![
        (
            "/dev/uinput"@,
            uinput_ok,
            if uinput_ok {
                "Writable — RatClick can create its virtual mouse"@
            } else {
                "Not writable. Run `sudo usermod -aG input $USER`, then log out and back in."@
            },
        ),
    ] + backend_rows(statuses, configured) + if bindings.len() == 0 {
        seq![("Binding"@, false, "No shortcut configured"@)]
    } else {
        binding_rows(bindings, live)
    }
}

fn push_row(rows: &mut Vec<(String, bool, String)>, title: Vec<char>, ok: bool, detail: Vec<char>)
    ensures
        row_views(final(rows)@) == row_views(old(rows)@).push((title@, ok, detail@)),
{
    let ghost before = row_views(rows@);
    rows.push((string_of(&title), ok, string_of(&detail)));
    assert(row_views(rows@) =~= before.push((title@, ok, detail@)));
}

/// The rows of the window's installation check, from whether `/dev/uinput`
/// could be opened for writing, the backends' statuses, the configured
/// backend and accelerators, and what that backend reads back.
pub fn doctor_rows(
    uinput_ok: bool,
    statuses: &[BackendStatus],
    configured: ShortcutBackend,
    bindings: &[Accel],
    live: &[Accel],
) -> (r: Vec<(String, bool, String)>)
    ensures
        row_views(r@) == doctor_rows_spec(
            uinput_ok,
            statuses@,
            configured,
            binding_models(bindings@),
            binding_models(live@),
        ),
{
    let mut r: Vec<(String, bool, String)> = Vec::new();
    if uinput_ok {
        push_row(
            &mut r,
            chars_of("/dev/uinput"),
            true,
            chars_of("Writable — RatClick can create its virtual mouse"),
        );
    } else {
        push_row(
            &mut r,
            chars_of("/dev/uinput"),
            false,
            chars_of("Not writable. Run `sudo usermod -aG input $USER`, then log out and back in."),
        );
    }
    let ghost head = row_views(r@);
    let mut i: usize = 0;
    assert(statuses@.subrange(0, 0) =~= Seq::<BackendStatus>::empty());
    assert(head + backend_rows(Seq::<BackendStatus>::empty(), configured) =~= head);
    while i < statuses.len()
        invariant
            i <= statuses.len(),
            row_views(r@) == head + backend_rows(statuses@.subrange(0, i as int), configured),
        decreases statuses.len() - i,
    {
        assert(statuses@.subrange(0, i + 1).drop_last() =~= statuses@.subrange(0, i as int));
        let s = &statuses[i];
        if s.backend != ShortcutBackend::Off {
            let mut label: Vec<char> = Vec::new();
            push_str(&mut label, s.backend.as_str());
            if s.backend == configured {
                push_str(&mut label, " (in use)");
            }
            push_row(&mut r, label, s.available, chars_of(s.detail.as_str()));
        }
        assert(row_views(r@) =~= head + backend_rows(statuses@.subrange(0, i + 1), configured));
        i = i + 1;
    }
    assert(statuses@.subrange(0, statuses@.len() as int) =~= statuses@);
    let ghost mid = row_views(r@);
    if bindings.len() == 0 {
        push_row(&mut r, chars_of("Binding"), false, chars_of("No shortcut configured"));
        return r;
    }
    let ghost bs = binding_models(bindings@);
    let ghost lv = binding_models(live@);
    let mut k: usize = 0;
    assert(mid + binding_rows(bs.subrange(0, 0), lv) =~= mid);
    while k < bindings.len()
        invariant
            k <= bindings.len(),
            bs == binding_models(bindings@),
            lv == binding_models(live@),
            row_views(r@) == mid + binding_rows(bs.subrange(0, k as int), lv),
        decreases bindings.len() - k,
    {
        assert(bs[k as int] == model(bindings@[k as int]));
        let a = &bindings[k];
        let ok = contains_accel(live, a);
        let detail = if ok {
            chars_of("Registered")
        } else {
            chars_of("Configured but not registered")
        };
        push_row(&mut r, chars_of(a.to_display().as_str()), ok, detail);
        assert(binding_rows(bs.subrange(0, k + 1), lv) =~= binding_rows(bs.subrange(0, k as int), lv).push(
            (to_display_spec(bs[k as int].0, bs[k as int].1), lv.contains(bs[k as int]), if lv.contains(bs[k as int]) {
                "Registered"@
            } else {
                "Configured but not registered"@
            }),
        ));
        assert(row_views(r@) =~= mid + binding_rows(bs.subrange(0, k + 1), lv));
        k = k + 1;
    }
    assert(bs.subrange(0, bs.len() as int) =~= bs);
    r
}

} // verus!
