//! What the first-run window decides: how it names the backends on offer,
//! which shortcut it stores, and what it says when setup is done.
use vstd::prelude::*;
use crate::accel::{model, to_display_spec, Accel};
use crate::config::{binding_models, button_name, ClickMode, Config, ShortcutBackend};
use crate::shortcut::BackendStatus;
use crate::text::{chars_of, dec, dec2, push_all, push_dec, push_dec2, push_str, string_of};

verus! {

/// Shown when a backend took the shortcut but does not read it back.
pub const NOT_REGISTERED: &'static str =
    "The shortcut was written but did not register. Run `ratclick doctor` in a terminal for details.";

/// How the window names a backend.
pub open spec fn backend_label_spec(b: ShortcutBackend) -> Seq<char> {
    match b {
        ShortcutBackend::Gnome => "GNOME keyboard shortcut"@,
        ShortcutBackend::Extension => "GNOME Shell extension"@,
        ShortcutBackend::Keyd => "keyd (system-wide)"@,
        ShortcutBackend::Off => "No shortcut"@,
    }
}

pub fn backend_label(b: ShortcutBackend) -> (s: &'static str)
    ensures
        s@ == backend_label_spec(b),
{
    match b {
        ShortcutBackend::Gnome => "GNOME keyboard shortcut",
        ShortcutBackend::Extension => "GNOME Shell extension",
        ShortcutBackend::Keyd => "keyd (system-wide)",
        ShortcutBackend::Off => "No shortcut",
    }
}

/// A backend as offered in the list: its name, marked when it cannot be used here.
pub fn choice_label(status: &BackendStatus) -> (s: String)
    ensures
        status.available ==> s@ == backend_label_spec(status.backend),
        !status.available ==> s@ == backend_label_spec(status.backend) + " — unavailable"@,
{
    let mut out: Vec<char> = Vec::new();
    push_str(&mut out, backend_label(status.backend));
    if !status.available {
        push_str(&mut out, " — unavailable");
    }
    string_of(&out)
}

/// The shortcut setup stores: the chosen key with the chosen backend; no
/// backend, or no key, means no shortcut at all.
pub fn wizard_shortcut(cfg: &mut Config, backend: ShortcutBackend, chosen: Option<&Accel>)
    ensures
        (backend == ShortcutBackend::Off || chosen is None) ==> final(cfg).shortcut.backend
            == ShortcutBackend::Off && final(cfg).shortcut.bindings@.len() == 0,
        (backend != ShortcutBackend::Off && chosen is Some) ==> final(cfg).shortcut.backend
            == backend && binding_models(final(cfg).shortcut.bindings@) == seq![
            model(*chosen->0),
        ],
        final(cfg).click == old(cfg).click,
        final(cfg).version == old(cfg).version,
        final(cfg).setup_complete == old(cfg).setup_complete,
        final(cfg).start_clicking_on_launch == old(cfg).start_clicking_on_launch,
{
    match chosen {
        Some(a) => {
            if backend == ShortcutBackend::Off {
                cfg.shortcut.backend = ShortcutBackend::Off;
                cfg.shortcut.bindings = Vec::new();
            } else {
                let mut v: Vec<Accel> = Vec::new();
                v.push(a.clone());
                assert(binding_models(v@) =~= seq![model(*a)]);
                cfg.shortcut.backend = backend;
                cfg.shortcut.bindings = v;
            }
        },
        None => {
            cfg.shortcut.backend = ShortcutBackend::Off;
            cfg.shortcut.bindings = Vec::new();
        },
    }
}

/// How long each run lasts, in the closing summary.
pub open spec fn run_for_spec(mode: ClickMode, minutes: u32) -> Seq<char> {
    match mode {
        ClickMode::Endless => "until you stop it"@,
        ClickMode::Timed => "for "@ + dec((minutes / 60) as u64) + "h "@ + dec2((minutes % 60) as u64)
            + "m"@,
    }
}

/// How to start and stop, in the closing summary.
pub open spec fn shortcut_line_spec(bindings: Seq<Accel>) -> Seq<char> {
    if bindings.len() > 0 {
        "Press "@ + to_display_spec(bindings[0].mods.bits(), bindings[0].key@)
            + " to start and stop."@
    } else {
        "No shortcut — use the window or `ratclick toggle`."@
    }
}

/// The summary the last page of setup shows.
pub open spec fn finish_summary_spec(cfg: Config) -> Seq<char> {
    dec(cfg.click.cpm as u64) + " clicks a minute with the "@ + button_name(cfg.click.button)
        + " button, running "@ + run_for_spec(cfg.click.mode, cfg.click.duration_minutes) + ".\n"@
        + shortcut_line_spec(cfg.shortcut.bindings@)
}

pub fn finish_summary(cfg: &Config) -> (s: String)
    ensures
        s@ == finish_summary_spec(*cfg),
{
    let mut out: Vec<char> = Vec::new();
    push_dec(&mut out, cfg.click.cpm as u64);
    push_str(&mut out, " clicks a minute with the ");
    push_str(&mut out, cfg.click.button.as_str());
    push_str(&mut out, " button, running ");
    match cfg.click.mode {
        ClickMode::Endless => push_str(&mut out, "until you stop it"),
        ClickMode::Timed => {
            let (h, m) = cfg.click.duration_hm();
            push_str(&mut out, "for ");
            push_dec(&mut out, h as u64);
            push_str(&mut out, "h ");
            push_dec2(&mut out, m as u64);
            push_str(&mut out, "m");
        },
    }
    push_str(&mut out, ".\n");
    if cfg.shortcut.bindings.len() > 0 {
        push_str(&mut out, "Press ");
        push_all(&mut out, &chars_of(cfg.shortcut.bindings[0].to_display().as_str()));
        push_str(&mut out, " to start and stop.");
    } else {
        push_str(&mut out, "No shortcut — use the window or `ratclick toggle`.");
    }
    string_of(&out)
}

/// What setup says when installing the shortcut failed with `error`: keyd
/// needs an administrator, anything else is reported as it came.
pub fn register_problem(backend: ShortcutBackend, error: &str) -> (s: String)
    ensures
        backend == ShortcutBackend::Keyd ==> s@
            == "keyd needs administrator rights: run `sudo ratclick shortcut apply` in a terminal. ("@
            + error@ + ")"@,
        backend != ShortcutBackend::Keyd ==> s@ == "Could not register the shortcut: "@ + error@,
{
    let mut out: Vec<char> = Vec::new();
    if backend == ShortcutBackend::Keyd {
        push_str(
            &mut out,
            "keyd needs administrator rights: run `sudo ratclick shortcut apply` in a terminal. (",
        );
        push_str(&mut out, error);
        push_str(&mut out, ")");
    } else {
        push_str(&mut out, "Could not register the shortcut: ");
        push_str(&mut out, error);
    }
    string_of(&out)
}

} // verus!
