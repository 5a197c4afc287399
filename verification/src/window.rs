//! What the settings window decides: how it shows the service and the
//! shortcut, how many settings are unsaved, what a captured key press makes,
//! and what it says after installing a shortcut or resetting.
use vstd::prelude::*;
use crate::accel::{
    model, parse_spec, to_display_spec, to_gtk_spec, validate_ok, Accel, AccelErr, AccelError,
    Modifiers, ALT_BIT, CONTROL_BIT, SHIFT_BIT, SUPER_BIT,
};
use crate::bridge::Snapshot;
use crate::config::{binding_models, Config, ShortcutBackend};
use crate::ipc::{format_remaining, format_remaining_spec};
use crate::text::{chars_of, dec, join, push_all, push_dec, push_str, same, string_of};

verus! {

/// The settings that differ between what is on disk and what is being edited.
pub open spec fn changed_spec(saved: Config, cur: Config) -> int {
    (if cur.click.cpm != saved.click.cpm { 1int } else { 0int }) + (if cur.click.button
        != saved.click.button {
        1int
    } else {
        0int
    }) + (if cur.click.mode != saved.click.mode { 1int } else { 0int }) + (if cur.click.duration_minutes
        != saved.click.duration_minutes {
        1int
    } else {
        0int
    }) + (if cur.start_clicking_on_launch != saved.start_clicking_on_launch {
        1int
    } else {
        0int
    }) + (if cur.shortcut.backend != saved.shortcut.backend { 1int } else { 0int }) + (if binding_models(
        cur.shortcut.bindings@,
    ) != binding_models(saved.shortcut.bindings@) {
        1int
    } else {
        0int
    })
}

/// Number of top-level settings that differ between the edited configuration
/// and the saved one.
pub fn changed_field_count(saved: &Config, cur: &Config) -> (n: usize)
    ensures
        n == changed_spec(*saved, *cur),
{
    let mut n: usize = 0;
    if cur.click.cpm != saved.click.cpm {
        n = n + 1;
    }
    if cur.click.button != saved.click.button {
        n = n + 1;
    }
    if cur.click.mode != saved.click.mode {
        n = n + 1;
    }
    if cur.click.duration_minutes != saved.click.duration_minutes {
        n = n + 1;
    }
    if cur.start_clicking_on_launch != saved.start_clicking_on_launch {
        n = n + 1;
    }
    if cur.shortcut.backend != saved.shortcut.backend {
        n = n + 1;
    }
    if !crate::setup::reads_back(&cur.shortcut.bindings, &saved.shortcut.bindings) {
        n = n + 1;
    }
    n
}

/// The label beside the unsaved-changes count.
pub fn unsaved_label(n: usize) -> (s: &'static str)
    ensures
        n == 1 ==> s@ == "unsaved change"@,
        n != 1 ==> s@ == "unsaved changes"@,
{
    if n == 1 {
        "unsaved change"
    } else {
        "unsaved changes"
    }
}

/// GTK modifier tags for `m`, in GTK's order.
pub open spec fn mod_prefix_spec(m: u8) -> Seq<char> {
    (if m & CONTROL_BIT == CONTROL_BIT { "<Control>"@ } else { Seq::empty() }) + (if m & ALT_BIT
        == ALT_BIT {
        "<Alt>"@
    } else {
        Seq::empty()
    }) + (if m & SHIFT_BIT == SHIFT_BIT { "<Shift>"@ } else { Seq::empty() }) + (if m & SUPER_BIT
        == SUPER_BIT {
        "<Super>"@
    } else {
        Seq::empty()
    })
}

pub fn gtk_mod_prefix(mods: Modifiers) -> (s: String)
    ensures
        s@ == mod_prefix_spec(mods.bits()),
{
    let mut out: Vec<char> = Vec::new();
    if mods.contains(Modifiers::control()) {
        push_str(&mut out, "<Control>");
    }
    if mods.contains(Modifiers::alt()) {
        push_str(&mut out, "<Alt>");
    }
    if mods.contains(Modifiers::shift()) {
        push_str(&mut out, "<Shift>");
    }
    if mods.contains(Modifiers::super_key()) {
        push_str(&mut out, "<Super>");
    }
    string_of(&out)
}

/// The modifier bits of a key press, from which of Control, Shift, Alt and
/// Super were held.
pub open spec fn held_bits(control: bool, shift: bool, alt: bool, super_key: bool) -> u8 {
    let a: u8 = if control {
        (0u8 | CONTROL_BIT) as u8
    } else {
        0u8
    };
    let b: u8 = if shift {
        (a | SHIFT_BIT) as u8
    } else {
        a
    };
    let c: u8 = if alt {
        (b | ALT_BIT) as u8
    } else {
        b
    };
    if super_key {
        (c | SUPER_BIT) as u8
    } else {
        c
    }
}

/// The accelerator a captured key press makes: the held modifiers and the
/// key's name (unshifted where it has one), as GTK would write them, when
/// that parses.
pub fn accel_from_key(control: bool, shift: bool, alt: bool, super_key: bool, name: &str) -> (r:
    Option<Accel>)
    ensures
        ({
            let input = mod_prefix_spec(held_bits(control, shift, alt, super_key)) + name@;
            match parse_spec(input) {
                Ok(m) => r matches Some(a) && model(a) == m,
                Err(_) => r is None,
            }
        }),
{
    let mut mods = Modifiers::none();
    if control {
        mods = mods.union(Modifiers::control());
    }
    if shift {
        mods = mods.union(Modifiers::shift());
    }
    if alt {
        mods = mods.union(Modifiers::alt());
    }
    if super_key {
        mods = mods.union(Modifiers::super_key());
    }
    assert(mods.bits() == held_bits(control, shift, alt, super_key));
    let mut text: Vec<char> = chars_of(gtk_mod_prefix(mods).as_str());
    push_all(&mut text, &chars_of(name));
    match Accel::parse(string_of(&text).as_str()) {
        Ok(a) => Some(a),
        Err(_) => None,
    }
}

/// The GDK names of the modifier and lock keys, which never end a capture.
pub open spec fn modifier_key(name: Seq<char>) -> bool {
    name == "Shift_L"@ || name == "Shift_R"@ || name == "Control_L"@ || name == "Control_R"@
        || name == "Alt_L"@ || name == "Alt_R"@ || name == "Meta_L"@ || name == "Meta_R"@ || name
        == "Super_L"@ || name == "Super_R"@ || name == "Hyper_L"@ || name == "Hyper_R"@ || name
        == "ISO_Level3_Shift"@ || name == "Caps_Lock"@ || name == "Num_Lock"@
}

/// Is this key (by its GDK name) a modifier or lock key, which never ends a capture?
pub fn is_modifier(name: &str) -> (b: bool)
    ensures
        b == modifier_key(name@),
{
    let n = chars_of(name);
    same(&n, "Shift_L") || same(&n, "Shift_R") || same(&n, "Control_L") || same(&n, "Control_R")
        || same(&n, "Alt_L") || same(&n, "Alt_R") || same(&n, "Meta_L") || same(&n, "Meta_R")
        || same(&n, "Super_L") || same(&n, "Super_R") || same(&n, "Hyper_L") || same(
        &n,
        "Hyper_R",
    ) || same(&n, "ISO_Level3_Shift") || same(&n, "Caps_Lock") || same(&n, "Num_Lock")
}

/// What a key press does to the shortcut being captured.
#[derive(Debug)]
pub enum Capture {
    /// A modifier on its own: the chord is still being put together.
    Assembling,
    /// Escape with nothing held: the dialog closes.
    Cancel,
    /// Backspace with nothing held: the choice is cleared.
    Clear,
    /// A combination that can be bound.
    Chosen(Accel),
    /// A combination that cannot be bound on its own, and why.
    Refused(Accel, AccelError),
    /// A key RatClick has no name for.
    Unbindable,
}

/// Judge a key press in the capture dialog. `key` is the key's own GDK name,
/// `name` its unshifted name where it has one; `bare` is whether no modifier
/// state at all came with it, and the four flags which modifiers were held.
pub fn capture_key(
    key: &str,
    name: &str,
    bare: bool,
    control: bool,
    shift: bool,
    alt: bool,
    super_key: bool,
) -> (r: Capture)
    ensures
        modifier_key(key@) ==> r is Assembling,
        !modifier_key(key@) && bare && key@ == "Escape"@ ==> r is Cancel,
        !modifier_key(key@) && bare && key@ == "BackSpace"@ ==> r is Clear,
        !modifier_key(key@) && !(bare && (key@ == "Escape"@ || key@ == "BackSpace"@)) ==> ({
            let input = mod_prefix_spec(held_bits(control, shift, alt, super_key)) + name@;
            match parse_spec(input) {
                Ok(m) => if validate_ok(m.0, m.1) {
                    r matches Capture::Chosen(a) && model(a) == m
                } else {
                    r matches Capture::Refused(a, e) && model(a) == m && e@
                        == AccelErr::NeedsModifier(to_gtk_spec(m.0, m.1))
                },
                Err(_) => r is Unbindable,
            }
        }),
{
    if is_modifier(key) {
        return Capture::Assembling;
    }
    proof {
        reveal_strlit("Escape");
        reveal_strlit("BackSpace");
        assert("Escape"@.len() != "BackSpace"@.len());
    }
    let k = chars_of(key);
    if bare && same(&k, "Escape") {
        return Capture::Cancel;
    }
    if bare && same(&k, "BackSpace") {
        return Capture::Clear;
    }
    match accel_from_key(control, shift, alt, super_key, name) {
        Some(a) => match a.validate() {
            Ok(()) => Capture::Chosen(a),
            Err(e) => Capture::Refused(a, e),
        },
        None => Capture::Unbindable,
    }
}

/// What the status area and the service row show.
pub struct StatusView {
    pub title: String,
    pub detail: String,
    /// Label of the start/stop button.
    pub toggle_label: String,
    /// Clicking is under way: the icon is highlighted and the button stops it.
    pub clicking: bool,
    /// Subtitle of the service row.
    pub service_state: String,
    /// Label of the service row's button.
    pub service_label: String,
}

/// The line under the status title.
pub open spec fn status_detail_spec(
    up: bool,
    running: bool,
    cpm: u32,
    mode: Seq<char>,
    remaining: u32,
    clicks: u64,
    first: Option<(u8, Seq<char>)>,
) -> Seq<char> {
    if !up {
        "Press Start Clicking and RatClick will start it for you."@
    } else if running {
        if mode == "timed"@ {
            dec(cpm as u64) + " clicks/min · "@ + format_remaining_spec(remaining) + " left · "@
                + dec(clicks) + " clicks so far"@
        } else {
            dec(cpm as u64) + " clicks/min · endless · "@ + dec(clicks) + " clicks so far"@
        }
    } else {
        match first {
            Some(a) => "Press "@ + to_display_spec(a.0, a.1) + " or use the button below."@,
            None => "Set a shortcut below to toggle from anywhere."@,
        }
    }
}

pub open spec fn first_model(bindings: Seq<Accel>) -> Option<(u8, Seq<char>)> {
    if bindings.len() > 0 {
        Some(model(bindings[0]))
    } else {
        None
    }
}

/// How the window shows a snapshot of the service, given the configured
/// shortcuts (the first is offered as the way to start).
pub fn status_view(snap: &Snapshot, bindings: &[Accel]) -> (v: StatusView)
    ensures
        v.title@ == (if !snap.daemon_up {
            "Service stopped"@
        } else if snap.running {
            "Clicking"@
        } else {
            "Ready"@
        }),
        v.detail@ == status_detail_spec(
            snap.daemon_up,
            snap.running,
            snap.cpm,
            snap.mode@,
            snap.remaining_seconds,
            snap.clicks,
            first_model(bindings@),
        ),
        v.toggle_label@ == (if snap.daemon_up && snap.running {
            "Stop Clicking"@
        } else {
            "Start Clicking"@
        }),
        v.clicking == (snap.daemon_up && snap.running),
        v.service_state@ == (if snap.daemon_up {
            "Running"@
        } else {
            "Not running"@
        }),
        v.service_label@ == (if snap.daemon_up {
            "Stop"@
        } else {
            "Start"@
        }),
{
    if !snap.daemon_up {
        return StatusView {
            title: string_of(&chars_of("Service stopped")),
            detail: string_of(&chars_of("Press Start Clicking and RatClick will start it for you.")),
            toggle_label: string_of(&chars_of("Start Clicking")),
            clicking: false,
            service_state: string_of(&chars_of("Not running")),
            service_label: string_of(&chars_of("Start")),
        };
    }
    let mut detail: Vec<char> = Vec::new();
    if snap.running {
        push_dec(&mut detail, snap.cpm as u64);
        if same(&chars_of(snap.mode.as_str()), "timed") {
            push_str(&mut detail, " clicks/min · ");
            push_all(&mut detail, &chars_of(format_remaining(snap.remaining_seconds).as_str()));
            push_str(&mut detail, " left · ");
        } else {
            push_str(&mut detail, " clicks/min · endless · ");
        }
        push_dec(&mut detail, snap.clicks);
        push_str(&mut detail, " clicks so far");
        StatusView {
            title: string_of(&chars_of("Clicking")),
            detail: string_of(&detail),
            toggle_label: string_of(&chars_of("Stop Clicking")),
            clicking: true,
            service_state: string_of(&chars_of("Running")),
            service_label: string_of(&chars_of("Stop")),
        }
    } else {
        if bindings.len() > 0 {
            push_str(&mut detail, "Press ");
            push_all(&mut detail, &chars_of(bindings[0].to_display().as_str()));
            push_str(&mut detail, " or use the button below.");
        } else {
            push_str(&mut detail, "Set a shortcut below to toggle from anywhere.");
        }
        StatusView {
            title: string_of(&chars_of("Ready")),
            detail: string_of(&detail),
            toggle_label: string_of(&chars_of("Start Clicking")),
            clicking: false,
            service_state: string_of(&chars_of("Running")),
            service_label: string_of(&chars_of("Stop")),
        }
    }
}

/// The labels of some accelerators, for display.
pub open spec fn displays(ms: Seq<(u8, Seq<char>)>) -> Seq<Seq<char>> {
    ms.map_values(|m: (u8, Seq<char>)| to_display_spec(m.0, m.1))
}

/// The shortcut row's subtitle: the configured shortcuts, flagged when what
/// the backend reads back differs from them.
pub open spec fn shortcut_subtitle_spec(bindings: Seq<Accel>, live: Seq<Accel>) -> Seq<char> {
    if bindings.len() == 0 {
        "Not set"@
    } else if binding_models(live) == binding_models(bindings) {
        join(displays(binding_models(bindings)), ", "@)
    } else {
        join(displays(binding_models(bindings)), ", "@) + " — not registered"@
    }
}

pub fn shortcut_subtitle(bindings: &[Accel], live: &[Accel]) -> (s: String)
    ensures
        s@ == shortcut_subtitle_spec(bindings@, live@),
{
    if bindings.len() == 0 {
        return string_of(&chars_of("Not set"));
    }
    let ghost ds = displays(binding_models(bindings@));
    let mut out: Vec<char> = Vec::new();
    let mut i: usize = 0;
    assert(ds.subrange(0, 0) =~= Seq::<Seq<char>>::empty());
    while i < bindings.len()
        invariant
            i <= bindings.len(),
            ds == displays(binding_models(bindings@)),
            out@ == join(ds.subrange(0, i as int), ", "@),
        decreases bindings.len() - i,
    {
        assert(ds.subrange(0, i + 1).drop_last() =~= ds.subrange(0, i as int));
        assert(ds[i as int] == to_display_spec(bindings@[i as int].mods.bits(), bindings@[i as int].key@));
        if i > 0 {
            push_str(&mut out, ", ");
        }
        push_all(&mut out, &chars_of(bindings[i].to_display().as_str()));
        proof {
            if i == 0 {
                assert(ds.subrange(0, 1) =~= seq![ds[0]]);
                assert(join(ds.subrange(0, 0), ", "@) =~= Seq::<char>::empty());
            }
        }
        assert(out@ =~= join(ds.subrange(0, i + 1), ", "@));
        i = i + 1;
    }
    assert(ds.subrange(0, ds.len() as int) =~= ds);
    if !crate::setup::reads_back(live, bindings) {
        push_str(&mut out, " — not registered");
    }
    string_of(&out)
}

/// A run length edited to zero is bumped to one minute, with a note saying so.
pub fn run_for(hours: u32, minutes: u32) -> (r: (u32, u32, Option<&'static str>))
    ensures
        hours == 0 && minutes == 0 ==> r.0 == 0 && r.1 == 1 && (r.2 matches Some(t) && t@
            == "A run has to last at least a minute"@),
        !(hours == 0 && minutes == 0) ==> r == (hours, minutes, None::<&'static str>),
{
    if hours == 0 && minutes == 0 {
        (0, 1, Some("A run has to last at least a minute"))
    } else {
        (hours, minutes, None)
    }
}

/// A shortcut picked in the window replaces the configured ones; with no
/// backend chosen yet it goes to GNOME. Nothing else changes.
pub fn with_shortcut(cfg: &mut Config, accel: &Accel)
    ensures
        final(cfg).shortcut.backend == (if old(cfg).shortcut.backend == ShortcutBackend::Off {
            ShortcutBackend::Gnome
        } else {
            old(cfg).shortcut.backend
        }),
        binding_models(final(cfg).shortcut.bindings@) == seq![model(*accel)],
        final(cfg).click == old(cfg).click,
        final(cfg).version == old(cfg).version,
        final(cfg).setup_complete == old(cfg).setup_complete,
        final(cfg).start_clicking_on_launch == old(cfg).start_clicking_on_launch,
{
    if cfg.shortcut.backend == ShortcutBackend::Off {
        cfg.shortcut.backend = ShortcutBackend::Gnome;
    }
    let mut v: Vec<Accel> = Vec::new();
    v.push(accel.clone());
    assert(binding_models(v@) =~= seq![model(*accel)]);
    cfg.shortcut.bindings = v;
}

/// What the window says once a shortcut was installed: which key now
/// toggles clicking, or that it did not register after all.
pub fn applied_note(bindings: &[Accel], live: &[Accel]) -> (s: String)
    requires
        bindings@.len() > 0,
    ensures
        binding_models(live@) == binding_models(bindings@) ==> s@ == to_display_spec(
            bindings@[0].mods.bits(),
            bindings@[0].key@,
        ) + " will toggle clicking"@,
        binding_models(live@) != binding_models(bindings@) ==> s@
            == "The shortcut did not register — see `ratclick doctor`"@,
{
    if crate::setup::reads_back(live, bindings) {
        let mut out = chars_of(bindings[0].to_display().as_str());
        push_str(&mut out, " will toggle clicking");
        string_of(&out)
    } else {
        string_of(&chars_of("The shortcut did not register — see `ratclick doctor`"))
    }
}

/// The note after a reset that went through.
pub fn reset_done(items: usize) -> (s: String)
    ensures
        s@ == "RatClick has been reset ("@ + dec(items as u64) + " item(s))"@,
{
    let mut out: Vec<char> = Vec::new();
    push_str(&mut out, "RatClick has been reset (");
    push_dec(&mut out, items as u64);
    push_str(&mut out, " item(s))");
    string_of(&out)
}

} // verus!
