use ratclick::accel::{Accel, AccelError, Modifiers};
use ratclick::bridge::Snapshot;
use ratclick::config::{Button, Config, ShortcutBackend};
use ratclick::window::{
    accel_from_key, applied_note, capture_key, changed_field_count, Capture, gtk_mod_prefix, is_modifier, reset_done,
    run_for, shortcut_subtitle, status_view, unsaved_label, with_shortcut,
};

#[test]
fn unsaved_settings_are_counted() {
    let saved = Config::default();
    let mut cur = saved.clone();
    assert_eq!(changed_field_count(&saved, &cur), 0);
    cur.click.cpm = 900;
    cur.click.button = Button::Right;
    cur.shortcut.bindings = vec![Accel::parse("<Super>F9").unwrap()];
    assert_eq!(changed_field_count(&saved, &cur), 3);
    assert_eq!(unsaved_label(1), "unsaved change");
    assert_eq!(unsaved_label(3), "unsaved changes");
}

#[test]
fn captured_keys_become_accelerators() {
    assert_eq!(gtk_mod_prefix(Modifiers::shift() | Modifiers::control()), "<Control><Shift>");
    assert_eq!(
        accel_from_key(false, true, false, true, "c"),
        Some(Accel::parse("<Super><Shift>c").unwrap())
    );
    assert_eq!(accel_from_key(true, false, false, false, "F9"), Some(Accel::parse("<Control>F9").unwrap()));
    assert_eq!(accel_from_key(false, false, false, true, "dead_grave_unknown"), None);
    assert!(is_modifier("Shift_L"));
    assert!(is_modifier("ISO_Level3_Shift"));
    assert!(!is_modifier("a"));
}

fn snap(up: bool, running: bool, mode: &str) -> Snapshot {
    Snapshot {
        daemon_up: up,
        running,
        cpm: 600,
        button: "left".into(),
        mode: mode.into(),
        remaining_seconds: 125,
        clicks: 42,
        error: None,
    }
}

#[test]
fn the_status_area_follows_the_service() {
    let keys = vec![Accel::parse("<Super><Shift>c").unwrap()];
    let v = status_view(&snap(false, false, "endless"), &keys);
    assert_eq!(v.title, "Service stopped");
    assert_eq!(v.detail, "Press Start Clicking and RatClick will start it for you.");
    assert_eq!(v.toggle_label, "Start Clicking");
    assert!(!v.clicking);
    assert_eq!(v.service_state, "Not running");
    assert_eq!(v.service_label, "Start");

    let v = status_view(&snap(true, true, "timed"), &keys);
    assert_eq!(v.title, "Clicking");
    assert_eq!(v.detail, "600 clicks/min · 2m 05s left · 42 clicks so far");
    assert_eq!(v.toggle_label, "Stop Clicking");
    assert!(v.clicking);
    assert_eq!(v.service_state, "Running");
    assert_eq!(v.service_label, "Stop");

    let v = status_view(&snap(true, true, "endless"), &keys);
    assert_eq!(v.detail, "600 clicks/min · endless · 42 clicks so far");

    let v = status_view(&snap(true, false, "endless"), &keys);
    assert_eq!(v.title, "Ready");
    assert_eq!(v.detail, "Press Shift+Super+C or use the button below.");
    let v = status_view(&snap(true, false, "endless"), &[]);
    assert_eq!(v.detail, "Set a shortcut below to toggle from anywhere.");
}

#[test]
fn the_shortcut_row_flags_a_shortcut_that_did_not_register() {
    let keys = vec![Accel::parse("<Super>F9").unwrap(), Accel::parse("<Control>F8").unwrap()];
    assert_eq!(shortcut_subtitle(&[], &[]), "Not set");
    assert_eq!(shortcut_subtitle(&keys, &keys), "Super+F9, Ctrl+F8");
    assert_eq!(shortcut_subtitle(&keys, &keys[..1]), "Super+F9, Ctrl+F8 — not registered");
    assert_eq!(applied_note(&keys, &keys), "Super+F9 will toggle clicking");
    assert_eq!(
        applied_note(&keys, &[]),
        "The shortcut did not register — see `ratclick doctor`"
    );
}

#[test]
fn a_run_never_lasts_zero_minutes() {
    assert_eq!(run_for(0, 0), (0, 1, Some("A run has to last at least a minute")));
    assert_eq!(run_for(1, 0), (1, 0, None));
    assert_eq!(run_for(0, 30), (0, 30, None));
}

#[test]
fn a_picked_shortcut_replaces_the_old_one() {
    let mut cfg = Config::default();
    cfg.shortcut.backend = ShortcutBackend::Off;
    cfg.shortcut.bindings = vec![Accel::parse("<Super>F1").unwrap(), Accel::parse("<Super>F2").unwrap()];
    let a = Accel::parse("<Alt>F9").unwrap();
    with_shortcut(&mut cfg, &a);
    assert_eq!(cfg.shortcut.backend, ShortcutBackend::Gnome);
    assert_eq!(cfg.shortcut.bindings, vec![a.clone()]);
    cfg.shortcut.backend = ShortcutBackend::Keyd;
    with_shortcut(&mut cfg, &a);
    assert_eq!(cfg.shortcut.backend, ShortcutBackend::Keyd);
    assert_eq!(reset_done(3), "RatClick has been reset (3 item(s))");
}

#[test]
fn the_capture_dialog_judges_each_key_press() {
    assert!(matches!(capture_key("Shift_L", "shift_l", false, false, true, false, false), Capture::Assembling));
    assert!(matches!(capture_key("Escape", "escape", true, false, false, false, false), Capture::Cancel));
    assert!(matches!(capture_key("BackSpace", "backspace", true, false, false, false, false), Capture::Clear));
    match capture_key("C", "c", false, false, true, false, true) {
        Capture::Chosen(a) => assert_eq!(a, Accel::parse("<Super><Shift>c").unwrap()),
        other => panic!("unexpected {other:?}"),
    }
    match capture_key("Escape", "escape", false, true, false, false, false) {
        Capture::Chosen(a) => assert_eq!(a, Accel::parse("<Control>Escape").unwrap()),
        other => panic!("unexpected {other:?}"),
    }
    match capture_key("a", "a", true, false, false, false, false) {
        Capture::Refused(a, e) => {
            assert_eq!(a, Accel::parse("a").unwrap());
            assert_eq!(e, AccelError::NeedsModifier("a".to_string()));
        }
        other => panic!("unexpected {other:?}"),
    }
    assert!(matches!(
        capture_key("dead_grave", "dead_grave", false, false, false, false, true),
        Capture::Unbindable
    ));
}
