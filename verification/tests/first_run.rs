use ratclick::accel::Accel;
use ratclick::config::{Button, ClickMode, Config, ShortcutBackend};
use ratclick::first_run::{
    backend_label, choice_label, finish_summary, register_problem, wizard_shortcut, NOT_REGISTERED,
};
use ratclick::shortcut::BackendStatus;

#[test]
fn backends_on_offer_say_when_they_cannot_be_used() {
    assert_eq!(backend_label(ShortcutBackend::Keyd), "keyd (system-wide)");
    let ok = BackendStatus {
        backend: ShortcutBackend::Gnome,
        available: true,
        detail: String::new(),
    };
    assert_eq!(choice_label(&ok), "GNOME keyboard shortcut");
    let missing = BackendStatus {
        backend: ShortcutBackend::Extension,
        available: false,
        detail: String::new(),
    };
    assert_eq!(choice_label(&missing), "GNOME Shell extension — unavailable");
}

#[test]
fn setup_stores_no_shortcut_without_a_backend_or_a_key() {
    let a = Accel::parse("<Super><Shift>c").unwrap();
    let mut cfg = Config::default();
    wizard_shortcut(&mut cfg, ShortcutBackend::Keyd, Some(&a));
    assert_eq!(cfg.shortcut.backend, ShortcutBackend::Keyd);
    assert_eq!(cfg.shortcut.bindings, vec![a.clone()]);
    wizard_shortcut(&mut cfg, ShortcutBackend::Gnome, None);
    assert_eq!(cfg.shortcut.backend, ShortcutBackend::Off);
    assert!(cfg.shortcut.bindings.is_empty());
    wizard_shortcut(&mut cfg, ShortcutBackend::Off, Some(&a));
    assert_eq!(cfg.shortcut.backend, ShortcutBackend::Off);
    assert!(cfg.shortcut.bindings.is_empty());
}

#[test]
fn the_last_page_sums_up_the_choices() {
    let mut cfg = Config::default();
    cfg.click.cpm = 1200;
    cfg.click.button = Button::Right;
    assert_eq!(
        finish_summary(&cfg),
        "1200 clicks a minute with the right button, running until you stop it.\nNo shortcut — use the window or `ratclick toggle`."
    );
    cfg.click.mode = ClickMode::Timed;
    cfg.click.duration_minutes = 65;
    cfg.shortcut.bindings = vec![Accel::parse("<Control><Alt>F9").unwrap()];
    assert_eq!(
        finish_summary(&cfg),
        "1200 clicks a minute with the right button, running for 1h 05m.\nPress Ctrl+Alt+F9 to start and stop."
    );
}

#[test]
fn a_failed_install_is_explained() {
    assert_eq!(
        register_problem(ShortcutBackend::Keyd, "permission denied"),
        "keyd needs administrator rights: run `sudo ratclick shortcut apply` in a terminal. (permission denied)"
    );
    assert_eq!(
        register_problem(ShortcutBackend::Gnome, "no gsettings"),
        "Could not register the shortcut: no gsettings"
    );
    assert!(NOT_REGISTERED.contains("ratclick doctor"));
}
