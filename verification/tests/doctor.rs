use ratclick::accel::Accel;
use ratclick::config::{Button, ClickMode, Config, ShortcutBackend};
use ratclick::doctor::{
    backend_checks, closing_line, config_check, daemon_checks, doctor_rows, failures, in_input_group,
    session_checks, shortcut_checks, uinput_checks, Check, Verdict,
};
use ratclick::shortcut::BackendStatus;

fn lines(v: &[Check]) -> Vec<(Verdict, &str, &str)> {
    v.iter().map(|c| (c.verdict, c.what.as_str(), c.detail.as_str())).collect()
}

#[test]
fn the_input_device_checks_name_the_fix() {
    let v = uinput_checks(false, None, true);
    assert_eq!(
        lines(&v),
        vec![(Verdict::Fail, "/dev/uinput", "missing — load the module with `sudo modprobe uinput`")]
    );
    let v = uinput_checks(true, None, true);
    assert_eq!(
        lines(&v),
        vec![
            (Verdict::Pass, "/dev/uinput", "writable"),
            (Verdict::Pass, "input group", "you are a member"),
        ]
    );
    let v = uinput_checks(true, Some("Permission denied (os error 13)"), false);
    assert_eq!(
        lines(&v),
        vec![
            (
                Verdict::Fail,
                "/dev/uinput",
                "not writable (Permission denied (os error 13)) — add yourself with `sudo usermod -aG input $USER`, then log out and back in"
            ),
            (Verdict::Note, "input group", "not a member — works today only because of a udev ACL"),
        ]
    );
    assert!(in_input_group("alice wheel input audio\n"));
    assert!(!in_input_group("alice wheel inputs"));
    assert!(!in_input_group(""));
}

#[test]
fn the_session_and_service_checks() {
    let v = session_checks(Some("wayland"), None, false);
    assert_eq!(
        lines(&v),
        vec![
            (Verdict::Pass, "session", "wayland / unknown"),
            (Verdict::Fail, "session bus", "DBUS_SESSION_BUS_ADDRESS is not set"),
        ]
    );
    let v = daemon_checks(true, None, false);
    assert_eq!(
        lines(&v),
        vec![
            (Verdict::Pass, "ratclickd", "running (version ?)"),
            (Verdict::Note, "systemd unit", "not installed; the daemon is launched directly"),
        ]
    );
    let v = daemon_checks(false, None, true);
    assert_eq!(
        lines(&v),
        vec![
            (Verdict::Note, "ratclickd", "not running (it starts on demand)"),
            (Verdict::Pass, "systemd unit", "ratclick.service is installed"),
        ]
    );
}

#[test]
fn the_configuration_check() {
    let mut cfg = Config::default();
    let c = config_check(Ok(&cfg));
    assert_eq!((c.verdict, c.detail.as_str()), (Verdict::Note, "no setup yet — run `ratclick setup`"));
    cfg.setup_complete = true;
    cfg.click.cpm = 900;
    cfg.click.button = Button::Middle;
    cfg.click.mode = ClickMode::Timed;
    let c = config_check(Ok(&cfg));
    assert_eq!((c.verdict, c.detail.as_str()), (Verdict::Pass, "900 CPM, middle button, timed"));
    let c = config_check(Err("bad toml"));
    assert_eq!((c.verdict, c.what.as_str(), c.detail.as_str()), (Verdict::Fail, "config", "bad toml"));
}

#[test]
fn an_unusable_backend_is_a_problem_only_when_in_use() {
    let st = |backend, available| BackendStatus { backend, available, detail: "why".to_string() };
    let v = backend_checks(
        &[
            st(ShortcutBackend::Gnome, false),
            st(ShortcutBackend::Extension, false),
            st(ShortcutBackend::Keyd, true),
            st(ShortcutBackend::Off, true),
        ],
        ShortcutBackend::Gnome,
    );
    assert_eq!(
        lines(&v),
        vec![
            (Verdict::Fail, "gnome (in use)", "why"),
            (Verdict::Note, "extension", "why"),
            (Verdict::Pass, "keyd", "why"),
        ]
    );
}

#[test]
fn each_configured_shortcut_is_checked_against_what_registered() {
    let a = Accel::parse("<Super>F9").unwrap();
    let b = Accel::parse("<Control>F8").unwrap();
    let v = shortcut_checks(ShortcutBackend::Off, &[a.clone()], &[], &[]);
    assert_eq!(lines(&v), vec![(Verdict::Note, "binding", "no global shortcut configured")]);
    let v = shortcut_checks(ShortcutBackend::Gnome, &[], &[], &[]);
    assert_eq!(lines(&v), vec![(Verdict::Note, "binding", "backend selected but no key chosen")]);
    let v = shortcut_checks(
        ShortcutBackend::Keyd,
        &[a.clone(), b.clone()],
        &[a.clone()],
        &[vec![], vec!["GNOME Shell: toggle overview".to_string(), "Mutter: x".to_string()]],
    );
    assert_eq!(
        lines(&v),
        vec![
            (Verdict::Pass, "binding", "Super+F9 is registered"),
            (
                Verdict::Fail,
                "binding",
                "Ctrl+F8 is configured but not registered — run `ratclick shortcut apply`"
            ),
            (Verdict::Note, "conflict", "Ctrl+F8 is also bound to GNOME Shell: toggle overview; Mutter: x"),
        ]
    );
    assert_eq!(failures(&v), 1);
    assert_eq!(closing_line(failures(&v)), "1 problem(s) found.");
    assert_eq!(closing_line(0), "No problems found.");
}

#[test]
fn the_window_check_lists_device_backends_and_shortcuts() {
    let st = |backend, available| BackendStatus { backend, available, detail: "why".to_string() };
    let statuses = [
        st(ShortcutBackend::Gnome, true),
        st(ShortcutBackend::Keyd, false),
        st(ShortcutBackend::Off, true),
    ];
    let a = Accel::parse("<Super>F9").unwrap();
    let b = Accel::parse("<Control>F8").unwrap();
    let rows = doctor_rows(true, &statuses, ShortcutBackend::Gnome, &[a.clone(), b.clone()], &[a.clone()]);
    let want: Vec<(String, bool, String)> = vec![
        ("/dev/uinput".into(), true, "Writable — RatClick can create its virtual mouse".into()),
        ("gnome (in use)".into(), true, "why".into()),
        ("keyd".into(), false, "why".into()),
        ("Super+F9".into(), true, "Registered".into()),
        ("Ctrl+F8".into(), false, "Configured but not registered".into()),
    ];
    assert_eq!(rows, want);
    let rows = doctor_rows(false, &[], ShortcutBackend::Off, &[], &[]);
    assert_eq!(
        rows,
        vec![
            (
                "/dev/uinput".to_string(),
                false,
                "Not writable. Run `sudo usermod -aG input $USER`, then log out and back in.".to_string()
            ),
            ("Binding".to_string(), false, "No shortcut configured".to_string()),
        ]
    );
}
