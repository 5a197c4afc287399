use ratclick::accel::Accel;
use ratclick::config::ShortcutBackend;
use ratclick::shortcut::extension::{self, ExtensionError};
use ratclick::shortcut::keyd::{self, Availability};
use ratclick::shortcut::{
    backend_statuses, conflicts, force_take, gnome, gsettings_bin, install_check, is_available,
    note_keyd_clear, removal_targets, reset_note, stale_backends, updated_note, ApplyReport, Conflict,
    KEYD_DISPATCH, TOGGLE_COMMAND,
};

#[test]
fn every_backend_is_probed() {
    let ext = extension::availability(false, None);
    let statuses = backend_statuses(false, &ext, &Availability::NotInstalled);
    assert_eq!(statuses.len(), 4);
    let none = statuses
        .iter()
        .find(|s| s.backend == ShortcutBackend::Off)
        .unwrap();
    assert!(none.available);
}

#[test]
fn conflicts_describe_themselves() {
    let c = Conflict::Gnome(gnome::Binding {
        accel: Accel::parse("<Super>c").unwrap(),
        owner: gnome::Owner::Setting {
            schema: "org.gnome.desktop.wm.keybindings".into(),
            key: "close".into(),
        },
    });
    assert_eq!(c.accel(), &Accel::parse("<Super>c").unwrap());
    assert!(c.describe().contains("Window management"));
}

#[test]
fn statuses_explain_each_backend() {
    let ext = extension::availability(true, Some(true));
    let keyd_av = Availability::Ready { version: "2.5.0".into() };
    let s = backend_statuses(true, &ext, &keyd_av);
    assert_eq!(s[0].backend, ShortcutBackend::Gnome);
    assert!(s[0].available);
    assert_eq!(s[0].detail, "GNOME custom keybinding — no privileges needed");
    assert!(s[1].available);
    assert_eq!(s[2].detail, "keyd 2.5.0 is running");
}

#[test]
fn keyd_conflicts_count_whatever_the_backend() {
    let keyd_found = keyd::parse_config("[meta]\nc = noop\n", "/etc/keyd/a.conf");
    let a = Accel::parse("<Super>c").unwrap();
    let gnome_found = vec![gnome::Binding {
        accel: a.clone(),
        owner: gnome::Owner::Setting {
            schema: "org.gnome.desktop.wm.keybindings".into(),
            key: "close".into(),
        },
    }];
    assert_eq!(conflicts(true, &gnome_found, &keyd_found, &a).len(), 2);
    let only_keyd = conflicts(false, &gnome_found, &keyd_found, &a);
    assert_eq!(only_keyd.len(), 1);
    assert!(matches!(only_keyd[0], Conflict::Keyd(_)));
    assert!(!is_available(false, &gnome_found, &keyd_found, &a));
    assert!(is_available(true, &gnome_found, &keyd_found, &Accel::parse("F9").unwrap()));
    let (taken, refused) = force_take(vec!["x".into()], &keyd_found, &a);
    assert_eq!(taken, vec!["x".to_string()]);
    assert_eq!(refused, vec!["keyd [meta] in a.conf: M-c → noop".to_string()]);
}

#[test]
fn switching_backends_clears_the_others() {
    assert_eq!(
        stale_backends(ShortcutBackend::Keyd, true, true, true),
        vec![ShortcutBackend::Gnome, ShortcutBackend::Extension]
    );
    assert_eq!(
        stale_backends(ShortcutBackend::Gnome, true, false, true),
        vec![ShortcutBackend::Keyd]
    );
    assert!(stale_backends(ShortcutBackend::Off, false, false, false).is_empty());
    assert_eq!(
        removal_targets(false, true),
        vec![ShortcutBackend::Extension, ShortcutBackend::Keyd]
    );
}

#[test]
fn apply_reports_what_happened() {
    let mut r = ApplyReport::default();
    note_keyd_clear(&mut r, Ok(2));
    note_keyd_clear(&mut r, Ok(0));
    note_keyd_clear(&mut r, Err("needs root".into()));
    assert_eq!(r.cleared, vec![ShortcutBackend::Keyd]);
    assert_eq!(r.notes, vec!["left the old keyd binding in place: needs root".to_string()]);
    assert_eq!(
        updated_note(&["/etc/keyd/a.conf".into(), "/etc/keyd/b.conf".into()]).unwrap(),
        "updated /etc/keyd/a.conf, /etc/keyd/b.conf"
    );
    assert_eq!(updated_note(&[]), None);
    assert!(install_check(ShortcutBackend::Gnome, false, &Availability::NotInstalled).is_err());
    assert_eq!(
        install_check(ShortcutBackend::Keyd, true, &Availability::ServiceStopped).unwrap_err(),
        Availability::ServiceStopped.explain()
    );
    assert!(install_check(ShortcutBackend::Extension, false, &Availability::NotInstalled).is_ok());
}

#[test]
fn commands_and_binaries() {
    assert_eq!(TOGGLE_COMMAND, "ratclick toggle");
    assert!(KEYD_DISPATCH.ends_with("toggle"));
    assert_eq!(gsettings_bin(true), "/usr/bin/gsettings");
    assert_eq!(gsettings_bin(false), "gsettings");
}

#[test]
fn the_extension_backend() {
    let s = extension::availability(true, Some(false));
    assert!(!s.is_available);
    assert!(s.detail.contains("gnome-extensions enable ratclick@dixonsolutions.github.io"));
    assert!(!extension::availability(false, Some(true)).is_available);
    assert_eq!(extension::enabled_state(false, false, ""), None);
    assert_eq!(extension::enabled_state(true, false, ""), Some(false));
    assert_eq!(
        extension::enabled_state(true, true, "Name: RatClick\n  State: ENABLED\n"),
        Some(true)
    );
    assert_eq!(extension::enabled_state(true, true, "State: INACTIVE\n"), Some(false));
    assert_eq!(extension::enabled_state(true, true, "nothing\n"), Some(false));
    let w = extension::install(true, &[Accel::parse("<Super>F9").unwrap()]).unwrap();
    assert_eq!(w.schema, extension::SCHEMA);
    assert_eq!(w.key, extension::KEY);
    assert_eq!(w.value, "['<Super>F9']");
    assert_eq!(extension::install(false, &[]).unwrap_err(), ExtensionError::SchemaMissing);
    assert_eq!(extension::uninstall(true).unwrap().value, "@as []");
    assert!(extension::uninstall(false).is_none());
    assert_eq!(
        extension::installed(true, Some("['<Super>F9', 'junk!']")),
        vec![Accel::parse("<Super>F9").unwrap()]
    );
    assert!(extension::installed(false, Some("['<Super>F9']")).is_empty());
}

#[test]
fn a_reset_names_the_backend_it_cleared_or_why_it_could_not() {
    assert_eq!(
        reset_note(ShortcutBackend::Keyd, None),
        (true, "removed the keyd shortcut".to_string())
    );
    assert_eq!(
        reset_note(ShortcutBackend::Gnome, Some("gsettings failed")),
        (false, "could not remove the gnome shortcut: gsettings failed".to_string())
    );
}

#[test]
fn the_extension_reads_back_what_was_installed() {
    let keys = vec![
        Accel::parse("<Super><Shift>c").unwrap(),
        Accel::parse("<Control><Alt>F9").unwrap(),
        Accel::parse("M-minus").unwrap(),
    ];
    let w = extension::install(true, &keys).unwrap();
    assert_eq!(extension::installed(true, Some(&w.value)), keys);
}
