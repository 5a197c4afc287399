use ratclick::accel::Accel;
use ratclick::shortcut::gnome::{
    by_accel, conflicts_for, custom_paths, custom_paths_checked, custom_schema_for, install,
    installed, is_available, our_paths, read_custom, reset_custom, scan, steal, steal_value,
    uninstall, without_path, Binding, Custom, GnomeError, Owner, CUSTOM_PATH_ROOT,
    MEDIA_KEYS_SCHEMA,
};

fn accel(s: &str) -> Accel {
    Accel::parse(s).unwrap()
}

#[test]
fn our_paths_are_recognised_as_ours() {
    let ours = Owner::Custom {
        path: format!("{CUSTOM_PATH_ROOT}/ratclick0/"),
        name: String::new(),
        command: String::new(),
    };
    assert!(ours.is_ours());

    let theirs = Owner::Custom {
        path: format!("{CUSTOM_PATH_ROOT}/custom0/"),
        name: "Terminal".into(),
        command: "gnome-terminal".into(),
    };
    assert!(!theirs.is_ours());
}

#[test]
fn setting_owners_describe_their_area() {
    let o = Owner::Setting {
        schema: "org.gnome.desktop.wm.keybindings".into(),
        key: "toggle-maximized".into(),
    };
    assert_eq!(o.describe(), "Window management: toggle maximized");
}

#[test]
fn custom_owners_name_themselves() {
    let o = Owner::Custom {
        path: "/x/".into(),
        name: "Screenshot".into(),
        command: "flameshot".into(),
    };
    assert!(o.describe().contains("Screenshot"));
    assert!(o.describe().contains("flameshot"));
}

#[test]
fn unnamed_custom_shortcuts_show_their_command() {
    let o = Owner::Custom {
        path: "/x/".into(),
        name: String::new(),
        command: "flameshot gui".into(),
    };
    assert_eq!(o.describe(), "Custom shortcut: flameshot gui");
    let o = Owner::Setting {
        schema: "org.example".into(),
        key: "k".into(),
    };
    assert_eq!(o.describe(), "GNOME: k");
    assert!(!o.is_ours());
}

fn sample_scan() -> Vec<Binding> {
    let wm = "org.gnome.desktop.wm.keybindings close ['<Super>q', '<Alt>F4']\n\
              org.gnome.desktop.wm.keybindings minimize ['disabled']\n\
              org.gnome.desktop.wm.keybindings active ['<Super>c']\n\
              org.gnome.desktop.wm.keybindings broken\n"
        .to_string();
    let shell = "org.gnome.shell.keybindings screenshot ['<Control><Alt>Delete', '']\n".to_string();
    let customs = vec![
        read_custom(
            &format!("{CUSTOM_PATH_ROOT}/custom0/"),
            Some("'Terminal'"),
            Some("'gnome-terminal'"),
            Some("'<Super>q'"),
        ),
        read_custom(
            &format!("{CUSTOM_PATH_ROOT}/ratclick0/"),
            Some("'RatClick: toggle clicking'"),
            Some("'ratclick toggle'"),
            Some("'<Super><Shift>c'"),
        ),
    ];
    scan(&[wm, shell], &customs)
}

#[test]
fn scans_settings_and_custom_shortcuts() {
    let found = sample_scan();
    let accels: Vec<String> = found.iter().map(|b| b.accel.to_gtk()).collect();
    assert_eq!(
        accels,
        vec![
            "<Super>q",
            "<Alt>F4",
            "<Control><Alt>Delete",
            "<Super>q",
            "<Shift><Super>c"
        ]
    );
    assert_eq!(found[2].owner.describe(), "GNOME Shell: screenshot");
    assert_eq!(found[3].owner.describe(), "Custom shortcut “Terminal” (gnome-terminal)");
}

#[test]
fn conflicts_exclude_ratclicks_own() {
    let found = sample_scan();
    let c = conflicts_for(&found, &accel("<Super>q"));
    assert_eq!(c.len(), 2);
    assert!(conflicts_for(&found, &accel("<Super><Shift>c")).is_empty());
}

#[test]
fn stealing_keeps_the_other_accelerators() {
    let v = steal_value("['<Super>q', '<Alt>F4']", &accel("<Super>q"));
    assert_eq!(v, "['<Alt>F4']");
    assert_eq!(steal_value("['<Super>q']", &accel("<Super>q")), "@as []");
    let w = without_path(Some("['/a/', '/b/']"), "/a/");
    assert_eq!(w.schema, MEDIA_KEYS_SCHEMA);
    assert_eq!(w.key, "custom-keybindings");
    assert_eq!(w.value, "['/b/']");
    assert_eq!(without_path(None, "/a/").value, "@as []");
}

#[test]
fn install_writes_one_entry_per_accelerator() {
    let plan = install(
        Some("['/x/']"),
        &[accel("<Super>F9"), accel("<Super>F10")],
        "ratclick toggle",
    )
    .unwrap();
    assert_eq!(plan.len(), 7);
    let schema0 = custom_schema_for(&format!("{CUSTOM_PATH_ROOT}/ratclick0/"));
    assert_eq!(plan[0].schema, schema0);
    assert_eq!(plan[0].key, "name");
    assert_eq!(plan[0].value, "'RatClick: toggle clicking (1)'");
    assert_eq!(plan[1].value, "'ratclick toggle'");
    assert_eq!(plan[2].key, "binding");
    assert_eq!(plan[2].value, "'<Super>F9'");
    assert_eq!(plan[3].value, "'RatClick: toggle clicking (2)'");
    let list = &plan[6];
    assert_eq!(list.key, "custom-keybindings");
    assert_eq!(
        list.value,
        format!("['/x/', '{CUSTOM_PATH_ROOT}/ratclick0/', '{CUSTOM_PATH_ROOT}/ratclick1/']")
    );
    let one = install(Some("@as []"), &[accel("<Super>F9")], "cmd").unwrap();
    assert_eq!(one[0].value, "'RatClick: toggle clicking'");
}

#[test]
fn install_refuses_when_the_list_cannot_be_read() {
    assert_eq!(
        install(None, &[accel("<Super>F9")], "cmd").unwrap_err(),
        GnomeError::Unreadable
    );
    assert!(install(None, &[], "cmd").unwrap().is_empty());
    assert!(GnomeError::Unreadable.message().contains("refusing"));
}

#[test]
fn uninstall_keeps_other_shortcuts() {
    let list = format!("['/x/', '{CUSTOM_PATH_ROOT}/ratclick0/']");
    let (w, ours) = uninstall(Some(&list)).unwrap().unwrap();
    assert_eq!(w.value, "['/x/']");
    assert_eq!(ours, vec![format!("{CUSTOM_PATH_ROOT}/ratclick0/")]);
    assert!(uninstall(Some("['/x/']")).unwrap().is_none());
    assert!(uninstall(None).is_err());
    let resets = reset_custom("/p/");
    assert_eq!(resets.len(), 3);
    assert_eq!(resets[0].1, "binding");
    assert!(resets[2].0.ends_with(":/p/"));
}

#[test]
fn installed_reads_back_in_path_order() {
    let paths = our_paths(Some("['/ratclick1/', '/x/', '/ratclick0/']"));
    assert_eq!(paths, vec!["/ratclick0/", "/ratclick1/"]);
    let customs: Vec<Custom> = vec![
        read_custom("/ratclick0/", None, None, Some("'<Super>F9'")),
        read_custom("/ratclick1/", None, None, Some("'garbage!'")),
    ];
    assert_eq!(installed(&customs), vec![accel("<Super>F9")]);
    assert!(custom_paths(None).is_empty());
    assert_eq!(custom_paths_checked(Some("['/a/']")), Some(vec!["/a/".to_string()]));
    assert_eq!(custom_paths_checked(None), None);
}

#[test]
fn grouping_orders_by_accelerator() {
    let found = sample_scan();
    let groups = by_accel(&found);
    let keys: Vec<String> = groups.iter().map(|g| g.0.to_gtk()).collect();
    assert_eq!(keys, vec!["<Alt>F4", "<Control><Alt>Delete", "<Super>q", "<Shift><Super>c"]);
    assert_eq!(groups[2].1.len(), 2);
}

#[test]
fn availability_needs_gsettings_and_the_schema() {
    assert!(is_available(true, true));
    assert!(!is_available(true, false));
    assert!(!is_available(false, true));
}

#[test]
fn stealing_edits_a_setting_and_drops_a_custom_shortcut() {
    let a = accel("<Super>q");
    let setting = Binding {
        accel: a.clone(),
        owner: Owner::Setting {
            schema: "org.gnome.desktop.wm.keybindings".into(),
            key: "close".into(),
        },
    };
    let (w, reset, taken) = steal(&setting, Some("['<Super>q', '<Alt>F4']"), &a);
    assert_eq!(w.schema, "org.gnome.desktop.wm.keybindings");
    assert_eq!(w.key, "close");
    assert_eq!(w.value, "['<Alt>F4']");
    assert_eq!(reset, None);
    assert_eq!(taken, "Window management: close");

    let custom = Binding {
        accel: a.clone(),
        owner: Owner::Custom {
            path: format!("{CUSTOM_PATH_ROOT}/custom1/"),
            name: "Terminal".into(),
            command: "gnome-terminal".into(),
        },
    };
    let list = format!("['{CUSTOM_PATH_ROOT}/custom0/', '{CUSTOM_PATH_ROOT}/custom1/']");
    let (w, reset, taken) = steal(&custom, Some(&list), &a);
    assert_eq!(w.schema, MEDIA_KEYS_SCHEMA);
    assert_eq!(w.key, "custom-keybindings");
    assert_eq!(w.value, format!("['{CUSTOM_PATH_ROOT}/custom0/']"));
    assert_eq!(reset, Some(format!("{CUSTOM_PATH_ROOT}/custom1/")));
    assert_eq!(taken, "Custom shortcut “Terminal” (gnome-terminal)");
}

#[test]
fn installing_again_never_piles_up_entries() {
    let keys = [accel("<Super>F9"), accel("<Super>F10")];
    let start = format!(
        "['/x/', '{CUSTOM_PATH_ROOT}/ratclick3/', '{CUSTOM_PATH_ROOT}/ratclick0/', '/y/']"
    );
    let install_after_uninstall = |list: &str| -> String {
        let read_back = match uninstall(Some(list)).unwrap() {
            Some((w, _)) => w.value,
            None => list.to_string(),
        };
        install(Some(&read_back), &keys, "cmd").unwrap().last().unwrap().value.clone()
    };
    let once = install_after_uninstall(&start);
    assert_eq!(
        once,
        format!("['/x/', '/y/', '{CUSTOM_PATH_ROOT}/ratclick0/', '{CUSTOM_PATH_ROOT}/ratclick1/']")
    );
    assert_eq!(install_after_uninstall(&once), once);
}

#[test]
fn what_install_writes_reads_back() {
    let a = accel("<Control><Alt>minus");
    let plan = install(Some("@as []"), &[a.clone()], "ratclick toggle").unwrap();
    let path = format!("{CUSTOM_PATH_ROOT}/ratclick0/");
    let c = read_custom(
        &path,
        Some(&plan[0].value),
        Some(&plan[1].value),
        Some(&plan[2].value),
    );
    assert_eq!(c.name, "RatClick: toggle clicking");
    assert_eq!(c.command, "ratclick toggle");
    assert_eq!(installed(&[c]), vec![a]);
}
