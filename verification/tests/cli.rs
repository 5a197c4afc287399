use ratclick::cli::{
    taking, Taking,
    list_rows,
    apply_setting, duration_overflows, parse_backend, parse_duration_minutes, parse_u32,
    setting_overflows, DurationError, SettingError,
};
use ratclick::accel::Accel;
use ratclick::config::{Button, ClickMode, Config, ShortcutBackend};
use ratclick::shortcut::gnome::{self, Owner};
use ratclick::shortcut::keyd;

#[test]
fn durations_parse_in_every_spelling() {
    assert_eq!(parse_duration_minutes("90").unwrap(), 90);
    assert_eq!(parse_duration_minutes("1h30m").unwrap(), 90);
    assert_eq!(parse_duration_minutes("1:30").unwrap(), 90);
    assert_eq!(parse_duration_minutes("2h").unwrap(), 120);
    assert_eq!(parse_duration_minutes("45m").unwrap(), 45);
    assert_eq!(parse_duration_minutes("1h 30m").unwrap(), 90);
}

#[test]
fn zero_and_nonsense_durations_are_rejected() {
    assert!(parse_duration_minutes("0").is_err());
    assert!(parse_duration_minutes("0h0m").is_err());
    assert!(parse_duration_minutes("soon").is_err());
    assert!(parse_duration_minutes("").is_err());
}

#[test]
fn setting_duration_switches_to_timed_mode() {
    let mut cfg = Config::default();
    assert_eq!(cfg.click.mode, ClickMode::Endless);
    apply_setting(&mut cfg, "duration", "1h30m").unwrap();
    assert_eq!(cfg.click.mode, ClickMode::Timed);
    assert_eq!(cfg.click.duration_minutes, 90);
}

#[test]
fn cpm_is_range_checked() {
    let mut cfg = Config::default();
    assert!(apply_setting(&mut cfg, "cpm", "0").is_err());
    assert!(apply_setting(&mut cfg, "cpm", "999999").is_err());
    apply_setting(&mut cfg, "cpm", "1200").unwrap();
    assert_eq!(cfg.click.cpm, 1200);
}

#[test]
fn unknown_settings_are_named_in_the_error() {
    let mut cfg = Config::default();
    let e = apply_setting(&mut cfg, "colour", "red").unwrap_err();
    assert!(e.message().contains("colour"));
}

#[test]
fn hours_and_minutes_compose() {
    let mut cfg = Config::default();
    apply_setting(&mut cfg, "hours", "2").unwrap();
    apply_setting(&mut cfg, "minutes", "15").unwrap();
    assert_eq!(cfg.click.duration_minutes, 135);
}

#[test]
fn whole_numbers_read_like_rust_does() {
    assert_eq!(parse_u32(&['4', '2']), Some(42));
    assert_eq!(parse_u32(&['+', '7']), Some(7));
    assert_eq!(parse_u32(&['+']), None);
    assert_eq!(parse_u32(&[]), None);
    assert_eq!(parse_u32(&['-', '1']), None);
    assert_eq!(parse_u32(&[' ', '1']), None);
    let max: Vec<char> = "4294967295".chars().collect();
    assert_eq!(parse_u32(&max), Some(u32::MAX));
    let over: Vec<char> = "4294967296".chars().collect();
    assert_eq!(parse_u32(&over), None);
}

#[test]
fn each_duration_error_has_its_input() {
    assert_eq!(parse_duration_minutes(" 0 ").unwrap_err(), DurationError::TooShort);
    assert_eq!(parse_duration_minutes("x:30").unwrap_err(), DurationError::BadHours);
    assert_eq!(parse_duration_minutes("1:y").unwrap_err(), DurationError::BadMinutes);
    assert_eq!(
        parse_duration_minutes("Soon").unwrap_err(),
        DurationError::Unreadable("soon".into())
    );
    assert_eq!(parse_duration_minutes("90m 2H").unwrap(), 210);
    assert_eq!(parse_duration_minutes("0:45").unwrap(), 45);
    assert_eq!(
        DurationError::Unreadable("soon".into()).message(),
        "cannot read `soon` as a duration — try 90, 1h30m or 1:30"
    );
    assert!(duration_overflows("99999999h"));
    assert!(duration_overflows("99999999:0"));
    assert!(!duration_overflows("4294967296"));
    assert!(!duration_overflows("1h30m"));
}

#[test]
fn every_setting_error_is_reported_and_changes_nothing() {
    let mut cfg = Config::default();
    let before = cfg.clone();
    assert_eq!(apply_setting(&mut cfg, "cpm", "fast").unwrap_err(), SettingError::CpmNotNumber);
    let e = apply_setting(&mut cfg, "CPM", "7000").unwrap_err();
    assert_eq!(e, SettingError::CpmOutOfRange);
    assert_eq!(e.message(), "cpm must be between 1 and 6000");
    assert_eq!(apply_setting(&mut cfg, "button", "thumb").unwrap_err(), SettingError::BadButton);
    assert_eq!(apply_setting(&mut cfg, "mode", "sometimes").unwrap_err(), SettingError::BadMode);
    assert_eq!(
        apply_setting(&mut cfg, "duration", "0").unwrap_err(),
        SettingError::Duration(DurationError::TooShort)
    );
    assert_eq!(apply_setting(&mut cfg, "hours", "x").unwrap_err(), SettingError::HoursNotNumber);
    assert_eq!(apply_setting(&mut cfg, "minutes", "x").unwrap_err(), SettingError::MinutesNotNumber);
    assert_eq!(apply_setting(&mut cfg, "minutes", "60").unwrap_err(), SettingError::MinutesTooLarge);
    assert_eq!(cfg, before);
}

#[test]
fn other_settings_apply() {
    let mut cfg = Config::default();
    apply_setting(&mut cfg, " Button ", "right").unwrap();
    assert_eq!(cfg.click.button, Button::Right);
    apply_setting(&mut cfg, "mode", " T ").unwrap();
    assert_eq!(cfg.click.mode, ClickMode::Timed);
    apply_setting(&mut cfg, "autostart", "Yes").unwrap();
    assert!(cfg.start_clicking_on_launch);
    apply_setting(&mut cfg, "start-on-launch", "nope").unwrap();
    assert!(!cfg.start_clicking_on_launch);
    apply_setting(&mut cfg, "hours", "0").unwrap();
    apply_setting(&mut cfg, "minutes", "0").unwrap();
    assert_eq!(cfg.click.duration_minutes, 1);
    assert!(setting_overflows(&cfg, "hours", "4294967295"));
    assert!(!setting_overflows(&cfg, "hours", "24"));
}

#[test]
fn backends_are_named_on_the_command_line() {
    assert_eq!(parse_backend("keyd"), Ok(ShortcutBackend::Keyd));
    assert_eq!(parse_backend("None"), Ok(ShortcutBackend::Off));
    assert_eq!(
        parse_backend("x11").unwrap_err(),
        "expected gnome, extension, keyd or none, got `x11`"
    );
}

#[test]
fn the_shortcut_list_groups_owners_and_filters_without_case() {
    let a = Accel::parse("<Super>q").unwrap();
    let b = Accel::parse("<Control><Alt>t").unwrap();
    let found = vec![
        gnome::Binding {
            accel: a.clone(),
            owner: Owner::Setting {
                schema: "org.gnome.desktop.wm.keybindings".into(),
                key: "close".into(),
            },
        },
        gnome::Binding {
            accel: b.clone(),
            owner: Owner::Custom {
                path: "/x/custom0/".into(),
                name: "Terminal".into(),
                command: "gnome-terminal".into(),
            },
        },
        gnome::Binding {
            accel: a.clone(),
            owner: Owner::Setting {
                schema: "org.gnome.shell.keybindings".into(),
                key: "quit-app".into(),
            },
        },
    ];
    let groups = gnome::by_accel(&found);
    let keyd_found = keyd::parse_config("[meta]\nf9 = noop\n", "/etc/keyd/default.conf");
    let rows = list_rows(&groups, &keyd_found, None);
    let want: Vec<(String, String)> = vec![
        ("Ctrl+Alt+T".into(), "Custom shortcut “Terminal” (gnome-terminal)".into()),
        ("Super+Q".into(), "Window management: close".into()),
        ("".into(), "GNOME Shell: quit app".into()),
        ("Super+F9".into(), "keyd [meta] in default.conf: M-f9 → noop".into()),
    ];
    assert_eq!(rows, want);

    let rows = list_rows(&groups, &keyd_found, Some("TERMINAL"));
    assert_eq!(rows, vec![want[0].clone()]);
    let rows = list_rows(&groups, &keyd_found, Some("Default.CONF"));
    assert_eq!(rows, vec![want[3].clone()]);
    assert!(list_rows(&groups, &keyd_found, Some("nothing like it")).is_empty());
}

#[test]
fn a_taken_shortcut_is_refused_without_force() {
    let a = Accel::parse("<Super>q").unwrap();
    assert!(matches!(taking(&a, &[], false), Taking::Free));
    let holders = vec!["Window management: close".to_string(), "GNOME Shell: quit app".to_string()];
    assert!(matches!(taking(&a, &holders, true), Taking::Take));
    match taking(&a, &holders, false) {
        Taking::Refuse(lines) => assert_eq!(
            lines,
            vec![
                "Super+Q is taken by:",
                "    • Window management: close",
                "    • GNOME Shell: quit app",
            ]
        ),
        other => panic!("unexpected {other:?}"),
    }
}
