use ratclick::accel::Accel;
use ratclick::config::{
    Button, ClickConfig, ClickMode, Config, ConfigError, ShortcutBackend, DEFAULT_CPM, MIN_CPM,
};
use std::time::Duration;

fn with_cpm(cpm: u32) -> ClickConfig {
    ClickConfig {
        cpm,
        ..Default::default()
    }
}

#[test]
fn missing_file_yields_defaults_needing_setup() {
    let cfg = Config::load(None).unwrap();
    assert!(cfg.needs_setup());
    assert_eq!(cfg.click.cpm, DEFAULT_CPM);
}

#[test]
fn interval_matches_cpm() {
    assert_eq!(with_cpm(600).interval(), Duration::from_millis(100));
    assert_eq!(with_cpm(60).interval(), Duration::from_secs(1));
}

#[test]
fn interval_is_never_zero_even_for_absurd_cpm() {
    assert!(with_cpm(u32::MAX).interval() > Duration::ZERO);
}

#[test]
fn hours_and_minutes_convert_to_whole_minutes() {
    let mut c = ClickConfig::default();
    c.set_duration_hm(2, 15);
    assert_eq!(c.duration_minutes, 135);
    assert_eq!(c.duration_hm(), (2, 15));
}

#[test]
fn normalise_leaves_high_cpm_uncapped() {
    let mut cfg = Config::default();
    cfg.click.cpm = 999_999;
    let notes = cfg.normalise();
    assert_eq!(cfg.click.cpm, 999_999);
    assert!(notes.is_empty());
}

#[test]
fn normalise_floors_zero_cpm() {
    let mut cfg = Config::default();
    cfg.click.cpm = 0;
    let notes = cfg.normalise();
    assert_eq!(cfg.click.cpm, MIN_CPM);
    assert!(!notes.is_empty());
}

#[test]
fn refuses_a_version_from_the_future() {
    let mut cfg = Config::default();
    cfg.version = 99;
    assert_eq!(Config::accept(cfg), Err(ConfigError::TooNew(99)));
    assert!(Config::accept(Config::default()).is_ok());
}

#[test]
fn blank_file_counts_as_missing() {
    assert!(Config::load(Some("  \n")).is_some());
    assert!(Config::load(Some("version = 1\n")).is_none());
}

#[test]
fn normalising_twice_changes_nothing_more() {
    let mut cfg = Config::default();
    cfg.click.cpm = 0;
    cfg.click.duration_minutes = 0;
    let a = Accel::parse("<Super>c").unwrap();
    cfg.shortcut.bindings = vec![a.clone(), a.clone(), Accel::parse("F9").unwrap()];
    cfg.normalise();
    let once = cfg.clone();
    let notes = cfg.normalise();
    assert!(notes.is_empty());
    assert_eq!(cfg, once);
    assert_eq!(cfg.shortcut.bindings.len(), 2);
}

#[test]
fn names_read_back_as_values() {
    assert_eq!(Button::from_str_opt(" Right "), Some(Button::Right));
    assert_eq!(Button::from_str_opt("2"), Some(Button::Middle));
    assert_eq!(Button::from_str_opt("thumb"), None);
    assert_eq!(Button::Middle.as_str(), "middle");
    assert_eq!(ClickMode::Timed.as_str(), "timed");
    assert_eq!(ShortcutBackend::from_str_opt("off"), Some(ShortcutBackend::Off));
    assert_eq!(ShortcutBackend::from_str_opt("shell"), Some(ShortcutBackend::Extension));
    assert_eq!(ShortcutBackend::Off.as_str(), "none");
}

#[test]
fn timed_runs_last_their_minutes() {
    let mut c = ClickConfig::default();
    assert_eq!(c.duration(), None);
    c.mode = ClickMode::Timed;
    c.duration_minutes = 0;
    assert_eq!(c.duration(), Some(Duration::from_secs(60)));
    c.duration_minutes = 90;
    assert_eq!(c.duration_secs(), Some(5400));
}
