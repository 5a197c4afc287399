use ratclick::accel::{Accel, AccelError};
use ratclick::config::{ClickConfig, ClickMode, ShortcutBackend};
use ratclick::setup::{
    binding_answer, chosen_backend, cpm_answer, default_backend, hours_answer, minutes_answer,
    mode_answer, prompt_answer, reads_back, run_length_text, shortcut_default, yes_no,
    BindingAnswer,
};
use ratclick::shortcut::{backend_statuses, extension, keyd::Availability};

#[test]
fn prompts_fall_back_to_their_default() {
    assert_eq!(prompt_answer(None, "600"), "600");
    assert_eq!(prompt_answer(Some("  \n"), "600"), "600");
    assert_eq!(prompt_answer(Some(" 900 \n"), "600"), "900");
}

#[test]
fn yes_and_no_in_any_spelling() {
    assert_eq!(yes_no("", true), Some(true));
    assert_eq!(yes_no(" YES ", false), Some(true));
    assert_eq!(yes_no("n", true), Some(false));
    assert_eq!(yes_no("maybe", true), None);
}

#[test]
fn wizard_answers_are_checked() {
    assert_eq!(cpm_answer("900"), Ok(900));
    assert_eq!(cpm_answer("0"), Err("  Enter a number between 1 and 6000.".to_string()));
    assert_eq!(cpm_answer("lots"), Err("  That is not a number.".to_string()));
    assert_eq!(mode_answer("Timed"), Some(ClickMode::Timed));
    assert_eq!(mode_answer("e"), Some(ClickMode::Endless));
    assert_eq!(mode_answer("x"), None);
    assert_eq!(hours_answer("24"), Some(24));
    assert_eq!(hours_answer("25"), None);
    assert_eq!(minutes_answer("59"), Some(59));
    assert_eq!(minutes_answer("60"), None);
}

#[test]
fn the_first_usable_backend_is_offered() {
    let ext = extension::availability(true, Some(true));
    let s = backend_statuses(false, &ext, &Availability::NotInstalled);
    assert_eq!(default_backend(&s), ShortcutBackend::Extension);
    let ext = extension::availability(false, None);
    let s = backend_statuses(false, &ext, &Availability::NotInstalled);
    assert_eq!(default_backend(&s), ShortcutBackend::Off);
    assert_eq!(chosen_backend(ShortcutBackend::Off, None), ShortcutBackend::Gnome);
    assert_eq!(
        chosen_backend(ShortcutBackend::Gnome, Some(ShortcutBackend::Keyd)),
        ShortcutBackend::Keyd
    );
}

#[test]
fn run_lengths_read_naturally() {
    let mut c = ClickConfig::default();
    assert_eq!(run_length_text(&c), "until you toggle it off");
    c.mode = ClickMode::Timed;
    c.duration_minutes = 65;
    assert_eq!(run_length_text(&c), "for 1h 05m");
}

#[test]
fn typed_shortcuts_are_judged() {
    let a = Accel::parse("<Super>F9").unwrap();
    assert!(matches!(binding_answer("  ", &[]), BindingAnswer::NeedOne));
    assert!(matches!(binding_answer("", &[a.clone()]), BindingAnswer::Finish));
    assert!(matches!(
        binding_answer("<Bogus>x", &[]),
        BindingAnswer::Rejected(AccelError::UnknownModifier(_))
    ));
    assert!(matches!(
        binding_answer("c", &[]),
        BindingAnswer::Rejected(AccelError::NeedsModifier(_))
    ));
    assert!(matches!(binding_answer("<Super>F9", &[a.clone()]), BindingAnswer::Duplicate));
    match binding_answer("<Super>F10", &[a.clone()]) {
        BindingAnswer::Candidate(b) => assert_eq!(b, Accel::parse("<Super>F10").unwrap()),
        other => panic!("unexpected {other:?}"),
    }
    assert_eq!(shortcut_default(&[]), "<Super><Shift>c");
    assert_eq!(shortcut_default(&[a.clone()]), "<Super>F9");
    assert!(reads_back(&[a.clone()], &[a.clone()]));
    assert!(!reads_back(&[], &[a]));
}
