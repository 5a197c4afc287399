use ratclick::accel::{Accel, AccelError, Modifiers};

#[test]
fn parses_gtk_accelerators() {
    let a = Accel::parse("<Super><Shift>c").unwrap();
    assert_eq!(a.key, "c");
    assert!(a.mods.contains(Modifiers::super_key()));
    assert!(a.mods.contains(Modifiers::shift()));
    assert!(!a.mods.contains(Modifiers::control()));
}

#[test]
fn parses_keyd_bindings() {
    let a = Accel::parse("M-S-c").unwrap();
    assert_eq!(a, Accel::parse("<Super><Shift>c").unwrap());
}

#[test]
fn modifier_order_does_not_matter() {
    assert_eq!(
        Accel::parse("<Shift><Super>c").unwrap(),
        Accel::parse("<Super><Shift>c").unwrap()
    );
}

#[test]
fn primary_is_control() {
    assert_eq!(
        Accel::parse("<Primary>k").unwrap(),
        Accel::parse("<Control>k").unwrap()
    );
}

#[test]
fn gtk_roundtrip_is_stable() {
    for s in ["<Control><Alt>Delete", "<Super>F9", "<Shift><Super>space"] {
        let a = Accel::parse(s).unwrap();
        let b = Accel::parse(&a.to_gtk()).unwrap();
        assert_eq!(a, b, "roundtrip failed for {s}");
    }
}

#[test]
fn keyd_roundtrip_is_stable() {
    let a = Accel::parse("<Control><Alt>Delete").unwrap();
    assert_eq!(a.to_keyd(), "C-A-delete");
    assert_eq!(Accel::parse("C-A-delete").unwrap(), a);
}

#[test]
fn function_keys_may_stand_alone_but_letters_may_not() {
    assert!(Accel::parse("F9").unwrap().validate().is_ok());
    assert!(Accel::parse("c").unwrap().validate().is_err());
    assert!(Accel::parse("<Super>c").unwrap().validate().is_ok());
}

#[test]
fn rejects_garbage() {
    assert!(Accel::parse("").is_err());
    assert!(Accel::parse("<Super>").is_err());
    assert!(Accel::parse("<Nonsense>c").is_err());
    assert!(Accel::parse("<Super>notakey").is_err());
}

#[test]
fn display_is_human_readable() {
    assert_eq!(
        Accel::parse("<Super><Shift>c").unwrap().to_display(),
        "Shift+Super+C"
    );
}

#[test]
fn minus_key_is_not_mistaken_for_a_keyd_separator() {
    let a = Accel::parse("<Control>minus").unwrap();
    assert_eq!(a.key, "minus");
    assert_eq!(a.to_keyd(), "C-minus");
    assert_eq!(Accel::parse("C-minus").unwrap(), a);
}

#[test]
fn each_parse_error_names_its_cause() {
    assert_eq!(Accel::parse("   ").unwrap_err(), AccelError::Empty);
    assert_eq!(
        Accel::parse("<Super>").unwrap_err(),
        AccelError::NoKey("<Super>".to_string())
    );
    assert_eq!(
        Accel::parse("<Nonsense>c").unwrap_err(),
        AccelError::UnknownModifier("Nonsense".to_string())
    );
    assert!(matches!(
        Accel::parse("<Super c").unwrap_err(),
        AccelError::Unterminated(_)
    ));
    assert_eq!(
        Accel::parse("<Super>notakey").unwrap_err(),
        AccelError::UnknownKey("notakey".to_string())
    );
    assert!(matches!(
        Accel::parse("c").unwrap().validate().unwrap_err(),
        AccelError::NeedsModifier(_)
    ));
    assert_eq!(Accel::parse("").unwrap_err().message(), "shortcut is empty");
}

#[test]
fn keyd_layers_are_named_by_modifiers() {
    let a = Accel::parse("<Super><Shift>c").unwrap();
    assert_eq!(a.to_keyd_layer().as_deref(), Some("shift+meta"));
    assert_eq!(Accel::parse("F9").unwrap().to_keyd_layer(), None);
    let m = Accel::modifiers_from_keyd_layer("meta+shift").unwrap();
    assert_eq!(m, a.mods);
    assert_eq!(Accel::modifiers_from_keyd_layer("main"), Some(Modifiers::none()));
    assert_eq!(Accel::modifiers_from_keyd_layer("nav"), None);
}

#[test]
fn modifier_sets_combine() {
    let m = Modifiers::shift().union(Modifiers::super_key());
    assert!(m.contains(Modifiers::shift()));
    assert!(!m.is_empty());
    assert!(Modifiers::none().is_empty());
    assert_eq!(m, Modifiers::shift() | Modifiers::super_key());
    assert_eq!(Modifiers::from_bits(m.raw()), m);
}

#[test]
fn rendering_twice_changes_nothing() {
    for s in ["<Primary><Alt>Delete", "M-S-c", "F12", "<Super>Page_Up"] {
        let a = Accel::parse(s).unwrap();
        let gtk = a.to_gtk();
        assert_eq!(Accel::parse(&gtk).unwrap().to_gtk(), gtk);
        assert_eq!(Accel::parse(&a.to_keyd()).unwrap(), a);
    }
}

#[test]
fn display_names_keys_the_way_people_write_them() {
    assert_eq!(Accel::parse("<Control>space").unwrap().to_display(), "Ctrl+Space");
    assert_eq!(Accel::parse("F9").unwrap().to_display(), "F9");
}

#[test]
fn a_keyd_layer_reads_back_as_its_modifiers() {
    for s in ["F9", "<Super>F9", "<Control><Alt>t", "<Shift><Super>c", "<Control><Alt><Shift><Super>x"] {
        let a = Accel::parse(s).unwrap();
        let layer = a.to_keyd_layer().unwrap_or_else(|| "main".to_string());
        assert_eq!(Accel::modifiers_from_keyd_layer(&layer), Some(a.mods));
    }
    assert_eq!(Accel::modifiers_from_keyd_layer("nav"), None);
    assert_eq!(Accel::modifiers_from_keyd_layer("control+nav"), None);
}

#[test]
fn canonical_keys_are_lower_case_and_read_back_from_upper_case() {
    for s in ["<Super>Q", "<Super>Return", "F12", "<Control>Page_Up", "<Alt>minus"] {
        let a = Accel::parse(s).unwrap();
        assert!(!a.key.is_empty());
        assert_eq!(a.key, a.key.to_ascii_lowercase());
        let again = Accel::parse(&format!("<Super>{}", a.key.to_ascii_uppercase())).unwrap();
        assert_eq!(again.key, a.key);
    }
}
