use ratclick::accel::Accel;
use ratclick::shortcut::keyd::{
    availability_from, cleared_config, conflicts_for, installed, managed_block, parse_config,
    splice, strip_managed, updated_config, Availability, Binding, BEGIN, END,
};

fn accel(s: &str) -> Accel {
    Accel::parse(s).unwrap()
}

#[test]
fn a_modified_key_becomes_a_modifier_layer() {
    let block = managed_block(&[accel("<Super><Shift>c")], "/usr/bin/dispatch toggle");
    assert!(block.contains("[shift+meta]"));
    assert!(block.contains("c = command(/usr/bin/dispatch toggle)"));
    assert!(!block.contains("S-M-c ="));
}

#[test]
fn an_unmodified_key_stays_in_main() {
    let block = managed_block(&[accel("F9")], "cmd");
    assert!(block.contains("[main]"));
    assert!(block.contains("f9 = command(cmd)"));
}

#[test]
fn accelerators_sharing_a_layer_are_grouped_under_one_header() {
    let block = managed_block(&[accel("<Super>F9"), accel("<Super>F10")], "cmd");
    assert_eq!(block.matches("[meta]").count(), 1);
    assert!(block.contains("f9 = command(cmd)"));
    assert!(block.contains("f10 = command(cmd)"));
}

#[test]
fn the_block_goes_after_the_users_config_not_inside_it() {
    let original = "[ids]\n*\n\n[main]\nf20 = f18\n";
    let out = splice(original, &managed_block(&[accel("<Super><Shift>c")], "cmd"));
    assert!(out.contains("f20 = f18"));
    assert!(out.find("f20 = f18").unwrap() < out.find(BEGIN).unwrap());
    assert!(out.trim_end().ends_with(END));
}

#[test]
fn creates_structure_when_the_file_is_empty() {
    let out = splice("", &managed_block(&[accel("<Super>F9")], "cmd"));
    assert!(out.contains("[ids]"));
    assert!(out.contains("[meta]"));
    assert!(out.contains("f9 = command(cmd)"));
}

#[test]
fn reinstalling_replaces_rather_than_duplicates() {
    let original = "[ids]\n*\n\n[main]\nf20 = f18\n";
    let first = splice(original, &managed_block(&[accel("<Super>F9")], "cmd"));
    let second = splice(&first, &managed_block(&[accel("<Super>F10")], "cmd"));
    assert_eq!(second.matches(BEGIN).count(), 1);
    assert!(!second.contains("f9 = command"));
    assert!(second.contains("f10 = command"));
    assert!(second.contains("f20 = f18"));
}

#[test]
fn uninstall_restores_the_original_bytes() {
    let original = "[ids]\n*\n\n[main]\nf20 = f18\n";
    let spliced = splice(original, &managed_block(&[accel("<Super>F9")], "cmd"));
    assert_eq!(strip_managed(&spliced), original);
}

#[test]
fn a_binding_in_a_modifier_layer_is_read_back_with_its_modifiers() {
    let text = "[ids]\n*\n\n[main]\nf20 = f18\n\n[meta+shift]\nc = noop\n";
    let found = parse_config(text, "/x.conf");
    assert!(found.iter().any(|b| b.accel == accel("F20")));
    assert!(
        found.iter().any(|b| b.accel == accel("<Super><Shift>c")),
        "layer modifiers were not applied: {found:?}"
    );
}

#[test]
fn round_trips_through_generate_and_parse() {
    let want = accel("<Control><Alt>F9");
    let text = splice("[ids]\n*\n", &managed_block(std::slice::from_ref(&want), "cmd"));
    let found = parse_config(&text, "/x.conf");
    let ours: Vec<&Binding> = found.iter().filter(|b| b.ours).collect();
    assert_eq!(ours.len(), 1);
    assert_eq!(ours[0].accel, want);
}

#[test]
fn scan_flags_our_own_bindings() {
    let text = format!(
        "[ids]\n*\n\n[main]\nf20 = f18\n{}",
        managed_block(&[accel("<Super>F9")], "cmd")
    );
    let found = parse_config(&text, "/etc/keyd/default.conf");
    let theirs = found.iter().find(|b| b.accel == accel("F20")).unwrap();
    assert!(!theirs.ours);
    assert_eq!(theirs.action, "f18");
    let ours = found.iter().find(|b| b.accel == accel("<Super>F9")).unwrap();
    assert!(ours.ours);
}

#[test]
fn ids_section_is_not_parsed_as_bindings() {
    let text = "[ids]\n0001:0001:abc\n*\n\n[main]\nf20 = f18\n";
    let found = parse_config(text, "/x.conf");
    assert_eq!(found.len(), 1);
    assert_eq!(found[0].accel, accel("F20"));
}

#[test]
fn user_defined_layers_are_not_treated_as_global_shortcuts() {
    let text = "[ids]\n*\n\n[main]\na = b\n\n[nav:C]\nh = left\n";
    let found = parse_config(text, "/x.conf");
    assert!(found.iter().any(|b| b.accel == accel("a")));
    assert!(!found.iter().any(|b| b.accel.key == "h"));
}

#[test]
fn conflicts_skip_our_own_and_other_keys() {
    let text = format!(
        "[ids]\n*\n\n[meta]\nf9 = noop\nf10 = noop\n{}",
        managed_block(&[accel("<Super>F9")], "cmd")
    );
    let found = parse_config(&text, "/etc/keyd/default.conf");
    let c = conflicts_for(&found, &accel("<Super>F9"));
    assert_eq!(c.len(), 1);
    assert!(!c[0].ours);
    assert_eq!(c[0].describe(), "keyd [meta] in default.conf: M-f9 → noop");
    assert_eq!(installed(&found), vec![accel("<Super>F9")]);
}

#[test]
fn installed_lists_each_accelerator_once() {
    let block = managed_block(&[accel("<Super>F9"), accel("<Super>F9")], "cmd");
    let found = parse_config(&block, "/x.conf");
    assert_eq!(found.len(), 2);
    assert_eq!(installed(&found), vec![accel("<Super>F9")]);
}

#[test]
fn describe_uses_the_file_name_only() {
    let found = parse_config("[main]\nf20 = f18\n", "/etc/keyd/");
    assert_eq!(found[0].describe(), "keyd [main] in keyd: f20 → f18");
    let found = parse_config("[main]\nf20 = f18\n", "/");
    assert_eq!(found[0].describe(), "keyd [main] in : f20 → f18");
}

#[test]
fn carriage_returns_and_blank_runs_are_cleaned() {
    assert_eq!(strip_managed("a\r\nb\n\n\n\nc\n\n\n"), "a\nb\n\nc\n");
    assert_eq!(strip_managed(""), "");
}

#[test]
fn files_are_rewritten_only_when_they_change() {
    let original = "[ids]\n*\n\n[main]\nf20 = f18\n";
    let first = updated_config(original, &[accel("<Super>F9")], "cmd").unwrap();
    assert!(first.contains(BEGIN));
    assert_eq!(updated_config(&first, &[accel("<Super>F9")], "cmd"), None);
    assert_eq!(updated_config(&first, &[], "cmd").as_deref(), Some(original));
    assert_eq!(updated_config(original, &[], "cmd"), None);
    assert_eq!(cleared_config(original), None);
    assert_eq!(cleared_config(&first).as_deref(), Some(original));
}

#[test]
fn availability_reads_the_version() {
    assert_eq!(availability_from(None, true), Availability::NotInstalled);
    assert_eq!(
        availability_from(Some("keyd v2.5.0\n"), true),
        Availability::Ready { version: "2.5.0".into() }
    );
    assert_eq!(
        availability_from(Some("keyd\n"), true),
        Availability::Ready { version: "?".into() }
    );
    assert_eq!(
        availability_from(Some("keyd v2.5.0\n"), false),
        Availability::ServiceStopped
    );
    let ready = availability_from(Some("keyd v2.5.0"), true);
    assert!(ready.is_ready());
    assert_eq!(ready.explain(), "keyd 2.5.0 is running");
    assert!(!Availability::ServiceStopped.is_ready());
    assert!(Availability::NotInstalled.explain().contains("not installed"));
}

#[test]
fn every_installed_accelerator_is_read_back_as_ours() {
    let want = vec![accel("<Control><Alt>F9"), accel("<Super>F8"), accel("F7"), accel("<Control>F6")];
    let text = updated_config("[ids]\n*\n\n[main]\nf20 = f18\n", &want, "cmd").unwrap();
    let found = parse_config(&text, "/etc/keyd/default.conf");
    let mut got = installed(&found);
    let mut expected = want.clone();
    got.sort_by_key(|a| a.to_keyd());
    expected.sort_by_key(|a| a.to_keyd());
    assert_eq!(got, expected);
    for b in found.iter().filter(|b| b.ours) {
        assert_eq!(b.action, "command(cmd)");
    }
    let theirs: Vec<&Binding> = found.iter().filter(|b| !b.ours).collect();
    assert_eq!(theirs.len(), 1);
    assert_eq!(theirs[0].action, "f18");
}

#[test]
fn reinstalling_over_an_old_block_is_the_same_as_installing_once() {
    let with_old = splice("[ids]\n*\n\n[main]\nf20 = f18\n", &managed_block(&[accel("F3")], "old"));
    let block = managed_block(&[accel("<Super>F9")], "cmd");
    let once = splice(&with_old, &block);
    let twice = splice(&splice(&with_old, &managed_block(&[accel("F4")], "cmd")), &block);
    assert_eq!(twice, once);
    assert_eq!(once.matches(BEGIN).count(), 1);
    assert!(!once.contains("command(old)"));
}

#[test]
fn each_stripping_takes_one_carriage_return_off_a_line() {
    let text = "x\r\r\n[ids]\n";
    assert_eq!(strip_managed(text), "x\r\n[ids]\n");
    assert_eq!(strip_managed(&strip_managed(text)), "x\n[ids]\n");
    let block = managed_block(&[accel("F9")], "cmd");
    assert_ne!(splice(&splice(text, &block), &block), splice(text, &block));
}
