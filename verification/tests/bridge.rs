use ratclick::bridge::{
    handle, poll_status, should_publish, start_daemon, wait_message, Cmd, KeydAction, Launched,
    Op, Snapshot, StartNext,
};

#[test]
fn commands_become_steps() {
    assert_eq!(handle(Cmd::Toggle, false), vec![Op::StartService, Op::Toggle]);
    assert_eq!(handle(Cmd::Toggle, true), vec![Op::Toggle]);
    assert!(handle(Cmd::Reload, false).is_empty());
    assert_eq!(handle(Cmd::StopDaemon, true), vec![Op::StopService, Op::WaitGone]);
    assert!(handle(Cmd::Refresh, true).is_empty());
}

#[test]
fn starting_falls_back_to_running_the_binary() {
    assert_eq!(start_daemon(Launched::Systemd, true), StartNext::Done);
    assert_eq!(start_daemon(Launched::Systemd, false), StartNext::SpawnDirect);
    assert_eq!(start_daemon(Launched::Direct, false), StartNext::Fail);
    assert!(wait_message(true).contains("ratclick doctor"));
    assert_eq!(wait_message(false), "the RatClick service did not stop");
}

#[test]
fn polls_and_wakeups() {
    assert_eq!(poll_status(false, None), Snapshot::default());
    let s = poll_status(true, Some((true, 600, "left".into(), "endless".into(), 0, 3)));
    assert!(s.daemon_up && s.running);
    assert_eq!(s.clicks, 3);
    assert!(should_publish(&None, &s));
    assert!(!should_publish(&Some(s.clone()), &s));
    let mut e = s.clone();
    e.error = Some("boom".into());
    assert!(should_publish(&Some(e.clone()), &e));
    assert_eq!(KeydAction::Apply.verb(), "apply");
    assert_eq!(KeydAction::Clear.verb(), "clear");
}
