use ratclick::config::{Button, ClickConfig, ClickMode};
use ratclick::engine::{initial, step, Action, Command, EngineState, Event, SETTLE_NANOS};
use std::time::Duration;

#[test]
fn remaining_seconds_rounds_down() {
    let s = EngineState {
        running: true,
        clicks: 0,
        remaining: Some(Duration::from_millis(1900)),
    };
    assert_eq!(s.remaining_seconds(), 1);
}

#[test]
fn endless_runs_report_no_countdown() {
    let s = EngineState {
        running: true,
        clicks: 5,
        remaining: None,
    };
    assert_eq!(s.remaining_seconds(), 0);
}

#[test]
fn huge_countdowns_are_capped() {
    let s = EngineState {
        running: true,
        clicks: 0,
        remaining: Some(Duration::from_secs(u64::MAX)),
    };
    assert_eq!(s.remaining_seconds(), u32::MAX);
}

fn cfg(cpm: u32) -> ClickConfig {
    ClickConfig {
        cpm,
        ..Default::default()
    }
}

#[test]
fn the_first_run_waits_for_the_device_to_settle() {
    let s = step(initial(), Event::Received(Command::Start(cfg(600)), 100));
    assert_eq!(s.action, Action::Settle(SETTLE_NANOS - 100));
    assert!(!s.notify);
    let s = step(s.core, Event::Settled(SETTLE_NANOS));
    assert_eq!(s.action, Action::Poll);
    assert!(s.notify);
    assert!(s.core.snapshot.running);
    let run = s.core.run.unwrap();
    assert_eq!(run.interval, 100_000_000);
    assert_eq!(run.next, SETTLE_NANOS);
    assert_eq!(run.deadline, None);
}

#[test]
fn a_run_clicks_on_schedule_and_stops() {
    let t0 = 1_000_000_000u128;
    let s = step(initial(), Event::Received(Command::Start(cfg(600)), t0));
    assert_eq!(s.action, Action::Poll);
    let s = step(s.core, Event::Woke(t0));
    assert_eq!(s.action, Action::ReceiveFor(0));
    let s = step(s.core, Event::TimedOut(t0));
    assert_eq!(s.action, Action::Click(Button::Left));
    let s = step(s.core, Event::Clicked(t0 + 5));
    assert_eq!(s.core.snapshot.clicks, 1);
    assert_eq!(s.core.run.unwrap().next, t0 + 100_000_000);
    let s = step(s.core, Event::Woke(t0 + 10));
    assert_eq!(s.action, Action::ReceiveFor(100_000_000 - 10));
    let s = step(s.core, Event::TimedOut(t0 + 50));
    assert_eq!(s.action, Action::Poll);
    let s = step(s.core, Event::Received(Command::Stop, t0 + 60));
    assert!(s.notify);
    assert!(!s.core.snapshot.running);
    assert_eq!(s.core.snapshot.clicks, 1);
    assert_eq!(s.action, Action::Receive);
    let s = step(s.core, Event::Received(Command::Shutdown, t0 + 70));
    assert_eq!(s.action, Action::Exit);
}

#[test]
fn a_timed_run_stops_itself_at_its_deadline() {
    let t0 = 1_000_000_000u128;
    let c = ClickConfig {
        mode: ClickMode::Timed,
        duration_minutes: 1,
        ..cfg(60)
    };
    let s = step(initial(), Event::Received(Command::Start(c), t0));
    assert_eq!(s.core.snapshot.remaining, Some(60_000_000_000));
    let deadline = t0 + 60_000_000_000;
    assert_eq!(s.core.run.unwrap().deadline, Some(deadline));
    let s = step(s.core, Event::Clicked(t0));
    let s = step(s.core, Event::Woke(t0 + 10));
    assert_eq!(s.action, Action::ReceiveFor(1_000_000_000 - 10));
    let s = step(s.core, Event::Woke(deadline - 1));
    assert_eq!(s.action, Action::ReceiveFor(0));
    let s = step(s.core, Event::Woke(deadline));
    assert!(!s.core.snapshot.running);
    assert!(s.core.run.is_none());
    assert!(s.notify);
}

#[test]
fn falling_behind_resyncs_instead_of_bursting() {
    let t0 = 1_000_000_000u128;
    let s = step(initial(), Event::Received(Command::Start(cfg(600)), t0));
    let late = t0 + 10_000_000_000;
    let s = step(s.core, Event::Clicked(late));
    assert_eq!(s.core.run.unwrap().next, late + 100_000_000);
}

#[test]
fn restarting_takes_effect_at_once_and_keeps_the_count() {
    let t0 = 1_000_000_000u128;
    let s = step(initial(), Event::Received(Command::Start(cfg(600)), t0));
    let s = step(s.core, Event::Clicked(t0));
    let s = step(s.core, Event::Received(Command::Start(cfg(1200)), t0 + 7));
    let run = s.core.run.unwrap();
    assert_eq!(run.interval, 50_000_000);
    assert_eq!(run.next, t0 + 7);
    assert_eq!(s.core.snapshot.clicks, 1);
    assert!(!s.notify);
}

#[test]
fn a_failed_click_stops_the_run() {
    let t0 = 1_000_000_000u128;
    let s = step(initial(), Event::Received(Command::Start(cfg(600)), t0));
    let s = step(s.core, Event::ClickFailed);
    assert!(s.core.run.is_none());
    assert!(!s.core.snapshot.running);
    assert!(s.notify);
    assert_eq!(step(s.core, Event::Closed).action, Action::Exit);
}

#[test]
fn countdown_changes_are_announced_once_a_second() {
    let t0 = 1_000_000_000u128;
    let c = ClickConfig {
        mode: ClickMode::Timed,
        duration_minutes: 1,
        ..cfg(600)
    };
    let s = step(initial(), Event::Received(Command::Start(c), t0));
    let s = step(s.core, Event::Clicked(t0 + 100_000_000));
    assert!(s.notify);
    let s = step(s.core, Event::Clicked(t0 + 200_000_000));
    assert!(!s.notify);
}
