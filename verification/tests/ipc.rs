use ratclick::ipc::{format_remaining, status_lines, Status, APP_ID, BUS_NAME, OBJECT_PATH};

#[test]
fn the_daemon_name_does_not_collide_with_the_gui() {
    assert_ne!(BUS_NAME, APP_ID);
    let gtk_path = format!("/{}", APP_ID.replace('.', "/"));
    assert_ne!(OBJECT_PATH, gtk_path);
}

#[test]
fn remaining_scales_with_magnitude() {
    assert_eq!(format_remaining(45), "45s");
    assert_eq!(format_remaining(125), "2m 05s");
    assert_eq!(format_remaining(3725), "1h 02m 05s");
}

#[test]
fn summary_reflects_state() {
    let mut s = Status {
        running: false,
        cpm: 600,
        button: "left".into(),
        mode: "endless".into(),
        remaining_seconds: 0,
        clicks: 0,
    };
    assert!(s.summary().starts_with("stopped"));
    s.running = true;
    assert!(s.summary().contains("endless"));
    s.mode = "timed".into();
    s.remaining_seconds = 90;
    assert!(s.summary().contains("1m 30s"));
}

#[test]
fn countdowns_at_the_edges() {
    assert_eq!(format_remaining(0), "0s");
    assert_eq!(format_remaining(60), "1m 00s");
    assert_eq!(format_remaining(3600), "1h 00m 00s");
}

#[test]
fn status_prints_for_people_and_for_scripts() {
    assert_eq!(status_lines(None, true), vec!["daemon=stopped".to_string()]);
    assert_eq!(status_lines(None, false), vec!["RatClick is not running.".to_string()]);
    let s = Status {
        running: true,
        cpm: 600,
        button: "left".into(),
        mode: "timed".into(),
        remaining_seconds: 65,
        clicks: 12,
    };
    assert_eq!(
        status_lines(Some(&s), true),
        vec![
            "daemon=running",
            "clicking=true",
            "cpm=600",
            "button=left",
            "mode=timed",
            "remaining_seconds=65",
            "clicks=12",
        ]
    );
    assert_eq!(
        status_lines(Some(&s), false),
        vec![
            "RatClick is clicking left at 600 CPM — 1m 05s left".to_string(),
            "  12 clicks so far this run".to_string(),
        ]
    );
    let idle = Status { running: false, ..s };
    assert_eq!(
        status_lines(Some(&idle), false),
        vec!["RatClick is stopped (600 CPM, timed)".to_string()]
    );
}
