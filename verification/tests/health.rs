//! How the daemon's health is graded, shown and read back.

use blackbox::daemon::{compute_health, get_daemon_status, HealthIndicator};
use blackbox::doctor::stall_threshold_for_mode;
use blackbox::poller::{write_health_snapshot, DiscoveryMetrics, HealthSnapshot, PollMetrics};
use blackbox::report::{
    format_duration_ago, format_uptime, render_status_pretty, status_label, Paint,
};
use blackbox::status::{read_probed, status_from, DaemonStatus, Measured, Probed};
use blackbox::time::Timestamp;

fn at(dt: chrono::DateTime<chrono::Utc>) -> Timestamp {
    Timestamp { secs: dt.timestamp(), nanos: dt.timestamp_subsec_nanos() }
}

fn now() -> Timestamp {
    at(chrono::Utc::now())
}

fn ago(d: chrono::Duration) -> Timestamp {
    at(chrono::Utc::now() - d)
}

#[test]
fn compute_health_red_when_all_repos_failing() {
    let h = compute_health(true, Some(now()), 5, Some(5), Some(0), 3600, now());
    assert!(matches!(h, HealthIndicator::Red), "expected Red, got {:?}", h);
}

#[test]
fn compute_health_yellow_on_partial_failures() {
    let h = compute_health(true, Some(now()), 5, Some(2), Some(0), 3600, now());
    assert!(matches!(h, HealthIndicator::Yellow), "expected Yellow, got {:?}", h);
}

#[test]
fn compute_health_green_when_no_failures_and_recent_poll() {
    let h = compute_health(true, Some(now()), 5, Some(0), Some(0), 3600, now());
    assert!(matches!(h, HealthIndicator::Green), "expected Green, got {:?}", h);
}

#[test]
fn compute_health_red_when_not_running_regardless_of_failures() {
    let h = compute_health(false, Some(now()), 5, Some(0), Some(0), 3600, now());
    assert!(matches!(h, HealthIndicator::Red));
}

#[test]
fn compute_health_legacy_daemon_recent_poll_caps_at_yellow() {
    let h = compute_health(true, Some(now()), 5, None, None, 3600, now());
    assert_eq!(h, HealthIndicator::Yellow, "missing failure metric should cap health at Yellow");
}

#[test]
fn compute_health_legacy_daemon_old_poll_stays_red() {
    let stale = ago(chrono::Duration::hours(2));
    let h = compute_health(true, Some(stale), 5, None, None, 3600, now());
    assert_eq!(h, HealthIndicator::Red);
}

#[test]
fn compute_health_discovery_failure_is_red() {
    let h = compute_health(true, Some(now()), 0, Some(0), Some(2), 3600, now());
    assert_eq!(h, HealthIndicator::Red);
}

#[test]
fn compute_health_uses_max_expected_gap_secs_not_hardcoded_30min() {
    let twenty_five_min_ago = ago(chrono::Duration::minutes(25));
    let h = compute_health(true, Some(twenty_five_min_ago), 5, Some(0), Some(0), 3600, now());
    assert_eq!(h, HealthIndicator::Green);
}

#[test]
fn compute_health_at_exact_threshold_is_red_matching_doctor() {
    let exactly_threshold_ago = ago(chrono::Duration::seconds(3600));
    let h = compute_health(true, Some(exactly_threshold_ago), 5, Some(0), Some(0), 3600, now());
    assert_eq!(h, HealthIndicator::Red, "exact-threshold age must be Red");
}

#[test]
fn compute_health_red_for_running_stalled_daemon_renders_running_label() {
    let stale = ago(chrono::Duration::hours(2));
    let h = compute_health(true, Some(stale), 5, Some(0), Some(0), 3600, now());
    assert_eq!(h, HealthIndicator::Red);
    let mut status = some_status();
    status.last_poll_at = Some(stale);
    status.health = h;
    assert_eq!(status_label(&status), "Running (stalled)");
}

#[test]
fn compute_health_watcher_mode_2hr_poll_interval_does_not_widen_threshold() {
    let ninety_min_ago = ago(chrono::Duration::minutes(90));
    let threshold = stall_threshold_for_mode(Some("watcher"), 7200);
    let h = compute_health(true, Some(ninety_min_ago), 5, Some(0), Some(0), threshold, now());
    assert_eq!(h, HealthIndicator::Red, "watcher-mode threshold must ignore poll_interval_secs");
}

#[test]
fn compute_health_polling_mode_uses_poll_interval() {
    let twenty_five_min_ago = ago(chrono::Duration::minutes(25));
    let threshold = stall_threshold_for_mode(Some("polling"), 600);
    assert_eq!(threshold, 1800);
    let h = compute_health(true, Some(twenty_five_min_ago), 5, Some(0), Some(0), threshold, now());
    assert_eq!(h, HealthIndicator::Green);
}

#[test]
fn compute_health_zero_repos_returns_yellow_not_green() {
    let h = compute_health(true, Some(now()), 0, Some(0), Some(0), 3600, now());
    assert_eq!(h, HealthIndicator::Yellow);
}

#[test]
fn compute_health_below_threshold_matches_doctor_pass() {
    let forty_min_ago = ago(chrono::Duration::minutes(40));
    let h = compute_health(true, Some(forty_min_ago), 5, Some(0), Some(0), 3600, now());
    assert_eq!(h, HealthIndicator::Green, "40min/60min must be Green");
}

#[test]
fn health_without_a_poll_is_yellow_and_a_poll_ahead_is_fresh() {
    let t = now();
    let h = compute_health(true, None, 5, Some(0), Some(0), 3600, t);
    assert_eq!(h, HealthIndicator::Yellow);
    let ahead = Timestamp { secs: t.secs + 10_000, nanos: 0 };
    let h = compute_health(true, Some(ahead), 5, Some(0), Some(0), 3600, t);
    assert_eq!(h, HealthIndicator::Green);
    // One second short of the gap is still healthy.
    let fresh = Timestamp { secs: t.secs - 3599, nanos: t.nanos };
    let h = compute_health(true, Some(fresh), 5, Some(0), Some(0), 3600, t);
    assert_eq!(h, HealthIndicator::Green);
}

#[test]
fn health_never_improves_with_more_failures() {
    let t = now();
    let mut worst = 0;
    for failed in 0..7 {
        let h = compute_health(true, Some(t), 5, Some(failed), Some(0), 3600, t);
        let severity = match h {
            HealthIndicator::Green => 0,
            HealthIndicator::Yellow => 1,
            HealthIndicator::Red => 2,
        };
        assert!(severity >= worst);
        worst = severity;
    }
    assert_eq!(worst, 2);
}

#[test]
fn health_never_improves_with_an_older_poll_or_a_tighter_threshold() {
    let t = now();
    let rank = |h: HealthIndicator| match h {
        HealthIndicator::Green => 0,
        HealthIndicator::Yellow => 1,
        HealthIndicator::Red => 2,
    };
    for (age1, gap1) in [(0, 3600), (1800, 3600), (3600, 3600)] {
        for (age2, gap2) in [(1800, 1800), (3600, 3600), (4000, 100)] {
            let poll = |age: i64| Some(Timestamp { secs: t.secs - age, nanos: 0 });
            let h1 = compute_health(true, poll(age1), 5, Some(1), Some(0), gap1, t);
            let h2 = compute_health(true, poll(age2), 5, Some(1), Some(0), gap2, t);
            if age1 <= age2 {
                assert!(rank(h1) <= rank(h2));
            }
        }
    }
}

#[test]
fn stall_thresholds_of_all_modes() {
    assert_eq!(stall_threshold_for_mode(Some("watcher"), 7200), 3600);
    assert_eq!(stall_threshold_for_mode(Some("watcher"), 1), 3600);
    assert_eq!(stall_threshold_for_mode(Some("polling"), 30), 120);
    assert_eq!(stall_threshold_for_mode(Some("polling"), 7200), 21600);
    assert_eq!(stall_threshold_for_mode(Some("polling"), u64::MAX), u64::MAX);
    assert_eq!(stall_threshold_for_mode(None, 30), 3600);
    assert_eq!(stall_threshold_for_mode(None, 7200), 21600);
    assert_eq!(stall_threshold_for_mode(Some("other"), 7200), 21600);
}

fn some_status() -> DaemonStatus {
    DaemonStatus {
        running: true,
        pid: Some(4711),
        uptime_secs: Some(3725),
        last_poll_at: Some(Timestamp { secs: 1_700_000_000, nanos: 0 }),
        repos_watched: Some(5),
        repos_failed_last_poll: Some(0),
        failed_sample: vec![],
        discovery_failed_last_poll: Some(0),
        discovery_failed_sample: vec![],
        db_size_bytes: Some(2048),
        events_today: Some(7),
        health: HealthIndicator::Green,
    }
}

fn measured() -> Measured {
    Measured {
        pid: Some(4711),
        uptime_secs: Some(60),
        db_size_bytes: Some(2048),
        events_today: Some(7),
    }
}

fn snapshot(last_poll_at: Timestamp) -> HealthSnapshot {
    HealthSnapshot {
        last_poll_at,
        poll_mode: "polling".into(),
        repos_watched: 5,
        effective_poll_interval_secs: 7200,
        poll_metrics: Default::default(),
        discovery_metrics: Default::default(),
    }
}

#[test]
fn status_uses_persisted_poll_interval_over_reader_config() {
    let snap = snapshot(ago(chrono::Duration::minutes(25)));
    let state = write_health_snapshot(&snap);
    let status = get_daemon_status(measured(), &state, 1800, now());
    assert_eq!(status.health, HealthIndicator::Green);
    // Two hours ago is beyond three times the reader's interval, but not beyond the daemon's.
    let snap = snapshot(ago(chrono::Duration::hours(2)));
    let state = write_health_snapshot(&snap);
    let status = get_daemon_status(measured(), &state, 1800, now());
    assert_eq!(status.health, HealthIndicator::Green);
    // Without a stored interval the reader's counts.
    let old: Vec<(String, String)> =
        state.into_iter().filter(|(k, _)| k != "effective_poll_interval_secs").collect();
    let status = get_daemon_status(measured(), &old, 1800, now());
    assert_eq!(status.health, HealthIndicator::Red);
}

#[test]
fn snapshot_is_stored_under_eight_keys() {
    let snap = HealthSnapshot {
        last_poll_at: Timestamp { secs: 1_700_000_000, nanos: 123_000_000 },
        poll_mode: "watcher".into(),
        repos_watched: 3,
        effective_poll_interval_secs: 300,
        poll_metrics: PollMetrics {
            failed_paths: (0..7).map(|i| format!("/r/{i}")).collect(),
        },
        discovery_metrics: DiscoveryMetrics {
            failures: vec![("/w".into(), "denied".into())],
        },
    };
    let state = write_health_snapshot(&snap);
    let expected = vec![
        ("last_poll_at", "2023-11-14T22:13:20.123+00:00"),
        ("last_poll_mode", "watcher"),
        ("repos_watched", "3"),
        ("effective_poll_interval_secs", "300"),
        ("last_poll_repos_failed", "7"),
        ("last_poll_failed_sample", "/r/0\n/r/1\n/r/2\n/r/3\n/r/4"),
        ("last_poll_discovery_failed", "1"),
        ("last_poll_discovery_failed_sample", "/w"),
    ];
    let expected: Vec<(String, String)> =
        expected.into_iter().map(|(k, v)| (k.to_string(), v.to_string())).collect();
    assert_eq!(state, expected);
}

#[test]
fn status_reads_back_what_a_snapshot_wrote() {
    let earlier = write_health_snapshot(&snapshot(Timestamp { secs: 5, nanos: 0 }));
    let mut later = snapshot(Timestamp { secs: 1_700_000_000, nanos: 999_999_999 });
    later.poll_mode = "watcher".into();
    later.repos_watched = 2;
    later.poll_metrics.failed_paths = vec!["/a b".into(), "/c".into()];
    later.discovery_metrics.failures = vec![("/d".into(), "gone".into())];
    let mut state = earlier;
    state.extend(write_health_snapshot(&later));
    let probed = read_probed(&state);
    assert_eq!(probed.last_poll_at, Some(later.last_poll_at));
    assert_eq!(probed.repos_watched, Some(2));
    assert_eq!(probed.repos_failed, Some(2));
    assert_eq!(probed.failed_sample, vec!["/a b".to_string(), "/c".to_string()]);
    assert_eq!(probed.discovery_failed, Some(1));
    assert_eq!(probed.discovery_failed_sample, vec!["/d".to_string()]);
    assert_eq!(probed.poll_mode.as_deref(), Some("watcher"));
    assert_eq!(probed.effective_poll_interval_secs, Some(7200));
}

#[test]
fn status_of_an_empty_or_damaged_store_is_unknown() {
    let status = get_daemon_status(measured(), &vec![], 300, now());
    assert_eq!(status.last_poll_at, None);
    assert_eq!(status.repos_watched, None);
    assert_eq!(status.repos_failed_last_poll, None);
    assert!(status.failed_sample.is_empty());
    assert_eq!(status.events_today, Some(7));
    assert_eq!(status.health, HealthIndicator::Yellow);
    let damaged = vec![
        ("last_poll_at".to_string(), "yesterday".to_string()),
        ("repos_watched".to_string(), "-3".to_string()),
        ("last_poll_repos_failed".to_string(), "18446744073709551616".to_string()),
        ("last_poll_failed_sample".to_string(), "/a\n\n/b\r\n".to_string()),
    ];
    let status = get_daemon_status(measured(), &damaged, 300, now());
    assert_eq!(status.last_poll_at, None);
    assert_eq!(status.repos_watched, None);
    assert_eq!(status.repos_failed_last_poll, None);
    assert_eq!(status.failed_sample, vec!["/a".to_string(), "/b".to_string()]);
    // A stopped daemon has no uptime.
    let stopped = Measured { pid: None, ..measured() };
    let status = get_daemon_status(stopped, &vec![], 300, now());
    assert!(!status.running);
    assert_eq!(status.uptime_secs, None);
    assert_eq!(status.health, HealthIndicator::Red);
}

#[test]
fn status_takes_over_what_was_read() {
    let t = now();
    let probed = Probed {
        last_poll_at: Some(t),
        repos_watched: Some(4),
        repos_failed: Some(1),
        failed_sample: vec!["/x".into()],
        discovery_failed: None,
        discovery_failed_sample: vec![],
        poll_mode: Some("watcher".into()),
        effective_poll_interval_secs: None,
    };
    let status = status_from(measured(), probed, 300, t);
    assert_eq!(status.health, HealthIndicator::Yellow);
    assert_eq!(status.uptime_secs, Some(60));
    assert_eq!(status.failed_sample, vec!["/x".to_string()]);
    assert_eq!(status.repos_failed_last_poll, Some(1));
}

#[test]
fn uptime_and_age_in_words() {
    assert_eq!(format_uptime(0), "0s");
    assert_eq!(format_uptime(59), "59s");
    assert_eq!(format_uptime(60), "1m 0s");
    assert_eq!(format_uptime(3599), "59m 59s");
    assert_eq!(format_uptime(3600), "1h 0m");
    assert_eq!(format_uptime(90_061), "25h 1m");
    assert_eq!(format_duration_ago(-5), "0s");
    assert_eq!(format_duration_ago(1), "1s");
    assert_eq!(format_duration_ago(59), "59s");
    assert_eq!(format_duration_ago(60), "1 minute");
    assert_eq!(format_duration_ago(180), "3 minutes");
    assert_eq!(format_duration_ago(3599), "59 minutes");
    assert_eq!(format_duration_ago(3660), "1h 1m");
    assert_eq!(format_duration_ago(7500), "2h 5m");
}

#[test]
fn status_in_words() {
    let t = Timestamp { secs: 1_700_000_125, nanos: 0 };
    let report = render_status_pretty(&some_status(), "2.0", t);
    assert_eq!(report.icon, "\u{2713}");
    assert_eq!(report.label, "Running");
    let lines: Vec<&str> = report.lines.iter().map(|(l, _)| l.as_str()).collect();
    assert_eq!(
        lines,
        vec![
            "  PID:           4711",
            "  Uptime:        1h 2m",
            "  Last poll:     2 minutes ago",
            "  Repos watched: 5",
            "  DB size:       2.0 KB",
            "  Events today:  7",
        ]
    );
    assert!(report.lines.iter().all(|(_, p)| *p == Paint::Plain));
}

#[test]
fn healthy_status_line_by_line() {
    let t = Timestamp { secs: 1_700_000_180, nanos: 0 };
    let status = DaemonStatus {
        pid: Some(12345),
        uptime_secs: Some(8100),
        last_poll_at: Some(Timestamp { secs: 1_700_000_000, nanos: 0 }),
        repos_watched: Some(8),
        db_size_bytes: Some(160_051),
        events_today: Some(42),
        ..some_status()
    };
    let report = render_status_pretty(&status, "156.3", t);
    let mut shown = format!("{} {}\n", report.icon, report.label);
    for (line, _) in &report.lines {
        shown.push_str(line);
        shown.push('\n');
    }
    assert_eq!(
        shown,
        "\u{2713} Running\n  PID:           12345\n  Uptime:        2h 15m\n  Last poll:     3 minutes ago\n  Repos watched: 8\n  DB size:       156.3 KB\n  Events today:  42\n"
    );
}

#[test]
fn failing_status_in_words() {
    let status = DaemonStatus {
        running: true,
        pid: None,
        uptime_secs: None,
        last_poll_at: None,
        repos_watched: None,
        repos_failed_last_poll: Some(3),
        failed_sample: vec!["/a".into(), "/b".into()],
        discovery_failed_last_poll: Some(1),
        discovery_failed_sample: vec![],
        db_size_bytes: None,
        events_today: None,
        health: HealthIndicator::Red,
    };
    let report = render_status_pretty(&status, "", now());
    assert_eq!(report.icon, "\u{2717}");
    assert_eq!(report.label, "Running (watch_dirs unreadable)");
    let expected = vec![
        ("  Last poll:     never".to_string(), Paint::Plain),
        ("  Repos watched: unknown".to_string(), Paint::Plain),
        ("  Poll failures: 3 of 3 — /a, /b".to_string(), Paint::Yellow),
        ("  Discovery failures: 1 watch_dir(s)".to_string(), Paint::Red),
        ("  DB size:       no DB yet".to_string(), Paint::Plain),
        ("  Events today:  0".to_string(), Paint::Plain),
    ];
    assert_eq!(report.lines, expected);
}

#[test]
fn labels_name_the_cause() {
    let mut s = some_status();
    s.health = HealthIndicator::Yellow;
    assert_eq!(status_label(&s), "Running (stale)");
    s.repos_watched = Some(0);
    assert_eq!(status_label(&s), "Running (no repos discovered — check watch_dirs)");
    s.repos_failed_last_poll = Some(1);
    assert_eq!(status_label(&s), "Running (poll failures)");
    s.repos_failed_last_poll = None;
    assert_eq!(status_label(&s), "Running (metrics unknown — restart daemon to enable)");
    s.running = false;
    assert_eq!(status_label(&s), "Stopped");
    s.health = HealthIndicator::Red;
    assert_eq!(status_label(&s), "Stopped");
    s.running = true;
    s.repos_watched = Some(2);
    s.repos_failed_last_poll = Some(2);
    assert_eq!(status_label(&s), "Running (all polls failing)");
}
