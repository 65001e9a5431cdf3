//! The live dashboard.

use blackbox::activity::{active_repo, build_sparkline, latest_timestamp, sort_repos, SortMode};
use blackbox::feed::{
    build_feed, collapse_similar_events, format_session_msg, ActivityEvent, AiSessionInfo, Color,
    FeedEvent, RepoSummary, ReviewInfo,
};
use blackbox::screen::{
    format_time, render_error, render_events_feed, render_feed_event, render_footer,
    render_header, render_repo_table, EventsFeed, Piece, RepoTable,
};
use blackbox::time::{Span, Timestamp, MIN_SECS};
use blackbox::tui::{
    key_wait, refresh_due, App, DaemonCheck, KeyCode, KeyModifiers, Refresh, Startup,
};

fn now() -> Timestamp {
    let dt = chrono::Utc::now();
    Timestamp { secs: dt.timestamp(), nanos: dt.timestamp_subsec_nanos() }
}

fn t(secs: i64) -> Timestamp {
    Timestamp { secs, nanos: 0 }
}

fn minutes(m: i64) -> Span {
    Span { secs: m * 60, nanos: 0 }
}

fn event(timestamp: Timestamp, repo: &str, kind: &str) -> FeedEvent {
    FeedEvent {
        timestamp,
        repo_name: repo.into(),
        event_type: kind.into(),
        branch: None,
        message: None,
        count: 1,
    }
}

fn repo(name: &str, commits: usize, mins: i64, times: &[i64]) -> RepoSummary {
    RepoSummary {
        repo_name: name.into(),
        commits,
        estimated_time: minutes(mins),
        events: times
            .iter()
            .map(|s| ActivityEvent {
                event_type: "commit".into(),
                branch: Some("main".into()),
                message: Some(format!("at {s}")),
                timestamp: t(*s),
            })
            .collect(),
        reviews: vec![],
        ai_sessions: vec![],
    }
}

fn text(pieces: &[Piece]) -> String {
    pieces.iter().map(|p| p.text.as_str()).collect()
}

#[test]
fn test_app_new_defaults() {
    let app = App::new();
    assert!(app.running);
    assert!(!app.daemon_running);
    assert!(app.error.is_none());
    assert!(app.repos.is_empty());
    assert!(app.feed_events.is_empty());
    assert_eq!(app.total_time_mins, 0);
    assert!(app.active_repo.is_none());
    assert_eq!(app.sparkline_data.len(), 16);
    assert_eq!(app.sort_mode, SortMode::Commits);
    assert_eq!(app.session_gap_minutes, 120);
    assert_eq!(app.first_commit_minutes, 30);
}

#[test]
fn test_quit_on_q() {
    let mut app = App::new();
    app.handle_key(KeyCode::Char('q'), KeyModifiers::NONE);
    assert!(!app.running);
}

#[test]
fn test_quit_on_ctrl_c() {
    let mut app = App::new();
    app.handle_key(KeyCode::Char('c'), KeyModifiers::CONTROL);
    assert!(!app.running);
}

#[test]
fn test_other_keys_dont_quit() {
    let mut app = App::new();
    app.handle_key(KeyCode::Char('a'), KeyModifiers::NONE);
    assert!(app.running);
    app.handle_key(KeyCode::Enter, KeyModifiers::NONE);
    assert!(app.running);
    app.handle_key(KeyCode::Char('c'), KeyModifiers::NONE);
    app.handle_key(KeyCode::Char('c'), KeyModifiers::OTHER);
    assert!(app.running);
}

#[test]
fn test_scroll_down_empty() {
    let mut app = App::new();
    app.scroll_down();
    assert!(app.events_state.selected().is_none());
}

#[test]
fn test_scroll_down_with_events() {
    let mut app = App::new();
    app.feed_events = vec![event(now(), "a", "commit"), event(now(), "b", "commit")];
    app.handle_key(KeyCode::Char('j'), KeyModifiers::NONE);
    assert_eq!(app.events_state.selected(), Some(0));
    app.handle_key(KeyCode::Char('j'), KeyModifiers::NONE);
    assert_eq!(app.events_state.selected(), Some(1));
    // Should not go past end
    app.handle_key(KeyCode::Char('j'), KeyModifiers::NONE);
    assert_eq!(app.events_state.selected(), Some(1));
}

#[test]
fn test_scroll_up() {
    let mut app = App::new();
    app.feed_events = vec![event(now(), "a", "commit"), event(now(), "b", "commit")];
    app.events_state.select(Some(1));
    app.handle_key(KeyCode::Char('k'), KeyModifiers::NONE);
    assert_eq!(app.events_state.selected(), Some(0));
    // Should not go below 0
    app.handle_key(KeyCode::Char('k'), KeyModifiers::NONE);
    assert_eq!(app.events_state.selected(), Some(0));
}

#[test]
fn test_arrow_keys_scroll() {
    let mut app = App::new();
    app.feed_events = vec![event(now(), "a", "commit")];
    app.handle_key(KeyCode::Down, KeyModifiers::NONE);
    assert_eq!(app.events_state.selected(), Some(0));
    app.handle_key(KeyCode::Up, KeyModifiers::NONE);
    assert_eq!(app.events_state.selected(), Some(0));
}

#[test]
fn test_feed_event_colors() {
    assert_eq!(event(now(), "", "commit").color(), Color::Green);
    assert_eq!(event(now(), "", "branch_switch").color(), Color::Yellow);
    assert_eq!(event(now(), "", "merge").color(), Color::Blue);
    assert_eq!(event(now(), "", "review").color(), Color::Cyan);
    assert_eq!(event(now(), "", "ai_session").color(), Color::Magenta);
    assert_eq!(event(now(), "", "rebase").color(), Color::White);
}

#[test]
fn test_app_with_error() {
    let mut app = App::new();
    app.error = Some("test error".into());
    assert!(app.error.is_some());
    assert!(app.running);
}

#[test]
fn test_build_sparkline_empty() {
    let n = now();
    let start = Timestamp { secs: n.secs - 8 * 3600, nanos: n.nanos };
    let data = build_sparkline(&vec![], start, n);
    assert_eq!(data.len(), 16);
    assert!(data.iter().all(|&v| v == 0));
}

#[test]
fn test_render_does_not_panic() {
    let app = App::new();
    let header = render_header(&app, "2024-01-01 09:00:00 AM");
    assert_eq!(
        text(&header),
        " blackbox live  2024-01-01 09:00:00 AM  daemon: stopped  no activity  ~0h 0m "
    );
    assert!(render_error(&app).is_none());
    match render_repo_table(&app) {
        RepoTable::Message(m) => assert_eq!(m[1].text, "  No activity recorded today"),
        RepoTable::Rows(_) => panic!("no repositories"),
    }
    match render_events_feed(&app, &vec![]) {
        EventsFeed::Message(m) => assert_eq!(m[1].text, "  No events yet"),
        EventsFeed::Entries(_) => panic!("no events"),
    }
    assert_eq!(
        text(&render_footer(app.sort_mode)),
        " q quit  r refresh  s sort: commits  j/k scroll  \u{2191}/\u{2193} scroll"
    );
}

#[test]
fn test_render_with_error_does_not_panic() {
    let mut app = App::new();
    app.error = Some("Config error: file not found".into());
    let lines = render_error(&app).unwrap();
    assert_eq!(lines.len(), 4);
    assert_eq!(lines[1].text, "  Error: Config error: file not found");
    assert_eq!(lines[1].color, Some(Color::Red));
}

#[test]
fn test_render_with_data_does_not_panic() {
    let mut app = App::new();
    app.repos = vec![repo("test", 5, 90, &[1])];
    app.feed_events = vec![FeedEvent {
        timestamp: now(),
        repo_name: "test".into(),
        event_type: "commit".into(),
        branch: Some("main".into()),
        message: Some("test commit".into()),
        count: 1,
    }];
    app.total_time_mins = 90;
    app.active_repo = Some("test".into());
    let header = render_header(&app, "now");
    assert_eq!(header[3].text, " active: test ");
    assert_eq!(header[4].text, " ~1h 30m ");
    assert!(header[4].bold);
    match render_repo_table(&app) {
        RepoTable::Rows(rows) => assert_eq!(
            rows,
            vec![("test".to_string(), "5".to_string(), "~1h 30m".to_string())]
        ),
        RepoTable::Message(_) => panic!("one repository"),
    }
    match render_events_feed(&app, &vec!["09:00 AM".to_string()]) {
        EventsFeed::Entries(v) => {
            assert_eq!(v.len(), 1);
            assert_eq!(text(&v[0]), "09:00 AM test          commit         [main] test commit");
        }
        EventsFeed::Message(_) => panic!("one event"),
    }
}

#[test]
fn test_render_daemon_running() {
    let mut app = App::new();
    app.daemon_running = true;
    let header = render_header(&app, "now");
    assert_eq!(header[2].text, " daemon: running ");
    assert_eq!(header[2].color, Some(Color::Green));
}

#[test]
fn test_latest_timestamp() {
    let empty = repo("test", 0, 0, &[]);
    let min = chrono::DateTime::<chrono::Utc>::MIN_UTC;
    assert_eq!(latest_timestamp(&empty), t(min.timestamp()));
    assert_eq!(latest_timestamp(&empty).secs, MIN_SECS);
    let mut r = repo("test", 1, 0, &[5, 10]);
    assert_eq!(latest_timestamp(&r), t(10));
    r.reviews.push(ReviewInfo { pr_number: 1, action: "APPROVED".into(), reviewed_at: t(20) });
    assert_eq!(latest_timestamp(&r), t(20));
    r.ai_sessions.push(AiSessionInfo { started_at: t(15), ended_at: None, duration: minutes(0) });
    assert_eq!(latest_timestamp(&r), t(20));
}

#[test]
fn test_format_session_msg_active() {
    let ses = AiSessionInfo { started_at: now(), ended_at: None, duration: minutes(30) };
    assert_eq!(format_session_msg(&ses), "session (active)");
}

#[test]
fn test_format_session_msg_ended() {
    let ses = AiSessionInfo { started_at: now(), ended_at: Some(now()), duration: minutes(45) };
    assert_eq!(format_session_msg(&ses), "session (45m)");
}

#[test]
fn similar_events_collapse_within_five_minutes() {
    let events = vec![
        event(t(1000), "a", "commit"),
        event(t(800), "a", "commit"),
        event(t(700), "a", "commit"),
        // More than five minutes before the newest of the run.
        event(t(699), "a", "commit"),
        event(t(698), "b", "commit"),
        event(t(697), "a", "commit"),
    ];
    let r = collapse_similar_events(events);
    let seen: Vec<(i64, &str, usize)> =
        r.iter().map(|e| (e.timestamp.secs, e.repo_name.as_str(), e.count)).collect();
    assert_eq!(seen, vec![(1000, "a", 3), (699, "a", 1), (698, "b", 1), (697, "a", 1)]);
    let total: usize = r.iter().map(|e| e.count).sum();
    assert_eq!(total, 6);
    // Collapsing once is enough.
    let again = collapse_similar_events(r.clone());
    let kept: Vec<(i64, usize)> = r.iter().map(|e| (e.timestamp.secs, e.count)).collect();
    let settled: Vec<(i64, usize)> = again.iter().map(|e| (e.timestamp.secs, e.count)).collect();
    assert_eq!(settled, kept);
    assert!(collapse_similar_events(vec![]).is_empty());
}

#[test]
fn messages_and_types_keep_events_apart() {
    let mut b = event(t(99), "a", "commit");
    b.message = Some("x".into());
    let events = vec![event(t(100), "a", "commit"), b, event(t(98), "a", "merge")];
    assert_eq!(collapse_similar_events(events).len(), 3);
}

#[test]
fn the_feed_is_newest_first_and_bounded() {
    let times: Vec<i64> = (0..60).map(|i| i * 1000).collect();
    let mut r = repo("a", 60, 0, &times);
    r.reviews.push(ReviewInfo { pr_number: 7, action: "APPROVED".into(), reviewed_at: t(99_999) });
    r.ai_sessions.push(AiSessionInfo {
        started_at: t(99_998),
        ended_at: Some(t(99_999)),
        duration: Span { secs: 59, nanos: 0 },
    });
    let (feed, total) = build_feed(&vec![r]);
    assert_eq!(total, 62);
    assert_eq!(feed.len(), 50);
    assert_eq!(feed[0].event_type, "review");
    assert_eq!(feed[0].message.as_deref(), Some("APPROVED PR #7"));
    assert_eq!(feed[1].message.as_deref(), Some("session (0m)"));
    assert_eq!(feed[2].timestamp, t(59_000));
    for i in 1..feed.len() {
        assert!(!feed[i - 1].timestamp.is_before(&feed[i].timestamp));
    }
}

#[test]
fn repositories_are_sorted_by_mode() {
    let make = || {
        vec![
            repo("x", 1, 50, &[100]),
            repo("y", 3, 10, &[300]),
            repo("z", 3, 90, &[200]),
        ]
    };
    let names = |v: Vec<RepoSummary>| -> Vec<String> {
        v.into_iter().map(|r| r.repo_name).collect()
    };
    assert_eq!(names(sort_repos(make(), SortMode::Recent)), vec!["y", "z", "x"]);
    assert_eq!(names(sort_repos(make(), SortMode::Time)), vec!["z", "x", "y"]);
    // Those on a par keep their order.
    assert_eq!(names(sort_repos(make(), SortMode::Commits)), vec!["y", "z", "x"]);
    assert_eq!(active_repo(&make()), Some("y".to_string()));
    // Of several with the same time the last is the active one.
    let par = vec![repo("p", 0, 0, &[5]), repo("q", 0, 0, &[5]), repo("r", 0, 0, &[4])];
    assert_eq!(active_repo(&par), Some("q".to_string()));
    assert_eq!(active_repo(&vec![]), None);
}

#[test]
fn sort_modes_rotate() {
    assert_eq!(SortMode::Recent.next(), SortMode::Time);
    assert_eq!(SortMode::Time.next(), SortMode::Commits);
    assert_eq!(SortMode::Commits.next(), SortMode::Recent);
    assert_eq!(SortMode::Recent.label(), "recent");
    assert_eq!(SortMode::Time.label(), "time");
    assert_eq!(SortMode::Commits.label(), "commits");
}

#[test]
fn the_sparkline_counts_by_half_hours() {
    let n = t(1_000_000);
    let start = n.secs - 28800;
    let r = repo(
        "a",
        0,
        0,
        &[start - 1, start, start + 1799, start + 1800, start + 28799, start + 28800],
    );
    let data = build_sparkline(&vec![r], t(0), n);
    assert_eq!(data[0], 2);
    assert_eq!(data[1], 1);
    assert_eq!(data[15], 1);
    assert_eq!(data.iter().sum::<u64>(), 4);
    // A day that began less than eight hours ago counts from its start.
    let r = repo("a", 0, 0, &[start, start + 7200]);
    let data = build_sparkline(&vec![r], t(start + 7200), n);
    assert_eq!(data[0], 1);
    assert_eq!(data.iter().sum::<u64>(), 1);
}

#[test]
fn refreshing_takes_up_all_data() {
    let mut app = App::new();
    app.refresh_data(
        vec![repo("x", 1, 50, &[999_000]), repo("y", 3, 10, &[998_000])],
        minutes(61),
        t(900_000),
        t(1_000_000),
    );
    assert_eq!(app.active_repo.as_deref(), Some("x"));
    assert_eq!(app.repos[0].repo_name, "y");
    assert_eq!(app.feed_events.len(), 2);
    assert_eq!(app.feed_events[0].repo_name, "x");
    assert_eq!(app.total_time_mins, 61);
    assert_eq!(app.sparkline_data.iter().sum::<u64>(), 2);
    assert!(app.running);
}

#[test]
fn repositories_with_impossible_times_are_told_apart() {
    let mut r = repo("x", 1, 50, &[1, 2]);
    assert!(r.is_valid());
    r.events[1].timestamp.nanos = 1_500_000_000;
    assert!(!r.is_valid());
    let mut r = repo("x", 1, 50, &[]);
    r.reviews.push(ReviewInfo { pr_number: 1, action: "x".into(), reviewed_at: t(i64::MAX) });
    assert!(!r.is_valid());
    let mut r = repo("x", 1, 50, &[]);
    let duration = Span { secs: 0, nanos: u32::MAX };
    r.ai_sessions.push(AiSessionInfo { started_at: t(0), ended_at: None, duration });
    assert!(!r.is_valid());
    let mut r = repo("x", 1, 50, &[]);
    r.estimated_time = Span { secs: i64::MIN, nanos: 0 };
    assert!(!r.is_valid());
}

#[test]
fn keys_tell_what_to_read_anew() {
    let mut app = App::new();
    assert_eq!(app.handle_key(KeyCode::Char('r'), KeyModifiers::NONE), Refresh::DataAndDaemon);
    assert_eq!(app.sort_mode, SortMode::Commits);
    assert_eq!(app.handle_key(KeyCode::Char('s'), KeyModifiers::NONE), Refresh::Data);
    assert_eq!(app.sort_mode, SortMode::Recent);
    assert_eq!(app.handle_key(KeyCode::Other, KeyModifiers::NONE), Refresh::Nothing);
}

#[test]
fn the_daemon_is_found_by_pid_or_as_a_service() {
    let mut app = App::new();
    app.refresh_daemon_status(DaemonCheck::Running, false);
    assert!(app.daemon_running);
    app.refresh_daemon_status(DaemonCheck::NotRunning, false);
    assert!(!app.daemon_running);
    app.refresh_daemon_status(DaemonCheck::NoDataDir, true);
    assert!(app.daemon_running);
    assert!(app.error.is_none());
    app.refresh_daemon_status(DaemonCheck::Failed("bad pid".into()), false);
    assert!(!app.daemon_running);
    assert_eq!(app.error.as_deref(), Some("Daemon status error: bad pid"));
}

#[test]
fn startup_failures_are_shown() {
    let mut app = App::new();
    app.configure(Startup::ConfigFailed("no file".into()));
    assert_eq!(app.error.as_deref(), Some("Config error: no file"));
    assert_eq!(app.session_gap_minutes, 120);
    let mut app = App::new();
    app.configure(Startup::DataDirFailed {
        session_gap_minutes: 60,
        first_commit_minutes: 10,
        error: "none".into(),
    });
    assert_eq!(app.error.as_deref(), Some("Data dir error: none"));
    assert_eq!(app.session_gap_minutes, 60);
    let mut app = App::new();
    app.configure(Startup::DbFailed {
        session_gap_minutes: 60,
        first_commit_minutes: 10,
        error: "locked".into(),
    });
    assert_eq!(app.error.as_deref(), Some("DB error: locked"));
    assert!(app.db_path.is_none());
    let mut app = App::new();
    app.configure(Startup::Ready {
        session_gap_minutes: 60,
        first_commit_minutes: 10,
        db_path: "/d/blackbox.db".into(),
    });
    assert!(app.error.is_none());
    assert_eq!(app.db_path.as_deref(), Some("/d/blackbox.db"));
    assert_eq!(app.first_commit_minutes, 10);
}

#[test]
fn long_messages_are_cut_and_counts_shown() {
    let mut ev = event(t(0), "a-very-long-repository", "merge");
    ev.message = Some("x".repeat(41));
    ev.count = 3;
    let line = render_feed_event(&ev, "01:00 PM");
    assert_eq!(line[1].text, "a-very-long-repository");
    assert_eq!(line[2].text, "merge         ");
    assert_eq!(line[2].color, Some(Color::Blue));
    assert_eq!(line[3].text, "");
    assert_eq!(line[4].text, format!(" {}\u{2026}", "x".repeat(40)));
    assert_eq!(line[5].text, " (x3)");
    ev.message = Some("y".repeat(40));
    assert_eq!(render_feed_event(&ev, "")[4].text, format!(" {}", "y".repeat(40)));
}

#[test]
fn times_in_words() {
    assert_eq!(format_time(0), "~0m");
    assert_eq!(format_time(59), "~59m");
    assert_eq!(format_time(60), "~1h 0m");
    for m in [i64::MIN, -61, -1, 0, 1, 61, i64::MAX] {
        let (h, r) = (m / 60, m % 60);
        let expected = if h > 0 { format!("~{h}h {r}m") } else { format!("~{r}m") };
        assert_eq!(format_time(m), expected);
    }
}

#[test]
fn refreshes_come_every_second() {
    assert_eq!(key_wait(0), 1_000_000_000);
    assert_eq!(key_wait(999_999_999), 1);
    assert_eq!(key_wait(2_000_000_000), 0);
    assert!(!refresh_due(999_999_999));
    assert!(refresh_due(1_000_000_000));
}
