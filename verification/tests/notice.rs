//! The daily notification.

use blackbox::config::Config;
use blackbox::notifications::{
    begin_daily_notification, continue_daily_notification, notification_kind, notification_title,
    parse_notification_time, NoticeEnd, NoticeEvent, NoticePhase, SentBefore, Summary, TimeError,
};

fn test_config(enabled: bool, time: &str) -> Config {
    Config {
        watch_dirs: vec![],
        poll_interval_secs: 300,
        worktree_dir_name: None,
        notifications_enabled: enabled,
        notification_time: time.to_string(),
        session_gap_minutes: 120,
        first_commit_minutes: 30,
    }
}

/// Runs the notification with these answers. Returns what was sent, whether it was
/// recorded, and how it ended.
fn run(
    config: &Config,
    available: bool,
    clock: u32,
    sent: SentBefore,
    summary: Option<&str>,
) -> (Option<String>, bool, NoticeEnd) {
    let mut shown = None;
    let mut recorded = false;
    let mut phase = begin_daily_notification(config);
    loop {
        let event = match &phase {
            NoticePhase::CheckAvailable => NoticeEvent::Available(available),
            NoticePhase::ReadClock => NoticeEvent::Clock(clock),
            NoticePhase::CheckSent => NoticeEvent::SentBefore(sent),
            NoticePhase::BuildSummary => NoticeEvent::Summary(match summary {
                Some(s) => Summary::Text(s.to_string()),
                None => Summary::Nothing,
            }),
            NoticePhase::Send(body) => {
                shown = Some(body.clone());
                NoticeEvent::Done
            }
            NoticePhase::Record => {
                recorded = true;
                NoticeEvent::Done
            }
            NoticePhase::Ended(end) => return (shown, recorded, *end),
        };
        phase = continue_daily_notification(config, phase, event);
    }
}

const NOON: u32 = 12 * 3600;

#[test]
fn notification_disabled_no_db_write() {
    let config = test_config(false, "00:01");
    let (shown, recorded, end) = run(&config, true, NOON, SentBefore::No, Some("3 commits"));
    assert_eq!(shown, None);
    assert!(!recorded);
    assert_eq!(end, NoticeEnd::Disabled);
}

#[test]
fn notification_future_time_no_db_write() {
    let config = test_config(true, "23:59");
    let (shown, recorded, end) = run(&config, true, NOON, SentBefore::No, Some("3 commits"));
    assert_eq!(shown, None);
    assert!(!recorded);
    assert_eq!(end, NoticeEnd::TooEarly);
}

#[test]
fn notification_past_time_no_activity_no_db_write() {
    let config = test_config(true, "00:01");
    let (shown, recorded, end) = run(&config, true, NOON, SentBefore::No, None);
    assert_eq!(shown, None);
    assert!(!recorded);
    assert_eq!(end, NoticeEnd::NothingToSay);
}

#[test]
fn notification_already_sent_idempotent() {
    let config = test_config(true, "00:01");
    let (shown, recorded, end) = run(&config, true, NOON, SentBefore::Yes, Some("3 commits"));
    assert_eq!(shown, None);
    assert!(!recorded);
    assert_eq!(end, NoticeEnd::AlreadySent);
}

#[test]
fn notification_is_sent_and_recorded_when_due() {
    let config = test_config(true, "12:00");
    let (shown, recorded, end) = run(&config, true, NOON, SentBefore::No, Some("3 commits"));
    assert_eq!(shown.as_deref(), Some("3 commits"));
    assert!(recorded);
    assert_eq!(end, NoticeEnd::Recorded);
    let (_, _, end) = run(&config, true, NOON - 1, SentBefore::No, Some("3 commits"));
    assert_eq!(end, NoticeEnd::TooEarly);
    let (_, _, end) = run(&config, false, NOON, SentBefore::No, Some("3 commits"));
    assert_eq!(end, NoticeEnd::Unavailable);
    let (_, _, end) = run(&config, true, NOON, SentBefore::Failed, Some("3 commits"));
    assert_eq!(end, NoticeEnd::RecordUnreadable);
    assert_eq!(notification_title(), "Blackbox Daily Summary");
    assert_eq!(notification_kind(), "daily_summary");
}

#[test]
fn notification_times_are_checked() {
    assert_eq!(parse_notification_time("09:05"), Ok(32700));
    assert_eq!(parse_notification_time("9:5"), Ok(32700));
    assert_eq!(parse_notification_time("00:00"), Ok(0));
    assert_eq!(parse_notification_time("23:59"), Ok(86340));
    assert_eq!(parse_notification_time("24:00"), Err(TimeError::OutOfRange));
    assert_eq!(parse_notification_time("12:60"), Err(TimeError::OutOfRange));
    assert_eq!(parse_notification_time("12"), Err(TimeError::BadFormat));
    assert_eq!(parse_notification_time("12:00:00"), Err(TimeError::BadFormat));
    assert_eq!(parse_notification_time(""), Err(TimeError::BadFormat));
    assert_eq!(parse_notification_time("x:00"), Err(TimeError::BadHour));
    assert_eq!(parse_notification_time(" 9:00"), Err(TimeError::BadHour));
    assert_eq!(parse_notification_time("12:"), Err(TimeError::BadMinute));
    assert_eq!(
        TimeError::BadFormat.message("nine"),
        "Invalid notification_time format 'nine': expected HH:MM"
    );
    assert_eq!(TimeError::BadHour.message("x:1"), "Invalid notification_time 'x:1': bad hour");
    assert_eq!(TimeError::BadMinute.message("1:x"), "Invalid notification_time '1:x': bad minute");
    assert_eq!(
        TimeError::OutOfRange.message("24:00"),
        "Invalid notification_time '24:00': out of range"
    );
    let config = test_config(true, "nine");
    let (_, _, end) = run(&config, true, NOON, SentBefore::No, Some("3 commits"));
    assert_eq!(end, NoticeEnd::BadTime(TimeError::BadFormat));
    for h in 0..26 {
        for m in [0, 1, 59, 60] {
            let text = format!("{h:02}:{m:02}");
            let known = chrono::NaiveTime::from_hms_opt(h, m, 0).is_some();
            assert_eq!(parse_notification_time(&text).is_ok(), known);
        }
    }
}

#[test]
fn a_failed_summary_ends_the_matter() {
    let config = test_config(true, "00:01");
    let phase = continue_daily_notification(
        &config,
        NoticePhase::BuildSummary,
        NoticeEvent::Summary(Summary::Failed),
    );
    assert!(matches!(phase, NoticePhase::Ended(NoticeEnd::SummaryFailed)));
    let phase = continue_daily_notification(&config, phase, NoticeEvent::Done);
    assert!(matches!(phase, NoticePhase::Ended(NoticeEnd::SummaryFailed)));
}
