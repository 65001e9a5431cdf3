//! Sessions of an AI coding tool.

use blackbox::claude_tracking::{
    count_turns, encode_project_path, find_session_log, is_process_running, is_session_file_name,
    map_to_repo, millis_to_rfc3339, mtime_rfc3339, process_of, read_turn_timestamps,
    session_log_name, session_start, sorted_times, turn_timestamp, SessionFile,
};
use blackbox::platform::Liveness;
use blackbox::session_poll::{session_dirs, SessionEvent, SessionPhase, SessionPoll};
use blackbox::time::Timestamp;

fn t(secs: i64) -> Timestamp {
    Timestamp { secs, nanos: 0 }
}

#[test]
fn project_paths_are_encoded() {
    assert_eq!(
        encode_project_path("/Users/brent.guistwite/repo"),
        "-Users-brent-guistwite-repo"
    );
    assert_eq!(encode_project_path("a_b \u{e9}Z9"), "a-b--Z9");
    let once = encode_project_path("/x/y-1");
    assert_eq!(encode_project_path(&once), once);
}

#[test]
fn logs_are_found_by_directory_and_session() {
    assert_eq!(session_log_name("abc"), "abc.jsonl");
    assert_eq!(find_session_log("/p", "/home/me/r", "abc"), "/p/-home-me-r/abc.jsonl");
}

#[test]
fn session_files_have_the_json_extension() {
    for name in ["a.json", ".json", "json", "a.jsonl", "a.JSON", "..json", "a.b.json", "a."] {
        let expected = std::path::Path::new(name).extension().is_some_and(|e| e == "json");
        assert_eq!(is_session_file_name(name), expected, "{name}");
    }
}

#[test]
fn processes_are_told_apart_from_unknown_ones() {
    assert_eq!(is_process_running(Liveness::Running), Some(true));
    assert_eq!(is_process_running(Liveness::NotRunning), Some(false));
    assert_eq!(is_process_running(Liveness::Unsupported), None);
    assert_eq!(process_of(4711), 4711);
    assert_eq!(process_of((1 << 32) + 5), 5);
}

#[test]
fn sessions_are_booked_on_watched_repositories() {
    let repos = vec!["/w/a".to_string(), "/w".to_string()];
    assert_eq!(map_to_repo("/w/a/src", false, &repos), Some("/w/a".to_string()));
    assert_eq!(map_to_repo("/w/a", false, &repos), Some("/w/a".to_string()));
    assert_eq!(map_to_repo("/w/ab", false, &repos), Some("/w".to_string()));
    assert_eq!(map_to_repo("/other", false, &repos), Some("/other".to_string()));
    assert_eq!(map_to_repo("/w/a", true, &repos), None);
}

#[test]
fn start_times_are_written_in_rfc3339() {
    for millis in [0u64, 1_700_000_000_123, 999, u64::MAX, 1 << 63, i64::MAX as u64] {
        let expected = chrono::DateTime::from_timestamp_millis(millis as i64)
            .unwrap_or_default()
            .to_rfc3339();
        assert_eq!(millis_to_rfc3339(millis), expected);
    }
    assert_eq!(millis_to_rfc3339(1_700_000_000_123), "2023-11-14T22:13:20.123+00:00");
    assert_eq!(session_start(1_700_000_000_123), Timestamp { secs: 1_700_000_000, nanos: 123_000_000 });
    // Beyond the calendar the start of 1970 stands in.
    assert_eq!(session_start(i64::MAX as u64), t(0));
    assert_eq!(mtime_rfc3339(&t(1)), "1970-01-01T00:00:01+00:00");
}

#[test]
fn turns_are_lines_that_are_not_blank() {
    assert_eq!(count_turns(""), 0);
    assert_eq!(count_turns("a\n\n  \t\nb\r\n\u{a0}\nc"), 3);
}

const LOG: &str = "{\"timestamp\":\"2024-01-02T00:00:00Z\",\"n\":1}\n\
     not json\n\
     \n\
     {\"timestamp\":5}\n\
     [\"timestamp\"]\n\
     {\"other\":\"2024-01-02T00:00:00Z\"}\n\
     {\"timestamp\":\"yesterday\"}\n\
     \x20 {\"timestamp\":\"2024-01-01T01:00:00+01:00\"}  \n\
     {\"timestamp\":\"2024-01-02T00:00:00Z\"}";

#[test]
fn turn_times_are_read_and_sorted() {
    let times = read_turn_timestamps(&Some(LOG.to_string()));
    assert_eq!(times, vec![t(1_704_067_200), t(1_704_153_600), t(1_704_153_600)]);
    assert!(read_turn_timestamps(&None).is_empty());
    assert_eq!(turn_timestamp("{\"timestamp\":\"1970-01-01T00:00:10.5Z\"}"),
        Some(Timestamp { secs: 10, nanos: 500_000_000 }));
    assert_eq!(turn_timestamp("   "), None);
    assert_eq!(sorted_times(&vec![Some(t(3)), None, Some(t(1)), Some(t(2))]), vec![t(1), t(2), t(3)]);
}

#[test]
fn directories_default_to_the_home_directory() {
    assert_eq!(
        session_dirs("/home/me", ".tool", None, None),
        ("/home/me/.tool/sessions".to_string(), "/home/me/.tool/projects".to_string())
    );
    assert_eq!(
        session_dirs("/home/me", ".tool", Some("/s".into()), Some("/p".into())),
        ("/s".to_string(), "/p".to_string())
    );
}

fn file(pid: u64, id: &str, cwd: &str) -> SessionFile {
    SessionFile { pid, session_id: id.into(), cwd: cwd.into(), started_at: 1000 }
}

#[test]
fn one_poll_of_sessions() {
    let files = vec![file(1, "a", "/w/x"), file(2, "tmp", "/tmp/t"), file(3, "a", "/w/y")];
    let mut poll = SessionPoll::new(files, vec!["/w".into()], "/p".into());
    assert_eq!(poll.phase, SessionPhase::AskEphemeral(0));
    poll.step(SessionEvent::Ephemeral(false));
    assert_eq!(poll.phase, SessionPhase::Insert(0));
    let record = poll.record(0, "some-tool");
    assert_eq!(record.tool, "some-tool");
    assert_eq!(record.repo_path, "/w");
    assert_eq!(record.session_id, "a");
    assert_eq!(record.started_at, "1970-01-01T00:00:01+00:00");
    poll.step(SessionEvent::Done);
    // An ephemeral session is not recorded.
    poll.step(SessionEvent::Ephemeral(true));
    assert_eq!(poll.phase, SessionPhase::AskEphemeral(2));
    poll.step(SessionEvent::Ephemeral(false));
    poll.step(SessionEvent::Done);
    assert_eq!(poll.phase, SessionPhase::ReadLogTime(0));
    assert_eq!(poll.log_path_of_file(0), "/p/-w-x/a.jsonl");
    poll.step(SessionEvent::LogTime(Some(t(9))));
    assert_eq!(poll.phase, SessionPhase::Touch(0, t(9)));
    poll.step(SessionEvent::Done);
    poll.step(SessionEvent::LogTime(None));
    poll.step(SessionEvent::LogTime(None));
    assert_eq!(poll.phase, SessionPhase::ListActive);
    let ids = vec!["unknown".to_string(), "a".to_string(), "tmp".to_string()];
    poll.step(SessionEvent::Active(Some(ids)));
    // A session without a file stays open; the last file names the process, the first the
    // directory.
    assert_eq!(poll.phase, SessionPhase::Probe(1));
    assert_eq!(poll.active_process(0), None);
    assert_eq!(poll.active_process(1), Some(3));
    poll.step(SessionEvent::Probed(Liveness::NotRunning));
    assert_eq!(poll.phase, SessionPhase::ReadLog(1));
    assert_eq!(poll.active_log_path(1), Some("/p/-w-x/a.jsonl".to_string()));
    assert_eq!(poll.active_log_path(0), None);
    poll.step(SessionEvent::LogRead(Some("one\ntwo\n\n".into())));
    assert_eq!(poll.phase, SessionPhase::MarkEnded(1, Some(2)));
    poll.step(SessionEvent::Done);
    // Where nothing can be told of the process, the session stays open.
    assert_eq!(poll.phase, SessionPhase::Probe(2));
    poll.step(SessionEvent::Probed(Liveness::Unsupported));
    assert_eq!(poll.phase, SessionPhase::Finished);
}

#[test]
fn polls_without_files_or_lists_end() {
    let mut poll = SessionPoll::new(vec![], vec![], "/p".into());
    assert_eq!(poll.phase, SessionPhase::ListActive);
    poll.step(SessionEvent::Active(None));
    assert_eq!(poll.phase, SessionPhase::Finished);
    let mut poll = SessionPoll::new(vec![file(1, "a", "/x")], vec![], "/p".into());
    poll.step(SessionEvent::Ephemeral(true));
    poll.step(SessionEvent::LogTime(None));
    poll.step(SessionEvent::Active(Some(vec!["a".into()])));
    poll.step(SessionEvent::Probed(Liveness::NotRunning));
    poll.step(SessionEvent::LogRead(None));
    assert_eq!(poll.phase, SessionPhase::MarkEnded(0, None));
}
