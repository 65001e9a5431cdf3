//! Starting, stopping and finding the daemon.

use std::sync::atomic::AtomicBool;
use std::sync::Arc;

use blackbox::daemon::{
    db_file_path, is_daemon_running, parse_pid, pid_file_path, reload_daemon, start_daemon,
    stop_daemon, PidGuard,
};
use blackbox::decimal::IntError;
use blackbox::platform::windows;
use blackbox::platform::{liveness_of_probe, Liveness, PlatformError, Signal};

#[test]
fn process_liveness_reports_unsupported() {
    assert_eq!(windows::is_process_alive(12345), Liveness::Unsupported);
}

#[test]
fn unsupported_liveness_is_not_not_running() {
    assert_ne!(Liveness::Unsupported, Liveness::NotRunning);
}

#[test]
fn send_signal_is_unsupported() {
    let err = windows::send_signal(12345, Signal::Terminate).unwrap_err();
    assert!(err.to_string().contains("not supported"));
}

#[test]
fn start_daemon_is_unsupported() {
    let tmp = tempfile::tempdir().unwrap();
    let dir = tmp.path().to_str().unwrap();
    let err = windows::start_daemon(dir, || -> Result<(), PlatformError> { Ok(()) }).unwrap_err();
    assert!(err.to_string().contains("not supported"));
    assert_ne!(err, PlatformError::SignalsUnsupported);
}

#[test]
fn register_reload_flag_is_no_op() {
    let flag = Arc::new(AtomicBool::new(false));
    assert!(windows::register_reload_flag(flag).is_ok());
}

#[test]
fn a_probe_that_is_sent_finds_the_process_running() {
    assert_eq!(liveness_of_probe(true), Liveness::Running);
    assert_eq!(liveness_of_probe(false), Liveness::NotRunning);
}

#[test]
fn test_pid_file_path() {
    let tmp = tempfile::TempDir::new().unwrap();
    let data_dir = tmp.path().join("data").join("blackbox");
    let path = pid_file_path(data_dir.to_str().unwrap());
    assert!(path.ends_with("blackbox.pid"));
    assert_eq!(std::path::Path::new(&path), data_dir.join("blackbox.pid"));
    let path = pid_file_path("/data/blackbox");
    assert_eq!(path, "/data/blackbox/blackbox.pid");
    assert_eq!(db_file_path("/data/blackbox/"), "/data/blackbox/blackbox.db");
}

#[test]
fn test_is_daemon_running_no_file() {
    let check = is_daemon_running(None, Liveness::Running);
    assert!(check.pid.is_none());
    assert!(!check.remove_pid_file);
}

#[test]
fn test_is_daemon_running_stale_pid() {
    let pid = parse_pid("999999").unwrap();
    let check = is_daemon_running(Some(pid), Liveness::NotRunning);
    assert!(check.pid.is_none(), "Stale PID should return None");
    assert!(check.remove_pid_file, "Stale PID file should be cleaned up");
}

#[test]
fn nonexistent_pid_is_stale_and_cleaned_up() {
    let pid = parse_pid("99999999").unwrap();
    let check = is_daemon_running(Some(pid), Liveness::NotRunning);
    assert!(check.pid.is_none(), "stale PID should return None");
    assert!(check.remove_pid_file, "stale PID file should be removed");
}

#[test]
fn current_process_pid_reports_running() {
    let pid = parse_pid("4711").unwrap();
    let check = is_daemon_running(Some(pid), Liveness::Running);
    assert_eq!(check.pid, Some(4711));
    assert!(!check.remove_pid_file, "PID file must not be removed when process is alive");
}

#[test]
fn unknown_liveness_keeps_the_pid_file() {
    let check = is_daemon_running(Some(7), Liveness::Unsupported);
    assert_eq!(check.pid, Some(7));
    assert!(!check.remove_pid_file);
}

#[test]
fn pid_files_are_read_with_white_space_and_refused_otherwise() {
    assert_eq!(parse_pid(" 42\n"), Ok(42));
    assert_eq!(parse_pid("4294967295"), Ok(4294967295));
    assert_eq!(parse_pid("4294967296"), Err(IntError::PosOverflow));
    assert_eq!(parse_pid(" \n"), Err(IntError::Empty));
    assert_eq!(parse_pid("-1"), Err(IntError::InvalidDigit));
    assert_eq!(parse_pid("12a"), Err(IntError::InvalidDigit));
    for text in ["", "+7", "+", "007", "1e3", "99999999999999999999x", "\u{661}"] {
        let expected = text.parse::<u32>();
        match parse_pid(text) {
            Ok(n) => assert_eq!(expected, Ok(n)),
            Err(e) => assert_eq!(expected.unwrap_err().to_string(), e.message()),
        }
    }
}

#[test]
fn test_stop_when_not_running() {
    let plan = stop_daemon(None);
    assert_eq!(plan.signal, None);
    assert!(!plan.remove_pid_file);
    assert_eq!(plan.message, "Daemon not running");
}

#[test]
fn stopping_and_reloading_a_running_daemon() {
    let plan = stop_daemon(Some(42));
    assert_eq!(plan.signal, Some((42, Signal::Terminate)));
    assert!(plan.remove_pid_file);
    assert_eq!(plan.message, "Daemon stopped (PID 42)");
    let plan = reload_daemon(Some(42));
    assert_eq!(plan.signal, Some((42, Signal::Reload)));
    assert!(!plan.remove_pid_file);
    assert_eq!(plan.message, "Reloading config (PID 42)");
    let plan = reload_daemon(None);
    assert_eq!(plan.signal, None);
    assert_eq!(plan.message, "Daemon not running");
}

#[test]
fn a_second_daemon_is_refused() {
    assert_eq!(start_daemon(None), Ok(()));
    assert_eq!(start_daemon(Some(42)), Err("Daemon already running (PID 42)".to_string()));
}

#[test]
fn pid_guard_writes_pid_file_on_creation() {
    let guard = PidGuard::new("/data", 31337);
    assert_eq!(guard.path, pid_file_path("/data"));
    assert_eq!(parse_pid(&guard.contents), Ok(31337));
}
