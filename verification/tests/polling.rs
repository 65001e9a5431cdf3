//! Tracked repositories, failures, and the poll loop.

use blackbox::config::Config;
use blackbox::path_set::PathSet;
use blackbox::poll_loop::{Batch, LoopEvent, Phase, PollLoop, ScanReason};
use blackbox::poller::{
    git_pointer_path, gone_worktrees, is_definitely_stale_worktree, metrics_from_set,
    probe_watch_dirs, prune_repo_states, record_repo_outcome, remove_stale_worktrees,
    write_discovery_metrics, write_poll_metrics, DiscoveryMetrics, PollMetrics, Presence,
    RepoStates,
};
use blackbox::time::Timestamp;

fn strings(v: &[&str]) -> Vec<String> {
    v.iter().map(|s| s.to_string()).collect()
}

fn presence(path: &std::path::Path) -> Presence {
    match path.try_exists() {
        Ok(true) => Presence::Present,
        Ok(false) => Presence::Absent,
        Err(_) => Presence::Unknown,
    }
}

fn states(paths: &[&str]) -> RepoStates<u32> {
    let mut s = RepoStates::new();
    for (i, p) in paths.iter().enumerate() {
        s.ensure_state(p, false, None, i as u32);
    }
    s
}

#[test]
fn prune_repo_states_evicts_missing_paths() {
    let mut states = states(&["/a", "/b", "/c"]);
    let current = strings(&["/a", "/c"]);
    let evicted = prune_repo_states(&mut states, &current, &vec![]);
    assert_eq!(evicted, strings(&["/b"]));
    assert_eq!(states.len(), 2);
    assert!(states.contains_key("/a"));
    assert!(states.contains_key("/c"));
    assert!(!states.contains_key("/b"));
}

#[test]
fn prune_repo_states_keeps_present_paths() {
    let mut states = states(&["/a"]);
    let evicted = prune_repo_states(&mut states, &strings(&["/a"]), &vec![]);
    assert!(evicted.is_empty());
    assert_eq!(states.len(), 1);
}

#[test]
fn prune_repo_states_evicts_all_when_current_empty() {
    let mut states = states(&["/a", "/b"]);
    let evicted = prune_repo_states(&mut states, &vec![], &vec![]);
    assert_eq!(evicted.len(), 2);
    assert_eq!(states.len(), 0);
}

#[test]
fn prune_returns_evicted_paths_for_failed_set_sync() {
    let mut states = states(&["/gone", "/here"]);
    let mut failed_set = PathSet::new();
    failed_set.insert("/gone");
    failed_set.insert("/here");

    let evicted = prune_repo_states(&mut states, &strings(&["/here"]), &vec![]);
    for p in &evicted {
        failed_set.remove(p);
    }

    assert_eq!(failed_set.len(), 1);
    assert!(failed_set.contains("/here"));
    assert!(!failed_set.contains("/gone"));
}

#[test]
fn prune_skips_repos_under_unreliable_root() {
    let mut states = states(&["/work/repo-a", "/work/repo-b", "/personal/old"]);
    let evicted = prune_repo_states(&mut states, &vec![], &strings(&["/work"]));
    assert_eq!(evicted, strings(&["/personal/old"]));
    assert!(states.contains_key("/work/repo-a"));
    assert!(states.contains_key("/work/repo-b"));
    assert!(!states.contains_key("/personal/old"));
}

#[test]
fn prune_keeps_worktree_state_when_dot_git_unreadable() {
    let wt = "/Users/me/wt-feature";
    {
        let mut states = states(&[wt]);
        let evicted = prune_repo_states(&mut states, &vec![], &vec![git_pointer_path(wt)]);
        assert!(!evicted.is_empty());
    }
    let mut states = states(&[wt]);
    let evicted = prune_repo_states(&mut states, &vec![], &strings(&[wt]));
    assert!(evicted.is_empty());
    assert!(states.contains_key(wt));
}

#[test]
fn prune_unreliable_root_exact_match_kept() {
    let mut states = states(&["/work"]);
    let evicted = prune_repo_states(&mut states, &vec![], &strings(&["/work"]));
    assert!(evicted.is_empty());
    assert!(states.contains_key("/work"));
}

#[test]
fn pruning_goes_by_path_components() {
    let mut states = states(&["/work/repo", "/workshop/x", "/a//b/./c"]);
    let evicted =
        prune_repo_states(&mut states, &strings(&["/a/b/c/"]), &strings(&["/work/"]));
    assert_eq!(evicted, strings(&["/workshop/x"]));
    assert_eq!(*states.cursor_mut("/a/b/c").unwrap(), 2);
}

#[test]
fn is_definitely_stale_worktree_path_missing_returns_true() {
    let tmp = tempfile::tempdir().unwrap();
    let missing = tmp.path().join("never_existed");
    let git = git_pointer_path(missing.to_str().unwrap());
    assert!(is_definitely_stale_worktree(presence(&missing), presence(git.as_ref())));
    assert!(is_definitely_stale_worktree(Presence::Absent, Presence::Unknown));
}

#[test]
fn is_definitely_stale_worktree_dot_git_missing_returns_true() {
    let tmp = tempfile::tempdir().unwrap();
    let git = git_pointer_path(tmp.path().to_str().unwrap());
    assert_eq!(presence(tmp.path()), Presence::Present);
    assert!(is_definitely_stale_worktree(presence(tmp.path()), presence(git.as_ref())));
    assert!(is_definitely_stale_worktree(Presence::Present, Presence::Absent));
}

#[test]
fn is_definitely_stale_worktree_dot_git_present_returns_false() {
    assert!(!is_definitely_stale_worktree(Presence::Present, Presence::Present));
}

#[test]
fn is_definitely_stale_worktree_permission_denied_returns_false() {
    assert!(!is_definitely_stale_worktree(Presence::Unknown, Presence::Unknown));
    assert!(!is_definitely_stale_worktree(Presence::Present, Presence::Unknown));
    assert!(!is_definitely_stale_worktree(Presence::Unknown, Presence::Absent));
    assert!(!is_definitely_stale_worktree(Presence::Unknown, Presence::Present));
}

#[test]
fn only_worktrees_that_are_gone_are_removed() {
    let mut states: RepoStates<u32> = RepoStates::new();
    states.ensure_state("/repo", false, None, 1);
    states.ensure_state("/wt/a", true, Some("/repo".into()), 2);
    states.ensure_state("/wt/b", true, Some("/repo".into()), 3);
    // A worktree that could not be resolved is booked on itself.
    states.ensure_state("/wt/c", true, None, 4);
    assert_eq!(states.main_repo_path("/wt/a/"), Some("/repo".to_string()));
    assert_eq!(states.main_repo_path("/wt/c"), Some("/wt/c".to_string()));
    assert_eq!(states.main_repo_path("/none"), None);
    let worktrees = states.worktree_paths();
    assert_eq!(worktrees, strings(&["/wt/a", "/wt/b"]));
    let gone = gone_worktrees(
        &worktrees,
        &vec![(Presence::Present, Presence::Absent), (Presence::Unknown, Presence::Unknown)],
    );
    assert_eq!(gone, strings(&["/wt/a"]));
    let stale = remove_stale_worktrees(&mut states, &strings(&["/wt/a", "/repo", "/wt/c"]));
    assert_eq!(stale, strings(&["/wt/a"]));
    assert_eq!(states.len(), 3);
}

#[test]
fn a_path_is_tracked_once_and_keeps_its_cursor() {
    let mut states: RepoStates<u32> = RepoStates::new();
    states.ensure_state("/a", false, None, 1);
    *states.cursor_mut("/a").unwrap() = 9;
    states.ensure_state("/a/", true, Some("/b".into()), 5);
    assert_eq!(states.len(), 1);
    assert_eq!(*states.cursor_mut("/a").unwrap(), 9);
    assert_eq!(states.main_repo_path("/a"), Some("/a".to_string()));
    assert!(states.cursor_mut("/x").is_none());
}

#[test]
fn outcomes_are_recorded_and_metrics_sorted() {
    let mut failed = PathSet::new();
    record_repo_outcome(&mut failed, "/b", true);
    record_repo_outcome(&mut failed, "/a/z", true);
    record_repo_outcome(&mut failed, "/a b", true);
    record_repo_outcome(&mut failed, "/b/", true);
    assert_eq!(failed.len(), 3);
    // Paths are ordered by components: "/a/z" before "/a b".
    assert_eq!(metrics_from_set(&failed).failed_paths, strings(&["/a/z", "/a b", "/b"]));
    record_repo_outcome(&mut failed, "/b", false);
    record_repo_outcome(&mut failed, "/unknown", false);
    assert_eq!(metrics_from_set(&failed).failed_paths, strings(&["/a/z", "/a b"]));
    let mut paths: Vec<std::path::PathBuf> =
        ["/b", "/a/z", "/a b"].iter().map(std::path::PathBuf::from).collect();
    paths.sort();
    assert_eq!(paths[0], std::path::PathBuf::from("/a/z"));
}

#[test]
fn metrics_are_written_with_a_bounded_sample() {
    let metrics = PollMetrics { failed_paths: strings(&["/1", "/2", "/3", "/4", "/5", "/6"]) };
    assert_eq!(
        write_poll_metrics(&metrics),
        vec![
            ("last_poll_repos_failed".to_string(), "6".to_string()),
            ("last_poll_failed_sample".to_string(), "/1\n/2\n/3\n/4\n/5".to_string()),
        ]
    );
    let metrics = DiscoveryMetrics { failures: vec![] };
    assert_eq!(
        write_discovery_metrics(&metrics),
        vec![
            ("last_poll_discovery_failed".to_string(), "0".to_string()),
            ("last_poll_discovery_failed_sample".to_string(), "".to_string()),
        ]
    );
}

#[test]
fn a_directory_listed_twice_fails_once() {
    let dirs = strings(&["/w", "/ok", "/w/", "/x"]);
    let errors = vec![Some("denied".into()), None, Some("denied".into())];
    let failures = probe_watch_dirs(&dirs, &errors);
    assert_eq!(failures, vec![("/w".to_string(), "denied".to_string())]);
}

// ---------------------------------------------------------------------------
// The loop
// ---------------------------------------------------------------------------

fn config() -> Config {
    Config {
        watch_dirs: strings(&["/w"]),
        poll_interval_secs: 300,
        worktree_dir_name: None,
        notifications_enabled: false,
        notification_time: "09:00".into(),
        session_gap_minutes: 120,
        first_commit_minutes: 30,
    }
}

fn discovered(repos: &[&str], probe: Option<&str>) -> LoopEvent<u32> {
    LoopEvent::Discovered {
        probes: vec![probe.map(String::from)],
        repos: strings(repos),
        traversal_errors: vec![],
    }
}

fn resolved() -> LoopEvent<u32> {
    LoopEvent::Resolved { worktree: false, main_repo: None, cursor: 0 }
}

/// Runs a full scan from its discovery to the notification.
fn scan(l: &mut PollLoop<u32>, repos: &[&str], failing: &[&str], watcher: bool) {
    assert!(matches!(l.phase, Phase::Discover(_)));
    l.step(discovered(repos, None));
    loop {
        match l.phase {
            Phase::Resolve(_, _) => l.step(resolved()),
            Phase::Poll(_, _) => {
                let path = l.current_path().unwrap();
                l.step(LoopEvent::Polled(failing.contains(&path.as_str())));
            }
            Phase::Enrich(_) => l.step(LoopEvent::Done),
            Phase::OpenWatcher(_) => l.step(LoopEvent::WatcherOpened(watcher)),
            Phase::MarkRecovery => l.step(LoopEvent::Done),
            Phase::SnapshotScan(_) => return,
            other => panic!("unexpected phase {:?}", other),
        }
    }
}

#[test]
fn startup_scan_leads_to_waiting_for_events() {
    let mut l: PollLoop<u32> = PollLoop::new(config());
    scan(&mut l, &["/w/a", "/w/b"], &["/w/b"], true);
    let now = Timestamp { secs: 100, nanos: 0 };
    let snap = l.snapshot(now);
    assert_eq!(snap.poll_mode, "watcher");
    assert_eq!(snap.repos_watched, 2);
    assert_eq!(snap.effective_poll_interval_secs, 300);
    assert_eq!(snap.poll_metrics.failed_paths, strings(&["/w/b"]));
    assert_eq!(snap.last_poll_at, now);
    l.step(LoopEvent::Done);
    assert_eq!(l.phase, Phase::Notify(ScanReason::Startup));
    l.step(LoopEvent::Done);
    assert_eq!(l.phase, Phase::MarkScan(ScanReason::Startup));
    l.step(LoopEvent::Done);
    assert_eq!(l.phase, Phase::CheckReload);
    l.step(LoopEvent::ReloadRequested(false));
    assert_eq!(l.phase, Phase::Receive);
}

fn waiting(watcher: bool) -> PollLoop<u32> {
    let mut l: PollLoop<u32> = PollLoop::new(config());
    scan(&mut l, &["/w/a", "/w/b"], &[], watcher);
    l.step(LoopEvent::Done);
    l.step(LoopEvent::Done);
    l.step(LoopEvent::Done);
    l.step(LoopEvent::ReloadRequested(false));
    l
}

#[test]
fn events_are_polled_and_stored() {
    let mut l = waiting(true);
    l.step(LoopEvent::Received {
        changed_repos: strings(&["/w/a"]),
        new_worktrees: strings(&["/w/t"]),
    });
    assert_eq!(l.phase, Phase::Poll(Batch::Changed, 0));
    l.step(LoopEvent::Polled(true));
    assert_eq!(l.phase, Phase::Resolve(Batch::NewWorktrees, 0));
    assert_eq!(l.current_path(), Some("/w/t".to_string()));
    l.step(LoopEvent::Resolved {
        worktree: true,
        main_repo: Some("/w/a".into()),
        cursor: 7,
    });
    assert_eq!(l.phase, Phase::Poll(Batch::NewWorktrees, 0));
    l.step(LoopEvent::Polled(true));
    assert_eq!(l.phase, Phase::Watch(0));
    l.step(LoopEvent::Done);
    assert_eq!(l.phase, Phase::ProbeWorktrees);
    l.step(LoopEvent::WorktreesProbed(vec![(Presence::Absent, Presence::Unknown)]));
    assert_eq!(l.phase, Phase::SnapshotEvents);
    // The worktree is gone, and with it its failure.
    let snap = l.snapshot(Timestamp { secs: 0, nanos: 0 });
    assert_eq!(snap.repos_watched, 2);
    assert_eq!(snap.poll_metrics.failed_paths, strings(&["/w/a"]));
    l.step(LoopEvent::Done);
    assert_eq!(l.phase, Phase::CheckElapsed);
    l.step(LoopEvent::Elapsed(1799));
    assert_eq!(l.phase, Phase::CheckReload);
}

#[test]
fn quiet_cycles_store_nothing_and_full_scans_come_in_time() {
    let mut l = waiting(true);
    l.step(LoopEvent::Received { changed_repos: vec![], new_worktrees: vec![] });
    assert_eq!(l.phase, Phase::ProbeWorktrees);
    l.step(LoopEvent::WorktreesProbed(vec![]));
    assert_eq!(l.phase, Phase::CheckElapsed);
    l.step(LoopEvent::Elapsed(1800));
    assert_eq!(l.phase, Phase::Discover(ScanReason::Periodic));
    scan(&mut l, &["/w/a"], &["/w/a"], true);
    // /w/b is no longer there.
    assert_eq!(l.repo_states.len(), 1);
    assert_eq!(l.snapshot(Timestamp { secs: 0, nanos: 0 }).repos_watched, 1);
    l.step(LoopEvent::Done);
    l.step(LoopEvent::Done);
    l.step(LoopEvent::Done);
    assert_eq!(l.phase, Phase::ClearDebounce(ScanReason::Periodic));
    l.step(LoopEvent::Done);
    assert_eq!(l.phase, Phase::CheckReload);
}

#[test]
fn without_a_watcher_the_loop_sleeps_and_recovers() {
    let mut l = waiting(false);
    assert_eq!(l.phase, Phase::Sleep);
    l.step(LoopEvent::Done);
    assert_eq!(l.phase, Phase::Discover(ScanReason::Fallback));
    scan(&mut l, &["/w/a", "/w/b"], &[], false);
    assert_eq!(l.snapshot(Timestamp { secs: 0, nanos: 0 }).poll_mode, "polling");
    l.step(LoopEvent::Done);
    l.step(LoopEvent::Done);
    assert_eq!(l.phase, Phase::CheckReload);
    l.step(LoopEvent::ReloadRequested(false));
    l.step(LoopEvent::Done);
    scan(&mut l, &["/w/a", "/w/b"], &[], true);
    assert_eq!(l.snapshot(Timestamp { secs: 0, nanos: 0 }).poll_mode, "watcher");
}

#[test]
fn a_failed_reload_keeps_the_settings() {
    let mut l = waiting(true);
    l.phase = Phase::CheckReload;
    l.step(LoopEvent::ReloadRequested(true));
    assert_eq!(l.phase, Phase::ReloadConfig);
    l.step(LoopEvent::ConfigReloaded(None));
    assert_eq!(l.phase, Phase::Receive);
    assert_eq!(l.config.poll_interval_secs, 300);
    l.phase = Phase::ReloadConfig;
    let new = Config { poll_interval_secs: 60, ..config() };
    l.step(LoopEvent::ConfigReloaded(Some(new)));
    assert_eq!(l.phase, Phase::Discover(ScanReason::Reload));
    assert_eq!(l.config.poll_interval_secs, 60);
    scan(&mut l, &["/w/a"], &[], true);
    l.step(LoopEvent::Done);
    l.step(LoopEvent::Done);
    l.step(LoopEvent::Done);
    l.step(LoopEvent::Done);
    // After a reload the loop waits without looking for another one first.
    assert_eq!(l.phase, Phase::Receive);
}

#[test]
fn a_passing_failure_loses_no_cursor() {
    let mut l = waiting(false);
    *l.repo_states.cursor_mut("/w/a").unwrap() = 42;
    l.step(LoopEvent::Done);
    l.step(discovered(&[], Some("permission denied")));
    assert_eq!(l.repo_states.len(), 2);
    assert_eq!(*l.repo_states.cursor_mut("/w/a").unwrap(), 42);
    assert_eq!(l.last_discovery.failures, vec![("/w".to_string(), "permission denied".to_string())]);
    assert_eq!(l.phase, Phase::Enrich(ScanReason::Fallback));
}

#[test]
fn a_scan_tracks_what_it_found_and_what_it_could_not_look_at() {
    let mut l = waiting(false);
    l.step(LoopEvent::Done);
    l.step(LoopEvent::Discovered {
        probes: vec![None],
        repos: strings(&["/w/new"]),
        traversal_errors: vec![("/w/b".to_string(), "denied".to_string())],
    });
    assert_eq!(l.phase, Phase::Resolve(Batch::Scan(ScanReason::Fallback), 0));
    l.step(resolved());
    l.step(LoopEvent::Polled(false));
    assert_eq!(l.phase, Phase::Enrich(ScanReason::Fallback));
    assert_eq!(l.repo_states.len(), 2);
    assert!(l.repo_states.contains_key("/w/new"));
    assert!(l.repo_states.contains_key("/w/b"));
    assert!(!l.repo_states.contains_key("/w/a"));
}

#[test]
fn unexpected_events_change_nothing() {
    let mut l = waiting(true);
    l.step(LoopEvent::Polled(true));
    l.step(LoopEvent::Done);
    assert_eq!(l.phase, Phase::Receive);
    assert_eq!(l.failed_set.len(), 0);
}
