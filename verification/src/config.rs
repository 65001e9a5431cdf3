//! The settings that the daemon and the dashboard read.

use vstd::prelude::*;

verus! {

/// The settings of the daemon and of its reports.
#[derive(Debug, Clone)]
pub struct Config {
    /// The directories below which repositories are looked for.
    pub watch_dirs: Vec<String>,
    /// Seconds between polls while no file watcher is available.
    pub poll_interval_secs: u64,
    /// The directory that worktrees are looked for in, by name.
    pub worktree_dir_name: Option<String>,
    /// Whether the daily notification is sent.
    pub notifications_enabled: bool,
    /// The time of day from which the daily notification is sent, as "HH:MM".
    pub notification_time: String,
    /// The longest pause within one stretch of work.
    pub session_gap_minutes: u64,
    /// The work that is assumed to precede a first commit.
    pub first_commit_minutes: u64,
}

} // verus!
