//! The poll loop, as a machine: in each phase it waits for the outcome of one piece of
//! outside work, and the outcome decides the next phase.
//!
//! A full scan discovers the repositories, polls each of them, reopens the file watcher
//! and stores a health snapshot. It runs at startup, after the settings were reloaded, from
//! time to time while a watcher is active, and after each pause while there is none.
//! Between scans the watcher's events are polled one by one.

use vstd::prelude::*;
use vstd::string::*;

use crate::config::Config;
use crate::path_order::paths_sorted;
use crate::path_set::{lemma_filter_all, path_keys, PathSet};
use crate::paths::{components, lists_path, same_path};
use crate::poller::{
    gone, gone_worktrees, law_gone_needs_a_sure_look, law_unreadable_is_complete,
    probe_watch_dirs, unreadable, Presence, FULL_SCAN_SECS,
};
use crate::repo_states::{
    booked_on, is_stale, is_worktree, law_what_stays, lemma_stays_by_components,
    prune_repo_states, remove_stale_worktrees, stays, tracked_paths, RepoState, RepoStates,
};
use crate::snapshot::{
    first_texts, metrics_from_set, pair_texts, record_repo_outcome, DiscoveryMetrics,
    HealthSnapshot,
};
use crate::text::{opt_text, texts};
use crate::time::Timestamp;

verus! {

/// What a full scan was started by.
#[derive(Debug, Clone, Copy, PartialEq, Eq, Structural)]
pub enum ScanReason {
    /// The daemon started.
    Startup,
    /// The settings were reloaded.
    Reload,
    /// The last full scan is long past.
    Periodic,
    /// There is no file watcher, and the poll interval is over.
    Fallback,
}

/// The repositories that are polled one by one.
#[derive(Debug, Clone, Copy, PartialEq, Eq, Structural)]
pub enum Batch {
    /// All repositories that a full scan discovered.
    Scan(ScanReason),
    /// The repositories that the watcher saw a change in.
    Changed,
    /// The worktrees that the watcher saw appear.
    NewWorktrees,
}

/// What the loop waits for.
#[derive(Debug, Clone, Copy, PartialEq, Eq, Structural)]
pub enum Phase {
    /// Opening each watched directory, and looking for repositories below them.
    Discover(ScanReason),
    /// A look at whether the batch's path is a worktree, and of what.
    Resolve(Batch, usize),
    /// The poll of the batch's path.
    Poll(Batch, usize),
    /// The watcher, which takes up the new worktree.
    Watch(usize),
    /// The collection of reviews, pull requests and sessions.
    Enrich(ScanReason),
    /// The file watcher, opened anew on the discovered repositories.
    OpenWatcher(ScanReason),
    /// The clock of full scans, set to now because the watcher has come back.
    MarkRecovery,
    /// The health snapshot after a full scan.
    SnapshotScan(ScanReason),
    /// The daily notification.
    Notify(ScanReason),
    /// The clock of full scans, set to now.
    MarkScan(ScanReason),
    /// The watcher's record of recent changes, emptied.
    ClearDebounce(ScanReason),
    /// A look at whether a reload was asked for.
    CheckReload,
    /// The settings, read anew.
    ReloadConfig,
    /// The watcher's events.
    Receive,
    /// A look at each tracked worktree.
    ProbeWorktrees,
    /// The health snapshot after the watcher's events.
    SnapshotEvents,
    /// The time since the last full scan.
    CheckElapsed,
    /// The pause of one poll interval.
    Sleep,
}

/// The outcome of a piece of outside work.
pub enum LoopEvent<C> {
    Discovered {
        /// The error from opening each of the watched directories.
        probes: Vec<Option<String>>,
        /// The repositories that were found.
        repos: Vec<String>,
        /// Where looking for repositories failed, with the reason.
        traversal_errors: Vec<(String, String)>,
    },
    Resolved {
        worktree: bool,
        /// The main repository of the worktree, where it could be told.
        main_repo: Option<String>,
        /// Where a first poll starts.
        cursor: C,
    },
    /// Whether the poll failed.
    Polled(bool),
    /// The work is done; there is nothing to tell of it.
    Done,
    /// Whether the watcher could be opened.
    WatcherOpened(bool),
    ReloadRequested(bool),
    /// The new settings, where they could be read.
    ConfigReloaded(Option<Config>),
    Received { changed_repos: Vec<String>, new_worktrees: Vec<String> },
    /// What was seen of the directory and the `.git` pointer of each tracked worktree.
    WorktreesProbed(Vec<(Presence, Presence)>),
    /// Whole seconds since the last full scan.
    Elapsed(u64),
}

/// The state of the poll loop.
pub struct PollLoop<C> {
    pub config: Config,
    pub repo_states: RepoStates<C>,
    /// The repositories whose last poll failed.
    pub failed_set: PathSet,
    /// The repositories that the last full scan discovered.
    pub repos: Vec<String>,
    /// What failed in the last discovery.
    pub last_discovery: DiscoveryMetrics,
    /// Whether a file watcher is open.
    pub watching: bool,
    /// The watcher's last events.
    pub changed_repos: Vec<String>,
    pub new_worktrees: Vec<String>,
    pub phase: Phase,
}

/// What a poll loop is about, apart from how it is stored.
pub struct LoopModel<C> {
    pub config: Config,
    pub states: Seq<(Seq<char>, RepoState<C>)>,
    pub failed: Seq<Seq<char>>,
    pub repos: Seq<Seq<char>>,
    pub discovery: Seq<(Seq<char>, Seq<char>)>,
    pub watching: bool,
    pub changed: Seq<Seq<char>>,
    pub new_worktrees: Seq<Seq<char>>,
    pub phase: Phase,
}

/// The first parts of pairs.
pub open spec fn firsts(s: Seq<(Seq<char>, Seq<char>)>) -> Seq<Seq<char>> {
    s.map_values(|e: (Seq<char>, Seq<char>)| e.0)
}

/// Whether a path is among tracked entries.
pub open spec fn has_entry<C>(states: Seq<(Seq<char>, RepoState<C>)>, path: Seq<char>) -> bool {
    path_keys(tracked_paths(states)).contains(components(path))
}

/// The paths that stay tracked after a discovery.
pub open spec fn kept_by_scan<C>(
    states: Seq<(Seq<char>, RepoState<C>)>,
    current: Seq<Seq<char>>,
    unreliable_roots: Seq<Seq<char>>,
) -> Seq<(Seq<char>, RepoState<C>)> {
    states.filter(|e: (Seq<char>, RepoState<C>)| stays(current, unreliable_roots, e.0))
}

/// The tracked worktrees.
pub open spec fn worktrees_of<C>(states: Seq<(Seq<char>, RepoState<C>)>) -> Seq<Seq<char>> {
    tracked_paths(states.filter(|e: (Seq<char>, RepoState<C>)| is_worktree(e)))
}

/// The entries that are no stale worktrees.
pub open spec fn without_stale<C>(
    states: Seq<(Seq<char>, RepoState<C>)>,
    gone: Seq<Seq<char>>,
) -> Seq<(Seq<char>, RepoState<C>)> {
    states.filter(|e: (Seq<char>, RepoState<C>)| !is_stale(gone, e))
}

/// The paths of the stale worktrees.
pub open spec fn stale_of<C>(
    states: Seq<(Seq<char>, RepoState<C>)>,
    gone: Seq<Seq<char>>,
) -> Seq<Seq<char>> {
    tracked_paths(states.filter(|e: (Seq<char>, RepoState<C>)| is_stale(gone, e)))
}

/// The members of a set of paths after taking one path out.
pub open spec fn without_path(members: Seq<Seq<char>>, path: Seq<char>) -> Seq<Seq<char>> {
    members.filter(|p: Seq<char>| !same_path(p, path))
}

/// The members of a set of paths after taking paths out.
pub open spec fn without_paths(members: Seq<Seq<char>>, paths: Seq<Seq<char>>) -> Seq<Seq<char>>
    decreases paths.len(),
{
    if paths.len() == 0 {
        members
    } else {
        without_path(without_paths(members, paths.drop_last()), paths.last())
    }
}

/// The members of a set of paths after adding one.
pub open spec fn with_path(members: Seq<Seq<char>>, path: Seq<char>) -> Seq<Seq<char>> {
    if path_keys(members).contains(components(path)) {
        members
    } else {
        members.push(path)
    }
}

impl<C> LoopModel<C> {
    /// The paths of a batch.
    pub open spec fn batch(self, b: Batch) -> Seq<Seq<char>> {
        match b {
            Batch::Scan(_) => self.repos,
            Batch::Changed => self.changed,
            Batch::NewWorktrees => self.new_worktrees,
        }
    }

    /// The phase that takes up the path at `i`: a path that is not tracked yet is looked
    /// at first.
    pub open spec fn take_up(self, b: Batch, i: int) -> Phase {
        if has_entry(self.states, self.batch(b)[i]) {
            Phase::Poll(b, i as usize)
        } else {
            Phase::Resolve(b, i as usize)
        }
    }

    /// The phase that goes on with a batch at `i`, or with what follows the batch.
    pub open spec fn go_on(self, b: Batch, i: int) -> Phase {
        if i < self.batch(b).len() {
            self.take_up(b, i)
        } else {
            match b {
                Batch::Scan(reason) => Phase::Enrich(reason),
                Batch::Changed => if self.new_worktrees.len() > 0 {
                    self.take_up(Batch::NewWorktrees, 0)
                } else {
                    Phase::ProbeWorktrees
                },
                Batch::NewWorktrees => Phase::ProbeWorktrees,
            }
        }
    }

    /// The phase that waits for something to happen.
    pub open spec fn wait(self) -> Phase {
        if self.watching {
            Phase::Receive
        } else {
            Phase::Sleep
        }
    }

    /// This state in another phase.
    pub open spec fn at(self, phase: Phase) -> LoopModel<C> {
        LoopModel { phase, ..self }
    }

    /// The batch and the place in it that the phase is about.
    pub open spec fn at_path(self) -> Option<Seq<char>> {
        match self.phase {
            Phase::Resolve(b, i) => Some(self.batch(b)[i as int]),
            Phase::Poll(b, i) => Some(self.batch(b)[i as int]),
            Phase::Watch(i) => Some(self.new_worktrees[i as int]),
            _ => None,
        }
    }

    /// The number of discovered repositories that a full scan has taken up: those before
    /// the place in the scan's batch, with the one that is polled; all of them once the
    /// batch is through.
    pub open spec fn taken_up(self) -> int {
        match self.phase {
            Phase::Resolve(_, i) => i as int,
            Phase::Poll(_, i) => i + 1,
            _ => self.repos.len() as int,
        }
    }

    /// Whether the state is one that the loop can be in: no path is tracked twice, no
    /// path failed that is not tracked, the phase's place is in its batch and is tracked
    /// where it is polled. In a full scan, what failed is what the scan discovered, what
    /// it has taken up is tracked, and nothing is tracked but what it discovered and what
    /// lies where discovery failed.
    pub open spec fn wf(self) -> bool {
        &&& path_keys(tracked_paths(self.states)).no_duplicates()
        &&& path_keys(self.failed).no_duplicates()
        &&& forall|i: int|
            0 <= i < self.failed.len() ==> has_entry(self.states, #[trigger] self.failed[i])
        &&& match self.phase {
            Phase::Resolve(b, i) => i < self.batch(b).len(),
            Phase::Poll(b, i) => i < self.batch(b).len() && has_entry(
                self.states,
                self.batch(b)[i as int],
            ),
            Phase::Watch(i) => i < self.new_worktrees.len(),
            _ => true,
        }
        &&& self.repos.len() <= usize::MAX
        &&& in_scan(self.phase) ==> {
            &&& forall|i: int|
                0 <= i < self.failed.len() ==> path_keys(self.repos).contains(
                    components(#[trigger] self.failed[i]),
                )
            &&& forall|i: int|
                0 <= i < self.taken_up() ==> has_entry(self.states, #[trigger] self.repos[i])
            &&& forall|i: int|
                0 <= i < self.states.len() ==> stays(
                    self.repos,
                    firsts(self.discovery),
                    (#[trigger] self.states[i]).0,
                )
        }
    }
}

/// Whether the phase belongs to a full scan whose repositories are known, up to its
/// snapshot.
pub open spec fn in_scan(phase: Phase) -> bool {
    match phase {
        Phase::Resolve(b, _) => b is Scan,
        Phase::Poll(b, _) => b is Scan,
        Phase::Enrich(_) => true,
        Phase::OpenWatcher(_) => true,
        Phase::MarkRecovery => true,
        Phase::SnapshotScan(_) => true,
        _ => false,
    }
}

/// Whether `after` tracks one path more than `before`, booked as a look at it told.
pub open spec fn newly_tracked<C>(
    before: Seq<(Seq<char>, RepoState<C>)>,
    after: Seq<(Seq<char>, RepoState<C>)>,
    path: Seq<char>,
    worktree: bool,
    main_repo: Option<Seq<char>>,
    cursor: C,
) -> bool {
    if has_entry(before, path) {
        after == before
    } else {
        &&& after.len() == before.len() + 1
        &&& after.drop_last() == before
        &&& after.last().0 == path
        &&& after.last().1.cursor == cursor
        &&& after.last().1.main_repo_path@ == booked_on(path, worktree, main_repo)
    }
}

/// Whether a snapshot shows the state of the loop at `now`.
pub open spec fn snapshot_shows<C>(m: LoopModel<C>, now: Timestamp, snap: HealthSnapshot) -> bool {
    &&& snap.last_poll_at == now
    &&& snap.poll_mode@ == if m.watching {
        "watcher"@
    } else {
        "polling"@
    }
    &&& snap.repos_watched == if m.phase == Phase::SnapshotEvents {
        m.states.len()
    } else {
        m.repos.len()
    }
    &&& snap.effective_poll_interval_secs == m.config.poll_interval_secs
    &&& paths_sorted(texts(snap.poll_metrics.failed_paths@))
    &&& texts(snap.poll_metrics.failed_paths@).to_multiset() == m.failed.to_multiset()
    &&& pair_texts(snap.discovery_metrics.failures@) == m.discovery
}

/// How the loop goes on from `a` when `event` comes: it is in `b`. An event that the phase
/// does not wait for changes nothing.
pub open spec fn goes_on<C>(a: LoopModel<C>, event: LoopEvent<C>, b: LoopModel<C>) -> bool {
    match (a.phase, event) {
        (
            Phase::Discover(reason),
            LoopEvent::Discovered { probes, repos, traversal_errors },
        ) => {
            let failures = unreadable(texts(a.config.watch_dirs@), probes@) + pair_texts(
                traversal_errors@,
            );
            let found = LoopModel {
                states: kept_by_scan(a.states, texts(repos@), firsts(failures)),
                failed: Seq::<Seq<char>>::empty(),
                repos: texts(repos@),
                discovery: failures,
                ..a
            };
            b == found.at(found.go_on(Batch::Scan(reason), 0))
        },
        (Phase::Resolve(batch, i), LoopEvent::Resolved { worktree, main_repo, cursor }) => {
            &&& newly_tracked(
                a.states,
                b.states,
                a.batch(batch)[i as int],
                worktree,
                opt_text(main_repo),
                cursor,
            )
            &&& b == LoopModel { states: b.states, ..a }.at(Phase::Poll(batch, i))
        },
        (Phase::Poll(batch, i), LoopEvent::Polled(was_error)) => {
            let path = a.batch(batch)[i as int];
            let polled = LoopModel {
                failed: if was_error {
                    with_path(a.failed, path)
                } else {
                    without_path(a.failed, path)
                },
                ..a
            };
            b == polled.at(
                if batch == Batch::NewWorktrees {
                    Phase::Watch(i)
                } else {
                    polled.go_on(batch, i + 1)
                },
            )
        },
        (Phase::Watch(i), LoopEvent::Done) => b == a.at(a.go_on(Batch::NewWorktrees, i + 1)),
        (Phase::Enrich(reason), LoopEvent::Done) => b == a.at(Phase::OpenWatcher(reason)),
        (Phase::OpenWatcher(reason), LoopEvent::WatcherOpened(ok)) => b == LoopModel {
            watching: ok,
            ..a
        }.at(
            if reason == ScanReason::Fallback && ok {
                Phase::MarkRecovery
            } else {
                Phase::SnapshotScan(reason)
            },
        ),
        (Phase::MarkRecovery, LoopEvent::Done) => b == a.at(
            Phase::SnapshotScan(ScanReason::Fallback),
        ),
        (Phase::SnapshotScan(reason), LoopEvent::Done) => b == a.at(Phase::Notify(reason)),
        (Phase::Notify(reason), LoopEvent::Done) => b == a.at(
            if reason == ScanReason::Fallback {
                Phase::CheckReload
            } else {
                Phase::MarkScan(reason)
            },
        ),
        (Phase::MarkScan(reason), LoopEvent::Done) => b == a.at(
            if reason == ScanReason::Startup {
                Phase::CheckReload
            } else {
                Phase::ClearDebounce(reason)
            },
        ),
        (Phase::ClearDebounce(reason), LoopEvent::Done) => b == a.at(
            if reason == ScanReason::Reload {
                a.wait()
            } else {
                Phase::CheckReload
            },
        ),
        (Phase::CheckReload, LoopEvent::ReloadRequested(requested)) => b == a.at(
            if requested {
                Phase::ReloadConfig
            } else {
                a.wait()
            },
        ),
        (Phase::ReloadConfig, LoopEvent::ConfigReloaded(new)) => b == match new {
            Some(config) => LoopModel { config, ..a }.at(Phase::Discover(ScanReason::Reload)),
            None => a.at(a.wait()),
        },
        (Phase::Receive, LoopEvent::Received { changed_repos, new_worktrees }) => {
            let received = LoopModel {
                changed: texts(changed_repos@),
                new_worktrees: texts(new_worktrees@),
                ..a
            };
            b == received.at(received.go_on(Batch::Changed, 0))
        },
        (Phase::ProbeWorktrees, LoopEvent::WorktreesProbed(probes)) => {
            let gone = gone(worktrees_of(a.states), probes@);
            let stale = stale_of(a.states, gone);
            let probed = LoopModel {
                states: without_stale(a.states, gone),
                failed: without_paths(a.failed, stale),
                ..a
            };
            b == probed.at(
                if a.changed.len() > 0 || a.new_worktrees.len() > 0 || stale.len() > 0 {
                    Phase::SnapshotEvents
                } else {
                    Phase::CheckElapsed
                },
            )
        },
        (Phase::SnapshotEvents, LoopEvent::Done) => b == a.at(Phase::CheckElapsed),
        (Phase::CheckElapsed, LoopEvent::Elapsed(secs)) => b == a.at(
            if secs >= FULL_SCAN_SECS {
                Phase::Discover(ScanReason::Periodic)
            } else {
                Phase::CheckReload
            },
        ),
        (Phase::Sleep, LoopEvent::Done) => b == a.at(Phase::Discover(ScanReason::Fallback)),
        _ => b == a,
    }
}

impl<C> View for PollLoop<C> {
    type V = LoopModel<C>;

    open spec fn view(&self) -> LoopModel<C> {
        LoopModel {
            config: self.config,
            states: self.repo_states.listed(),
            failed: self.failed_set.listed(),
            repos: texts(self.repos@),
            discovery: pair_texts(self.last_discovery.failures@),
            watching: self.watching,
            changed: texts(self.changed_repos@),
            new_worktrees: texts(self.new_worktrees@),
            phase: self.phase,
        }
    }
}

/// What a filter passes on was there before.
proof fn lemma_filtered<A>(s: Seq<A>, keep: spec_fn(A) -> bool)
    ensures
        forall|i: int|
            0 <= i < s.filter(keep).len() ==> s.contains(#[trigger] s.filter(keep)[i]) && keep(
                s.filter(keep)[i],
            ),
{
    assert forall|i: int| 0 <= i < s.filter(keep).len() implies s.contains(
        #[trigger] s.filter(keep)[i],
    ) && keep(s.filter(keep)[i]) by {
        assert(s.filter(keep).contains(s.filter(keep)[i]));
        s.lemma_filter_contains_rev(keep, s.filter(keep)[i]);
    }
}

/// What is left after taking paths out was there before and is none of them.
proof fn lemma_without_paths(members: Seq<Seq<char>>, paths: Seq<Seq<char>>)
    ensures
        forall|i: int|
            0 <= i < without_paths(members, paths).len() ==> members.contains(
                #[trigger] without_paths(members, paths)[i],
            ),
        forall|i: int, j: int|
            0 <= i < without_paths(members, paths).len() && 0 <= j < paths.len() ==> !same_path(
                #[trigger] without_paths(members, paths)[i],
                #[trigger] paths[j],
            ),
    decreases paths.len(),
{
    if paths.len() > 0 {
        let init = paths.drop_last();
        lemma_without_paths(members, init);
        let before = without_paths(members, init);
        let after = without_paths(members, paths);
        let other = |p: Seq<char>| !same_path(p, paths.last());
        lemma_filtered(before, other);
        assert forall|i: int| 0 <= i < after.len() implies members.contains(#[trigger] after[i]) by {
            let k = choose|k: int| 0 <= k < before.len() && before[k] == after[i];
            assert(members.contains(before[k]));
        }
        assert forall|i: int, j: int| 0 <= i < after.len() && 0 <= j < paths.len() implies !same_path(
            #[trigger] after[i],
            #[trigger] paths[j],
        ) by {
            let k = choose|k: int| 0 <= k < before.len() && before[k] == after[i];
            if j < init.len() {
                assert(init[j] == paths[j]);
                assert(!same_path(before[k], init[j]));
            } else {
                assert(other(after[i]));
            }
        }
    }
}

/// An entry of which a filter passes on stays tracked.
proof fn lemma_entry_stays<C>(
    states: Seq<(Seq<char>, RepoState<C>)>,
    keep: spec_fn((Seq<char>, RepoState<C>)) -> bool,
    path: Seq<char>,
)
    requires
        has_entry(states, path),
        forall|i: int|
            0 <= i < states.len() && same_path((#[trigger] states[i]).0, path) ==> keep(states[i]),
    ensures
        has_entry(states.filter(keep), path),
{
    let keys = path_keys(tracked_paths(states));
    let i = choose|i: int| 0 <= i < keys.len() && keys[i] == components(path);
    assert(same_path(states[i].0, path));
    states.lemma_filter_contains(keep, i);
    let rest = states.filter(keep);
    let j = choose|j: int| 0 <= j < rest.len() && rest[j] == states[i];
    assert(path_keys(tracked_paths(rest))[j] == components(path));
}

impl<C> PollLoop<C> {
    /// A loop that has not begun.
    pub fn new(config: Config) -> (r: PollLoop<C>)
        ensures
            r@.wf(),
            r.config == config,
            r@.states == Seq::<(Seq<char>, RepoState<C>)>::empty(),
            r@.failed == Seq::<Seq<char>>::empty(),
            r@.repos == Seq::<Seq<char>>::empty(),
            r@.discovery == Seq::<(Seq<char>, Seq<char>)>::empty(),
            !r@.watching,
            r@.changed == Seq::<Seq<char>>::empty(),
            r@.new_worktrees == Seq::<Seq<char>>::empty(),
            r@.phase == Phase::Discover(ScanReason::Startup),
    {
        PollLoop {
            config,
            repo_states: RepoStates::new(),
            failed_set: PathSet::new(),
            repos: Vec::new(),
            last_discovery: DiscoveryMetrics { failures: Vec::new() },
            watching: false,
            changed_repos: Vec::new(),
            new_worktrees: Vec::new(),
            phase: Phase::Discover(ScanReason::Startup),
        }
    }

    fn batch_len(&self, b: Batch) -> (n: usize)
        ensures
            n == self@.batch(b).len(),
    {
        match b {
            Batch::Scan(_) => self.repos.len(),
            Batch::Changed => self.changed_repos.len(),
            Batch::NewWorktrees => self.new_worktrees.len(),
        }
    }

    fn batch_path(&self, b: Batch, i: usize) -> (p: &String)
        requires
            i < self@.batch(b).len(),
        ensures
            p@ == self@.batch(b)[i as int],
    {
        match b {
            Batch::Scan(_) => &self.repos[i],
            Batch::Changed => &self.changed_repos[i],
            Batch::NewWorktrees => &self.new_worktrees[i],
        }
    }

    /// The path that the phase is about.
    pub fn current_path(&self) -> (p: Option<String>)
        requires
            self@.wf(),
        ensures
            opt_text(p) == self@.at_path(),
    {
        match self.phase {
            Phase::Resolve(b, i) => Some(self.batch_path(b, i).clone()),
            Phase::Poll(b, i) => Some(self.batch_path(b, i).clone()),
            Phase::Watch(i) => Some(self.new_worktrees[i].clone()),
            _ => None,
        }
    }

    fn take_up(&self, b: Batch, i: usize) -> (r: Phase)
        requires
            i < self@.batch(b).len(),
        ensures
            r == self@.take_up(b, i as int),
    {
        if self.repo_states.contains_key(self.batch_path(b, i).as_str()) {
            Phase::Poll(b, i)
        } else {
            Phase::Resolve(b, i)
        }
    }

    fn go_on(&self, b: Batch, i: usize) -> (r: Phase)
        requires
            i <= self@.batch(b).len(),
        ensures
            r == self@.go_on(b, i as int),
    {
        if i < self.batch_len(b) {
            return self.take_up(b, i);
        }
        match b {
            Batch::Scan(reason) => Phase::Enrich(reason),
            Batch::Changed => if self.new_worktrees.len() > 0 {
                self.take_up(Batch::NewWorktrees, 0)
            } else {
                Phase::ProbeWorktrees
            },
            Batch::NewWorktrees => Phase::ProbeWorktrees,
        }
    }

    fn wait(&self) -> (r: Phase)
        ensures
            r == self@.wait(),
    {
        if self.watching {
            Phase::Receive
        } else {
            Phase::Sleep
        }
    }

    #[verifier::rlimit(40)]
    fn discovered(
        &mut self,
        reason: ScanReason,
        probes: Vec<Option<String>>,
        repos: Vec<String>,
        traversal_errors: Vec<(String, String)>,
    )
        requires
            old(self)@.wf(),
            old(self).phase == Phase::Discover(reason),
        ensures
            final(self)@.wf(),
            goes_on(
                old(self)@,
                (LoopEvent::Discovered { probes, repos, traversal_errors }),
                final(self)@,
            ),
    {
        let ghost a = self@;
        let mut failures = probe_watch_dirs(&self.config.watch_dirs, &probes);
        let ghost probed = failures@;
        let mut errors = traversal_errors;
        failures.append(&mut errors);
        assert(pair_texts(failures@) =~= pair_texts(probed) + pair_texts(traversal_errors@));
        self.last_discovery = DiscoveryMetrics { failures };
        let unreliable_roots = self.last_discovery.dirs();
        assert(texts(unreliable_roots@) =~= firsts(self@.discovery));
        let _evicted = prune_repo_states(&mut self.repo_states, &repos, &unreliable_roots);
        self.failed_set.clear();
        self.repos = repos;
        assert(self@.states =~= kept_by_scan(
            a.states,
            texts(repos@),
            firsts(self@.discovery),
        ));
        let ghost found = self@;
        proof {
            lemma_filtered(
                a.states,
                |e: (Seq<char>, RepoState<C>)| stays(found.repos, firsts(found.discovery), e.0),
            );
            assert(found.repos.len() == self.repos.len());
        }
        self.phase = self.go_on(Batch::Scan(reason), 0);
        assert(self@ == found.at(found.go_on(Batch::Scan(reason), 0)));
    }

    #[verifier::rlimit(40)]
    fn resolved(
        &mut self,
        batch: Batch,
        i: usize,
        worktree: bool,
        main_repo: Option<String>,
        cursor: C,
    )
        requires
            old(self)@.wf(),
            old(self).phase == Phase::Resolve(batch, i),
        ensures
            final(self)@.wf(),
            goes_on(
                old(self)@,
                (LoopEvent::Resolved { worktree, main_repo, cursor }),
                final(self)@,
            ),
    {
        let ghost a = self@;
        let path = self.batch_path(batch, i).clone();
        self.repo_states.ensure_state(path.as_str(), worktree, main_repo, cursor);
        self.phase = Phase::Poll(batch, i);
        proof {
            let keys = path_keys(tracked_paths(a.states));
            let new_keys = path_keys(tracked_paths(self@.states));
            assert forall|k: int| 0 <= k < self@.failed.len() implies has_entry(
                self@.states,
                #[trigger] self@.failed[k],
            ) by {
                let f = a.failed[k];
                assert(has_entry(a.states, f));
                let j = choose|j: int| 0 <= j < keys.len() && keys[j] == components(f);
                if self@.states != a.states {
                    assert(self@.states.drop_last()[j] == a.states[j]);
                }
                assert(new_keys[j] == components(f));
            }
            if batch is Scan {
                assert forall|k: int| 0 <= k < self@.taken_up() implies has_entry(
                    self@.states,
                    #[trigger] self@.repos[k],
                ) by {
                    if k < i {
                        assert(has_entry(a.states, a.repos[k]));
                        let j = choose|j: int|
                            0 <= j < keys.len() && keys[j] == components(a.repos[k]);
                        if self@.states != a.states {
                            assert(self@.states.drop_last()[j] == a.states[j]);
                        }
                        assert(new_keys[j] == components(a.repos[k]));
                    }
                }
                assert forall|k: int| 0 <= k < self@.states.len() implies stays(
                    self@.repos,
                    firsts(self@.discovery),
                    (#[trigger] self@.states[k]).0,
                ) by {
                    if k < a.states.len() {
                        if self@.states != a.states {
                            assert(self@.states.drop_last()[k] == a.states[k]);
                        }
                        assert(self@.states[k] == a.states[k]);
                    } else {
                        assert(same_path(a.repos[i as int], self@.states[k].0));
                    }
                }
            }
        }
    }

    #[verifier::rlimit(40)]
    fn polled(&mut self, batch: Batch, i: usize, was_error: bool)
        requires
            old(self)@.wf(),
            old(self).phase == Phase::Poll(batch, i),
        ensures
            final(self)@.wf(),
            goes_on(old(self)@, LoopEvent::Polled(was_error), final(self)@),
    {
        let ghost a = self@;
        let path = self.batch_path(batch, i).clone();
        record_repo_outcome(&mut self.failed_set, path.as_str(), was_error);
        let ghost polled = self@;
        proof {
            lemma_filtered(a.failed, |p: Seq<char>| !same_path(p, path@));
            assert(path_keys(a.failed).contains(components(path@)) <==> path_keys(
                a.failed,
            ).to_set().contains(components(path@)));
            assert(polled.failed == if was_error {
                with_path(a.failed, path@)
            } else {
                without_path(a.failed, path@)
            });
            assert forall|k: int| 0 <= k < polled.failed.len() implies has_entry(
                polled.states,
                #[trigger] polled.failed[k],
            ) && (batch is Scan ==> path_keys(polled.repos).contains(
                components(polled.failed[k]),
            )) by {
                let f = polled.failed[k];
                if a.failed.contains(f) {
                    let j = choose|j: int| 0 <= j < a.failed.len() && a.failed[j] == f;
                    assert(has_entry(a.states, a.failed[j]));
                } else {
                    assert(f == path@);
                    if batch is Scan {
                        assert(path_keys(polled.repos)[i as int] == components(f));
                    }
                }
            }
        }
        let n: usize = self.batch_len(batch);
        if batch == Batch::NewWorktrees {
            self.phase = Phase::Watch(i);
        } else {
            assert(i < n);
            self.phase = self.go_on(batch, i + 1);
        }
    }

    #[verifier::rlimit(40)]
    fn worktrees_probed(&mut self, probes: Vec<(Presence, Presence)>)
        requires
            old(self)@.wf(),
            old(self).phase == Phase::ProbeWorktrees,
        ensures
            final(self)@.wf(),
            goes_on(old(self)@, LoopEvent::WorktreesProbed(probes), final(self)@),
    {
        let ghost a = self@;
        let worktrees = self.repo_states.worktree_paths();
        let gone_paths = gone_worktrees(&worktrees, &probes);
        let ghost g = texts(gone_paths@);
        let stale = remove_stale_worktrees(&mut self.repo_states, &gone_paths);
        let mut i: usize = 0;
        let ghost stale_paths = texts(stale@);
        assert(stale_paths.take(0) =~= seq![]);
        while i < stale.len()
            invariant
                i <= stale.len(),
                stale_paths == texts(stale@),
                self.failed_set.wf(),
                self.repo_states.wf(),
                self@ == (LoopModel {
                    states: without_stale(a.states, g),
                    failed: without_paths(a.failed, stale_paths.take(i as int)),
                    ..a
                }),
            decreases stale.len() - i,
        {
            self.failed_set.remove(stale[i].as_str());
            i = i + 1;
            assert(stale_paths.take(i as int).drop_last() =~= stale_paths.take(i - 1));
        }
        assert(stale_paths.take(i as int) =~= stale_paths);
        let ghost b = self@;
        assert(path_keys(tracked_paths(b.states)).no_duplicates());
        assert(path_keys(b.failed).no_duplicates());
        proof {
            lemma_without_paths(a.failed, stale_paths);
            let keep = |e: (Seq<char>, RepoState<C>)| !is_stale(g, e);
            let drop = |e: (Seq<char>, RepoState<C>)| is_stale(g, e);
            assert forall|k: int| 0 <= k < b.failed.len() implies has_entry(
                b.states,
                #[trigger] b.failed[k],
            ) by {
                let f = b.failed[k];
                let j = choose|j: int| 0 <= j < a.failed.len() && a.failed[j] == f;
                assert(has_entry(a.states, a.failed[j]));
                assert forall|n: int|
                    0 <= n < a.states.len() && same_path(
                        (#[trigger] a.states[n]).0,
                        f,
                    ) implies keep(a.states[n]) by {
                    if drop(a.states[n]) {
                        a.states.lemma_filter_contains(drop, n);
                        let dropped = a.states.filter(drop);
                        let m = choose|m: int| 0 <= m < dropped.len() && dropped[m] == a.states[n];
                        assert(stale_paths[m] == a.states[n].0);
                    }
                }
                lemma_entry_stays(a.states, keep, f);
            }
        }
        if self.changed_repos.len() > 0 || self.new_worktrees.len() > 0 || stale.len() > 0 {
            self.phase = Phase::SnapshotEvents;
        } else {
            self.phase = Phase::CheckElapsed;
        }
        assert(self@ == b.at(self.phase));
    }

    /// Goes on with the outcome of the work that the phase waits for. An outcome of other
    /// work changes nothing.
    #[verifier::rlimit(40)]
    pub fn step(&mut self, event: LoopEvent<C>)
        requires
            old(self)@.wf(),
        ensures
            final(self)@.wf(),
            goes_on(old(self)@, event, final(self)@),
    {
        match (self.phase, event) {
            (
                Phase::Discover(reason),
                LoopEvent::Discovered { probes, repos, traversal_errors },
            ) => {
                self.discovered(reason, probes, repos, traversal_errors);
            },
            (Phase::Resolve(batch, i), LoopEvent::Resolved { worktree, main_repo, cursor }) => {
                self.resolved(batch, i, worktree, main_repo, cursor);
            },
            (Phase::Poll(batch, i), LoopEvent::Polled(was_error)) => {
                self.polled(batch, i, was_error);
            },
            (Phase::Watch(i), LoopEvent::Done) => {
                assert(i < self.new_worktrees.len());
                self.phase = self.go_on(Batch::NewWorktrees, i + 1);
            },
            (Phase::Enrich(reason), LoopEvent::Done) => {
                self.phase = Phase::OpenWatcher(reason);
            },
            (Phase::OpenWatcher(reason), LoopEvent::WatcherOpened(ok)) => {
                self.watching = ok;
                self.phase = if reason == ScanReason::Fallback && ok {
                    Phase::MarkRecovery
                } else {
                    Phase::SnapshotScan(reason)
                };
            },
            (Phase::MarkRecovery, LoopEvent::Done) => {
                self.phase = Phase::SnapshotScan(ScanReason::Fallback);
            },
            (Phase::SnapshotScan(reason), LoopEvent::Done) => {
                self.phase = Phase::Notify(reason);
            },
            (Phase::Notify(reason), LoopEvent::Done) => {
                self.phase = if reason == ScanReason::Fallback {
                    Phase::CheckReload
                } else {
                    Phase::MarkScan(reason)
                };
            },
            (Phase::MarkScan(reason), LoopEvent::Done) => {
                self.phase = if reason == ScanReason::Startup {
                    Phase::CheckReload
                } else {
                    Phase::ClearDebounce(reason)
                };
            },
            (Phase::ClearDebounce(reason), LoopEvent::Done) => {
                self.phase = if reason == ScanReason::Reload {
                    self.wait()
                } else {
                    Phase::CheckReload
                };
            },
            (Phase::CheckReload, LoopEvent::ReloadRequested(requested)) => {
                self.phase = if requested {
                    Phase::ReloadConfig
                } else {
                    self.wait()
                };
            },
            (Phase::ReloadConfig, LoopEvent::ConfigReloaded(new)) => {
                match new {
                    Some(config) => {
                        self.config = config;
                        self.phase = Phase::Discover(ScanReason::Reload);
                    },
                    None => {
                        self.phase = self.wait();
                    },
                }
            },
            (Phase::Receive, LoopEvent::Received { changed_repos, new_worktrees }) => {
                self.changed_repos = changed_repos;
                self.new_worktrees = new_worktrees;
                self.phase = self.go_on(Batch::Changed, 0);
            },
            (Phase::ProbeWorktrees, LoopEvent::WorktreesProbed(probes)) => {
                self.worktrees_probed(probes);
            },
            (Phase::SnapshotEvents, LoopEvent::Done) => {
                self.phase = Phase::CheckElapsed;
            },
            (Phase::CheckElapsed, LoopEvent::Elapsed(secs)) => {
                self.phase = if secs >= FULL_SCAN_SECS {
                    Phase::Discover(ScanReason::Periodic)
                } else {
                    Phase::CheckReload
                };
            },
            (Phase::Sleep, LoopEvent::Done) => {
                self.phase = Phase::Discover(ScanReason::Fallback);
            },
            _ => {},
        }
    }

    /// The health of the daemon now. The mode is that of the watcher as it is now. After a
    /// full scan the repositories watched are those that it discovered, after the
    /// watcher's events those that are tracked; in both phases no more of them failed
    /// than are watched.
    pub fn snapshot(&self, now: Timestamp) -> (snap: HealthSnapshot)
        requires
            self@.wf(),
        ensures
            snapshot_shows(self@, now, snap),
            snap.last_poll_at == now,
            snap.poll_mode@ == if self@.watching {
                "watcher"@
            } else {
                "polling"@
            },
            snap.repos_watched == if self@.phase == Phase::SnapshotEvents {
                self@.states.len()
            } else {
                self@.repos.len()
            },
            snap.effective_poll_interval_secs == self@.config.poll_interval_secs,
            paths_sorted(texts(snap.poll_metrics.failed_paths@)),
            texts(snap.poll_metrics.failed_paths@).to_multiset() == self@.failed.to_multiset(),
            snap.poll_metrics.failed_paths@.len() == self@.failed.len(),
            pair_texts(snap.discovery_metrics.failures@) == self@.discovery,
            self@.phase == Phase::SnapshotEvents || self@.phase is SnapshotScan
                ==> snap.poll_metrics.failed_paths@.len() <= snap.repos_watched,
    {
        let poll_mode = if self.watching {
            "watcher".to_owned()
        } else {
            "polling".to_owned()
        };
        let repos_watched: usize = if self.phase == Phase::SnapshotEvents {
            self.repo_states.len()
        } else {
            self.repos.len()
        };
        let poll_metrics = metrics_from_set(&self.failed_set);
        proof {
            let failed = path_keys(self@.failed);
            failed.unique_seq_to_set();
            let watched = if self@.phase == Phase::SnapshotEvents {
                path_keys(tracked_paths(self@.states))
            } else {
                path_keys(self@.repos)
            };
            if self@.phase == Phase::SnapshotEvents || self@.phase is SnapshotScan {
                assert forall|k: Seq<Seq<char>>| failed.to_set().contains(
                    k,
                ) implies watched.to_set().contains(k) by {
                    let i = choose|i: int| 0 <= i < failed.len() && failed[i] == k;
                    assert(has_entry(self@.states, self@.failed[i]));
                }
                watched.lemma_cardinality_of_set();
                vstd::set_lib::lemma_len_subset(failed.to_set(), watched.to_set());
            }
        }
        HealthSnapshot {
            last_poll_at: now,
            poll_mode,
            repos_watched,
            effective_poll_interval_secs: self.config.poll_interval_secs,
            poll_metrics,
            discovery_metrics: self.last_discovery.clone(),
        }
    }
}

// ---------------------------------------------------------------------------
// What holds of every run
// ---------------------------------------------------------------------------

/// The settings change only where new ones could be read: a reload that fails keeps the
/// previous settings.
pub proof fn law_settings_change_on_reload_only<C>(
    a: LoopModel<C>,
    event: LoopEvent<C>,
    b: LoopModel<C>,
)
    requires
        goes_on(a, event, b),
    ensures
        b.config == a.config || event == LoopEvent::<C>::ConfigReloaded(Some(b.config)),
        event == LoopEvent::<C>::ConfigReloaded(None) ==> b.config == a.config && b.states
            == a.states && b.failed == a.failed,
{
}

/// A path stops being tracked only where a discovery that was reliable for it did not find
/// it, or where it is a worktree that is confirmed gone. So no passing failure to read
/// loses the place where polling left off.
#[verifier::rlimit(40)]
pub proof fn law_only_confirmed_losses<C>(
    a: LoopModel<C>,
    event: LoopEvent<C>,
    b: LoopModel<C>,
    i: int,
)
    requires
        a.wf(),
        goes_on(a, event, b),
        0 <= i < a.states.len(),
        !b.states.contains(a.states[i]),
    ensures
        match event {
            LoopEvent::Discovered { probes, repos, traversal_errors } => !stays(
                texts(repos@),
                firsts(unreadable(texts(a.config.watch_dirs@), probes@)) + first_texts(
                    traversal_errors@,
                ),
                a.states[i].0,
            ),
            LoopEvent::WorktreesProbed(probes) => is_stale(
                gone(worktrees_of(a.states), probes@),
                a.states[i],
            ),
            _ => false,
        },
{
    match (a.phase, event) {
        (
            Phase::Discover(reason),
            LoopEvent::Discovered { probes, repos, traversal_errors },
        ) => {
            let readable = unreadable(texts(a.config.watch_dirs@), probes@);
            let failures = readable + pair_texts(traversal_errors@);
            assert(firsts(failures) =~= firsts(readable) + first_texts(traversal_errors@));
            let keep = |e: (Seq<char>, RepoState<C>)|
                stays(texts(repos@), firsts(failures), e.0);
            if keep(a.states[i]) {
                a.states.lemma_filter_contains(keep, i);
            }
        },
        (Phase::ProbeWorktrees, LoopEvent::WorktreesProbed(probes)) => {
            let g = gone(worktrees_of(a.states), probes@);
            let keep = |e: (Seq<char>, RepoState<C>)| !is_stale(g, e);
            if keep(a.states[i]) {
                a.states.lemma_filter_contains(keep, i);
            }
        },
        (Phase::Resolve(batch, j), LoopEvent::Resolved { worktree, main_repo, cursor }) => {
            if b.states != a.states {
                assert(b.states.drop_last()[i] == a.states[i]);
                assert(b.states[i] == a.states[i]);
            }
        },
        _ => {},
    }
}

/// A full scan starts with no failures, and each poll records its own outcome: after it
/// the path is among the failures exactly where it failed, and no other path's place there
/// has changed.
#[verifier::rlimit(40)]
pub proof fn law_failures_are_the_last_outcomes<C>(
    a: LoopModel<C>,
    event: LoopEvent<C>,
    b: LoopModel<C>,
    path: Seq<char>,
)
    requires
        a.wf(),
        goes_on(a, event, b),
    ensures
        a.phase is Discover && event is Discovered ==> b.failed.len() == 0,
        a.phase is Poll && event is Polled ==> (path_keys(b.failed).contains(components(path))
            <==> if same_path(path, a.at_path()->0) {
            event->Polled_0
        } else {
            path_keys(a.failed).contains(components(path))
        }),
{
    if a.phase is Poll && event is Polled {
        let p = a.at_path()->0;
        let other = |q: Seq<char>| !same_path(q, p);
        let ka = path_keys(a.failed);
        let kb = path_keys(b.failed);
        if event->Polled_0 {
            if !ka.contains(components(p)) {
                assert(kb =~= ka.push(components(p)));
                assert(kb[ka.len() as int] == components(p));
                if ka.contains(components(path)) {
                    let i = choose|i: int| 0 <= i < ka.len() && ka[i] == components(path);
                    assert(kb[i] == components(path));
                }
            }
        } else {
            lemma_filtered(a.failed, other);
            if kb.contains(components(path)) {
                let i = choose|i: int| 0 <= i < kb.len() && kb[i] == components(path);
                assert(other(b.failed[i]));
                let j = choose|j: int| 0 <= j < a.failed.len() && a.failed[j] == b.failed[i];
                assert(ka[j] == components(path));
            }
            if ka.contains(components(path)) && !same_path(path, p) {
                let i = choose|i: int| 0 <= i < ka.len() && ka[i] == components(path);
                assert(other(a.failed[i]));
                a.failed.lemma_filter_contains(other, i);
                let j = choose|j: int| 0 <= j < b.failed.len() && b.failed[j] == a.failed[i];
                assert(kb[j] == components(path));
            }
        }
    }
}

/// The repositories that failed, where each poll in turn had this outcome: those whose last
/// poll failed.
pub open spec fn failed_in_turn(
    repos: Seq<Seq<char>>,
    outcomes: Seq<bool>,
) -> Set<Seq<Seq<char>>>
    decreases outcomes.len(),
{
    if outcomes.len() == 0 {
        Set::empty()
    } else {
        let i = outcomes.len() - 1;
        let before = failed_in_turn(repos, outcomes.drop_last());
        if outcomes.last() {
            before.insert(components(repos[i]))
        } else {
            before.remove(components(repos[i]))
        }
    }
}

/// A full scan is authoritative: while it polls, the failures are exactly those of its own
/// polls so far, whatever had failed before it.
#[verifier::rlimit(40)]
pub proof fn law_scan_is_authoritative<C>(
    a: LoopModel<C>,
    event: LoopEvent<C>,
    b: LoopModel<C>,
    outcomes: Seq<bool>,
)
    requires
        a.wf(),
        goes_on(a, event, b),
    ensures
        a.phase is Discover && event is Discovered ==> path_keys(b.failed).to_set()
            == failed_in_turn(b.repos, Seq::empty()),
        match (a.phase, event) {
            (Phase::Poll(batch, i), LoopEvent::Polled(was_error)) => batch is Scan
                && outcomes.len() == i && path_keys(a.failed).to_set() == failed_in_turn(
                a.repos,
                outcomes,
            ) ==> path_keys(b.failed).to_set() == failed_in_turn(
                b.repos,
                outcomes.push(was_error),
            ),
            (Phase::Resolve(batch, i), LoopEvent::Resolved { .. }) => b.failed == a.failed
                && b.repos == a.repos,
            _ => true,
        },
{
    match (a.phase, event) {
        (Phase::Discover(_), LoopEvent::Discovered { .. }) => {
            assert(path_keys(b.failed).to_set() =~= Set::empty());
        },
        (Phase::Poll(batch, i), LoopEvent::Polled(was_error)) => {
            if batch is Scan && outcomes.len() == i && path_keys(a.failed).to_set()
                == failed_in_turn(a.repos, outcomes) {
                let path = a.repos[i as int];
                let after = failed_in_turn(b.repos, outcomes.push(was_error));
                assert(outcomes.push(was_error).drop_last() =~= outcomes);
                assert forall|k: Seq<Seq<char>>| path_keys(b.failed).to_set().contains(
                    k,
                ) <==> after.contains(k) by {
                    lemma_poll_changes_one_key(a, event, b, k);
                }
                assert(path_keys(b.failed).to_set() =~= after);
            }
        },
        _ => {},
    }
}

/// A poll changes the place of one path among the failures.
proof fn lemma_poll_changes_one_key<C>(
    a: LoopModel<C>,
    event: LoopEvent<C>,
    b: LoopModel<C>,
    k: Seq<Seq<char>>,
)
    requires
        a.wf(),
        goes_on(a, event, b),
        a.phase is Poll,
        event is Polled,
    ensures
        path_keys(b.failed).contains(k) <==> if k == components(a.at_path()->0) {
            event->Polled_0
        } else {
            path_keys(a.failed).contains(k)
        },
{
    let ka = path_keys(a.failed);
    let kb = path_keys(b.failed);
    law_failures_are_the_last_outcomes(a, event, b, a.at_path()->0);
    if ka.contains(k) {
        let i = choose|i: int| 0 <= i < ka.len() && ka[i] == k;
        law_failures_are_the_last_outcomes(a, event, b, a.failed[i]);
    }
    if kb.contains(k) {
        let i = choose|i: int| 0 <= i < kb.len() && kb[i] == k;
        law_failures_are_the_last_outcomes(a, event, b, b.failed[i]);
    }
}

/// Once a full scan has polled its repositories, every repository that it discovered is
/// tracked, and what is tracked was discovered or lies where discovery failed.
pub proof fn law_scan_tracks_what_it_found<C>(m: LoopModel<C>, path: Seq<char>)
    requires
        m.wf(),
        in_scan(m.phase),
        !(m.phase is Resolve),
        !(m.phase is Poll),
    ensures
        lists_path(m.repos, path) ==> has_entry(m.states, path),
        has_entry(m.states, path) ==> stays(m.repos, firsts(m.discovery), path),
{
    let keys = path_keys(tracked_paths(m.states));
    if lists_path(m.repos, path) {
        let i = choose|i: int| 0 <= i < m.repos.len() && same_path(#[trigger] m.repos[i], path);
        assert(has_entry(m.states, m.repos[i]));
    }
    if has_entry(m.states, path) {
        let i = choose|i: int| 0 <= i < keys.len() && keys[i] == components(path);
        assert(stays(m.repos, firsts(m.discovery), m.states[i].0));
        lemma_stays_by_components(m.repos, firsts(m.discovery), m.states[i].0, path);
    }
}

/// The components of the tracked paths.
pub open spec fn tracked_keys<C>(states: Seq<(Seq<char>, RepoState<C>)>) -> Set<Seq<Seq<char>>> {
    path_keys(tracked_paths(states)).to_set()
}

/// Whether a full scan tracks exactly what it kept and what it has taken up.
pub open spec fn tracks_kept_and_found<C>(m: LoopModel<C>, kept: Set<Seq<Seq<char>>>) -> bool {
    tracked_keys(m.states) == kept.union(path_keys(m.repos.take(m.taken_up())).to_set())
}

/// A full scan keeps of the tracked paths those that it found again and those where
/// discovery failed, and from then on tracks exactly these and the repositories that it
/// has taken up: in the end, those kept and those discovered.
pub proof fn law_scan_tracks_exactly<C>(
    a: LoopModel<C>,
    event: LoopEvent<C>,
    b: LoopModel<C>,
    kept: Set<Seq<Seq<char>>>,
)
    requires
        a.wf(),
        goes_on(a, event, b),
    ensures
        a.phase is Discover && event is Discovered ==> tracks_kept_and_found(
            b,
            tracked_keys(kept_by_scan(a.states, b.repos, firsts(b.discovery))),
        ),
        in_scan(a.phase) && in_scan(b.phase) && tracks_kept_and_found(a, kept)
            ==> tracks_kept_and_found(b, kept),
{
    match (a.phase, event) {
        (
            Phase::Discover(reason),
            LoopEvent::Discovered { probes, repos, traversal_errors },
        ) => {
            let found = tracked_keys(b.states);
            assert(b.repos.len() == repos.len());
            assert(path_keys(b.repos.take(b.taken_up())).to_set().subset_of(found)) by {
                lemma_keys_of_taken(b);
            }
            assert(found.union(path_keys(b.repos.take(b.taken_up())).to_set()) =~= found);
        },
        (Phase::Resolve(batch, i), LoopEvent::Resolved { .. }) => {
            if batch is Scan && tracks_kept_and_found(a, kept) {
                let path = a.repos[i as int];
                let ka = path_keys(tracked_paths(a.states));
                let kb = path_keys(tracked_paths(b.states));
                assert(kb.to_set() =~= ka.to_set().insert(components(path))) by {
                    if has_entry(a.states, path) {
                        assert(b.states == a.states);
                    } else {
                        assert(b.states =~= a.states.push(b.states.last()));
                        assert(kb =~= ka.push(components(path)));
                        ka.lemma_push_to_set_commute(components(path));
                    }
                }
                let t = a.repos.take(i as int);
                assert(b.repos.take(i + 1) =~= t.push(path));
                assert(path_keys(t.push(path)) =~= path_keys(t).push(components(path)));
                path_keys(t).lemma_push_to_set_commute(components(path));
                assert(tracked_keys(b.states) =~= kept.union(
                    path_keys(b.repos.take(b.taken_up())).to_set(),
                ));
            }
        },
        (Phase::Poll(batch, i), LoopEvent::Polled(_)) => {
            if batch is Scan && tracks_kept_and_found(a, kept) {
                let t = a.repos.take(i + 1);
                assert(b.states == a.states && b.repos == a.repos);
                if i + 1 < a.repos.len() {
                    let path = a.repos[i + 1];
                    assert(a.repos.take(i + 2) =~= t.push(path));
                    assert(path_keys(t.push(path)) =~= path_keys(t).push(components(path)));
                    path_keys(t).lemma_push_to_set_commute(components(path));
                }
                assert(tracked_keys(b.states) =~= kept.union(
                    path_keys(b.repos.take(b.taken_up())).to_set(),
                ));
            }
        },
        _ => {},
    }
}

/// What a full scan takes up first is tracked where it goes on to poll it.
proof fn lemma_keys_of_taken<C>(b: LoopModel<C>)
    requires
        match b.phase {
            Phase::Resolve(_, i) => i == 0,
            Phase::Poll(batch, i) => i == 0 && batch is Scan && b.repos.len() > 0 && has_entry(
                b.states,
                b.repos[0],
            ),
            _ => b.repos.len() == 0,
        },
    ensures
        path_keys(b.repos.take(b.taken_up())).to_set().subset_of(tracked_keys(b.states)),
{
    let taken = path_keys(b.repos.take(b.taken_up()));
    assert forall|k: Seq<Seq<char>>| taken.to_set().contains(k) implies tracked_keys(
        b.states,
    ).contains(k) by {
        let j = choose|j: int| 0 <= j < taken.len() && taken[j] == k;
        assert(j == 0);
        assert(k == components(b.repos[0]));
    }
}

/// A full scan's snapshot is stored only once the watcher has been opened anew, and the
/// watcher stays as it was opened until then: the stored mode is that of the watcher.
pub proof fn law_snapshot_follows_watcher<C>(
    a: LoopModel<C>,
    event: LoopEvent<C>,
    b: LoopModel<C>,
)
    requires
        goes_on(a, event, b),
    ensures
        b.phase is SnapshotScan && !(a.phase is SnapshotScan) ==> a.phase is OpenWatcher
            || a.phase is MarkRecovery,
        b.phase is MarkRecovery && !(a.phase is MarkRecovery) ==> a.phase is OpenWatcher
            && b.watching,
        b.watching != a.watching ==> event == LoopEvent::<C>::WatcherOpened(b.watching),
{
}

/// No full scan goes without its snapshot, and none passes over a repository: a scan polls
/// its repositories one after the other, the collection of reviews comes after the last,
/// and only the stored snapshot ends it.
pub proof fn law_scan_runs_to_its_snapshot<C>(
    a: LoopModel<C>,
    event: LoopEvent<C>,
    b: LoopModel<C>,
)
    requires
        a.wf(),
        goes_on(a, event, b),
    ensures
        a.phase is Discover ==> b.phase == a.phase || in_scan(b.phase),
        in_scan(a.phase) && !in_scan(b.phase) ==> a.phase is SnapshotScan && event is Done
            && b.phase is Notify,
        match (a.phase, event) {
            (Phase::Poll(batch, i), LoopEvent::Polled(_)) => batch is Scan ==> if i + 1
                < a.repos.len() {
                b.phase == Phase::Poll(batch, (i + 1) as usize) || b.phase == Phase::Resolve(
                    batch,
                    (i + 1) as usize,
                )
            } else {
                b.phase == Phase::Enrich(batch->Scan_0)
            },
            (Phase::Resolve(batch, i), LoopEvent::Resolved { .. }) => b.phase == Phase::Poll(
                batch,
                i,
            ),
            _ => true,
        },
{
}

/// Whatever the watcher's events change is stored before the loop waits again: where a
/// repository was polled or a worktree forgotten, the snapshot comes next.
pub proof fn law_events_are_stored<C>(a: LoopModel<C>, event: LoopEvent<C>, b: LoopModel<C>)
    requires
        goes_on(a, event, b),
        a.phase == Phase::ProbeWorktrees,
        event is WorktreesProbed,
        a.changed.len() > 0 || a.new_worktrees.len() > 0 || b.states != a.states,
    ensures
        b.phase == Phase::SnapshotEvents,
{
    let g = gone(worktrees_of(a.states), event->WorktreesProbed_0@);
    let keep = |e: (Seq<char>, RepoState<C>)| !is_stale(g, e);
    let drop = |e: (Seq<char>, RepoState<C>)| is_stale(g, e);
    if stale_of(a.states, g).len() == 0 {
        assert forall|i: int| 0 <= i < a.states.len() implies keep(#[trigger] a.states[i]) by {
            if drop(a.states[i]) {
                a.states.lemma_filter_contains(drop, i);
                assert(a.states.filter(drop).len() > 0);
            }
        }
        lemma_filter_all(a.states, keep);
    }
}

/// The watcher's events are taken up whole and in order: every changed repository is
/// polled, then every new worktree is polled and watched, and only after the last of them
/// are the tracked worktrees looked at. None is passed over and none is taken up twice.
pub proof fn law_events_are_polled_in_turn<C>(
    a: LoopModel<C>,
    event: LoopEvent<C>,
    b: LoopModel<C>,
)
    requires
        a.wf(),
        goes_on(a, event, b),
    ensures
        match (a.phase, event) {
            (Phase::Receive, LoopEvent::Received { changed_repos, new_worktrees }) => {
                &&& b.changed.len() == changed_repos.len()
                &&& forall|i: int|
                    0 <= i < b.changed.len() ==> #[trigger] b.changed[i] == changed_repos[i]@
                &&& b.new_worktrees.len() == new_worktrees.len()
                &&& forall|i: int|
                    0 <= i < b.new_worktrees.len() ==> #[trigger] b.new_worktrees[i]
                        == new_worktrees[i]@
                &&& if changed_repos.len() > 0 {
                    b.phase == Phase::Poll(Batch::Changed, 0) || b.phase == Phase::Resolve(
                        Batch::Changed,
                        0,
                    )
                } else if new_worktrees.len() > 0 {
                    b.phase == Phase::Poll(Batch::NewWorktrees, 0) || b.phase == Phase::Resolve(
                        Batch::NewWorktrees,
                        0,
                    )
                } else {
                    b.phase == Phase::ProbeWorktrees
                }
            },
            (Phase::Poll(Batch::Changed, i), LoopEvent::Polled(_)) => if i + 1 < a.changed.len() {
                b.phase == Phase::Poll(Batch::Changed, (i + 1) as usize) || b.phase
                    == Phase::Resolve(Batch::Changed, (i + 1) as usize)
            } else if a.new_worktrees.len() > 0 {
                b.phase == Phase::Poll(Batch::NewWorktrees, 0) || b.phase == Phase::Resolve(
                    Batch::NewWorktrees,
                    0,
                )
            } else {
                b.phase == Phase::ProbeWorktrees
            },
            (Phase::Poll(Batch::NewWorktrees, i), LoopEvent::Polled(_)) => b.phase
                == Phase::Watch(i),
            (Phase::Watch(i), LoopEvent::Done) => if i + 1 < a.new_worktrees.len() {
                b.phase == Phase::Poll(Batch::NewWorktrees, (i + 1) as usize) || b.phase
                    == Phase::Resolve(Batch::NewWorktrees, (i + 1) as usize)
            } else {
                b.phase == Phase::ProbeWorktrees
            },
            (Phase::Resolve(batch, i), LoopEvent::Resolved { .. }) => b.phase == Phase::Poll(
                batch,
                i,
            ),
            _ => true,
        },
        b.phase == Phase::ProbeWorktrees && a.phase != b.phase ==> match a.phase {
            Phase::Receive => b.changed.len() == 0 && b.new_worktrees.len() == 0,
            Phase::Poll(batch, i) => batch == Batch::Changed && i + 1 == a.changed.len()
                && a.new_worktrees.len() == 0,
            Phase::Watch(i) => i + 1 == a.new_worktrees.len(),
            _ => false,
        },
{
}

/// A path that is taken up is looked at first exactly where it is not tracked, so that each
/// path that is polled is tracked, and nothing that is known is resolved again.
pub proof fn law_resolved_where_new<C>(a: LoopModel<C>, event: LoopEvent<C>, b: LoopModel<C>)
    requires
        a.wf(),
        goes_on(a, event, b),
        a.phase != b.phase,
        b.changed.len() <= usize::MAX,
        b.new_worktrees.len() <= usize::MAX,
    ensures
        match b.phase {
            Phase::Resolve(batch, i) => forall|j: int|
                0 <= j < b.states.len() ==> components((#[trigger] b.states[j]).0) != components(
                    match batch {
                        Batch::Scan(_) => b.repos[i as int],
                        Batch::Changed => b.changed[i as int],
                        Batch::NewWorktrees => b.new_worktrees[i as int],
                    },
                ),
            Phase::Poll(batch, i) => exists|j: int|
                0 <= j < b.states.len() && components((#[trigger] b.states[j]).0) == components(
                    match batch {
                        Batch::Scan(_) => b.repos[i as int],
                        Batch::Changed => b.changed[i as int],
                        Batch::NewWorktrees => b.new_worktrees[i as int],
                    },
                ),
            _ => true,
        },
{
    let keys = path_keys(tracked_paths(b.states));
    assert(keys.len() == b.states.len());
    assert(forall|j: int|
        0 <= j < b.states.len() ==> keys[j] == components((#[trigger] b.states[j]).0));
    match b.phase {
        Phase::Resolve(batch, i) => {
            assert(!has_entry(b.states, b.batch(batch)[i as int]));
            assert forall|j: int| 0 <= j < b.states.len() implies components(
                (#[trigger] b.states[j]).0,
            ) != components(b.batch(batch)[i as int]) by {
                assert(keys[j] == components(b.states[j].0));
            }
        },
        Phase::Poll(batch, i) => {
            let path = b.batch(batch)[i as int];
            if a.phase is Resolve && !has_entry(a.states, path) {
                assert(keys[b.states.len() - 1] == components(path));
            }
            assert(has_entry(b.states, path));
            let j = choose|j: int| 0 <= j < keys.len() && keys[j] == components(path);
            assert(components(b.states[j].0) == components(path));
        },
        _ => {},
    }
}

/// What a look at a new path told is what is tracked of it: its own text, the place where
/// polling starts, and the main repository of a worktree where that could be told, else
/// itself. Nothing that was tracked changes, and a path that is tracked is not added again.
pub proof fn law_resolved_is_tracked<C>(a: LoopModel<C>, event: LoopEvent<C>, b: LoopModel<C>)
    requires
        a.wf(),
        goes_on(a, event, b),
        a.phase is Resolve,
        event is Resolved,
    ensures
        ({
            let path = match a.phase->Resolve_0 {
                Batch::Scan(_) => a.repos[a.phase->Resolve_1 as int],
                Batch::Changed => a.changed[a.phase->Resolve_1 as int],
                Batch::NewWorktrees => a.new_worktrees[a.phase->Resolve_1 as int],
            };
            &&& forall|j: int|
                0 <= j < a.states.len() ==> j < b.states.len() && #[trigger] b.states[j]
                    == a.states[j]
            &&& b.states.len() <= a.states.len() + 1
            &&& b.states.len() == a.states.len() <==> exists|j: int|
                0 <= j < a.states.len() && components((#[trigger] a.states[j]).0) == components(path)
            &&& b.states.len() > a.states.len() ==> {
                &&& b.states.last().0 == path
                &&& b.states.last().1.cursor == event->cursor
                &&& b.states.last().1.main_repo_path@ == (match (event->worktree, event->main_repo) {
                    (true, Some(main)) => main@,
                    _ => path,
                })
            }
        }),
{
    let path = a.batch(a.phase->Resolve_0)[a.phase->Resolve_1 as int];
    let keys = path_keys(tracked_paths(a.states));
    assert(forall|j: int|
        0 <= j < a.states.len() ==> keys[j] == components((#[trigger] a.states[j]).0));
    if has_entry(a.states, path) {
        let j = choose|j: int| 0 <= j < keys.len() && keys[j] == components(path);
        assert(components(a.states[j].0) == components(path));
    } else {
        assert forall|j: int| 0 <= j < a.states.len() implies components(
            (#[trigger] a.states[j]).0,
        ) != components(path) by {
            assert(keys[j] == components(a.states[j].0));
        }
        assert forall|j: int| 0 <= j < a.states.len() implies #[trigger] b.states[j]
            == a.states[j] by {
            assert(b.states.drop_last()[j] == a.states[j]);
        }
    }
}

/// A discovery is taken over as it came: the repositories are those that were found, the
/// failures are those of looking for repositories and of the watched directories, and of
/// the tracked paths exactly those stay that were found again or lie in a place where
/// discovery failed, each with its state.
#[verifier::rlimit(40)]
pub proof fn law_discovery_is_taken_over<C>(a: LoopModel<C>, event: LoopEvent<C>, b: LoopModel<C>)
    requires
        a.wf(),
        goes_on(a, event, b),
        a.phase is Discover,
        event is Discovered,
    ensures
        b.repos.len() == event->repos.len(),
        forall|i: int| 0 <= i < b.repos.len() ==> #[trigger] b.repos[i] == event->repos[i]@,
        forall|i: int|
            0 <= i < event->traversal_errors.len() ==> b.discovery.contains(
                (
                    (#[trigger] event->traversal_errors[i]).0@,
                    event->traversal_errors[i].1@,
                ),
            ),
        forall|i: int|
            0 <= i < a.config.watch_dirs.len() && i < event->probes.len()
                && (#[trigger] event->probes[i]) is Some && (forall|j: int|
                0 <= j < i ==> components((#[trigger] a.config.watch_dirs[j])@) != components(
                    a.config.watch_dirs[i]@,
                )) ==> b.discovery.contains((a.config.watch_dirs[i]@, event->probes[i]->0@)),
        forall|k: int|
            0 <= k < b.discovery.len() ==> (exists|i: int|
                0 <= i < event->traversal_errors.len() && #[trigger] b.discovery[k] == (
                    (#[trigger] event->traversal_errors[i]).0@,
                    event->traversal_errors[i].1@,
                )) || (exists|i: int|
                0 <= i < a.config.watch_dirs.len() && i < event->probes.len()
                    && (#[trigger] event->probes[i]) is Some && b.discovery[k] == (
                    a.config.watch_dirs[i]@,
                    event->probes[i]->0@,
                )),
        b.discovery.len() >= event->traversal_errors.len(),
        b.discovery.take(b.discovery.len() - event->traversal_errors.len()) == unreadable(
            texts(a.config.watch_dirs@),
            event->probes@,
        ),
        forall|i: int|
            0 <= i < event->traversal_errors.len() ==> #[trigger] b.discovery[b.discovery.len()
                - event->traversal_errors.len() + i] == (
                event->traversal_errors[i].0@,
                event->traversal_errors[i].1@,
            ),
        forall|e: (Seq<char>, RepoState<C>)| #[trigger]
            b.states.contains(e) <==> a.states.contains(e) && ((exists|i: int|
                0 <= i < event->repos.len() && components((#[trigger] event->repos[i])@)
                    == components(e.0)) || (exists|k: int|
                0 <= k < b.discovery.len() && components(
                    (#[trigger] b.discovery[k]).0,
                ).is_prefix_of(components(e.0)))),
        if event->repos.len() > 0 {
            b.phase == Phase::Poll(Batch::Scan(a.phase->Discover_0), 0) || b.phase
                == Phase::Resolve(Batch::Scan(a.phase->Discover_0), 0)
        } else {
            b.phase == Phase::Enrich(a.phase->Discover_0)
        },
{
    let dirs = texts(a.config.watch_dirs@);
    let probes = event->probes@;
    let errors = event->traversal_errors@;
    let closed_dirs = unreadable(dirs, probes);
    let places = law_unreadable_is_complete(dirs, probes);
    assert(b.discovery == closed_dirs + pair_texts(errors));
    assert(b.discovery.take(closed_dirs.len() as int) =~= closed_dirs);
    assert forall|i: int|
        0 <= i < event->traversal_errors.len() implies #[trigger] b.discovery[b.discovery.len()
        - event->traversal_errors.len() + i] == (
        event->traversal_errors[i].0@,
        event->traversal_errors[i].1@,
    ) by {
        assert(pair_texts(errors)[i] == (errors[i].0@, errors[i].1@));
    }
    assert forall|i: int| 0 <= i < event->traversal_errors.len() implies b.discovery.contains(
        ((#[trigger] event->traversal_errors[i]).0@, event->traversal_errors[i].1@),
    ) by {
        assert(b.discovery[closed_dirs.len() + i] == (errors[i].0@, errors[i].1@));
    }
    assert forall|i: int|
        0 <= i < a.config.watch_dirs.len() && i < event->probes.len()
            && (#[trigger] event->probes[i]) is Some && (forall|j: int|
            0 <= j < i ==> components((#[trigger] a.config.watch_dirs[j])@) != components(
                a.config.watch_dirs[i]@,
            )) implies b.discovery.contains((a.config.watch_dirs[i]@, event->probes[i]->0@)) by {
        assert forall|j: int| 0 <= j < i implies components(#[trigger] dirs[j]) != components(
            dirs[i],
        ) by {
            assert(dirs[j] == a.config.watch_dirs[j]@);
        }
        assert(probes[i] is Some);
        assert(places.contains(i));
        let k = choose|k: int| 0 <= k < places.len() && places[k] == i;
        assert(b.discovery[k] == closed_dirs[k]);
    }
    assert forall|k: int| 0 <= k < b.discovery.len() implies (exists|i: int|
        0 <= i < event->traversal_errors.len() && #[trigger] b.discovery[k] == (
            (#[trigger] event->traversal_errors[i]).0@,
            event->traversal_errors[i].1@,
        )) || (exists|i: int|
        0 <= i < a.config.watch_dirs.len() && i < event->probes.len()
            && (#[trigger] event->probes[i]) is Some && b.discovery[k] == (
            a.config.watch_dirs[i]@,
            event->probes[i]->0@,
        )) by {
        if k < closed_dirs.len() {
            let i = places[k];
            assert(probes[i] is Some);
            assert(b.discovery[k] == (a.config.watch_dirs[i]@, event->probes[i]->0@));
        } else {
            let i = k - closed_dirs.len();
            assert(b.discovery[k] == (errors[i].0@, errors[i].1@));
        }
    }
    let keep = |e: (Seq<char>, RepoState<C>)|
        stays(texts(event->repos@), firsts(b.discovery), e.0);
    assert(b.states == a.states.filter(keep));
    assert forall|e: (Seq<char>, RepoState<C>)| #[trigger]
        b.states.contains(e) <==> a.states.contains(e) && ((exists|i: int|
            0 <= i < event->repos.len() && components((#[trigger] event->repos[i])@)
                == components(e.0)) || (exists|k: int|
            0 <= k < b.discovery.len() && components(
                (#[trigger] b.discovery[k]).0,
            ).is_prefix_of(components(e.0)))) by {
        lemma_kept_entry(a.states, keep, e);
        lemma_stays_in_full(texts(event->repos@), b.discovery, e.0);
        let found = texts(event->repos@);
        if exists|i: int| 0 <= i < found.len() && components(#[trigger] found[i]) == components(e.0) {
            let i = choose|i: int|
                0 <= i < found.len() && components(#[trigger] found[i]) == components(e.0);
            assert(components(event->repos[i]@) == components(e.0));
        }
        if exists|i: int|
            0 <= i < event->repos.len() && components((#[trigger] event->repos[i])@)
                == components(e.0) {
            let i = choose|i: int|
                0 <= i < event->repos.len() && components((#[trigger] event->repos[i])@)
                    == components(e.0);
            assert(components(found[i]) == components(e.0));
        }
    }
}

/// An entry is among those kept where it was there and is to be kept.
proof fn lemma_kept_entry<C>(
    states: Seq<(Seq<char>, RepoState<C>)>,
    keep: spec_fn((Seq<char>, RepoState<C>)) -> bool,
    e: (Seq<char>, RepoState<C>),
)
    ensures
        states.filter(keep).contains(e) <==> states.contains(e) && keep(e),
{
    if states.contains(e) && keep(e) {
        let i = choose|i: int| 0 <= i < states.len() && states[i] == e;
        states.lemma_filter_contains(keep, i);
    }
    if states.filter(keep).contains(e) {
        states.lemma_filter_contains_rev(keep, e);
        lemma_filtered(states, keep);
        let i = choose|i: int| 0 <= i < states.filter(keep).len() && states.filter(keep)[i] == e;
        assert(keep(states.filter(keep)[i]));
    }
}

/// Which paths stay after a discovery, by the components of what was found and of where it
/// failed.
proof fn lemma_stays_in_full(
    found: Seq<Seq<char>>,
    failures: Seq<(Seq<char>, Seq<char>)>,
    path: Seq<char>,
)
    ensures
        stays(found, firsts(failures), path) <==> (exists|i: int|
            0 <= i < found.len() && components(#[trigger] found[i]) == components(path)) || (
        exists|k: int|
            0 <= k < failures.len() && components((#[trigger] failures[k]).0).is_prefix_of(
                components(path),
            )),
{
    let roots = firsts(failures);
    law_what_stays(found, roots, path);
    if exists|k: int|
        0 <= k < roots.len() && components(#[trigger] roots[k]).is_prefix_of(components(path)) {
        let k = choose|k: int|
            0 <= k < roots.len() && components(#[trigger] roots[k]).is_prefix_of(components(path));
        assert(components(failures[k].0).is_prefix_of(components(path)));
    }
    if exists|k: int|
        0 <= k < failures.len() && components((#[trigger] failures[k]).0).is_prefix_of(
            components(path),
        ) {
        let k = choose|k: int|
            0 <= k < failures.len() && components((#[trigger] failures[k]).0).is_prefix_of(
                components(path),
            );
        assert(components(roots[k]).is_prefix_of(components(path)));
    }
}

/// A poll settles whether its own path counts as failed, and nothing else: a failed poll
/// adds the path, a poll that went well takes it out, and every other path stays as it was.
pub proof fn law_poll_settles_its_path<C>(
    a: LoopModel<C>,
    event: LoopEvent<C>,
    b: LoopModel<C>,
    path: Seq<char>,
)
    requires
        a.wf(),
        goes_on(a, event, b),
        a.phase is Poll,
        event is Polled,
    ensures
        ({
            let polled = match a.phase->Poll_0 {
                Batch::Scan(_) => a.repos[a.phase->Poll_1 as int],
                Batch::Changed => a.changed[a.phase->Poll_1 as int],
                Batch::NewWorktrees => a.new_worktrees[a.phase->Poll_1 as int],
            };
            let failed_after = exists|i: int|
                0 <= i < b.failed.len() && components(#[trigger] b.failed[i]) == components(path);
            let failed_before = exists|i: int|
                0 <= i < a.failed.len() && components(#[trigger] a.failed[i]) == components(path);
            &&& a.at_path() == Some(polled)
            &&& components(path) == components(polled) ==> failed_after == event->Polled_0
            &&& components(path) != components(polled) ==> failed_after == failed_before
        }),
{
    law_failures_are_the_last_outcomes(a, event, b, path);
    lemma_failed_by_components(a.failed, path);
    lemma_failed_by_components(b.failed, path);
}

/// A path is among others where one of them has its components.
proof fn lemma_failed_by_components(paths: Seq<Seq<char>>, path: Seq<char>)
    ensures
        path_keys(paths).contains(components(path)) <==> exists|i: int|
            0 <= i < paths.len() && components(#[trigger] paths[i]) == components(path),
{
    let keys = path_keys(paths);
    if keys.contains(components(path)) {
        let i = choose|i: int| 0 <= i < keys.len() && keys[i] == components(path);
        assert(components(paths[i]) == components(path));
    }
    if exists|i: int| 0 <= i < paths.len() && components(#[trigger] paths[i]) == components(path) {
        let i = choose|i: int|
            0 <= i < paths.len() && components(#[trigger] paths[i]) == components(path);
        assert(keys[i] == components(path));
    }
}

/// The worktrees that are looked at are the tracked paths whose activity is booked on
/// another path.
pub proof fn law_worktrees_are_booked_elsewhere<C>(
    states: Seq<(Seq<char>, RepoState<C>)>,
    path: Seq<char>,
)
    ensures
        worktrees_of(states).contains(path) <==> exists|i: int|
            0 <= i < states.len() && (#[trigger] states[i]).0 == path && components(
                states[i].1.main_repo_path@,
            ) != components(path),
{
    let keep = |e: (Seq<char>, RepoState<C>)| is_worktree(e);
    let kept = states.filter(keep);
    if worktrees_of(states).contains(path) {
        let k = choose|k: int| 0 <= k < kept.len() && tracked_paths(kept)[k] == path;
        assert(kept.contains(kept[k]));
        lemma_kept_entry(states, keep, kept[k]);
        let i = choose|i: int| 0 <= i < states.len() && states[i] == kept[k];
        assert(states[i].0 == path);
    }
    if exists|i: int|
        0 <= i < states.len() && (#[trigger] states[i]).0 == path && components(
            states[i].1.main_repo_path@,
        ) != components(path) {
        let i = choose|i: int|
            0 <= i < states.len() && (#[trigger] states[i]).0 == path && components(
                states[i].1.main_repo_path@,
            ) != components(path);
        lemma_kept_entry(states, keep, states[i]);
        let k = choose|k: int| 0 <= k < kept.len() && kept[k] == states[i];
        assert(tracked_paths(kept)[k] == path);
    }
}

/// A look at the worktrees forgets exactly those that it found gone, and with them their
/// failures: an entry goes where it is booked on another path and the look at a worktree
/// of its path found the directory absent, or the directory there without its `.git`
/// pointer.
#[verifier::rlimit(40)]
pub proof fn law_probes_forget_gone_worktrees<C>(
    a: LoopModel<C>,
    event: LoopEvent<C>,
    b: LoopModel<C>,
    e: (Seq<char>, RepoState<C>),
)
    requires
        a.wf(),
        goes_on(a, event, b),
        a.phase == Phase::ProbeWorktrees,
        event is WorktreesProbed,
        a.states.contains(e),
    ensures
        ({
            let looks = event->WorktreesProbed_0@;
            let found_gone = exists|j: int|
                0 <= j < worktrees_of(a.states).len() && j < looks.len() && components(
                    #[trigger] worktrees_of(a.states)[j],
                ) == components(e.0) && (looks[j].0 is Absent || (looks[j].0 is Present
                    && looks[j].1 is Absent));
            let forgotten = components(e.1.main_repo_path@) != components(e.0) && found_gone;
            &&& b.states.contains(e) <==> !forgotten
            &&& (exists|i: int|
                0 <= i < b.failed.len() && components(#[trigger] b.failed[i]) == components(e.0))
                <==> !forgotten && (exists|i: int|
                0 <= i < a.failed.len() && components(#[trigger] a.failed[i]) == components(e.0))
        }),
        forall|f: (Seq<char>, RepoState<C>)| #[trigger]
            b.states.contains(f) ==> a.states.contains(f),
        b.phase == if a.changed.len() > 0 || a.new_worktrees.len() > 0 || b.states.len()
            < a.states.len() {
            Phase::SnapshotEvents
        } else {
            Phase::CheckElapsed
        },
{
    let looks = event->WorktreesProbed_0@;
    let trees = worktrees_of(a.states);
    let g = gone(trees, looks);
    let keep = |x: (Seq<char>, RepoState<C>)| !is_stale(g, x);
    let drop = |x: (Seq<char>, RepoState<C>)| is_stale(g, x);
    lemma_kept_entry(a.states, keep, e);
    assert forall|f: (Seq<char>, RepoState<C>)| #[trigger]
        b.states.contains(f) implies a.states.contains(f) by {
        lemma_kept_entry(a.states, keep, f);
    }
    let found_gone = exists|j: int|
        0 <= j < trees.len() && j < looks.len() && components(#[trigger] trees[j]) == components(
            e.0,
        ) && (looks[j].0 is Absent || (looks[j].0 is Present && looks[j].1 is Absent));
    assert(lists_path(g, e.0) == found_gone) by {
        if lists_path(g, e.0) {
            let i = choose|i: int| 0 <= i < g.len() && same_path(#[trigger] g[i], e.0);
            assert(g.contains(g[i]));
            law_gone_needs_a_sure_look(trees, looks, g[i]);
            let j = choose|j: int|
                0 <= j < trees.len() && j < looks.len() && #[trigger] trees[j] == g[i] && (
                looks[j].0 is Absent || (looks[j].0 is Present && looks[j].1 is Absent));
            assert(components(trees[j]) == components(e.0));
        }
        if found_gone {
            let j = choose|j: int|
                0 <= j < trees.len() && j < looks.len() && components(#[trigger] trees[j])
                    == components(e.0) && (looks[j].0 is Absent || (looks[j].0 is Present
                    && looks[j].1 is Absent));
            law_gone_needs_a_sure_look(trees, looks, trees[j]);
            let i = choose|i: int| 0 <= i < g.len() && g[i] == trees[j];
            assert(same_path(g[i], e.0));
        }
    }
    let stale = stale_of(a.states, g);
    assert(lists_path(stale, e.0) == is_stale(g, e)) by {
        let kept = a.states.filter(drop);
        lemma_kept_entry(a.states, drop, e);
        if is_stale(g, e) {
            let i = choose|i: int| 0 <= i < kept.len() && kept[i] == e;
            assert(same_path(stale[i], e.0));
        }
        if lists_path(stale, e.0) {
            let i = choose|i: int| 0 <= i < stale.len() && same_path(#[trigger] stale[i], e.0);
            assert(kept.contains(kept[i]));
            lemma_kept_entry(a.states, drop, kept[i]);
            let m = choose|m: int| 0 <= m < a.states.len() && a.states[m] == kept[i];
            let n = choose|n: int| 0 <= n < a.states.len() && a.states[n] == e;
            let keys = path_keys(tracked_paths(a.states));
            assert(keys[m] == keys[n]);
        }
    }
    lemma_without_paths_members(a.failed, stale, e.0);
    lemma_parted(a.states, keep, drop);
}

/// Taking paths out of a set takes out what names one of them, and nothing else.
proof fn lemma_without_paths_members(
    members: Seq<Seq<char>>,
    paths: Seq<Seq<char>>,
    path: Seq<char>,
)
    ensures
        (exists|i: int|
            0 <= i < without_paths(members, paths).len() && components(
                #[trigger] without_paths(members, paths)[i],
            ) == components(path)) <==> !lists_path(paths, path) && (exists|i: int|
            0 <= i < members.len() && components(#[trigger] members[i]) == components(path)),
    decreases paths.len(),
{
    if paths.len() > 0 {
        let init = paths.drop_last();
        let before = without_paths(members, init);
        lemma_without_paths_members(members, init, path);
        let other = |q: Seq<char>| !same_path(q, paths.last());
        let after = before.filter(other);
        assert(lists_path(paths, path) <==> lists_path(init, path) || same_path(
            paths.last(),
            path,
        )) by {
            if lists_path(paths, path) {
                let i = choose|i: int| 0 <= i < paths.len() && same_path(#[trigger] paths[i], path);
                if i < init.len() {
                    assert(same_path(init[i], path));
                }
            }
            if lists_path(init, path) {
                let i = choose|i: int| 0 <= i < init.len() && same_path(#[trigger] init[i], path);
                assert(same_path(paths[i], path));
            }
            if same_path(paths.last(), path) {
                assert(same_path(paths[paths.len() - 1], path));
            }
        }
        if exists|i: int|
            0 <= i < after.len() && components(#[trigger] after[i]) == components(path) {
            let i = choose|i: int|
                0 <= i < after.len() && components(#[trigger] after[i]) == components(path);
            lemma_filtered(before, other);
            assert(before.contains(after[i]) && other(after[i]));
            let k = choose|k: int| 0 <= k < before.len() && before[k] == after[i];
            assert(components(before[k]) == components(path));
        }
        if !same_path(paths.last(), path) && exists|i: int|
            0 <= i < before.len() && components(#[trigger] before[i]) == components(path) {
            let i = choose|i: int|
                0 <= i < before.len() && components(#[trigger] before[i]) == components(path);
            assert(other(before[i]));
            before.lemma_filter_contains(other, i);
            let k = choose|k: int| 0 <= k < after.len() && after[k] == before[i];
            assert(components(after[k]) == components(path));
        }
    }
}

/// What is kept and what is dropped make up the whole.
proof fn lemma_parted<A>(s: Seq<A>, keep: spec_fn(A) -> bool, drop: spec_fn(A) -> bool)
    requires
        forall|x: A| #[trigger] keep(x) == !drop(x),
    ensures
        s.filter(keep).len() + s.filter(drop).len() == s.len(),
    decreases s.len(),
{
    reveal(Seq::filter);
    if s.len() > 0 {
        lemma_parted(s.drop_last(), keep, drop);
        assert(keep(s.last()) == !drop(s.last()));
    }
}

/// The rounds of the loop, phase by phase: a scan's batch is followed by the collection of
/// reviews, the opening of the watcher, the snapshot, the notification and the clock of
/// full scans; then a reload is looked for, and the loop receives the watcher's events
/// where a watcher is open and pauses where none is. A watcher that comes back after a
/// pause sets the clock, a reload that was read starts a scan, half an hour without a full
/// scan starts one, and so does each pause that is over.
pub proof fn law_rounds<C>(a: LoopModel<C>, event: LoopEvent<C>, b: LoopModel<C>)
    requires
        goes_on(a, event, b),
    ensures
        match (a.phase, event) {
            (Phase::Enrich(r), LoopEvent::Done) => b.phase == Phase::OpenWatcher(r),
            (Phase::OpenWatcher(r), LoopEvent::WatcherOpened(ok)) => {
                &&& b.watching == ok
                &&& b.phase == if ok && r == ScanReason::Fallback {
                    Phase::MarkRecovery
                } else {
                    Phase::SnapshotScan(r)
                }
            },
            (Phase::MarkRecovery, LoopEvent::Done) => b.phase == Phase::SnapshotScan(
                ScanReason::Fallback,
            ),
            (Phase::SnapshotScan(r), LoopEvent::Done) => b.phase == Phase::Notify(r),
            (Phase::Notify(r), LoopEvent::Done) => match r {
                ScanReason::Fallback => b.phase == Phase::CheckReload,
                _ => b.phase == Phase::MarkScan(r),
            },
            (Phase::MarkScan(r), LoopEvent::Done) => match r {
                ScanReason::Startup => b.phase == Phase::CheckReload,
                _ => b.phase == Phase::ClearDebounce(r),
            },
            (Phase::ClearDebounce(r), LoopEvent::Done) => match r {
                ScanReason::Reload => b.phase == if a.watching {
                    Phase::Receive
                } else {
                    Phase::Sleep
                },
                _ => b.phase == Phase::CheckReload,
            },
            (Phase::CheckReload, LoopEvent::ReloadRequested(requested)) => b.phase
                == if requested {
                Phase::ReloadConfig
            } else if a.watching {
                Phase::Receive
            } else {
                Phase::Sleep
            },
            (Phase::ReloadConfig, LoopEvent::ConfigReloaded(new)) => match new {
                Some(config) => b.config == config && b.phase == Phase::Discover(
                    ScanReason::Reload,
                ),
                None => b.config == a.config && b.phase == if a.watching {
                    Phase::Receive
                } else {
                    Phase::Sleep
                },
            },
            (Phase::SnapshotEvents, LoopEvent::Done) => b.phase == Phase::CheckElapsed,
            (Phase::CheckElapsed, LoopEvent::Elapsed(secs)) => b.phase == if secs >= 30 * 60 {
                Phase::Discover(ScanReason::Periodic)
            } else {
                Phase::CheckReload
            },
            (Phase::Sleep, LoopEvent::Done) => b.phase == Phase::Discover(ScanReason::Fallback),
            _ => true,
        },
{
}

/// Each event changes only what it tells of: the settings change by a reload, the tracked
/// paths by a discovery, by a look at a new path or at the worktrees, the failures by a
/// discovery, a poll or a look at the worktrees, what was discovered by a discovery, the
/// watcher by its opening, and its events by receiving new ones. An event that the phase
/// does not wait for changes nothing at all.
pub proof fn law_events_change_what_they_tell<C>(
    a: LoopModel<C>,
    event: LoopEvent<C>,
    b: LoopModel<C>,
)
    requires
        goes_on(a, event, b),
    ensures
        b.config != a.config ==> event is ConfigReloaded,
        b.states != a.states ==> event is Discovered || event is Resolved
            || event is WorktreesProbed,
        b.failed != a.failed ==> event is Discovered || event is Polled
            || event is WorktreesProbed,
        b.repos != a.repos || b.discovery != a.discovery ==> event is Discovered,
        b.watching != a.watching ==> event is WatcherOpened,
        b.changed != a.changed || b.new_worktrees != a.new_worktrees ==> event is Received,
        b != a ==> match event {
            LoopEvent::Discovered { .. } => a.phase is Discover,
            LoopEvent::Resolved { .. } => a.phase is Resolve,
            LoopEvent::Polled(_) => a.phase is Poll,
            LoopEvent::Done => a.phase is Watch || a.phase is Enrich || a.phase is MarkRecovery
                || a.phase is SnapshotScan || a.phase is Notify || a.phase is MarkScan
                || a.phase is ClearDebounce || a.phase is SnapshotEvents || a.phase is Sleep,
            LoopEvent::WatcherOpened(_) => a.phase is OpenWatcher,
            LoopEvent::ReloadRequested(_) => a.phase is CheckReload,
            LoopEvent::ConfigReloaded(_) => a.phase is ReloadConfig,
            LoopEvent::Received { .. } => a.phase is Receive,
            LoopEvent::WorktreesProbed(_) => a.phase is ProbeWorktrees,
            LoopEvent::Elapsed(_) => a.phase is CheckElapsed,
        },
{
}

/// A snapshot tells the whole state: every failure of the last discovery with its reason,
/// every path whose last poll failed and no other, the mode of the watcher, and the number
/// of repositories, which is that of the tracked paths after the watcher's events and that
/// of the discovered ones after a full scan.
pub proof fn law_snapshot_tells_the_state<C>(
    m: LoopModel<C>,
    now: Timestamp,
    snap: HealthSnapshot,
    path: Seq<char>,
)
    requires
        snapshot_shows(m, now, snap),
    ensures
        snap.last_poll_at == now,
        m.watching <==> snap.poll_mode@ == "watcher"@,
        !m.watching <==> snap.poll_mode@ == "polling"@,
        m.phase is SnapshotEvents ==> snap.repos_watched == m.states.len(),
        m.phase is SnapshotScan ==> snap.repos_watched == m.repos.len(),
        snap.effective_poll_interval_secs == m.config.poll_interval_secs,
        snap.discovery_metrics.failures.len() == m.discovery.len(),
        forall|i: int|
            0 <= i < m.discovery.len() ==> #[trigger] m.discovery[i] == (
                snap.discovery_metrics.failures[i].0@,
                snap.discovery_metrics.failures[i].1@,
            ),
        snap.poll_metrics.failed_paths.len() == m.failed.len(),
        m.failed.contains(path) <==> exists|i: int|
            0 <= i < snap.poll_metrics.failed_paths.len()
                && (#[trigger] snap.poll_metrics.failed_paths[i])@ == path,
{
    broadcast use vstd::seq_lib::group_to_multiset_ensures;

    reveal_strlit("watcher");
    reveal_strlit("polling");
    assert("watcher"@[0] != "polling"@[0]);
    let shown = texts(snap.poll_metrics.failed_paths@);
    let pairs = pair_texts(snap.discovery_metrics.failures@);
    assert(shown.len() == shown.to_multiset().len());
    assert(m.failed.len() == m.failed.to_multiset().len());
    assert forall|i: int| 0 <= i < m.discovery.len() implies #[trigger] m.discovery[i] == (
        snap.discovery_metrics.failures[i].0@,
        snap.discovery_metrics.failures[i].1@,
    ) by {
        assert(pairs[i] == m.discovery[i]);
    }
    assert(shown.contains(path) <==> shown.to_multiset().count(path) > 0);
    assert(m.failed.contains(path) <==> m.failed.to_multiset().count(path) > 0);
    if shown.contains(path) {
        let i = choose|i: int| 0 <= i < shown.len() && shown[i] == path;
        assert(snap.poll_metrics.failed_paths[i]@ == path);
    }
    if exists|i: int|
        0 <= i < snap.poll_metrics.failed_paths.len()
            && (#[trigger] snap.poll_metrics.failed_paths[i])@ == path {
        let i = choose|i: int|
            0 <= i < snap.poll_metrics.failed_paths.len()
                && (#[trigger] snap.poll_metrics.failed_paths[i])@ == path;
        assert(shown[i] == path);
    }
}

/// The path that is waited for is the one at the phase's place in its batch.
pub proof fn law_path_is_at_its_place<C>(m: LoopModel<C>)
    ensures
        match m.phase {
            Phase::Resolve(Batch::Scan(_), i) | Phase::Poll(Batch::Scan(_), i) => m.at_path()
                == Some(m.repos[i as int]),
            Phase::Resolve(Batch::Changed, i) | Phase::Poll(Batch::Changed, i) => m.at_path()
                == Some(m.changed[i as int]),
            Phase::Resolve(Batch::NewWorktrees, i)
            | Phase::Poll(Batch::NewWorktrees, i)
            | Phase::Watch(i) => m.at_path() == Some(m.new_worktrees[i as int]),
            _ => m.at_path() is None,
        },
{
}

} // verus!
