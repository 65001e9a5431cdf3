//! The live dashboard: its state, and what keys and refreshes do to it.

use vstd::prelude::*;
use vstd::string::*;

use crate::activity::{
    active_repo, build_sparkline, event_count, is_active, latest, law_order_by_mode, sort_number,
    sort_repos, sparkline_start, total_in_bucket, SPARKLINE_BUCKETS,
};
use crate::feed::{
    all_feed, build_feed, feed_items, law_feed_is_newest_first, repo_feed, shown,
};
use crate::sorting::{law_sorting_keeps_the_items, sorts};
use crate::text::{concat, opt_text};
use crate::time::{
    law_whole_minutes_are_full, lemma_rank_orders, Span, Timestamp, MIN_SECS,
};

pub use crate::activity::{latest_timestamp, SortMode};
pub use crate::feed::{
    collapse_similar_events, format_session_msg, ActivityEvent, AiSessionInfo, Color, FeedEvent,
    RepoSummary, ReviewInfo,
};

verus! {

/// The place in a scrolled list.
#[derive(Debug, Clone, Copy, PartialEq, Eq, Structural)]
pub struct ListState {
    /// The selected entry.
    pub selection: Option<usize>,
    /// The first entry that is shown.
    pub offset: usize,
}

impl ListState {
    /// Nothing selected, from the top.
    pub fn new() -> (r: ListState)
        ensures
            r.selection is None,
            r.offset == 0,
    {
        ListState { selection: None, offset: 0 }
    }

    /// The selected entry.
    pub fn selected(&self) -> (r: Option<usize>)
        ensures
            r == self.selection,
    {
        self.selection
    }

    /// Selects an entry; selecting none goes back to the top.
    pub fn select(&mut self, index: Option<usize>)
        ensures
            final(self).selection == index,
            final(self).offset == if index is None {
                0
            } else {
                old(self).offset
            },
    {
        self.selection = index;
        if index.is_none() {
            self.offset = 0;
        }
    }
}

/// A key.
#[derive(Debug, Clone, Copy, PartialEq, Eq, Structural)]
pub enum KeyCode {
    Char(char),
    Enter,
    Up,
    Down,
    /// Any other key.
    Other,
}

/// The keys held down with a key.
#[derive(Debug, Clone, Copy, PartialEq, Eq, Structural)]
pub enum KeyModifiers {
    NONE,
    /// The control key, and no other.
    CONTROL,
    /// Any other, or several.
    OTHER,
}

/// What has to be read anew after a key.
#[derive(Debug, Clone, Copy, PartialEq, Eq, Structural)]
pub enum Refresh {
    Nothing,
    /// The activity data.
    Data,
    /// The activity data, then the daemon's status.
    DataAndDaemon,
}

/// What a look at the daemon told.
#[derive(Debug)]
pub enum DaemonCheck {
    /// There is no data directory to look in.
    NoDataDir,
    Running,
    NotRunning,
    Failed(String),
}

/// What the settings and the database came to at the start.
#[derive(Debug)]
pub enum Startup {
    /// The settings could not be read.
    ConfigFailed(String),
    /// There is no data directory.
    DataDirFailed { session_gap_minutes: u64, first_commit_minutes: u64, error: String },
    /// The database could not be opened.
    DbFailed { session_gap_minutes: u64, first_commit_minutes: u64, error: String },
    Ready { session_gap_minutes: u64, first_commit_minutes: u64, db_path: String },
}

/// App state for the live dashboard.
pub struct App {
    pub running: bool,
    pub daemon_running: bool,
    pub error: Option<String>,
    pub repos: Vec<RepoSummary>,
    pub feed_events: Vec<FeedEvent>,
    pub total_time_mins: i64,
    pub active_repo: Option<String>,
    pub sparkline_data: Vec<u64>,
    pub sort_mode: SortMode,
    pub events_state: ListState,
    pub db_path: Option<String>,
    pub session_gap_minutes: u64,
    pub first_commit_minutes: u64,
}

/// The number of git events is part of the feed.
proof fn lemma_events_in_feed(repos: Seq<RepoSummary>)
    ensures
        event_count(repos) <= all_feed(repos).len(),
    decreases repos.len(),
{
    if repos.len() > 0 {
        lemma_events_in_feed(repos.drop_last());
        assert(repo_feed(repos.last()).len() >= repos.last().events@.len());
    }
}

impl Default for App {
    fn default() -> (r: App)
        ensures
            r.running,
            !r.daemon_running,
            r.error is None,
            r.repos@.len() == 0,
            r.feed_events@.len() == 0,
            r.total_time_mins == 0,
            r.active_repo is None,
            r.sparkline_data@ == Seq::new(16, |i: int| 0u64),
            r.sort_mode == SortMode::Commits,
            r.events_state == (ListState { selection: None, offset: 0 }),
            r.db_path is None,
            r.session_gap_minutes == 120,
            r.first_commit_minutes == 30,
    {
        let mut sparkline_data: Vec<u64> = Vec::new();
        while sparkline_data.len() < SPARKLINE_BUCKETS
            invariant
                sparkline_data.len() <= SPARKLINE_BUCKETS,
                forall|k: int| 0 <= k < sparkline_data@.len() ==> #[trigger] sparkline_data@[k] == 0,
            decreases SPARKLINE_BUCKETS - sparkline_data.len(),
        {
            sparkline_data.push(0);
        }
        assert(sparkline_data@ =~= Seq::new(16, |i: int| 0u64));
        App {
            running: true,
            daemon_running: false,
            error: None,
            repos: Vec::new(),
            feed_events: Vec::new(),
            total_time_mins: 0,
            active_repo: None,
            sparkline_data,
            sort_mode: SortMode::Commits,
            events_state: ListState::new(),
            db_path: None,
            session_gap_minutes: 120,
            first_commit_minutes: 30,
        }
    }
}

impl App {
    /// The dashboard before anything was read.
    pub fn new() -> (r: App)
        ensures
            r.running,
            !r.daemon_running,
            r.error is None,
            r.repos@.len() == 0,
            r.feed_events@.len() == 0,
            r.total_time_mins == 0,
            r.active_repo is None,
            r.sparkline_data@ == Seq::new(16, |i: int| 0u64),
            r.sort_mode == SortMode::Commits,
            r.events_state == (ListState { selection: None, offset: 0 }),
            r.db_path is None,
            r.session_gap_minutes == 120,
            r.first_commit_minutes == 30,
    {
        App::default()
    }

    /// Whether the data that the repositories are shown from is the same.
    pub open spec fn same_data(&self, other: &App) -> bool {
        &&& self.repos == other.repos
        &&& self.feed_events == other.feed_events
        &&& self.total_time_mins == other.total_time_mins
        &&& self.active_repo == other.active_repo
        &&& self.sparkline_data == other.sparkline_data
    }

    /// Whether the settings are the same.
    pub open spec fn same_settings(&self, other: &App) -> bool {
        &&& self.db_path == other.db_path
        &&& self.session_gap_minutes == other.session_gap_minutes
        &&& self.first_commit_minutes == other.first_commit_minutes
    }

    /// Takes up what the settings and the database came to at the start. What failed is
    /// shown as an error.
    pub fn configure(&mut self, startup: Startup)
        ensures
            start_effect(*old(self), startup, *final(self)),
            final(self).same_data(old(self)),
            final(self).running == old(self).running,
            final(self).daemon_running == old(self).daemon_running,
            final(self).sort_mode == old(self).sort_mode,
            final(self).events_state == old(self).events_state,
            match startup {
                Startup::ConfigFailed(e) => {
                    &&& opt_text(final(self).error) == Some("Config error: "@ + e@)
                    &&& final(self).same_settings(old(self))
                },
                Startup::DataDirFailed { session_gap_minutes, first_commit_minutes, error } => {
                    &&& opt_text(final(self).error) == Some("Data dir error: "@ + error@)
                    &&& final(self).session_gap_minutes == session_gap_minutes
                    &&& final(self).first_commit_minutes == first_commit_minutes
                    &&& final(self).db_path == old(self).db_path
                },
                Startup::DbFailed { session_gap_minutes, first_commit_minutes, error } => {
                    &&& opt_text(final(self).error) == Some("DB error: "@ + error@)
                    &&& final(self).session_gap_minutes == session_gap_minutes
                    &&& final(self).first_commit_minutes == first_commit_minutes
                    &&& final(self).db_path == old(self).db_path
                },
                Startup::Ready { session_gap_minutes, first_commit_minutes, db_path } => {
                    &&& final(self).error == old(self).error
                    &&& final(self).session_gap_minutes == session_gap_minutes
                    &&& final(self).first_commit_minutes == first_commit_minutes
                    &&& final(self).db_path == Some(db_path)
                },
            },
    {
        match startup {
            Startup::ConfigFailed(e) => {
                self.error = Some(concat("Config error: ", e.as_str()));
            },
            Startup::DataDirFailed { session_gap_minutes, first_commit_minutes, error } => {
                self.session_gap_minutes = session_gap_minutes;
                self.first_commit_minutes = first_commit_minutes;
                self.error = Some(concat("Data dir error: ", error.as_str()));
            },
            Startup::DbFailed { session_gap_minutes, first_commit_minutes, error } => {
                self.session_gap_minutes = session_gap_minutes;
                self.first_commit_minutes = first_commit_minutes;
                self.error = Some(concat("DB error: ", error.as_str()));
            },
            Startup::Ready { session_gap_minutes, first_commit_minutes, db_path } => {
                self.session_gap_minutes = session_gap_minutes;
                self.first_commit_minutes = first_commit_minutes;
                self.db_path = Some(db_path);
            },
        }
    }

    /// Takes up whether the daemon is running: by its PID file, or as a service.
    pub fn refresh_daemon_status(&mut self, check: DaemonCheck, launchd_running: bool)
        ensures
            look_effect(*old(self), check, launchd_running, *final(self)),
            final(self).daemon_running == (check is Running || launchd_running),
            match check {
                DaemonCheck::Failed(e) => opt_text(final(self).error) == Some(
                    "Daemon status error: "@ + e@,
                ),
                _ => final(self).error == old(self).error,
            },
            final(self).same_data(old(self)),
            final(self).same_settings(old(self)),
            final(self).running == old(self).running,
            final(self).sort_mode == old(self).sort_mode,
            final(self).events_state == old(self).events_state,
    {
        let by_pid = match check {
            DaemonCheck::Running => true,
            DaemonCheck::NotRunning => false,
            DaemonCheck::NoDataDir => false,
            DaemonCheck::Failed(e) => {
                self.error = Some(concat("Daemon status error: ", e.as_str()));
                false
            },
        };
        self.daemon_running = by_pid || launchd_running;
    }

    /// Takes up what happened in the repositories since `range_start`, and the time worked
    /// on all of them together.
    #[verifier::rlimit(40)]
    pub fn refresh_data(
        &mut self,
        repos: Vec<RepoSummary>,
        total_time: Span,
        range_start: Timestamp,
        now: Timestamp,
    )
        requires
            forall|i: int| 0 <= i < repos@.len() ==> (#[trigger] repos@[i]).wf(),
            total_time.wf(),
            range_start.wf(),
            now.wf(),
            MIN_SECS + 28800 <= now.secs,
        ensures
            data_effect(*old(self), repos@, total_time, range_start, now, *final(self)),
            match final(self).active_repo {
                None => repos@.len() == 0,
                Some(name) => exists|i: int| #[trigger]
                    is_active(repos@, i) && name@ == repos@[i].repo_name@,
            },
            sorts(repos@, final(self).repos@, sort_number(old(self).sort_mode)),
            final(self).repos@.to_multiset() == repos@.to_multiset(),
            final(self).repos@.len() == repos@.len(),
            forall|i: int|
                0 <= i < final(self).repos@.len() ==> (#[trigger] final(self).repos@[i]).wf(),
            feed_items(final(self).feed_events@) == shown(all_feed(final(self).repos@)),
            final(self).total_time_mins == total_time.whole_minutes(),
            final(self).sparkline_data@.len() == SPARKLINE_BUCKETS,
            forall|k: int|
                0 <= k < SPARKLINE_BUCKETS ==> #[trigger] final(self).sparkline_data@[k]
                    == total_in_bucket(
                    final(self).repos@,
                    sparkline_start(range_start, now),
                    k,
                ),
            final(self).same_settings(old(self)),
            final(self).running == old(self).running,
            final(self).daemon_running == old(self).daemon_running,
            final(self).error == old(self).error,
            final(self).sort_mode == old(self).sort_mode,
            final(self).events_state == old(self).events_state,
    {
        self.active_repo = active_repo(&repos);
        let ghost unsorted = repos@;
        let repos = sort_repos(repos, self.sort_mode);
        proof {
            assert forall|i: int| 0 <= i < repos@.len() implies (#[trigger] repos@[i]).wf() by {
                let r = repos@[i];
                assert(unsorted.contains(r)) by {
                    broadcast use vstd::seq_lib::group_to_multiset_ensures;

                    assert(repos@.to_multiset().contains(r));
                }
                let j = choose|j: int| 0 <= j < unsorted.len() && unsorted[j] == r;
                assert(unsorted[j].wf());
            }
        }
        let (feed, _total) = build_feed(&repos);
        self.total_time_mins = total_time.num_minutes();
        proof {
            lemma_events_in_feed(repos@);
        }
        self.sparkline_data = build_sparkline(&repos, range_start, now);
        self.repos = repos;
        self.feed_events = feed;
    }

    /// Does what a key stands for, and tells what has to be read anew.
    pub fn handle_key(&mut self, code: KeyCode, modifiers: KeyModifiers) -> (r: Refresh)
        ensures
            key_effect(*old(self), code, modifiers, *final(self), r),
            final(self).running == (old(self).running && code != KeyCode::Char('q') && !(code
                == KeyCode::Char('c') && modifiers == KeyModifiers::CONTROL)),
            r == if code == KeyCode::Char('r') {
                Refresh::DataAndDaemon
            } else if code == KeyCode::Char('s') {
                Refresh::Data
            } else {
                Refresh::Nothing
            },
            final(self).sort_mode == if code == KeyCode::Char('s') {
                old(self).sort_mode.following()
            } else {
                old(self).sort_mode
            },
            final(self).events_state == if code == KeyCode::Char('j') || code == KeyCode::Down {
                scrolled_down(old(self).events_state, old(self).feed_events@.len())
            } else if code == KeyCode::Char('k') || code == KeyCode::Up {
                scrolled_up(old(self).events_state)
            } else {
                old(self).events_state
            },
            final(self).same_data(old(self)),
            final(self).same_settings(old(self)),
            final(self).daemon_running == old(self).daemon_running,
            final(self).error == old(self).error,
    {
        match code {
            KeyCode::Char(c) => {
                if c == 'q' {
                    self.running = false;
                } else if c == 'c' {
                    if modifiers == KeyModifiers::CONTROL {
                        self.running = false;
                    }
                } else if c == 'r' {
                    return Refresh::DataAndDaemon;
                } else if c == 's' {
                    self.sort_mode = self.sort_mode.next();
                    return Refresh::Data;
                } else if c == 'j' {
                    self.scroll_down();
                } else if c == 'k' {
                    self.scroll_up();
                }
            },
            KeyCode::Down => {
                self.scroll_down();
            },
            KeyCode::Up => {
                self.scroll_up();
            },
            _ => {},
        }
        Refresh::Nothing
    }

    /// Selects the next event, or the first where none is selected.
    pub fn scroll_down(&mut self)
        ensures
            final(self).events_state == scrolled_down(
                old(self).events_state,
                old(self).feed_events@.len(),
            ),
            final(self).same_data(old(self)),
            final(self).same_settings(old(self)),
            final(self).running == old(self).running,
            final(self).daemon_running == old(self).daemon_running,
            final(self).error == old(self).error,
            final(self).sort_mode == old(self).sort_mode,
    {
        if self.feed_events.len() == 0 {
            return;
        }
        let last: usize = self.feed_events.len() - 1;
        let i: usize = match self.events_state.selected() {
            None => 0,
            Some(i) => if i >= last {
                last
            } else {
                i + 1
            },
        };
        self.events_state.select(Some(i));
    }

    /// Selects the previous event, or the first where none is selected.
    pub fn scroll_up(&mut self)
        ensures
            final(self).events_state == scrolled_up(old(self).events_state),
            final(self).same_data(old(self)),
            final(self).same_settings(old(self)),
            final(self).running == old(self).running,
            final(self).daemon_running == old(self).daemon_running,
            final(self).error == old(self).error,
            final(self).sort_mode == old(self).sort_mode,
    {
        let i: usize = match self.events_state.selected() {
            None => 0,
            Some(i) => if i == 0 {
                0
            } else {
                i - 1
            },
        };
        self.events_state.select(Some(i));
    }
}

/// The place in a list of `len` entries after scrolling down.
pub open spec fn scrolled_down(state: ListState, len: nat) -> ListState {
    if len == 0 {
        state
    } else {
        let i: int = match state.selection {
            None => 0,
            Some(i) => if i + 1 < len {
                i + 1
            } else {
                len - 1
            },
        };
        ListState { selection: Some(i as usize), offset: state.offset }
    }
}

/// The place in a list after scrolling up.
pub open spec fn scrolled_up(state: ListState) -> ListState {
    let i: int = match state.selection {
        None => 0,
        Some(i) => if i == 0 {
            0
        } else {
            i - 1
        },
    };
    ListState { selection: Some(i as usize), offset: state.offset }
}

/// Scrolling stays in the list: in a list with entries, what was in it or nowhere is in it
/// afterwards, whichever way it goes.
pub proof fn law_scrolling_stays_in_list(state: ListState, len: nat)
    requires
        0 < len <= usize::MAX,
        state.selection matches Some(i) ==> i < len,
    ensures
        scrolled_down(state, len).selection matches Some(i) && i < len,
        scrolled_up(state).selection matches Some(i) && i < len,
{
}

/// Scrolling up undoes scrolling down, except from nowhere and at the end.
pub proof fn law_scrolling_up_undoes_down(state: ListState, len: nat)
    requires
        0 < len <= usize::MAX,
        state.selection matches Some(i) && i + 1 < len,
    ensures
        scrolled_up(scrolled_down(state, len)) == state,
{
}

/// Scrolling goes one entry at a time, starts at the first where none is selected, stops at
/// either end, and leaves what is shown first alone; in an empty list scrolling down does
/// nothing.
pub proof fn law_scrolling_one_by_one(state: ListState, len: nat)
    requires
        len <= usize::MAX,
    ensures
        len == 0 ==> scrolled_down(state, len) == state,
        len > 0 && state.selection is None ==> scrolled_down(state, len).selection == Some(0usize),
        state.selection matches Some(i) ==> {
            &&& i + 1 < len ==> scrolled_down(state, len).selection == Some((i + 1) as usize)
            &&& len > 0 && i + 1 >= len ==> scrolled_down(state, len).selection == Some(
                (len - 1) as usize,
            )
            &&& i > 0 ==> scrolled_up(state).selection == Some((i - 1) as usize)
            &&& i == 0 ==> scrolled_up(state).selection == Some(0usize)
        },
        state.selection is None ==> scrolled_up(state).selection == Some(0usize),
        scrolled_down(state, len).offset == state.offset,
        scrolled_up(state).offset == state.offset,
{
}

/// What a key does to the dashboard, and what has to be read anew after it.
pub open spec fn key_effect(
    before: App,
    code: KeyCode,
    modifiers: KeyModifiers,
    after: App,
    refresh: Refresh,
) -> bool {
    &&& after.running == (before.running && code != KeyCode::Char('q') && !(code == KeyCode::Char(
        'c',
    ) && modifiers == KeyModifiers::CONTROL))
    &&& refresh == if code == KeyCode::Char('r') {
        Refresh::DataAndDaemon
    } else if code == KeyCode::Char('s') {
        Refresh::Data
    } else {
        Refresh::Nothing
    }
    &&& after.sort_mode == if code == KeyCode::Char('s') {
        before.sort_mode.following()
    } else {
        before.sort_mode
    }
    &&& after.events_state == if code == KeyCode::Char('j') || code == KeyCode::Down {
        scrolled_down(before.events_state, before.feed_events@.len())
    } else if code == KeyCode::Char('k') || code == KeyCode::Up {
        scrolled_up(before.events_state)
    } else {
        before.events_state
    }
    &&& after.same_data(&before)
    &&& after.same_settings(&before)
    &&& after.daemon_running == before.daemon_running
    &&& after.error == before.error
}

/// Each key has its own effect and no other: `q`, and `c` with the control key, end the
/// dashboard, which nothing starts again; `r` and `s` have data read anew, and `s` alone
/// changes the order; the arrows do what `j` and `k` do, and only these scroll. No key
/// changes what is shown.
pub proof fn law_each_key_has_its_effect(
    before: App,
    code: KeyCode,
    modifiers: KeyModifiers,
    after: App,
    refresh: Refresh,
)
    requires
        key_effect(before, code, modifiers, after, refresh),
    ensures
        before.running && !after.running ==> code == KeyCode::Char('q') || (code == KeyCode::Char(
            'c',
        ) && modifiers is CONTROL),
        code == KeyCode::Char('q') || (code == KeyCode::Char('c') && modifiers is CONTROL)
            ==> !after.running,
        !before.running ==> !after.running,
        refresh is DataAndDaemon <==> code == KeyCode::Char('r'),
        refresh is Data <==> code == KeyCode::Char('s'),
        after.sort_mode != before.sort_mode <==> code == KeyCode::Char('s'),
        after.events_state != before.events_state ==> code is Down || code is Up || code
            == KeyCode::Char('j') || code == KeyCode::Char('k'),
        code is Down || code == KeyCode::Char('j') ==> after.events_state == scrolled_down(
            before.events_state,
            before.feed_events@.len(),
        ),
        code is Up || code == KeyCode::Char('k') ==> after.events_state == scrolled_up(
            before.events_state,
        ),
        after.repos == before.repos,
        after.feed_events == before.feed_events,
        after.total_time_mins == before.total_time_mins,
        after.active_repo == before.active_repo,
        after.sparkline_data == before.sparkline_data,
        after.db_path == before.db_path,
        after.session_gap_minutes == before.session_gap_minutes,
        after.first_commit_minutes == before.first_commit_minutes,
        after.daemon_running == before.daemon_running,
        after.error == before.error,
{
}

/// What the start of the dashboard leaves of the settings and of what failed.
pub open spec fn start_effect(before: App, startup: Startup, after: App) -> bool {
    match startup {
        Startup::ConfigFailed(e) => {
            &&& opt_text(after.error) == Some("Config error: "@ + e@)
            &&& after.same_settings(&before)
        },
        Startup::DataDirFailed { session_gap_minutes, first_commit_minutes, error } => {
            &&& opt_text(after.error) == Some("Data dir error: "@ + error@)
            &&& after.session_gap_minutes == session_gap_minutes
            &&& after.first_commit_minutes == first_commit_minutes
            &&& after.db_path == before.db_path
        },
        Startup::DbFailed { session_gap_minutes, first_commit_minutes, error } => {
            &&& opt_text(after.error) == Some("DB error: "@ + error@)
            &&& after.session_gap_minutes == session_gap_minutes
            &&& after.first_commit_minutes == first_commit_minutes
            &&& after.db_path == before.db_path
        },
        Startup::Ready { session_gap_minutes, first_commit_minutes, db_path } => {
            &&& after.error == before.error
            &&& after.session_gap_minutes == session_gap_minutes
            &&& after.first_commit_minutes == first_commit_minutes
            &&& after.db_path == Some(db_path)
        },
    }
}

/// A start that failed shows an error, one that did not shows none; the settings are taken
/// over wherever they could be read, and the database only where all went well.
pub proof fn law_start_shows_what_failed(before: App, startup: Startup, after: App)
    requires
        start_effect(before, startup, after),
        before.error is None,
        before.db_path is None,
    ensures
        after.error is None <==> startup is Ready,
        after.db_path is Some <==> startup is Ready,
        startup matches Startup::Ready { db_path, .. } ==> after.db_path == Some(db_path),
        match startup {
            Startup::ConfigFailed(_) => after.session_gap_minutes == before.session_gap_minutes
                && after.first_commit_minutes == before.first_commit_minutes,
            Startup::DataDirFailed { session_gap_minutes, first_commit_minutes, .. }
            | Startup::DbFailed { session_gap_minutes, first_commit_minutes, .. }
            | Startup::Ready { session_gap_minutes, first_commit_minutes, .. } =>
                after.session_gap_minutes == session_gap_minutes && after.first_commit_minutes
                    == first_commit_minutes,
        },
        match startup {
            Startup::ConfigFailed(e)
            | Startup::DataDirFailed { error: e, .. }
            | Startup::DbFailed { error: e, .. } => after.error is Some
                && exists|n: int|
                    0 < n <= after.error->0@.len() && #[trigger] after.error->0@.skip(n) == e@,
            Startup::Ready { .. } => true,
        },
{
    reveal_strlit("Config error: ");
    reveal_strlit("Data dir error: ");
    reveal_strlit("DB error: ");
    match startup {
        Startup::ConfigFailed(e) => {
            assert(after.error->0@.skip(14) =~= e@);
        },
        Startup::DataDirFailed { error: e, .. } => {
            assert(after.error->0@.skip(16) =~= e@);
        },
        Startup::DbFailed { error: e, .. } => {
            assert(after.error->0@.skip(10) =~= e@);
        },
        Startup::Ready { .. } => {},
    }
}

/// What a look at the daemon leaves.
pub open spec fn look_effect(
    before: App,
    check: DaemonCheck,
    launchd_running: bool,
    after: App,
) -> bool {
    &&& after.daemon_running == (check is Running || launchd_running)
    &&& match check {
        DaemonCheck::Failed(e) => opt_text(after.error) == Some("Daemon status error: "@ + e@),
        _ => after.error == before.error,
    }
}

/// The daemon is shown as running where its PID file or the service manager says so, and
/// only there; a look that failed is shown, and no other look touches what is shown as an
/// error.
pub proof fn law_daemon_runs_by_either_sign(
    before: App,
    check: DaemonCheck,
    launchd_running: bool,
    after: App,
)
    requires
        look_effect(before, check, launchd_running, after),
    ensures
        launchd_running ==> after.daemon_running,
        check is Running ==> after.daemon_running,
        after.daemon_running ==> launchd_running || check is Running,
        check is Failed ==> after.error is Some,
        !(check is Failed) ==> after.error == before.error,
{
}

/// What refreshed data leave of the dashboard.
pub open spec fn data_effect(
    before: App,
    repos: Seq<RepoSummary>,
    total_time: Span,
    range_start: Timestamp,
    now: Timestamp,
    after: App,
) -> bool {
    &&& match after.active_repo {
        None => repos.len() == 0,
        Some(name) => exists|i: int| #[trigger]
            is_active(repos, i) && name@ == repos[i].repo_name@,
    }
    &&& sorts(repos, after.repos@, sort_number(before.sort_mode))
    &&& feed_items(after.feed_events@) == shown(all_feed(after.repos@))
    &&& after.total_time_mins == total_time.whole_minutes()
    &&& after.sparkline_data@.len() == SPARKLINE_BUCKETS
    &&& forall|k: int|
        0 <= k < SPARKLINE_BUCKETS ==> #[trigger] after.sparkline_data@[k] == total_in_bucket(
            after.repos@,
            sparkline_start(range_start, now),
            k,
        )
}

/// Refreshed data are shown whole and in the chosen order: every repository once, ordered
/// by what the mode says, as the active one that in which the last thing happened, at most
/// fifty events, newest first, sixteen half hours, and the full minutes worked.
pub proof fn law_refresh_shows_the_data(
    before: App,
    repos: Seq<RepoSummary>,
    total_time: Span,
    range_start: Timestamp,
    now: Timestamp,
    after: App,
)
    requires
        data_effect(before, repos, total_time, range_start, now, after),
    ensures
        after.repos.len() == repos.len(),
        forall|x: RepoSummary| after.repos@.to_multiset().count(x)
            == #[trigger] repos.to_multiset().count(x),
        forall|i: int, j: int|
            0 <= i < j < after.repos@.len() ==> {
                let first = #[trigger] after.repos@[i];
                let second = #[trigger] after.repos@[j];
                match before.sort_mode {
                    SortMode::Recent => !latest(first).before(latest(second)),
                    SortMode::Time => first.estimated_time.secs * 1_000_000_000
                        + first.estimated_time.nanos >= second.estimated_time.secs * 1_000_000_000
                        + second.estimated_time.nanos,
                    SortMode::Commits => first.commits >= second.commits,
                }
            },
        after.active_repo is None <==> repos.len() == 0,
        after.active_repo is Some ==> exists|k: int|
            0 <= k < repos.len() && (#[trigger] repos[k]).repo_name@ == after.active_repo->0@ && (
            forall|m: int|
                0 <= m < repos.len() ==> !latest(repos[k]).before(latest(#[trigger] repos[m]))),
        after.feed_events.len() <= 50,
        forall|a: int, b: int|
            0 <= a < b < after.feed_events@.len() ==> !(
            #[trigger] after.feed_events@[a]).timestamp.before(
                (#[trigger] after.feed_events@[b]).timestamp,
            ),
        after.sparkline_data.len() == 16,
        total_time.secs >= 0 && total_time.nanos < 1_000_000_000 ==> after.total_time_mins * 60
            <= total_time.secs < (after.total_time_mins + 1) * 60,
{
    let key = sort_number(before.sort_mode);
    assert forall|x: RepoSummary| after.repos@.to_multiset().count(x)
        == #[trigger] repos.to_multiset().count(x) by {
        law_sorting_keeps_the_items(repos, after.repos@, key, x);
    }
    assert(after.repos.len() == repos.len()) by {
        law_sorting_keeps_the_items(repos, after.repos@, key, repos[0]);
    }
    assert forall|i: int, j: int| 0 <= i < j < after.repos@.len() implies {
        let first = #[trigger] after.repos@[i];
        let second = #[trigger] after.repos@[j];
        match before.sort_mode {
            SortMode::Recent => !latest(first).before(latest(second)),
            SortMode::Time => first.estimated_time.secs * 1_000_000_000
                + first.estimated_time.nanos >= second.estimated_time.secs * 1_000_000_000
                + second.estimated_time.nanos,
            SortMode::Commits => first.commits >= second.commits,
        }
    } by {
        law_order_by_mode(repos, after.repos@, before.sort_mode, i, j);
    }
    if after.active_repo is Some {
        let k = choose|k: int| #[trigger]
            is_active(repos, k) && after.active_repo->0@ == repos[k].repo_name@;
        assert(repos[k].repo_name@ == after.active_repo->0@);
        assert forall|m: int| 0 <= m < repos.len() implies !latest(repos[k]).before(
            latest(#[trigger] repos[m]),
        ) by {}
    }
    let items = feed_items(after.feed_events@);
    law_feed_is_newest_first(all_feed(after.repos@));
    assert forall|a: int, b: int| 0 <= a < b < after.feed_events@.len() implies !(
    #[trigger] after.feed_events@[a]).timestamp.before(
        (#[trigger] after.feed_events@[b]).timestamp,
    ) by {
        assert(items[a].timestamp == after.feed_events@[a].timestamp);
        assert(items[b].timestamp == after.feed_events@[b].timestamp);
        lemma_rank_orders(items[a].timestamp, items[b].timestamp);
    }
    if total_time.secs >= 0 && total_time.nanos < 1_000_000_000 {
        law_whole_minutes_are_full(total_time);
    }
}

/// The nanoseconds between refreshes.
pub const TICK_NANOS: u64 = 1_000_000_000;

/// How long to wait for a key, in nanoseconds, where `elapsed` have passed since the last
/// refresh.
pub fn key_wait(elapsed: u64) -> (r: u64)
    ensures
        r == if elapsed < TICK_NANOS {
            TICK_NANOS - elapsed
        } else {
            0
        },
{
    if elapsed < TICK_NANOS {
        TICK_NANOS - elapsed
    } else {
        0
    }
}

/// Whether a refresh is due, where `elapsed` nanoseconds have passed since the last.
pub fn refresh_due(elapsed: u64) -> (r: bool)
    ensures
        r <==> elapsed >= TICK_NANOS,
{
    elapsed >= TICK_NANOS
}

} // verus!
