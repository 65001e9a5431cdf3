//! When and how much was done in the repositories of the day.

use vstd::prelude::*;
use vstd::string::*;

use crate::feed::{ActivityEvent, RepoSummary};
use crate::sorting::{law_sorting_keeps_the_items, sort_descending, sorts};
use crate::time::{lemma_rank_orders, Timestamp, MIN_SECS};

verus! {

/// How the repositories are ordered.
#[derive(Debug, Clone, Copy, PartialEq, Eq, Structural)]
pub enum SortMode {
    Recent,
    Time,
    Commits,
}

impl SortMode {
    /// The mode that follows.
    pub open spec fn following(self) -> SortMode {
        match self {
            SortMode::Recent => SortMode::Time,
            SortMode::Time => SortMode::Commits,
            SortMode::Commits => SortMode::Recent,
        }
    }

    /// The name of the mode.
    pub open spec fn name(self) -> Seq<char> {
        match self {
            SortMode::Recent => "recent"@,
            SortMode::Time => "time"@,
            SortMode::Commits => "commits"@,
        }
    }

    /// The mode that follows.
    pub fn next(self) -> (r: SortMode)
        ensures
            r == self.following(),
    {
        match self {
            SortMode::Recent => SortMode::Time,
            SortMode::Time => SortMode::Commits,
            SortMode::Commits => SortMode::Recent,
        }
    }

    /// The name of the mode.
    pub fn label(self) -> (r: &'static str)
        ensures
            r@ == self.name(),
    {
        match self {
            SortMode::Recent => "recent",
            SortMode::Time => "time",
            SortMode::Commits => "commits",
        }
    }
}

/// Switching the order three times comes back to where it was, and not before.
pub proof fn law_sort_modes_rotate(mode: SortMode)
    ensures
        mode.following().following().following() == mode,
        mode.following() != mode,
        mode.following().following() != mode,
{
}

/// The time before every other.
pub open spec fn earliest() -> Timestamp {
    Timestamp { secs: MIN_SECS, nanos: 0 }
}

/// The later of two points in time.
pub open spec fn later_of(a: Timestamp, b: Timestamp) -> Timestamp {
    if a.before(b) {
        b
    } else {
        a
    }
}

/// The time of a repository's last git event.
pub open spec fn last_event(repo: RepoSummary) -> Timestamp {
    if repo.events@.len() == 0 {
        earliest()
    } else {
        repo.events@.last().timestamp
    }
}

/// The time of a repository's last review.
pub open spec fn last_review(repo: RepoSummary) -> Timestamp {
    if repo.reviews@.len() == 0 {
        earliest()
    } else {
        repo.reviews@.last().reviewed_at
    }
}

/// The time at which a repository's last session started.
pub open spec fn last_session(repo: RepoSummary) -> Timestamp {
    if repo.ai_sessions@.len() == 0 {
        earliest()
    } else {
        repo.ai_sessions@.last().started_at
    }
}

/// The time of the last thing that happened in a repository; the earliest time there is
/// where nothing did.
pub open spec fn latest(repo: RepoSummary) -> Timestamp {
    later_of(later_of(last_event(repo), last_review(repo)), last_session(repo))
}

fn pick_later(a: Timestamp, b: Timestamp) -> (r: Timestamp)
    ensures
        r == later_of(a, b),
{
    if a.is_before(&b) {
        b
    } else {
        a
    }
}

/// The time of the last thing that happened in a repository.
pub fn latest_timestamp(repo: &RepoSummary) -> (r: Timestamp)
    ensures
        r == latest(*repo),
{
    let never = Timestamp { secs: MIN_SECS, nanos: 0 };
    let e: usize = repo.events.len();
    let r: usize = repo.reviews.len();
    let s: usize = repo.ai_sessions.len();
    let event = if e == 0 {
        never
    } else {
        repo.events[e - 1].timestamp
    };
    let review = if r == 0 {
        never
    } else {
        repo.reviews[r - 1].reviewed_at
    };
    let session = if s == 0 {
        never
    } else {
        repo.ai_sessions[s - 1].started_at
    };
    pick_later(pick_later(event, review), session)
}

// ---------------------------------------------------------------------------
// The active repository, and the order of all
// ---------------------------------------------------------------------------

/// Whether the last thing of all happened in the repository at `i`, and in none that comes
/// after it.
pub open spec fn is_active(repos: Seq<RepoSummary>, i: int) -> bool {
    &&& 0 <= i < repos.len()
    &&& forall|j: int| 0 <= j < i ==> !latest(repos[i]).before(latest(#[trigger] repos[j]))
    &&& forall|j: int| i < j < repos.len() ==> latest(#[trigger] repos[j]).before(latest(repos[i]))
}

/// Finds the repository in which the last thing happened.
pub fn active_repo(repos: &Vec<RepoSummary>) -> (r: Option<String>)
    ensures
        match r {
            None => repos@.len() == 0,
            Some(name) => exists|i: int| #[trigger]
                is_active(repos@, i) && name@ == repos@[i].repo_name@,
        },
{
    if repos.len() == 0 {
        return None;
    }
    let mut best: usize = 0;
    let mut time = latest_timestamp(&repos[0]);
    let mut i: usize = 1;
    while i < repos.len()
        invariant
            best < i <= repos.len(),
            time == latest(repos@[best as int]),
            forall|j: int| 0 <= j < best ==> !time.before(latest(#[trigger] repos@[j])),
            forall|j: int| best < j < i ==> latest(#[trigger] repos@[j]).before(time),
        decreases repos.len() - i,
    {
        let t = latest_timestamp(&repos[i]);
        if !t.is_before(&time) {
            best = i;
            time = t;
        }
        i = i + 1;
    }
    assert(is_active(repos@, best as int));
    Some(repos[best].repo_name.clone())
}

/// At most one repository is the active one.
pub proof fn law_one_active_repo(repos: Seq<RepoSummary>, i: int, j: int)
    requires
        is_active(repos, i),
        is_active(repos, j),
    ensures
        i == j,
{
    if i < j {
        assert(latest(repos[j]).before(latest(repos[i])));
        assert(!latest(repos[j]).before(latest(repos[i])));
    } else if j < i {
        assert(latest(repos[i]).before(latest(repos[j])));
        assert(!latest(repos[i]).before(latest(repos[j])));
    }
}

/// The latest time of a repository is not before the last of its git events, the last of
/// its reviews, or the start of the last of its sessions, and it is one of these; where
/// there are none, it is the earliest time there is.
pub proof fn law_latest_is_the_last_of_all(repo: RepoSummary)
    requires
        repo.wf(),
    ensures
        repo.events.len() > 0 ==> !latest(repo).before(repo.events@.last().timestamp),
        repo.reviews.len() > 0 ==> !latest(repo).before(repo.reviews@.last().reviewed_at),
        repo.ai_sessions.len() > 0 ==> !latest(repo).before(repo.ai_sessions@.last().started_at),
        ({
            ||| repo.events.len() > 0 && latest(repo) == repo.events@.last().timestamp
            ||| repo.reviews.len() > 0 && latest(repo) == repo.reviews@.last().reviewed_at
            ||| repo.ai_sessions.len() > 0 && latest(repo) == repo.ai_sessions@.last().started_at
            ||| repo.events.len() == 0 && repo.reviews.len() == 0 && repo.ai_sessions.len() == 0
                && latest(repo) == (Timestamp { secs: MIN_SECS, nanos: 0 })
        }),
{
    if repo.events.len() > 0 {
        assert(repo.events@[repo.events.len() - 1].timestamp.wf());
    }
    if repo.reviews.len() > 0 {
        assert(repo.reviews@[repo.reviews.len() - 1].reviewed_at.wf());
    }
    if repo.ai_sessions.len() > 0 {
        assert(repo.ai_sessions@[repo.ai_sessions.len() - 1].started_at.wf());
    }
}

/// Nothing anywhere happened after the last thing in the active repository, and among
/// repositories on a par it is the last of the list.
pub proof fn law_active_repo_has_the_last_word(repos: Seq<RepoSummary>, i: int, j: int)
    requires
        is_active(repos, i),
        0 <= j < repos.len(),
        repos[j].wf(),
    ensures
        repos[j].events.len() > 0 ==> !latest(repos[i]).before(
            repos[j].events@.last().timestamp,
        ),
        repos[j].reviews.len() > 0 ==> !latest(repos[i]).before(
            repos[j].reviews@.last().reviewed_at,
        ),
        repos[j].ai_sessions.len() > 0 ==> !latest(repos[i]).before(
            repos[j].ai_sessions@.last().started_at,
        ),
        latest(repos[j]) == latest(repos[i]) ==> j <= i,
{
    law_latest_is_the_last_of_all(repos[j]);
    if j < i {
        assert(!latest(repos[i]).before(latest(repos[j])));
    } else if j > i {
        assert(latest(repos[j]).before(latest(repos[i])));
    }
}

/// A list with repositories has an active one.
pub proof fn law_some_repo_is_active(repos: Seq<RepoSummary>)
    requires
        repos.len() > 0,
    ensures
        exists|i: int| is_active(repos, i),
    decreases repos.len(),
{
    let n = repos.len() - 1;
    if n == 0 {
        assert(is_active(repos, 0));
    } else {
        let init = repos.drop_last();
        law_some_repo_is_active(init);
        let i = choose|i: int| is_active(init, i);
        if latest(repos[n]).before(latest(repos[i])) {
            assert forall|j: int| 0 <= j < i implies !latest(repos[i]).before(
                latest(#[trigger] repos[j]),
            ) by {
                assert(init[j] == repos[j]);
            }
            assert forall|j: int| i < j < repos.len() implies latest(#[trigger] repos[j]).before(
                latest(repos[i]),
            ) by {
                if j < n {
                    assert(init[j] == repos[j]);
                }
            }
            assert(is_active(repos, i));
        } else {
            assert forall|j: int| 0 <= j < n implies !latest(repos[n]).before(
                latest(#[trigger] repos[j]),
            ) by {
                assert(init[j] == repos[j]);
                assert(init[i] == repos[i]);
            }
            assert(is_active(repos, n));
        }
    }
}

/// The number by which a mode orders the repositories, largest first.
pub open spec fn sort_number(mode: SortMode) -> spec_fn(RepoSummary) -> int {
    |r: RepoSummary|
        match mode {
            SortMode::Recent => latest(r).rank(),
            SortMode::Time => r.estimated_time.total_nanos(),
            SortMode::Commits => r.commits as int,
        }
}

/// Orders the repositories: the latest, the longest worked on or those with the most
/// commits first. Those on a par keep their order.
pub fn sort_repos(repos: Vec<RepoSummary>, mode: SortMode) -> (r: Vec<RepoSummary>)
    ensures
        sorts(repos@, r@, sort_number(mode)),
        r@.to_multiset() == repos@.to_multiset(),
        r@.len() == repos@.len(),
{
    let mut keys: Vec<i128> = Vec::new();
    let mut i: usize = 0;
    while i < repos.len()
        invariant
            i <= repos.len(),
            keys.len() == i,
            forall|j: int| 0 <= j < i ==> #[trigger] keys[j] == sort_number(mode)(repos[j]),
        decreases repos.len() - i,
    {
        let k: i128 = match mode {
            SortMode::Recent => latest_timestamp(&repos[i]).rank_number(),
            SortMode::Time => repos[i].estimated_time.nanos_number(),
            SortMode::Commits => repos[i].commits as i128,
        };
        keys.push(k);
        i = i + 1;
    }
    sort_descending(repos, keys, Ghost(sort_number(mode)))
}

/// What each mode puts first: the repository in which something happened last, the one
/// that was worked on longest, or the one with more commits. No repository is lost or
/// shown twice.
pub proof fn law_order_by_mode(
    repos: Seq<RepoSummary>,
    r: Seq<RepoSummary>,
    mode: SortMode,
    i: int,
    j: int,
)
    requires
        sorts(repos, r, sort_number(mode)),
        0 <= i < j < r.len(),
    ensures
        match mode {
            SortMode::Recent => !latest(r[i]).before(latest(r[j])),
            SortMode::Time => r[i].estimated_time.secs * 1_000_000_000
                + r[i].estimated_time.nanos >= r[j].estimated_time.secs * 1_000_000_000
                + r[j].estimated_time.nanos,
            SortMode::Commits => r[i].commits >= r[j].commits,
        },
        forall|x: RepoSummary| r.to_multiset().count(x) == #[trigger] repos.to_multiset().count(x),
        r.len() == repos.len(),
{
    let key = sort_number(mode);
    assert(key(r[i]) >= key(r[j]));
    lemma_rank_orders(latest(r[i]), latest(r[j]));
    assert forall|x: RepoSummary| r.to_multiset().count(x)
        == #[trigger] repos.to_multiset().count(x) by {
        law_sorting_keeps_the_items(repos, r, key, x);
    }
    law_sorting_keeps_the_items(repos, r, key, r[i]);
}

// ---------------------------------------------------------------------------
// The sparkline
// ---------------------------------------------------------------------------

/// The number of half hours that the sparkline shows.
pub const SPARKLINE_BUCKETS: usize = 16;

/// The start of the sparkline: eight hours ago, or the start of the day where that is
/// later.
pub open spec fn sparkline_start(range_start: Timestamp, now: Timestamp) -> Timestamp {
    if range_start.before(now.minus_secs(28800)) {
        now.minus_secs(28800)
    } else {
        range_start
    }
}

/// Whether `t` falls into the half hour at `k`.
pub open spec fn in_bucket(t: Timestamp, start: Timestamp, k: int) -> bool {
    t.secs_since(start) >= 0 && t.secs_since(start) / 1800 == k
}

/// The number of the first `n` git events of a repository in the half hour at `k`.
pub open spec fn bucket_count(repo: RepoSummary, n: int, start: Timestamp, k: int) -> nat
    decreases n,
{
    if n <= 0 {
        0
    } else {
        bucket_count(repo, n - 1, start, k) + if in_bucket(repo.events@[n - 1].timestamp, start, k) {
            1nat
        } else {
            0nat
        }
    }
}

/// The number of git events of all repositories in the half hour at `k`.
pub open spec fn total_in_bucket(repos: Seq<RepoSummary>, start: Timestamp, k: int) -> nat
    decreases repos.len(),
{
    if repos.len() == 0 {
        0
    } else {
        total_in_bucket(repos.drop_last(), start, k) + bucket_count(
            repos.last(),
            repos.last().events@.len() as int,
            start,
            k,
        )
    }
}

/// The number of git events of all repositories.
pub open spec fn event_count(repos: Seq<RepoSummary>) -> nat
    decreases repos.len(),
{
    if repos.len() == 0 {
        0
    } else {
        event_count(repos.drop_last()) + repos.last().events@.len()
    }
}

proof fn lemma_event_count_grows(repos: Seq<RepoSummary>, n: int)
    requires
        0 <= n <= repos.len(),
    ensures
        event_count(repos.take(n)) <= event_count(repos),
    decreases repos.len() - n,
{
    if n == repos.len() {
        assert(repos.take(n) =~= repos);
    } else {
        lemma_event_count_grows(repos, n + 1);
        assert(repos.take(n + 1).drop_last() =~= repos.take(n));
    }
}

/// Counts the git events of the last eight hours by half hours.
#[verifier::rlimit(40)]
pub fn build_sparkline(
    repos: &Vec<RepoSummary>,
    range_start: Timestamp,
    now: Timestamp,
) -> (r: Vec<u64>)
    requires
        now.wf(),
        range_start.wf(),
        MIN_SECS + 28800 <= now.secs,
        forall|i: int| 0 <= i < repos@.len() ==> (#[trigger] repos@[i]).wf(),
        event_count(repos@) <= u64::MAX,
    ensures
        r@.len() == SPARKLINE_BUCKETS,
        forall|k: int|
            0 <= k < SPARKLINE_BUCKETS ==> #[trigger] r@[k] == total_in_bucket(
                repos@,
                sparkline_start(range_start, now),
                k,
            ),
{
    let ago = now.earlier_by(28800);
    let start = if range_start.is_before(&ago) {
        ago
    } else {
        range_start
    };
    let mut buckets: Vec<u64> = Vec::new();
    while buckets.len() < SPARKLINE_BUCKETS
        invariant
            buckets.len() <= SPARKLINE_BUCKETS,
            forall|k: int| 0 <= k < buckets@.len() ==> #[trigger] buckets@[k] == 0,
        decreases SPARKLINE_BUCKETS - buckets.len(),
    {
        buckets.push(0);
    }
    let mut i: usize = 0;
    while i < repos.len()
        invariant
            i <= repos.len(),
            start.wf(),
            forall|j: int| 0 <= j < repos@.len() ==> (#[trigger] repos@[j]).wf(),
            event_count(repos@) <= u64::MAX,
            buckets@.len() == SPARKLINE_BUCKETS,
            forall|k: int|
                0 <= k < SPARKLINE_BUCKETS ==> #[trigger] buckets@[k] == total_in_bucket(
                    repos@.take(i as int),
                    start,
                    k,
                ),
            forall|k: int|
                0 <= k < SPARKLINE_BUCKETS ==> #[trigger] buckets@[k] <= event_count(
                    repos@.take(i as int),
                ),
        decreases repos.len() - i,
    {
        let repo = &repos[i];
        let ghost done = repos@.take(i as int);
        let ghost upto = repos@.take(i + 1);
        proof {
            assert(upto.drop_last() =~= done);
            assert(upto.last() == *repo);
            lemma_event_count_grows(repos@, i + 1);
        }
        let mut j: usize = 0;
        while j < repo.events.len()
            invariant
                j <= repo.events.len(),
                start.wf(),
                repo.wf(),
                event_count(done) + repo.events@.len() <= u64::MAX,
                buckets@.len() == SPARKLINE_BUCKETS,
                forall|k: int|
                    0 <= k < SPARKLINE_BUCKETS ==> #[trigger] buckets@[k] == total_in_bucket(
                        done,
                        start,
                        k,
                    ) + bucket_count(*repo, j as int, start, k),
                forall|k: int|
                    0 <= k < SPARKLINE_BUCKETS ==> #[trigger] buckets@[k] <= event_count(done) + j,
            decreases repo.events.len() - j,
        {
            assert(repo.events@[j as int].timestamp.wf());
            let offset: i64 = repo.events[j].timestamp.secs_from(&start);
            if offset >= 0 {
                let at: u64 = offset as u64 / 1800;
                if at < 16 {
                    let n: usize = at as usize;
                    let count: u64 = buckets[n] + 1;
                    buckets.set(n, count);
                }
            }
            j = j + 1;
        }
        i = i + 1;
    }
    assert(repos@.take(i as int) =~= repos@);
    buckets
}

/// The git events of all repositories in the first `n` half hours.
pub open spec fn total_in_first(repos: Seq<RepoSummary>, start: Timestamp, n: int) -> nat
    decreases n,
{
    if n <= 0 {
        0
    } else {
        total_in_first(repos, start, n - 1) + total_in_bucket(repos, start, n - 1)
    }
}

/// The first git events of a repository in the first `n` half hours.
spec fn first_count(repo: RepoSummary, m: int, start: Timestamp, n: int) -> nat
    decreases n,
{
    if n <= 0 {
        0
    } else {
        first_count(repo, m, start, n - 1) + bucket_count(repo, m, start, n - 1)
    }
}

/// One event more adds at most one.
proof fn lemma_first_count_step(repo: RepoSummary, m: int, start: Timestamp, n: int)
    requires
        0 < m,
        0 <= n,
    ensures
        first_count(repo, m, start, n) == first_count(repo, m - 1, start, n) + if exists|k: int|
            0 <= k < n && #[trigger] in_bucket(repo.events@[m - 1].timestamp, start, k) {
            1nat
        } else {
            0nat
        },
    decreases n,
{
    let t = repo.events@[m - 1].timestamp;
    if n > 0 {
        lemma_first_count_step(repo, m, start, n - 1);
        if in_bucket(t, start, n - 1) {
            assert(!exists|k: int| 0 <= k < n - 1 && #[trigger] in_bucket(t, start, k));
        } else if exists|k: int| 0 <= k < n && #[trigger] in_bucket(t, start, k) {
            let k = choose|k: int| 0 <= k < n && #[trigger] in_bucket(t, start, k);
            assert(k < n - 1 && in_bucket(t, start, k));
        }
    }
}

proof fn lemma_first_count_bounded(repo: RepoSummary, m: int, start: Timestamp, n: int)
    requires
        0 <= m,
        0 <= n,
    ensures
        first_count(repo, m, start, n) <= m,
    decreases m,
{
    if m == 0 {
        lemma_first_count_of_none(repo, start, n);
    } else {
        lemma_first_count_step(repo, m, start, n);
        lemma_first_count_bounded(repo, m - 1, start, n);
    }
}

proof fn lemma_first_count_of_none(repo: RepoSummary, start: Timestamp, n: int)
    ensures
        first_count(repo, 0, start, n) == 0,
    decreases n,
{
    if n > 0 {
        lemma_first_count_of_none(repo, start, n - 1);
    }
}

proof fn lemma_total_in_first(repos: Seq<RepoSummary>, start: Timestamp, n: int)
    requires
        repos.len() > 0,
    ensures
        total_in_first(repos, start, n) == total_in_first(repos.drop_last(), start, n)
            + first_count(repos.last(), repos.last().events@.len() as int, start, n),
    decreases n,
{
    if n > 0 {
        lemma_total_in_first(repos, start, n - 1);
    }
}

proof fn lemma_total_in_first_of_none(start: Timestamp, n: int)
    ensures
        total_in_first(Seq::empty(), start, n) == 0,
    decreases n,
{
    if n > 0 {
        lemma_total_in_first_of_none(start, n - 1);
    }
}

/// The sparkline counts no event twice: all its half hours together hold at most as many
/// events as there are.
pub proof fn law_sparkline_counts_once(repos: Seq<RepoSummary>, start: Timestamp, n: int)
    requires
        0 <= n,
    ensures
        total_in_first(repos, start, n) <= event_count(repos),
    decreases repos.len(),
{
    if repos.len() == 0 {
        assert(repos =~= Seq::empty());
        lemma_total_in_first_of_none(start, n);
    } else {
        let last = repos.last();
        lemma_total_in_first(repos, start, n);
        lemma_first_count_bounded(last, last.events@.len() as int, start, n);
        law_sparkline_counts_once(repos.drop_last(), start, n);
    }
}

/// The sparkline starts where the day does, but no more than eight hours ago.
pub proof fn law_sparkline_start_is_the_later(range_start: Timestamp, now: Timestamp)
    requires
        now.nanos < 1_000_000_000,
        i64::MIN <= now.secs - 28800,
    ensures
        ({
            let start = sparkline_start(range_start, now);
            let ago = Timestamp { secs: (now.secs - 8 * 60 * 60) as i64, nanos: now.nanos };
            &&& !start.before(range_start)
            &&& !start.before(ago)
            &&& start == range_start || start == ago
        }),
{
}

/// The half hours by time, where no leap second is involved: the half hour at `k` holds
/// what happened from `k` half hours after the start up to the next, and the first also
/// what lies less than a second before the start.
pub proof fn law_half_hours(t: Timestamp, start: Timestamp, k: int)
    requires
        t.nanos < 1_000_000_000,
        start.nanos < 1_000_000_000,
        0 <= k,
    ensures
        ({
            let passed = (t.secs * 1_000_000_000 + t.nanos) - (start.secs * 1_000_000_000
                + start.nanos);
            let half_hour = 30 * 60 * 1_000_000_000;
            in_bucket(t, start, k) <==> if k == 0 {
                -1_000_000_000 < passed < half_hour
            } else {
                k * half_hour <= passed < (k + 1) * half_hour
            }
        }),
{
    let passed = t.nanos_since(start);
    if passed >= 0 {
        let secs = passed / 1_000_000_000;
        assert(t.secs_since(start) == secs);
        assert(secs / 1800 == passed / 1_800_000_000_000);
        assert(passed / 1_800_000_000_000 == k <==> k * 1_800_000_000_000 <= passed < (k + 1)
            * 1_800_000_000_000);
    } else {
        let secs = (-passed) / 1_000_000_000;
        assert(t.secs_since(start) == -secs);
        assert(secs == 0 <==> -1_000_000_000 < passed);
    }
}

/// Each event of the eight hours from the start falls into one of the sixteen half hours.
pub proof fn law_every_recent_event_is_counted(t: Timestamp, start: Timestamp)
    requires
        t.nanos < 1_000_000_000,
        start.nanos < 1_000_000_000,
        !t.before(start),
        t.before(Timestamp { secs: (start.secs + 8 * 60 * 60) as i64, nanos: start.nanos }),
        start.secs + 28800 <= i64::MAX,
    ensures
        exists|k: int| 0 <= k < 16 && #[trigger] in_bucket(t, start, k),
{
    let passed = t.nanos_since(start);
    assert(0 <= passed < 28_800_000_000_000);
    let secs = passed / 1_000_000_000;
    assert(t.secs_since(start) == secs);
    assert(in_bucket(t, start, secs / 1800));
}

/// The number of events in a half hour, repository by repository: each adds the number of
/// its git events that fall into it.
pub proof fn law_half_hour_counts_events(
    repos: Seq<RepoSummary>,
    repo: RepoSummary,
    start: Timestamp,
    k: int,
)
    ensures
        total_in_bucket(Seq::empty(), start, k) == 0,
        total_in_bucket(repos.push(repo), start, k) == total_in_bucket(repos, start, k)
            + repo.events@.filter(|e: ActivityEvent| in_bucket(e.timestamp, start, k)).len(),
{
    assert(repos.push(repo).drop_last() =~= repos);
    lemma_bucket_count_filters(repo, repo.events@.len() as int, start, k);
    assert(repo.events@.take(repo.events@.len() as int) =~= repo.events@);
}

proof fn lemma_bucket_count_filters(repo: RepoSummary, n: int, start: Timestamp, k: int)
    requires
        0 <= n <= repo.events@.len(),
    ensures
        bucket_count(repo, n, start, k) == repo.events@.take(n).filter(
            |e: ActivityEvent| in_bucket(e.timestamp, start, k),
        ).len(),
    decreases n,
{
    let hit = |e: ActivityEvent| in_bucket(e.timestamp, start, k);
    reveal(Seq::filter);
    if n > 0 {
        lemma_bucket_count_filters(repo, n - 1, start, k);
        assert(repo.events@.take(n) =~= repo.events@.take(n - 1).push(repo.events@[n - 1]));
        repo.events@.take(n - 1).lemma_filter_push(repo.events@[n - 1], hit);
    }
}

} // verus!
