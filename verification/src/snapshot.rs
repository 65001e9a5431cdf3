//! The daemon's health metrics, and the key-value pairs that they are stored as.

use vstd::prelude::*;
use vstd::string::*;

use crate::decimal::{decimal, decimal_text};
use crate::path_order::paths_sorted;
use crate::path_set::PathSet;
use crate::text::{copy_texts, join_first, joined, same_text, texts};
use crate::time::{rfc3339_instant, rfc3339_text, Timestamp};

verus! {

/// The most failed paths that are stored as a sample. The stored count is always exact.
pub const FAILED_SAMPLE_LIMIT: usize = 5;

/// Outcome of a poll cycle: the repositories that could not be polled.
#[derive(Debug, Default)]
pub struct PollMetrics {
    pub failed_paths: Vec<String>,
}

/// Outcome of discovery: the directories that could not be read, with the reason.
#[derive(Debug, Default)]
pub struct DiscoveryMetrics {
    pub failures: Vec<(String, String)>,
}

/// The daemon's health after one cycle. It is stored as a whole, so that a reader never
/// sees a fresh time beside the failure counts of an earlier cycle.
#[derive(Debug)]
pub struct HealthSnapshot {
    pub last_poll_at: Timestamp,
    /// "watcher" or "polling".
    pub poll_mode: String,
    pub repos_watched: usize,
    /// The poll interval that the daemon is using this cycle.
    pub effective_poll_interval_secs: u64,
    pub poll_metrics: PollMetrics,
    pub discovery_metrics: DiscoveryMetrics,
}

/// The texts of stored pairs of key and value.
pub open spec fn pair_texts(v: Seq<(String, String)>) -> Seq<(Seq<char>, Seq<char>)> {
    v.map_values(|e: (String, String)| (e.0@, e.1@))
}

/// The texts of the first parts of pairs.
pub open spec fn first_texts(v: Seq<(String, String)>) -> Seq<Seq<char>> {
    v.map_values(|e: (String, String)| e.0@)
}

impl Clone for PollMetrics {
    fn clone(&self) -> (r: PollMetrics)
        ensures
            r.failed_paths@ == self.failed_paths@,
    {
        PollMetrics { failed_paths: copy_texts(&self.failed_paths) }
    }
}

impl Clone for DiscoveryMetrics {
    fn clone(&self) -> (r: DiscoveryMetrics)
        ensures
            r.failures@ == self.failures@,
    {
        let mut failures: Vec<(String, String)> = Vec::new();
        let mut i: usize = 0;
        while i < self.failures.len()
            invariant
                i <= self.failures.len(),
                failures@ =~= self.failures@.take(i as int),
            decreases self.failures.len() - i,
        {
            failures.push((self.failures[i].0.clone(), self.failures[i].1.clone()));
            i = i + 1;
        }
        DiscoveryMetrics { failures }
    }
}

impl DiscoveryMetrics {
    /// The directories that could not be read.
    pub open spec fn failed_dirs(&self) -> Seq<Seq<char>> {
        first_texts(self.failures@)
    }

    /// The directories that could not be read.
    pub fn dirs(&self) -> (r: Vec<String>)
        ensures
            texts(r@) == self.failed_dirs(),
    {
        let mut r: Vec<String> = Vec::new();
        let mut i: usize = 0;
        while i < self.failures.len()
            invariant
                i <= self.failures.len(),
                texts(r@) =~= self.failed_dirs().take(i as int),
            decreases self.failures.len() - i,
        {
            let ghost before = texts(r@);
            r.push(self.failures[i].0.clone());
            i = i + 1;
            assert(texts(r@) =~= before.push(self.failures@[i - 1].0@));
        }
        assert(self.failed_dirs().take(i as int) =~= self.failed_dirs());
        r
    }
}

/// Updates the set of failed repositories with the outcome of one poll.
pub fn record_repo_outcome(failed: &mut PathSet, repo_path: &str, was_error: bool)
    requires
        old(failed).wf(),
    ensures
        final(failed).wf(),
        final(failed)@ == if was_error {
            old(failed)@.insert(crate::paths::components(repo_path@))
        } else {
            old(failed)@.remove(crate::paths::components(repo_path@))
        },
        final(failed).listed() == if was_error {
            if old(failed)@.contains(crate::paths::components(repo_path@)) {
                old(failed).listed()
            } else {
                old(failed).listed().push(repo_path@)
            }
        } else {
            old(failed).listed().filter(
                |p: Seq<char>| !crate::paths::same_path(p, repo_path@),
            )
        },
{
    if was_error {
        failed.insert(repo_path);
    } else {
        failed.remove(repo_path);
    }
}

/// The metrics of the current set of failed repositories: its members, sorted.
pub fn metrics_from_set(failed: &PathSet) -> (m: PollMetrics)
    requires
        failed.wf(),
    ensures
        paths_sorted(texts(m.failed_paths@)),
        texts(m.failed_paths@).to_multiset() == failed.listed().to_multiset(),
        m.failed_paths.len() == failed@.len(),
{
    PollMetrics { failed_paths: failed.sorted() }
}

// ---------------------------------------------------------------------------
// Writing
// ---------------------------------------------------------------------------

/// The sample of a list of paths: the first few, one on each line.
pub open spec fn sample_of(paths: Seq<Seq<char>>) -> Seq<char> {
    joined(
        paths.take(
            if paths.len() < FAILED_SAMPLE_LIMIT {
                paths.len() as int
            } else {
                FAILED_SAMPLE_LIMIT as int
            },
        ),
        seq!['\n'],
    )
}

/// Builds the sample of a list of paths.
fn sample_text(paths: &Vec<String>) -> (r: String)
    ensures
        r@ == sample_of(texts(paths@)),
{
    let n: usize = if paths.len() < FAILED_SAMPLE_LIMIT {
        paths.len()
    } else {
        FAILED_SAMPLE_LIMIT
    };
    proof {
        reveal_strlit("\n");
        assert("\n"@ =~= seq!['\n']);
    }
    join_first(paths, n, "\n")
}

/// The pairs that poll metrics are stored as.
pub open spec fn poll_pairs(failed_paths: Seq<Seq<char>>) -> Seq<(Seq<char>, Seq<char>)> {
    seq![
        ("last_poll_repos_failed"@, decimal(failed_paths.len())),
        ("last_poll_failed_sample"@, sample_of(failed_paths)),
    ]
}

/// The pairs that discovery metrics are stored as.
pub open spec fn discovery_pairs(failed_dirs: Seq<Seq<char>>) -> Seq<(Seq<char>, Seq<char>)> {
    seq![
        ("last_poll_discovery_failed"@, decimal(failed_dirs.len())),
        ("last_poll_discovery_failed_sample"@, sample_of(failed_dirs)),
    ]
}

/// The pairs that a health snapshot is stored as.
pub open spec fn snapshot_pairs(snap: HealthSnapshot) -> Seq<(Seq<char>, Seq<char>)> {
    seq![
        ("last_poll_at"@, rfc3339_text(snap.last_poll_at)),
        ("last_poll_mode"@, snap.poll_mode@),
        ("repos_watched"@, decimal(snap.repos_watched as nat)),
        ("effective_poll_interval_secs"@, decimal(snap.effective_poll_interval_secs as nat)),
    ] + poll_pairs(texts(snap.poll_metrics.failed_paths@)) + discovery_pairs(
        snap.discovery_metrics.failed_dirs(),
    )
}

/// Appends the pairs of poll metrics.
fn push_poll_metrics(r: &mut Vec<(String, String)>, metrics: &PollMetrics)
    ensures
        pair_texts(final(r)@) == pair_texts(old(r)@) + poll_pairs(texts(metrics.failed_paths@)),
{
    let ghost before = pair_texts(r@);
    r.push(
        (
            "last_poll_repos_failed".to_owned(),
            decimal_text(metrics.failed_paths.len() as u64),
        ),
    );
    r.push(("last_poll_failed_sample".to_owned(), sample_text(&metrics.failed_paths)));
    assert(pair_texts(r@) =~= before + poll_pairs(texts(metrics.failed_paths@)));
}

/// Appends the pairs of discovery metrics.
fn push_discovery_metrics(r: &mut Vec<(String, String)>, metrics: &DiscoveryMetrics)
    ensures
        pair_texts(final(r)@) == pair_texts(old(r)@) + discovery_pairs(metrics.failed_dirs()),
{
    let ghost before = pair_texts(r@);
    let dirs = metrics.dirs();
    r.push(
        (
            "last_poll_discovery_failed".to_owned(),
            decimal_text(metrics.failures.len() as u64),
        ),
    );
    r.push(("last_poll_discovery_failed_sample".to_owned(), sample_text(&dirs)));
    assert(pair_texts(r@) =~= before + discovery_pairs(metrics.failed_dirs()));
}

/// The pairs to store poll metrics as, in one transaction.
pub fn write_poll_metrics(metrics: &PollMetrics) -> (r: Vec<(String, String)>)
    ensures
        pair_texts(r@) == poll_pairs(texts(metrics.failed_paths@)),
{
    let mut r: Vec<(String, String)> = Vec::new();
    push_poll_metrics(&mut r, metrics);
    assert(pair_texts(r@) =~= poll_pairs(texts(metrics.failed_paths@)));
    r
}

/// The pairs to store discovery metrics as, in one transaction.
pub fn write_discovery_metrics(metrics: &DiscoveryMetrics) -> (r: Vec<(String, String)>)
    ensures
        pair_texts(r@) == discovery_pairs(metrics.failed_dirs()),
{
    let mut r: Vec<(String, String)> = Vec::new();
    push_discovery_metrics(&mut r, metrics);
    assert(pair_texts(r@) =~= discovery_pairs(metrics.failed_dirs()));
    r
}

/// The pairs to store a health snapshot as, in one transaction. The time is read back as
/// it was, where its year has four digits, whatever was stored before.
#[verifier::rlimit(40)]
pub fn write_health_snapshot(snap: &HealthSnapshot) -> (r: Vec<(String, String)>)
    requires
        snap.last_poll_at.wf(),
    ensures
        pair_texts(r@) == snapshot_pairs(*snap),
        snap.last_poll_at.in_four_digit_years() ==> forall|
            prior: Seq<(Seq<char>, Seq<char>)>,
        |
            #![trigger prior + pair_texts(r@)]
            stored_value(prior + pair_texts(r@), "last_poll_at"@) matches Some(v)
                && rfc3339_instant(v) == Some(snap.last_poll_at),
{
    let mut r: Vec<(String, String)> = Vec::new();
    let now = snap.last_poll_at.to_rfc3339();
    r.push(("last_poll_at".to_owned(), now));
    r.push(("last_poll_mode".to_owned(), snap.poll_mode.clone()));
    r.push(("repos_watched".to_owned(), decimal_text(snap.repos_watched as u64)));
    r.push(
        (
            "effective_poll_interval_secs".to_owned(),
            decimal_text(snap.effective_poll_interval_secs),
        ),
    );
    let ghost head = pair_texts(r@);
    push_poll_metrics(&mut r, &snap.poll_metrics);
    push_discovery_metrics(&mut r, &snap.discovery_metrics);
    assert(pair_texts(r@) =~= snapshot_pairs(*snap));
    proof {
        assert forall|prior: Seq<(Seq<char>, Seq<char>)>|
            snap.last_poll_at.in_four_digit_years() implies stored_value(
            #[trigger] (prior + pair_texts(r@)),
            "last_poll_at"@,
        ) matches Some(v) && rfc3339_instant(v) == Some(snap.last_poll_at) by {
            law_snapshot_is_stored_whole(prior, *snap);
        }
    }
    r
}

// ---------------------------------------------------------------------------
// Reading
// ---------------------------------------------------------------------------

/// The value stored last under `key`.
pub open spec fn stored_value(state: Seq<(Seq<char>, Seq<char>)>, key: Seq<char>) -> Option<
    Seq<char>,
>
    decreases state.len(),
{
    if state.len() == 0 {
        None
    } else if state.last().0 == key {
        Some(state.last().1)
    } else {
        stored_value(state.drop_last(), key)
    }
}

/// Finds the value stored last under `key`.
pub fn lookup(state: &Vec<(String, String)>, key: &str) -> (r: Option<String>)
    ensures
        crate::text::opt_text(r) == stored_value(pair_texts(state@), key@),
{
    let ghost all = pair_texts(state@);
    let mut i: usize = state.len();
    assert(all.take(i as int) =~= all);
    while i > 0
        invariant
            i <= state.len(),
            all == pair_texts(state@),
            stored_value(all, key@) == stored_value(all.take(i as int), key@),
        decreases i,
    {
        assert(all.take(i as int).last() == (state@[i - 1].0@, state@[i - 1].1@));
        assert(all.take(i as int).drop_last() =~= all.take(i - 1));
        if same_text(state[i - 1].0.as_str(), key) {
            return Some(state[i - 1].1.clone());
        }
        i = i - 1;
    }
    None
}

/// What was stored before does not matter to a key that is stored anew.
pub proof fn lemma_stored_after(
    prior: Seq<(Seq<char>, Seq<char>)>,
    later: Seq<(Seq<char>, Seq<char>)>,
    key: Seq<char>,
)
    ensures
        stored_value(prior + later, key) == match stored_value(later, key) {
            Some(v) => Some(v),
            None => stored_value(prior, key),
        },
    decreases later.len(),
{
    if later.len() == 0 {
        assert(prior + later =~= prior);
    } else {
        assert((prior + later).drop_last() =~= prior + later.drop_last());
        lemma_stored_after(prior, later.drop_last(), key);
    }
}

/// A stored snapshot is read back whole: whatever was stored before, each key holds the
/// value of this snapshot, so no value of an earlier cycle stands beside it.
#[verifier::rlimit(40)]
pub proof fn law_snapshot_is_stored_whole(
    prior: Seq<(Seq<char>, Seq<char>)>,
    snap: HealthSnapshot,
)
    ensures
        ({
            let state = prior + snapshot_pairs(snap);
            let failed = texts(snap.poll_metrics.failed_paths@);
            let dirs = snap.discovery_metrics.failed_dirs();
            &&& stored_value(state, "last_poll_at"@) == Some(rfc3339_text(snap.last_poll_at))
            &&& stored_value(state, "last_poll_mode"@) == Some(snap.poll_mode@)
            &&& stored_value(state, "repos_watched"@) == Some(decimal(snap.repos_watched as nat))
            &&& stored_value(state, "effective_poll_interval_secs"@) == Some(
                decimal(snap.effective_poll_interval_secs as nat),
            )
            &&& stored_value(state, "last_poll_repos_failed"@) == Some(decimal(failed.len()))
            &&& stored_value(state, "last_poll_failed_sample"@) == Some(sample_of(failed))
            &&& stored_value(state, "last_poll_discovery_failed"@) == Some(decimal(dirs.len()))
            &&& stored_value(state, "last_poll_discovery_failed_sample"@) == Some(sample_of(dirs))
        }),
{
    let p = snapshot_pairs(snap);
    reveal_strlit("last_poll_at");
    reveal_strlit("last_poll_mode");
    reveal_strlit("repos_watched");
    reveal_strlit("effective_poll_interval_secs");
    reveal_strlit("last_poll_repos_failed");
    reveal_strlit("last_poll_failed_sample");
    reveal_strlit("last_poll_discovery_failed");
    reveal_strlit("last_poll_discovery_failed_sample");
    assert(p.len() == 8);
    assert(p[0].0.len() == 12 && p[1].0.len() == 14 && p[2].0.len() == 13 && p[3].0.len() == 28);
    assert(p[4].0.len() == 22 && p[5].0.len() == 23 && p[6].0.len() == 26 && p[7].0.len() == 33);
    assert forall|i: int, j: int| 0 <= i < j < 8 implies (#[trigger] p[i]).0 != (#[trigger] p[j]).0 by {
        assert(p[i].0.len() != p[j].0.len());
    }
    lemma_stored_after(prior, p, "last_poll_at"@);
    lemma_stored_after(prior, p, "last_poll_mode"@);
    lemma_stored_after(prior, p, "repos_watched"@);
    lemma_stored_after(prior, p, "effective_poll_interval_secs"@);
    lemma_stored_after(prior, p, "last_poll_repos_failed"@);
    lemma_stored_after(prior, p, "last_poll_failed_sample"@);
    lemma_stored_after(prior, p, "last_poll_discovery_failed"@);
    lemma_stored_after(prior, p, "last_poll_discovery_failed_sample"@);
    lemma_stored_at(p, 0);
    lemma_stored_at(p, 1);
    lemma_stored_at(p, 2);
    lemma_stored_at(p, 3);
    lemma_stored_at(p, 4);
    lemma_stored_at(p, 5);
    lemma_stored_at(p, 6);
    lemma_stored_at(p, 7);
}

/// A key that is not stored again later keeps its value.
proof fn lemma_stored_at(s: Seq<(Seq<char>, Seq<char>)>, i: int)
    requires
        0 <= i < s.len(),
        forall|j: int| i < j < s.len() ==> (#[trigger] s[j]).0 != s[i].0,
    ensures
        stored_value(s, s[i].0) == Some(s[i].1),
    decreases s.len(),
{
    if i < s.len() - 1 {
        let t = s.drop_last();
        assert(t[i] == s[i]);
        assert(s[s.len() - 1].0 != s[i].0);
        assert forall|j: int| i < j < t.len() implies (#[trigger] t[j]).0 != t[i].0 by {
            assert(t[j] == s[j]);
        }
        lemma_stored_at(t, i);
    }
}

/// Each directory that could not be read is named once for each of its failures, in order.
pub proof fn law_failed_dirs_are_all_named(metrics: DiscoveryMetrics)
    ensures
        metrics.failed_dirs().len() == metrics.failures.len(),
        forall|i: int|
            0 <= i < metrics.failures.len() ==> #[trigger] metrics.failed_dirs()[i]
                == metrics.failures[i].0@,
{
}

/// The last value that was stored under a key is the one that is read, and storing under
/// one key leaves every other as it was.
pub proof fn law_last_value_counts(
    state: Seq<(Seq<char>, Seq<char>)>,
    key: Seq<char>,
    value: Seq<char>,
    other: Seq<char>,
)
    ensures
        stored_value(Seq::empty(), key) is None,
        stored_value(state.push((key, value)), key) == Some(value),
        other != key ==> stored_value(state.push((key, value)), other) == stored_value(
            state,
            other,
        ),
{
    assert(state.push((key, value)).drop_last() =~= state);
}

} // verus!
