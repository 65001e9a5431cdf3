//! What the poll loop decides about discovery: which watched directories failed, and which
//! worktrees are gone.

use vstd::prelude::*;
use vstd::string::*;

use crate::paths::{components, is_same_path, join_path, joined_path, same_path};
use crate::snapshot::pair_texts;
use crate::text::{opt_text, texts};

pub use crate::repo_states::{prune_repo_states, remove_stale_worktrees, RepoState, RepoStates};
pub use crate::snapshot::{
    metrics_from_set, record_repo_outcome, write_discovery_metrics, write_health_snapshot,
    write_poll_metrics, DiscoveryMetrics, HealthSnapshot, PollMetrics,
};

verus! {

/// Seconds between full scans while the file watcher is active.
pub const FULL_SCAN_SECS: u64 = 1800;

/// Whether the path at `i` is named by no earlier one.
pub open spec fn is_first_mention(paths: Seq<Seq<char>>, i: int) -> bool {
    forall|j: int| 0 <= j < i ==> !same_path(#[trigger] paths[j], paths[i])
}

/// What opening the directory at `i` gave; nothing is known to be wrong with a directory
/// that has no outcome.
pub open spec fn outcome_at(outcomes: Seq<Option<String>>, i: int) -> Option<Seq<char>> {
    if i < outcomes.len() {
        opt_text(outcomes[i])
    } else {
        None
    }
}

/// The directories that could not be opened, each once, with the reason.
pub open spec fn unreadable(
    dirs: Seq<Seq<char>>,
    outcomes: Seq<Option<String>>,
) -> Seq<(Seq<char>, Seq<char>)>
    decreases dirs.len(),
{
    if dirs.len() == 0 {
        seq![]
    } else {
        let i = dirs.len() - 1;
        let before = unreadable(dirs.drop_last(), outcomes);
        match outcome_at(outcomes, i) {
            Some(reason) => if is_first_mention(dirs, i) {
                before.push((dirs[i], reason))
            } else {
                before
            },
            None => before,
        }
    }
}

/// The watched directories that could not be opened, with the reason, where `outcomes` has
/// the error from opening each of them. A directory that is listed twice counts once.
pub fn probe_watch_dirs(watch_dirs: &Vec<String>, outcomes: &Vec<Option<String>>) -> (r: Vec<
    (String, String),
>)
    ensures
        pair_texts(r@) == unreadable(texts(watch_dirs@), outcomes@),
{
    let mut r: Vec<(String, String)> = Vec::new();
    let ghost dirs = texts(watch_dirs@);
    let mut i: usize = 0;
    while i < watch_dirs.len()
        invariant
            i <= watch_dirs.len(),
            dirs == texts(watch_dirs@),
            pair_texts(r@) =~= unreadable(dirs.take(i as int), outcomes@),
        decreases watch_dirs.len() - i,
    {
        let mut seen = false;
        let mut j: usize = 0;
        while j < i
            invariant
                j <= i < watch_dirs.len(),
                dirs == texts(watch_dirs@),
                seen <==> exists|k: int| 0 <= k < j && same_path(#[trigger] dirs[k], dirs[i as int]),
            decreases i - j,
        {
            if is_same_path(watch_dirs[j].as_str(), watch_dirs[i].as_str()) {
                seen = true;
                assert(same_path(dirs[j as int], dirs[i as int]));
            }
            j = j + 1;
        }
        let ghost upto = dirs.take(i + 1);
        proof {
            assert(upto.drop_last() =~= dirs.take(i as int));
            assert(upto[i as int] == dirs[i as int]);
            assert(is_first_mention(upto, i as int) <==> !seen) by {
                if !seen {
                    assert forall|j: int| 0 <= j < i implies !same_path(
                        #[trigger] upto[j],
                        upto[i as int],
                    ) by {
                        assert(upto[j] == dirs[j]);
                    }
                } else {
                    let k = choose|k: int|
                        0 <= k < i && same_path(#[trigger] dirs[k], dirs[i as int]);
                    assert(upto[k] == dirs[k]);
                }
            }
        }
        if !seen && i < outcomes.len() {
            if let Some(reason) = &outcomes[i] {
                let ghost before = pair_texts(r@);
                r.push((watch_dirs[i].clone(), reason.clone()));
                assert(pair_texts(r@) =~= before.push((dirs[i as int], reason@)));
            }
        }
        i = i + 1;
    }
    assert(dirs.take(i as int) =~= dirs);
    r
}

/// No directory is reported as unreadable twice.
pub proof fn law_unreadable_counts_once(dirs: Seq<Seq<char>>, outcomes: Seq<Option<String>>)
    ensures
        forall|i: int, j: int|
            0 <= i < j < unreadable(dirs, outcomes).len() ==> !same_path(
                (#[trigger] unreadable(dirs, outcomes)[i]).0,
                (#[trigger] unreadable(dirs, outcomes)[j]).0,
            ),
        forall|i: int|
            0 <= i < unreadable(dirs, outcomes).len() ==> dirs.contains(
                (#[trigger] unreadable(dirs, outcomes)[i]).0,
            ),
    decreases dirs.len(),
{
    if dirs.len() > 0 {
        let init = dirs.drop_last();
        law_unreadable_counts_once(init, outcomes);
        let before = unreadable(init, outcomes);
        let all = unreadable(dirs, outcomes);
        let n = dirs.len() - 1;
        assert forall|i: int| 0 <= i < before.len() implies exists|k: int|
            0 <= k < n && dirs[k] == (#[trigger] before[i]).0 by {
            let k = choose|k: int| 0 <= k < init.len() && init[k] == before[i].0;
            assert(dirs[k] == before[i].0);
        }
        assert forall|i: int, j: int| 0 <= i < j < all.len() implies !same_path(
            (#[trigger] all[i]).0,
            (#[trigger] all[j]).0,
        ) by {
            if j == before.len() {
                let k = choose|k: int| 0 <= k < n && dirs[k] == before[i].0;
                assert(!same_path(dirs[k], dirs[n]));
            }
        }
        assert forall|i: int| 0 <= i < all.len() implies dirs.contains((#[trigger] all[i]).0) by {
            if i == before.len() {
                assert(dirs[n] == all[i].0);
            } else {
                let k = choose|k: int| 0 <= k < n && dirs[k] == before[i].0;
                assert(dirs[k] == all[i].0);
            }
        }
    }
}

/// Every watched directory that could not be opened is reported, with the reason that its
/// first mention gave, and nothing else is; the reports come in the order of the
/// directories.
pub proof fn law_unreadable_is_complete(
    dirs: Seq<Seq<char>>,
    outcomes: Seq<Option<String>>,
) -> (places: Seq<int>)
    ensures
        places.len() == unreadable(dirs, outcomes).len(),
        forall|k: int, l: int| 0 <= k < l < places.len() ==> places[k] < places[l],
        forall|k: int|
            0 <= k < places.len() ==> {
                let i = #[trigger] places[k];
                &&& 0 <= i < dirs.len() && i < outcomes.len()
                &&& outcomes[i] is Some
                &&& unreadable(dirs, outcomes)[k] == (dirs[i], outcomes[i]->0@)
                &&& forall|j: int| 0 <= j < i ==> components(#[trigger] dirs[j]) != components(
                    dirs[i],
                )
            },
        forall|i: int|
            0 <= i < dirs.len() && i < outcomes.len() && #[trigger] outcomes[i] is Some && (forall|
                j: int,
            |
                0 <= j < i ==> components(#[trigger] dirs[j]) != components(dirs[i]))
                ==> places.contains(i),
    decreases dirs.len(),
{
    if dirs.len() == 0 {
        seq![]
    } else {
        let init = dirs.drop_last();
        let before = law_unreadable_is_complete(init, outcomes);
        let n = dirs.len() - 1;
        assert forall|k: int| 0 <= k < before.len() implies {
            let i = #[trigger] before[k];
            forall|j: int| 0 <= j < i ==> components(#[trigger] dirs[j]) != components(dirs[i])
        } by {
            let i = before[k];
            assert forall|j: int| 0 <= j < i implies components(#[trigger] dirs[j])
                != components(dirs[i]) by {
                assert(components(init[j]) != components(init[i]));
            }
        }
        let first = n < outcomes.len() && outcomes[n] is Some && is_first_mention(dirs, n);
        let places = if first {
            before.push(n)
        } else {
            before
        };
        assert forall|i: int|
            0 <= i < dirs.len() && i < outcomes.len() && #[trigger] outcomes[i] is Some && (forall|
                j: int,
            |
                0 <= j < i ==> components(#[trigger] dirs[j]) != components(
                    dirs[i],
                )) implies places.contains(i) by {
            if i == n {
                assert(places[before.len() as int] == n);
            } else {
                assert forall|j: int| 0 <= j < i implies components(#[trigger] init[j])
                    != components(init[i]) by {
                    assert(components(dirs[j]) != components(dirs[i]));
                }
                assert(before.contains(i));
                let k = choose|k: int| 0 <= k < before.len() && before[k] == i;
                assert(places[k] == i);
            }
        }
        places
    }
}

// ---------------------------------------------------------------------------
// Worktrees
// ---------------------------------------------------------------------------

/// What a look at a path told: it is there, it is absent, or nothing (no permission, an
/// error in reading).
#[derive(Debug, Clone, Copy, PartialEq, Eq, Structural)]
pub enum Presence {
    Present,
    Absent,
    Unknown,
}

/// Whether a worktree is confirmed gone, from a look at its directory and at the `.git`
/// pointer in it: the directory is absent, or it is there and the pointer is absent. Where
/// a look told nothing, it is not.
pub open spec fn is_stale_look(dir: Presence, git: Presence) -> bool {
    dir == Presence::Absent || (dir == Presence::Present && git == Presence::Absent)
}

/// Decides whether a worktree is confirmed gone.
pub fn is_definitely_stale_worktree(dir: Presence, git: Presence) -> (r: bool)
    ensures
        r == is_stale_look(dir, git),
{
    dir == Presence::Absent || (dir == Presence::Present && git == Presence::Absent)
}

/// The `.git` pointer of a worktree.
pub fn git_pointer_path(worktree: &str) -> (r: String)
    ensures
        r@ == joined_path(worktree@, ".git"@),
{
    join_path(worktree, ".git")
}

/// Whether the worktree at `i` is confirmed gone.
pub open spec fn gone_at(probes: Seq<(Presence, Presence)>, i: int) -> bool {
    i < probes.len() && is_stale_look(probes[i].0, probes[i].1)
}

/// The worktrees that are confirmed gone. One that was not looked at is not.
pub open spec fn gone(worktrees: Seq<Seq<char>>, probes: Seq<(Presence, Presence)>) -> Seq<
    Seq<char>,
>
    decreases worktrees.len(),
{
    if worktrees.len() == 0 {
        seq![]
    } else {
        let before = gone(worktrees.drop_last(), probes);
        if gone_at(probes, worktrees.len() - 1) {
            before.push(worktrees.last())
        } else {
            before
        }
    }
}

/// Picks the worktrees that are confirmed gone.
pub fn gone_worktrees(worktrees: &Vec<String>, probes: &Vec<(Presence, Presence)>) -> (r: Vec<
    String,
>)
    ensures
        texts(r@) == gone(texts(worktrees@), probes@),
{
    let mut r: Vec<String> = Vec::new();
    let ghost all = texts(worktrees@);
    let mut i: usize = 0;
    while i < worktrees.len()
        invariant
            i <= worktrees.len(),
            all == texts(worktrees@),
            texts(r@) =~= gone(all.take(i as int), probes@),
        decreases worktrees.len() - i,
    {
        assert(all.take(i + 1).drop_last() =~= all.take(i as int));
        if i < probes.len() && is_definitely_stale_worktree(probes[i].0, probes[i].1) {
            let ghost before = texts(r@);
            r.push(worktrees[i].clone());
            assert(texts(r@) =~= before.push(all[i as int]));
        }
        i = i + 1;
    }
    assert(all.take(i as int) =~= all);
    r
}

/// Exactly the worktrees that are confirmed gone are picked: what could not be looked at
/// stays.
pub proof fn law_gone_is_confirmed(
    worktrees: Seq<Seq<char>>,
    probes: Seq<(Presence, Presence)>,
    path: Seq<char>,
)
    ensures
        gone(worktrees, probes).contains(path) <==> exists|i: int|
            0 <= i < worktrees.len() && #[trigger] worktrees[i] == path && gone_at(probes, i),
    decreases worktrees.len(),
{
    if worktrees.len() > 0 {
        let init = worktrees.drop_last();
        law_gone_is_confirmed(init, probes, path);
        let before = gone(init, probes);
        let all = gone(worktrees, probes);
        let n = worktrees.len() - 1;
        if all.contains(path) {
            if before.contains(path) {
                let i = choose|i: int|
                    0 <= i < init.len() && #[trigger] init[i] == path && gone_at(probes, i);
                assert(worktrees[i] == path);
            } else {
                assert(worktrees[n] == path);
            }
        }
        if exists|i: int|
            0 <= i < worktrees.len() && #[trigger] worktrees[i] == path && gone_at(probes, i) {
            let i = choose|i: int|
                0 <= i < worktrees.len() && #[trigger] worktrees[i] == path && gone_at(probes, i);
            if i < n {
                assert(init[i] == path);
                let j = choose|j: int| 0 <= j < before.len() && before[j] == path;
                assert(all[j] == path);
            } else {
                assert(all[before.len() as int] == path);
            }
        }
    }
}

/// A worktree is given up where its directory is known to be absent, or is there with its
/// `.git` pointer known to be absent, and only there: no look that told nothing gives one
/// up.
pub proof fn law_gone_needs_a_sure_look(
    worktrees: Seq<Seq<char>>,
    probes: Seq<(Presence, Presence)>,
    path: Seq<char>,
)
    ensures
        gone(worktrees, probes).contains(path) <==> exists|i: int|
            0 <= i < worktrees.len() && i < probes.len() && #[trigger] worktrees[i] == path && (
            probes[i].0 is Absent || (probes[i].0 is Present && probes[i].1 is Absent)),
{
    law_gone_is_confirmed(worktrees, probes, path);
    if gone(worktrees, probes).contains(path) {
        let i = choose|i: int|
            0 <= i < worktrees.len() && #[trigger] worktrees[i] == path && gone_at(probes, i);
        assert(worktrees[i] == path && i < probes.len());
    }
    if exists|i: int|
        0 <= i < worktrees.len() && i < probes.len() && #[trigger] worktrees[i] == path && (
        probes[i].0 is Absent || (probes[i].0 is Present && probes[i].1 is Absent)) {
        let i = choose|i: int|
            0 <= i < worktrees.len() && i < probes.len() && #[trigger] worktrees[i] == path && (
            probes[i].0 is Absent || (probes[i].0 is Present && probes[i].1 is Absent));
        assert(gone_at(probes, i));
    }
}

} // verus!
