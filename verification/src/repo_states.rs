//! What the daemon remembers of each repository between polls.

use vstd::prelude::*;
use vstd::string::*;

use crate::path_set::path_keys;
use crate::paths::{
    components, contains_path, is_same_path, is_under_some, lists_path, path_starts_with, same_path,
    under_some,
};
use crate::text::{opt_text, texts};

verus! {

/// What is remembered of one repository: the repository that its activity is booked on,
/// and where the last poll left off. The first is another path only for a worktree.
#[derive(Debug, Clone, Default)]
pub struct RepoState<C> {
    pub main_repo_path: String,
    pub cursor: C,
}

/// The states of the tracked repositories, by path.
#[derive(Debug)]
pub struct RepoStates<C> {
    entries: Vec<(String, RepoState<C>)>,
}

/// The paths of tracked entries.
pub open spec fn tracked_paths<C>(s: Seq<(Seq<char>, RepoState<C>)>) -> Seq<Seq<char>> {
    s.map_values(|e: (Seq<char>, RepoState<C>)| e.0)
}

/// The entry of a map as its path's text and its state.
pub open spec fn entry_view<C>(e: (String, RepoState<C>)) -> (Seq<char>, RepoState<C>) {
    (e.0@, e.1)
}

impl<C> RepoStates<C> {
    /// The tracked paths with their states, in the order in which they were added.
    pub closed spec fn listed(&self) -> Seq<(Seq<char>, RepoState<C>)> {
        self.entries@.map_values(|e: (String, RepoState<C>)| entry_view(e))
    }

    /// The texts of the tracked paths.
    pub open spec fn paths(&self) -> Seq<Seq<char>> {
        tracked_paths(self.listed())
    }

    /// The components of the tracked paths.
    pub open spec fn keys(&self) -> Seq<Seq<Seq<char>>> {
        path_keys(self.paths())
    }

    /// No path is tracked twice.
    pub open spec fn wf(&self) -> bool {
        self.keys().no_duplicates()
    }

    /// Whether the path is tracked.
    pub open spec fn tracks(&self, path: Seq<char>) -> bool {
        self.keys().contains(components(path))
    }
}

/// Which tracked paths stay when a scan found `current`: those that it found, and those
/// under a root whose discovery was unreliable.
pub open spec fn stays(
    current: Seq<Seq<char>>,
    unreliable_roots: Seq<Seq<char>>,
    path: Seq<char>,
) -> bool {
    lists_path(current, path) || under_some(unreliable_roots, path)
}

/// Whether an entry is a worktree: its activity is booked on another path.
pub open spec fn is_worktree<C>(e: (Seq<char>, RepoState<C>)) -> bool {
    !same_path(e.1.main_repo_path@, e.0)
}

/// Whether an entry is a worktree that is gone.
pub open spec fn is_stale<C>(gone: Seq<Seq<char>>, e: (Seq<char>, RepoState<C>)) -> bool {
    is_worktree(e) && lists_path(gone, e.0)
}

/// The repository that the activity in `path` is booked on: the one that a worktree was
/// resolved to, else the path itself.
pub open spec fn booked_on(
    path: Seq<char>,
    worktree: bool,
    resolved: Option<Seq<char>>,
) -> Seq<char> {
    if worktree && resolved is Some {
        resolved->0
    } else {
        path
    }
}

impl<C> RepoStates<C> {
    /// No repositories.
    pub fn new() -> (r: RepoStates<C>)
        ensures
            r.wf(),
            r.listed() == Seq::<(Seq<char>, RepoState<C>)>::empty(),
    {
        let r = RepoStates { entries: Vec::new() };
        assert(r.listed() =~= Seq::<(Seq<char>, RepoState<C>)>::empty());
        r
    }

    /// The number of tracked repositories.
    pub fn len(&self) -> (n: usize)
        ensures
            n == self.listed().len(),
    {
        self.entries.len()
    }

    /// Where the path stands among the entries; their number where it is not tracked.
    fn position(&self, path: &str) -> (n: usize)
        ensures
            n <= self.listed().len(),
            n < self.listed().len() ==> same_path(self.listed()[n as int].0, path@),
            n < self.listed().len() <==> self.tracks(path@),
    {
        let ghost keys = self.keys();
        let mut i: usize = 0;
        while i < self.entries.len()
            invariant
                i <= self.entries.len(),
                keys == self.keys(),
                forall|j: int| 0 <= j < i ==> #[trigger] keys[j] != components(path@),
            decreases self.entries.len() - i,
        {
            if is_same_path(self.entries[i].0.as_str(), path) {
                assert(keys[i as int] == components(path@));
                return i;
            }
            i = i + 1;
        }
        i
    }

    /// Whether the path is tracked.
    pub fn contains_key(&self, path: &str) -> (r: bool)
        ensures
            r == self.tracks(path@),
    {
        self.position(path) < self.entries.len()
    }

    /// The repository that the activity in a tracked path is booked on.
    pub fn main_repo_path(&self, path: &str) -> (r: Option<String>)
        requires
            self.wf(),
        ensures
            r is Some <==> self.tracks(path@),
            r matches Some(m) ==> forall|i: int|
                0 <= i < self.listed().len() && same_path(#[trigger] self.listed()[i].0, path@)
                    ==> m@ == self.listed()[i].1.main_repo_path@,
    {
        let n: usize = self.position(path);
        if n < self.entries.len() {
            let m = self.entries[n].1.main_repo_path.clone();
            assert forall|i: int|
                0 <= i < self.listed().len() && same_path(
                    #[trigger] self.listed()[i].0,
                    path@,
                ) implies m@ == self.listed()[i].1.main_repo_path@ by {
                assert(self.keys()[i] == self.keys()[n as int]);
            }
            Some(m)
        } else {
            None
        }
    }

    /// The place where the last poll of a tracked path left off, to be moved on.
    pub fn cursor_mut(&mut self, path: &str) -> (r: Option<&mut C>)
        requires
            old(self).wf(),
        ensures
            match r {
                Some(c) => exists|n: int|
                    0 <= n < old(self).listed().len() && same_path(
                        #[trigger] old(self).listed()[n].0,
                        path@,
                    ) && *c == old(self).listed()[n].1.cursor && final(self).listed() == old(
                        self,
                    ).listed().update(
                        n,
                        (
                            old(self).listed()[n].0,
                            RepoState {
                                main_repo_path: old(self).listed()[n].1.main_repo_path,
                                cursor: *final(c),
                            },
                        ),
                    ),
                None => !old(self).tracks(path@) && final(self).listed() == old(self).listed(),
            },
            final(self).paths() == old(self).paths(),
    {
        let n: usize = self.position(path);
        if n < self.entries.len() {
            let entry = &mut self.entries[n];
            Some(&mut entry.1.cursor)
        } else {
            None
        }
    }

    /// Tracks a path, where it is not tracked yet, from `cursor` on.
    pub fn ensure_state(
        &mut self,
        path: &str,
        worktree: bool,
        resolved: Option<String>,
        cursor: C,
    )
        requires
            old(self).wf(),
        ensures
            final(self).wf(),
            final(self).tracks(path@),
            old(self).tracks(path@) ==> final(self).listed() == old(self).listed(),
            !old(self).tracks(path@) ==> {
                &&& final(self).listed().len() == old(self).listed().len() + 1
                &&& final(self).listed().drop_last() == old(self).listed()
                &&& final(self).listed().last().0 == path@
                &&& final(self).listed().last().1.cursor == cursor
                &&& final(self).listed().last().1.main_repo_path@ == booked_on(
                    path@,
                    worktree,
                    opt_text(resolved),
                )
            },
    {
        if !self.contains_key(path) {
            let main_repo_path = match resolved {
                Some(m) => if worktree {
                    m
                } else {
                    path.to_owned()
                },
                None => path.to_owned(),
            };
            let ghost before = self.listed();
            let ghost keys = self.keys();
            self.entries.push((path.to_owned(), RepoState { main_repo_path, cursor }));
            proof {
                let after = self.listed();
                assert(after.drop_last() =~= before);
                assert(self.keys() =~= keys.push(components(path@)));
                assert(self.keys()[keys.len() as int] == components(path@));
                assert(!keys.contains(components(path@)));
            }
        }
    }

    /// The tracked worktrees.
    pub fn worktree_paths(&self) -> (r: Vec<String>)
        ensures
            texts(r@) == tracked_paths(
                self.listed().filter(|e: (Seq<char>, RepoState<C>)| is_worktree(e)),
            ),
    {
        let mut r: Vec<String> = Vec::new();
        let mut i: usize = 0;
        let ghost all = self.listed();
        let ghost pick = |e: (Seq<char>, RepoState<C>)| is_worktree(e);
        assert(all.take(0).filter(pick) =~= seq![]);
        assert(texts(r@) =~= tracked_paths(all.take(0).filter(pick)));
        while i < self.entries.len()
            invariant
                i <= self.entries.len(),
                all == self.listed(),
                pick == (|e: (Seq<char>, RepoState<C>)| is_worktree(e)),
                texts(r@) == tracked_paths(all.take(i as int).filter(pick)),
            decreases self.entries.len() - i,
        {
            let ghost before = all.take(i as int).filter(pick);
            let ghost e = all[i as int];
            proof {
                assert(all.take(i + 1) =~= all.take(i as int).push(e));
                all.take(i as int).lemma_filter_push(e, pick);
            }
            if !is_same_path(
                self.entries[i].1.main_repo_path.as_str(),
                self.entries[i].0.as_str(),
            ) {
                let ghost old_r = texts(r@);
                r.push(self.entries[i].0.clone());
                assert(texts(r@) =~= old_r.push(e.0));
                assert(tracked_paths(before.push(e)) =~= tracked_paths(before).push(e.0));
            }
            i = i + 1;
        }
        assert(all.take(i as int) =~= all);
        r
    }
}

/// What a filter passes on of entries with distinct paths has distinct paths.
proof fn lemma_filter_keeps_distinct<C>(
    s: Seq<(Seq<char>, RepoState<C>)>,
    keep: spec_fn((Seq<char>, RepoState<C>)) -> bool,
)
    requires
        path_keys(tracked_paths(s)).no_duplicates(),
    ensures
        path_keys(tracked_paths(s.filter(keep))).no_duplicates(),
        forall|k: Seq<Seq<char>>| #[trigger]
            path_keys(tracked_paths(s.filter(keep))).contains(k) <==> exists|i: int|
                0 <= i < s.len() && keep(#[trigger] s[i]) && components(s[i].0) == k,
    decreases s.len(),
{
    if s.len() == 0 {
        assert(s.filter(keep) =~= seq![]);
    } else {
        let init = s.drop_last();
        let e = s.last();
        let keys = path_keys(tracked_paths(s));
        assert(s =~= init.push(e));
        assert(path_keys(tracked_paths(init)) =~= keys.drop_last());
        lemma_filter_keeps_distinct(init, keep);
        init.lemma_filter_push(e, keep);
        let sub = path_keys(tracked_paths(init.filter(keep)));
        let all = path_keys(tracked_paths(s.filter(keep)));
        if keep(e) {
            assert(all =~= sub.push(components(e.0)));
            if sub.contains(components(e.0)) {
                let i = choose|i: int|
                    0 <= i < init.len() && keep(#[trigger] init[i]) && components(init[i].0)
                        == components(e.0);
                assert(keys[i] == keys[s.len() - 1]);
            }
        }
        assert forall|k: Seq<Seq<char>>| #[trigger] all.contains(k) <==> exists|i: int|
            0 <= i < s.len() && keep(#[trigger] s[i]) && components(s[i].0) == k by {
            if all.contains(k) {
                if sub.contains(k) {
                    let i = choose|i: int|
                        0 <= i < init.len() && keep(#[trigger] init[i]) && components(init[i].0)
                            == k;
                    assert(keep(s[i]) && components(s[i].0) == k);
                } else {
                    let i = choose|i: int| 0 <= i < all.len() && all[i] == k;
                    if i < sub.len() {
                        assert(sub[i] == k);
                    }
                    assert(keep(s[s.len() - 1]) && components(s[s.len() - 1].0) == k);
                }
            }
            if exists|i: int|
                0 <= i < s.len() && keep(#[trigger] s[i]) && components(s[i].0) == k {
                let i = choose|i: int|
                    0 <= i < s.len() && keep(#[trigger] s[i]) && components(s[i].0) == k;
                if i < init.len() {
                    assert(keep(init[i]) && components(init[i].0) == k);
                    assert(sub.contains(k));
                    let j = choose|j: int| 0 <= j < sub.len() && sub[j] == k;
                    assert(all[j] == k);
                } else {
                    assert(all[all.len() - 1] == k);
                }
            }
        }
    }
}

impl<C> RepoStates<C> {
    /// Keeps the entries that have a flag, and returns the paths of the others.
    fn part(
        &mut self,
        flags: &Vec<bool>,
        Ghost(keep): Ghost<spec_fn((Seq<char>, RepoState<C>)) -> bool>,
        Ghost(drop): Ghost<spec_fn((Seq<char>, RepoState<C>)) -> bool>,
    ) -> (dropped: Vec<String>)
        requires
            old(self).wf(),
            flags@.len() == old(self).listed().len(),
            forall|i: int|
                0 <= i < flags@.len() ==> #[trigger] flags@[i] == keep(old(self).listed()[i])
                    && flags@[i] != drop(old(self).listed()[i]),
        ensures
            final(self).wf(),
            final(self).listed() == old(self).listed().filter(keep),
            texts(dropped@) == tracked_paths(old(self).listed().filter(drop)),
    {
        let ghost all = self.listed();
        let mut rest: Vec<(String, RepoState<C>)> = Vec::new();
        std::mem::swap(&mut rest, &mut self.entries);
        let mut dropped: Vec<String> = Vec::new();
        let mut i: usize = 0;
        let ghost viewed = |e: (String, RepoState<C>)| entry_view(e);
        assert(rest@.map_values(viewed) =~= all.skip(0));
        assert(all.take(0).filter(keep) =~= seq![]);
        assert(all.take(0).filter(drop) =~= seq![]);
        assert(self.listed() =~= all.take(0).filter(keep));
        assert(texts(dropped@) =~= tracked_paths(all.take(0).filter(drop)));
        while i < flags.len()
            invariant
                i <= flags.len(),
                flags@.len() == all.len(),
                forall|j: int|
                    0 <= j < flags@.len() ==> #[trigger] flags@[j] == keep(all[j]) && flags@[j]
                        != drop(all[j]),
                viewed == (|e: (String, RepoState<C>)| entry_view(e)),
                rest@.map_values(viewed) == all.skip(i as int),
                self.listed() == all.take(i as int).filter(keep),
                texts(dropped@) == tracked_paths(all.take(i as int).filter(drop)),
            decreases flags.len() - i,
        {
            let ghost e = all[i as int];
            let ghost kept = all.take(i as int).filter(keep);
            let ghost gone = all.take(i as int).filter(drop);
            assert(rest@.len() == rest@.map_values(viewed).len());
            assert(rest@.map_values(viewed)[0] == e);
            let ghost rest_before = rest@;
            let entry = rest.remove(0);
            proof {
                assert(rest@.map_values(viewed) =~= rest_before.map_values(viewed).skip(1));
                assert(all.skip(i as int).skip(1) =~= all.skip(i + 1));
                assert(all.take(i + 1) =~= all.take(i as int).push(e));
                all.take(i as int).lemma_filter_push(e, keep);
                all.take(i as int).lemma_filter_push(e, drop);
            }
            if flags[i] {
                self.entries.push(entry);
                assert(self.listed() =~= kept.push(e));
            } else {
                let ghost dropped_before = texts(dropped@);
                dropped.push(entry.0);
                assert(texts(dropped@) =~= dropped_before.push(e.0));
                assert(tracked_paths(gone.push(e)) =~= tracked_paths(gone).push(e.0));
            }
            i = i + 1;
        }
        assert(all.take(i as int) =~= all);
        proof {
            lemma_filter_keeps_distinct(all, keep);
        }
        dropped
    }
}

/// Forgets the tracked paths that neither were found in `current` nor lie under an
/// unreliable root, and returns them. The other states are left as they are.
pub fn prune_repo_states<C>(
    repo_states: &mut RepoStates<C>,
    current: &Vec<String>,
    unreliable_roots: &Vec<String>,
) -> (evicted: Vec<String>)
    requires
        old(repo_states).wf(),
    ensures
        final(repo_states).wf(),
        final(repo_states).listed() == old(repo_states).listed().filter(
            |e: (Seq<char>, RepoState<C>)|
                stays(texts(current@), texts(unreliable_roots@), e.0),
        ),
        texts(evicted@) == tracked_paths(
            old(repo_states).listed().filter(
                |e: (Seq<char>, RepoState<C>)|
                    !stays(texts(current@), texts(unreliable_roots@), e.0),
            ),
        ),
{
    let ghost keep = |e: (Seq<char>, RepoState<C>)|
        stays(texts(current@), texts(unreliable_roots@), e.0);
    let ghost drop = |e: (Seq<char>, RepoState<C>)|
        !stays(texts(current@), texts(unreliable_roots@), e.0);
    let mut flags: Vec<bool> = Vec::new();
    let mut i: usize = 0;
    while i < repo_states.entries.len()
        invariant
            i <= repo_states.entries.len(),
            flags@.len() == i,
            forall|j: int|
                0 <= j < i ==> #[trigger] flags@[j] == stays(
                    texts(current@),
                    texts(unreliable_roots@),
                    repo_states.listed()[j].0,
                ),
        decreases repo_states.entries.len() - i,
    {
        let path = repo_states.entries[i].0.as_str();
        assert(repo_states.listed()[i as int].0 == path@);
        flags.push(contains_path(current, path) || is_under_some(unreliable_roots, path));
        i = i + 1;
    }
    repo_states.part(&flags, Ghost(keep), Ghost(drop))
}

/// Forgets the worktrees that are confirmed gone, and returns them. The other states,
/// and every repository that is no worktree, are left as they are.
pub fn remove_stale_worktrees<C>(
    repo_states: &mut RepoStates<C>,
    gone: &Vec<String>,
) -> (stale: Vec<String>)
    requires
        old(repo_states).wf(),
    ensures
        final(repo_states).wf(),
        final(repo_states).listed() == old(repo_states).listed().filter(
            |e: (Seq<char>, RepoState<C>)| !is_stale(texts(gone@), e),
        ),
        texts(stale@) == tracked_paths(
            old(repo_states).listed().filter(
                |e: (Seq<char>, RepoState<C>)| is_stale(texts(gone@), e),
            ),
        ),
{
    let ghost keep = |e: (Seq<char>, RepoState<C>)| !is_stale(texts(gone@), e);
    let ghost drop = |e: (Seq<char>, RepoState<C>)| is_stale(texts(gone@), e);
    let mut flags: Vec<bool> = Vec::new();
    let mut i: usize = 0;
    while i < repo_states.entries.len()
        invariant
            i <= repo_states.entries.len(),
            flags@.len() == i,
            forall|j: int|
                0 <= j < i ==> #[trigger] flags@[j] == !is_stale(
                    texts(gone@),
                    repo_states.listed()[j],
                ),
        decreases repo_states.entries.len() - i,
    {
        let entry = &repo_states.entries[i];
        assert(repo_states.listed()[i as int] == entry_view(*entry));
        let worktree = !is_same_path(entry.1.main_repo_path.as_str(), entry.0.as_str());
        flags.push(!(worktree && contains_path(gone, entry.0.as_str())));
        i = i + 1;
    }
    repo_states.part(&flags, Ghost(keep), Ghost(drop))
}

/// Pruning keeps exactly the tracked paths that stay, each with its state, and forgets
/// exactly the others.
pub proof fn law_prune_keeps_what_stays<C>(
    before: RepoStates<C>,
    after: RepoStates<C>,
    current: Seq<Seq<char>>,
    unreliable_roots: Seq<Seq<char>>,
    path: Seq<char>,
)
    requires
        before.wf(),
        after.listed() == before.listed().filter(
            |e: (Seq<char>, RepoState<C>)| stays(current, unreliable_roots, e.0),
        ),
    ensures
        after.tracks(path) <==> before.tracks(path) && stays(current, unreliable_roots, path),
        forall|i: int, j: int|
            0 <= i < before.listed().len() && 0 <= j < after.listed().len() && same_path(
                (#[trigger] before.listed()[i]).0,
                path,
            ) && same_path((#[trigger] after.listed()[j]).0, path) ==> before.listed()[i]
                == after.listed()[j],
{
    let all = before.listed();
    let keep = |e: (Seq<char>, RepoState<C>)| stays(current, unreliable_roots, e.0);
    lemma_filter_keeps_distinct(all, keep);
    let key = components(path);
    if after.tracks(path) {
        let i = choose|i: int|
            0 <= i < all.len() && keep(#[trigger] all[i]) && components(all[i].0) == key;
        assert(before.keys()[i] == key);
        lemma_stays_by_components(current, unreliable_roots, all[i].0, path);
    }
    if before.tracks(path) && stays(current, unreliable_roots, path) {
        let i = choose|i: int| 0 <= i < before.keys().len() && before.keys()[i] == key;
        lemma_stays_by_components(current, unreliable_roots, path, all[i].0);
        assert(keep(all[i]) && components(all[i].0) == key);
    }
    assert forall|i: int, j: int|
        0 <= i < all.len() && 0 <= j < after.listed().len() && same_path(
            (#[trigger] all[i]).0,
            path,
        ) && same_path((#[trigger] after.listed()[j]).0, path) implies all[i]
        == after.listed()[j] by {
        let e = after.listed()[j];
        assert(all.filter(keep).contains(e));
        all.lemma_filter_contains_rev(keep, e);
        let m = choose|m: int| 0 <= m < all.len() && all[m] == e;
        assert(before.keys()[m] == before.keys()[i]);
    }
}

/// Whether a path stays depends on its components alone.
pub proof fn lemma_stays_by_components(
    current: Seq<Seq<char>>,
    unreliable_roots: Seq<Seq<char>>,
    a: Seq<char>,
    b: Seq<char>,
)
    requires
        same_path(a, b),
        stays(current, unreliable_roots, a),
    ensures
        stays(current, unreliable_roots, b),
{
    if lists_path(current, a) {
        let i = choose|i: int| 0 <= i < current.len() && same_path(#[trigger] current[i], a);
        assert(same_path(current[i], b));
    } else {
        let i = choose|i: int|
            0 <= i < unreliable_roots.len() && path_starts_with(a, #[trigger] unreliable_roots[i]);
        assert(path_starts_with(b, unreliable_roots[i]));
    }
}

/// Where every root was reliable, pruning leaves no path but those just found.
pub proof fn law_reliable_prune_leaves_only_current<C>(
    before: RepoStates<C>,
    after: RepoStates<C>,
    current: Seq<Seq<char>>,
    path: Seq<char>,
)
    requires
        before.wf(),
        after.listed() == before.listed().filter(
            |e: (Seq<char>, RepoState<C>)| stays(current, Seq::<Seq<char>>::empty(), e.0),
        ),
        after.tracks(path),
    ensures
        lists_path(current, path),
{
    law_prune_keeps_what_stays(before, after, current, Seq::<Seq<char>>::empty(), path);
}

/// Removing stale worktrees forgets only worktrees that are confirmed gone.
pub proof fn law_only_gone_worktrees_are_forgotten<C>(
    before: RepoStates<C>,
    after: RepoStates<C>,
    gone: Seq<Seq<char>>,
    i: int,
)
    requires
        before.wf(),
        after.listed() == before.listed().filter(
            |e: (Seq<char>, RepoState<C>)| !is_stale(gone, e),
        ),
        0 <= i < before.listed().len(),
    ensures
        after.tracks(before.listed()[i].0) <==> !(is_worktree(before.listed()[i]) && lists_path(
            gone,
            before.listed()[i].0,
        )),
{
    let all = before.listed();
    let keep = |e: (Seq<char>, RepoState<C>)| !is_stale(gone, e);
    lemma_filter_keeps_distinct(all, keep);
    let key = components(all[i].0);
    if after.tracks(all[i].0) {
        let j = choose|j: int|
            0 <= j < all.len() && keep(#[trigger] all[j]) && components(all[j].0) == key;
        assert(before.keys()[j] == before.keys()[i]);
    }
    if keep(all[i]) {
        assert(keep(all[i]) && components(all[i].0) == key);
    }
}

/// Which paths stay, by components: those that have the components of a path just found,
/// and those whose components start with those of a root that was unreliable.
pub proof fn law_what_stays(
    current: Seq<Seq<char>>,
    unreliable_roots: Seq<Seq<char>>,
    path: Seq<char>,
)
    ensures
        stays(current, unreliable_roots, path) <==> (exists|i: int|
            0 <= i < current.len() && components(#[trigger] current[i]) == components(path)) || (
        exists|k: int|
            0 <= k < unreliable_roots.len() && components(
                #[trigger] unreliable_roots[k],
            ).is_prefix_of(components(path))),
{
    if lists_path(current, path) {
        let i = choose|i: int| 0 <= i < current.len() && same_path(#[trigger] current[i], path);
        assert(components(current[i]) == components(path));
    }
    if exists|i: int|
        0 <= i < current.len() && components(#[trigger] current[i]) == components(path) {
        let i = choose|i: int|
            0 <= i < current.len() && components(#[trigger] current[i]) == components(path);
        assert(same_path(current[i], path));
    }
    if under_some(unreliable_roots, path) {
        let k = choose|k: int|
            0 <= k < unreliable_roots.len() && path_starts_with(path, #[trigger] unreliable_roots[k]);
        assert(components(unreliable_roots[k]).is_prefix_of(components(path)));
    }
    if exists|k: int|
        0 <= k < unreliable_roots.len() && components(#[trigger] unreliable_roots[k]).is_prefix_of(
            components(path),
        ) {
        let k = choose|k: int|
            0 <= k < unreliable_roots.len() && components(
                #[trigger] unreliable_roots[k],
            ).is_prefix_of(components(path));
        assert(path_starts_with(path, unreliable_roots[k]));
    }
}

/// Which entries are stale worktrees: those that are booked on another path and have the
/// components of a path that is gone. A main repository never is.
pub proof fn law_what_is_stale<C>(gone: Seq<Seq<char>>, e: (Seq<char>, RepoState<C>))
    ensures
        is_stale(gone, e) <==> components(e.1.main_repo_path@) != components(e.0) && (exists|
            i: int,
        |
            0 <= i < gone.len() && components(#[trigger] gone[i]) == components(e.0)),
{
    if lists_path(gone, e.0) {
        let i = choose|i: int| 0 <= i < gone.len() && same_path(#[trigger] gone[i], e.0);
        assert(components(gone[i]) == components(e.0));
    }
    if exists|i: int| 0 <= i < gone.len() && components(#[trigger] gone[i]) == components(e.0) {
        let i = choose|i: int|
            0 <= i < gone.len() && components(#[trigger] gone[i]) == components(e.0);
        assert(same_path(gone[i], e.0));
    }
}

/// The activity in a worktree is booked on the repository that it was resolved to, and any
/// other activity on the path itself.
pub proof fn law_booked_where_it_belongs(path: Seq<char>, main: Seq<char>)
    ensures
        booked_on(path, true, Some(main)) == main,
        booked_on(path, true, None) == path,
        booked_on(path, false, Some(main)) == path,
        booked_on(path, false, None) == path,
{
}

} // verus!
