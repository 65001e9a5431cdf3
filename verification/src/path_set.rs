//! A set of paths: no two of its members name the same path.

use vstd::prelude::*;

use crate::path_order::{law_path_order, path_before, paths_sorted, sort_paths};
use crate::paths::{components, is_same_path, same_path};
use crate::text::texts;

verus! {

/// A set of paths. Each member keeps the text that it was first added with.
#[derive(Debug)]
pub struct PathSet {
    members: Vec<String>,
}

/// The components of each path of a sequence.
pub open spec fn path_keys(s: Seq<Seq<char>>) -> Seq<Seq<Seq<char>>> {
    s.map_values(|p: Seq<char>| components(p))
}

impl View for PathSet {
    type V = Set<Seq<Seq<char>>>;

    /// The set of the members' components.
    open spec fn view(&self) -> Set<Seq<Seq<char>>> {
        path_keys(self.listed()).to_set()
    }
}

impl PathSet {
    /// The texts of the members, in the order in which they were added.
    pub closed spec fn listed(&self) -> Seq<Seq<char>> {
        texts(self.members@)
    }

    /// No two members name the same path.
    pub open spec fn wf(&self) -> bool {
        path_keys(self.listed()).no_duplicates()
    }

    /// The empty set.
    pub fn new() -> (r: PathSet)
        ensures
            r.wf(),
            r.listed() == Seq::<Seq<char>>::empty(),
            r@ == Set::<Seq<Seq<char>>>::empty(),
    {
        let r = PathSet { members: Vec::new() };
        assert(r.listed() =~= Seq::<Seq<char>>::empty());
        assert(r@ =~= Set::<Seq<Seq<char>>>::empty());
        r
    }

    /// The number of members.
    pub fn len(&self) -> (n: usize)
        requires
            self.wf(),
        ensures
            n == self@.len(),
            n == self.listed().len(),
    {
        proof {
            path_keys(self.listed()).unique_seq_to_set();
        }
        self.members.len()
    }

    /// Where the path stands among the members; their number where it is none of them.
    fn position(&self, path: &str) -> (n: usize)
        requires
            self.wf(),
        ensures
            n <= self.listed().len(),
            n < self.listed().len() ==> same_path(self.listed()[n as int], path@),
            n == self.listed().len() ==> !self@.contains(components(path@)),
            n < self.listed().len() <==> self@.contains(components(path@)),
    {
        let ghost keys = path_keys(self.listed());
        let mut i: usize = 0;
        while i < self.members.len()
            invariant
                i <= self.members.len(),
                keys == path_keys(self.listed()),
                forall|j: int| 0 <= j < i ==> #[trigger] keys[j] != components(path@),
            decreases self.members.len() - i,
        {
            if is_same_path(self.members[i].as_str(), path) {
                assert(keys[i as int] == components(path@));
                assert(keys.contains(components(path@)));
                return i;
            }
            i = i + 1;
        }
        i
    }

    /// Whether the path is a member.
    pub fn contains(&self, path: &str) -> (r: bool)
        requires
            self.wf(),
        ensures
            r == self@.contains(components(path@)),
    {
        self.position(path) < self.members.len()
    }

    /// Adds a path; a member that names the same path stays as it is.
    pub fn insert(&mut self, path: &str)
        requires
            old(self).wf(),
        ensures
            final(self).wf(),
            final(self)@ == old(self)@.insert(components(path@)),
            final(self).listed() == if old(self)@.contains(components(path@)) {
                old(self).listed()
            } else {
                old(self).listed().push(path@)
            },
    {
        let n: usize = self.position(path);
        let ghost before = self.listed();
        let ghost keys = path_keys(before);
        if n == self.members.len() {
            self.members.push(path.to_owned());
            proof {
                let after = self.listed();
                assert(after =~= before.push(path@));
                assert(path_keys(after) =~= keys.push(components(path@)));
                keys.lemma_push_to_set_commute(components(path@));
                assert(!keys.contains(components(path@)));
            }
        } else {
            assert(old(self)@.insert(components(path@)) =~= old(self)@);
        }
    }

    /// Takes a path out.
    pub fn remove(&mut self, path: &str)
        requires
            old(self).wf(),
        ensures
            final(self).wf(),
            final(self)@ == old(self)@.remove(components(path@)),
            final(self).listed() == old(self).listed().filter(
                |p: Seq<char>| !same_path(p, path@),
            ),
    {
        let n: usize = self.position(path);
        let ghost before = self.listed();
        let ghost keys = path_keys(before);
        let ghost key = components(path@);
        let ghost other = |p: Seq<char>| !same_path(p, path@);
        if n < self.members.len() {
            let _gone = self.members.remove(n);
            proof {
                let after = self.listed();
                let n = n as int;
                assert(after =~= before.remove(n));
                assert(path_keys(after) =~= keys.remove(n));
                assert(keys[n] == key);
                assert forall|i: int| 0 <= i < before.len() && i != n implies other(
                    #[trigger] before[i],
                ) by {
                    assert(keys[i] != keys[n]);
                }
                assert forall|k: Seq<Seq<char>>| self@.contains(k) implies old(self)@.remove(
                    key,
                ).contains(k) by {
                    let j = choose|j: int|
                        0 <= j < path_keys(after).len() && path_keys(after)[j] == k;
                    if j < n {
                        assert(keys[j] == k && keys[j] != keys[n]);
                    } else {
                        assert(keys[j + 1] == k && keys[j + 1] != keys[n]);
                    }
                }
                assert forall|k: Seq<Seq<char>>| old(self)@.remove(key).contains(
                    k,
                ) implies self@.contains(k) by {
                    let j = choose|j: int| 0 <= j < keys.len() && keys[j] == k;
                    if j < n {
                        assert(path_keys(after)[j] == k);
                    } else {
                        assert(path_keys(after)[j - 1] == k);
                    }
                }
                assert(self@ =~= old(self)@.remove(key));
                lemma_filter_out_one(before, n, other);
            }
        } else {
            proof {
                assert(old(self)@.remove(key) =~= old(self)@);
                assert forall|i: int| 0 <= i < before.len() implies other(#[trigger] before[i]) by {
                    assert(keys.contains(keys[i]));
                }
                lemma_filter_all(before, other);
            }
        }
    }

    /// Takes all paths out.
    pub fn clear(&mut self)
        ensures
            final(self).wf(),
            final(self)@ == Set::<Seq<Seq<char>>>::empty(),
            final(self).listed() == Seq::<Seq<char>>::empty(),
    {
        self.members = Vec::new();
        assert(self.listed() =~= Seq::<Seq<char>>::empty());
        assert(self@ =~= Set::<Seq<Seq<char>>>::empty());
    }

    /// The members, sorted.
    pub fn sorted(&self) -> (r: Vec<String>)
        requires
            self.wf(),
        ensures
            paths_sorted(texts(r@)),
            texts(r@).to_multiset() == self.listed().to_multiset(),
            r.len() == self@.len(),
    {
        proof {
            path_keys(self.listed()).unique_seq_to_set();
        }
        sort_paths(&self.members)
    }
}

/// A filter that every element passes keeps the whole sequence.
pub proof fn lemma_filter_all<A>(s: Seq<A>, keep: spec_fn(A) -> bool)
    requires
        forall|i: int| 0 <= i < s.len() ==> keep(#[trigger] s[i]),
    ensures
        s.filter(keep) == s,
    decreases s.len(),
{
    reveal(Seq::filter);
    if s.len() > 0 {
        assert forall|i: int| 0 <= i < s.drop_last().len() implies keep(
            #[trigger] s.drop_last()[i],
        ) by {
            assert(s.drop_last()[i] == s[i]);
        }
        lemma_filter_all(s.drop_last(), keep);
        assert(keep(s[s.len() - 1]));
        assert(s =~= s.drop_last().push(s.last()));
    }
}

/// A filter that only the element at `n` fails removes that element.
proof fn lemma_filter_out_one<A>(s: Seq<A>, n: int, keep: spec_fn(A) -> bool)
    requires
        0 <= n < s.len(),
        !keep(s[n]),
        forall|i: int| 0 <= i < s.len() && i != n ==> keep(#[trigger] s[i]),
    ensures
        s.filter(keep) == s.remove(n),
    decreases s.len(),
{
    reveal(Seq::filter);
    let init = s.drop_last();
    if n == s.len() - 1 {
        assert forall|i: int| 0 <= i < init.len() implies keep(#[trigger] init[i]) by {
            assert(init[i] == s[i]);
        }
        lemma_filter_all(init, keep);
        assert(s.remove(n) =~= init);
    } else {
        assert forall|i: int| 0 <= i < init.len() && i != n implies keep(#[trigger] init[i]) by {
            assert(init[i] == s[i]);
        }
        assert(init[n] == s[n]);
        lemma_filter_out_one(init, n, keep);
        assert(keep(s[s.len() - 1]));
        assert(s.remove(n) =~= init.remove(n).push(s.last()));
    }
}

/// Two sorted lists without repetitions that hold the same paths hold them in the same
/// order: what is listed of a set of paths depends on the set alone, not on how it came
/// about.
pub proof fn law_sorted_members_agree(a: Seq<Seq<char>>, b: Seq<Seq<char>>)
    requires
        paths_sorted(a),
        paths_sorted(b),
        path_keys(a).no_duplicates(),
        path_keys(b).no_duplicates(),
        path_keys(a).to_set() == path_keys(b).to_set(),
    ensures
        path_keys(a) == path_keys(b),
    decreases a.len(),
{
    let ka = path_keys(a);
    let kb = path_keys(b);
    ka.unique_seq_to_set();
    kb.unique_seq_to_set();
    assert(a.len() == b.len());
    if a.len() == 0 {
        assert(ka =~= kb);
    } else {
        let n = a.len() - 1;
        assert(ka.to_set().contains(ka[n]));
        assert(kb.to_set().contains(kb[n]));
        let j = choose|j: int| 0 <= j < kb.len() && kb[j] == ka[n];
        let i = choose|i: int| 0 <= i < ka.len() && ka[i] == kb[n];
        if j < n {
            assert(kb[j] != kb[n]);
            assert(!path_before(b[n], b[j]));
            law_path_order(b[j], b[n], b[j]);
            if i < n {
                assert(ka[i] != ka[n]);
                assert(!path_before(a[n], a[i]));
                law_path_order(a[i], a[n], a[i]);
            }
        }
        assert(ka[n] == kb[n]);
        let ia = a.drop_last();
        let ib = b.drop_last();
        assert(path_keys(ia) =~= ka.drop_last());
        assert(path_keys(ib) =~= kb.drop_last());
        lemma_drop_last_set(ka);
        lemma_drop_last_set(kb);
        assert forall|x: int, y: int| 0 <= x < y < ia.len() implies !path_before(
            #[trigger] ia[y],
            #[trigger] ia[x],
        ) by {
            assert(!path_before(a[y], a[x]));
        }
        assert forall|x: int, y: int| 0 <= x < y < ib.len() implies !path_before(
            #[trigger] ib[y],
            #[trigger] ib[x],
        ) by {
            assert(!path_before(b[y], b[x]));
        }
        law_sorted_members_agree(ia, ib);
        assert(ka =~= ka.drop_last().push(ka[n]));
        assert(kb =~= kb.drop_last().push(kb[n]));
    }
}

/// Without its last element, a sequence without repetitions lacks that element only.
proof fn lemma_drop_last_set<A>(s: Seq<A>)
    requires
        s.no_duplicates(),
        s.len() > 0,
    ensures
        s.drop_last().no_duplicates(),
        s.drop_last().to_set() == s.to_set().remove(s.last()),
{
    let init = s.drop_last();
    assert forall|x: A| init.to_set().contains(x) <==> s.to_set().remove(s.last()).contains(x) by {
        if init.contains(x) {
            let i = choose|i: int| 0 <= i < init.len() && init[i] == x;
            assert(s[i] == x);
            assert(s[i] != s[s.len() - 1]);
        }
        if s.contains(x) && x != s.last() {
            let i = choose|i: int| 0 <= i < s.len() && s[i] == x;
            assert(init[i] == x);
        }
    }
    assert(init.to_set() =~= s.to_set().remove(s.last()));
}

} // verus!
