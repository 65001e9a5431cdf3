//! The order of paths: component by component.
//!
//! The root comes before a leading `.`, that before `..`, and all of them before
//! names; names are ordered character by character.

use vstd::prelude::*;
use vstd::string::*;

use crate::paths::{components, path_parts};
use crate::text::{same_text, texts, to_chars};

verus! {

/// Whether `a` comes before `b`, character by character.
pub open spec fn chars_before(a: Seq<char>, b: Seq<char>) -> bool
    decreases a.len(),
{
    if b.len() == 0 {
        false
    } else if a.len() == 0 {
        true
    } else if a[0] != b[0] {
        a[0] < b[0]
    } else {
        chars_before(a.skip(1), b.skip(1))
    }
}

/// The place of a component among the kinds of components.
pub open spec fn part_rank(part: Seq<char>) -> int {
    if part == seq!['/'] {
        0
    } else if part == seq!['.'] {
        1
    } else if part == seq!['.', '.'] {
        2
    } else {
        3
    }
}

/// Whether the component `a` comes before the component `b`.
pub open spec fn part_before(a: Seq<char>, b: Seq<char>) -> bool {
    part_rank(a) < part_rank(b) || (part_rank(a) == part_rank(b) && chars_before(a, b))
}

/// Whether the components `a` come before the components `b`.
pub open spec fn parts_before(a: Seq<Seq<char>>, b: Seq<Seq<char>>) -> bool
    decreases a.len(),
{
    if b.len() == 0 {
        false
    } else if a.len() == 0 {
        true
    } else if a[0] != b[0] {
        part_before(a[0], b[0])
    } else {
        parts_before(a.skip(1), b.skip(1))
    }
}

/// Whether the path `a` comes before the path `b`.
pub open spec fn path_before(a: Seq<char>, b: Seq<char>) -> bool {
    parts_before(components(a), components(b))
}

/// Whether no path of `s` stands after one that it comes before.
pub open spec fn paths_sorted(s: Seq<Seq<char>>) -> bool {
    forall|i: int, j: int|
        0 <= i < j < s.len() ==> !path_before(#[trigger] s[j], #[trigger] s[i])
}

proof fn lemma_chars_irreflexive(a: Seq<char>)
    ensures
        !chars_before(a, a),
    decreases a.len(),
{
    if a.len() > 0 {
        lemma_chars_irreflexive(a.skip(1));
    }
}

proof fn lemma_chars_total(a: Seq<char>, b: Seq<char>)
    ensures
        a == b || chars_before(a, b) || chars_before(b, a),
    decreases a.len(),
{
    if a.len() == 0 {
        if b.len() == 0 {
            assert(a =~= b);
        }
    } else if b.len() > 0 && a[0] == b[0] {
        lemma_chars_total(a.skip(1), b.skip(1));
        if a.skip(1) == b.skip(1) {
            assert(a =~= seq![a[0]] + a.skip(1));
            assert(b =~= seq![b[0]] + b.skip(1));
        }
    }
}

proof fn lemma_chars_transitive(a: Seq<char>, b: Seq<char>, c: Seq<char>)
    requires
        chars_before(a, b),
        chars_before(b, c),
    ensures
        chars_before(a, c),
    decreases a.len(),
{
    if a.len() > 0 && a[0] == b[0] && b[0] == c[0] {
        lemma_chars_transitive(a.skip(1), b.skip(1), c.skip(1));
    }
}

proof fn lemma_part_total(a: Seq<char>, b: Seq<char>)
    ensures
        a == b || part_before(a, b) || part_before(b, a),
{
    lemma_chars_total(a, b);
}

proof fn lemma_part_transitive(a: Seq<char>, b: Seq<char>, c: Seq<char>)
    requires
        part_before(a, b),
        part_before(b, c),
    ensures
        part_before(a, c),
        a != c,
{
    if part_rank(a) == part_rank(b) && part_rank(b) == part_rank(c) {
        lemma_chars_transitive(a, b, c);
        lemma_chars_irreflexive(a);
    }
}

proof fn lemma_parts_irreflexive(a: Seq<Seq<char>>)
    ensures
        !parts_before(a, a),
    decreases a.len(),
{
    if a.len() > 0 {
        lemma_parts_irreflexive(a.skip(1));
    }
}

proof fn lemma_parts_total(a: Seq<Seq<char>>, b: Seq<Seq<char>>)
    ensures
        a == b || parts_before(a, b) || parts_before(b, a),
    decreases a.len(),
{
    if a.len() == 0 {
        if b.len() == 0 {
            assert(a =~= b);
        }
    } else if b.len() > 0 {
        if a[0] == b[0] {
            lemma_parts_total(a.skip(1), b.skip(1));
            if a.skip(1) == b.skip(1) {
                assert(a =~= seq![a[0]] + a.skip(1));
                assert(b =~= seq![b[0]] + b.skip(1));
            }
        } else {
            lemma_part_total(a[0], b[0]);
        }
    }
}

proof fn lemma_parts_transitive(a: Seq<Seq<char>>, b: Seq<Seq<char>>, c: Seq<Seq<char>>)
    requires
        parts_before(a, b),
        parts_before(b, c),
    ensures
        parts_before(a, c),
    decreases a.len(),
{
    if a.len() > 0 {
        if a[0] == b[0] {
            if b[0] == c[0] {
                lemma_parts_transitive(a.skip(1), b.skip(1), c.skip(1));
            }
        } else if b[0] != c[0] {
            lemma_part_transitive(a[0], b[0], c[0]);
        }
    }
}

/// The order of paths is strict and total: of two paths, either they are the same, or
/// exactly one comes before the other; and it is transitive.
pub proof fn law_path_order(a: Seq<char>, b: Seq<char>, c: Seq<char>)
    ensures
        !path_before(a, a),
        components(a) == components(b) || path_before(a, b) || path_before(b, a),
        !(path_before(a, b) && path_before(b, a)),
        path_before(a, b) && path_before(b, c) ==> path_before(a, c),
{
    lemma_parts_irreflexive(components(a));
    lemma_parts_total(components(a), components(b));
    if path_before(a, b) && path_before(b, a) {
        lemma_parts_transitive(components(a), components(b), components(a));
    }
    if path_before(a, b) && path_before(b, c) {
        lemma_parts_transitive(components(a), components(b), components(c));
    }
}

/// Decides [`chars_before`].
fn is_chars_before(a: &str, b: &str) -> (r: bool)
    ensures
        r == chars_before(a@, b@),
{
    let x = to_chars(a);
    let y = to_chars(b);
    let mut i: usize = 0;
    assert(x@.skip(0) =~= x@);
    assert(y@.skip(0) =~= y@);
    while i < x.len() && i < y.len() && x[i] == y[i]
        invariant
            x@ == a@,
            y@ == b@,
            i <= x.len(),
            i <= y.len(),
            chars_before(a@, b@) == chars_before(x@.skip(i as int), y@.skip(i as int)),
        decreases x.len() - i,
    {
        assert(x@.skip(i as int).skip(1) =~= x@.skip(i + 1));
        assert(y@.skip(i as int).skip(1) =~= y@.skip(i + 1));
        i = i + 1;
    }
    if i == y.len() {
        false
    } else if i == x.len() {
        true
    } else {
        x[i] < y[i]
    }
}

/// The place of a component among the kinds of components.
fn rank_of(part: &str) -> (r: u8)
    ensures
        r == part_rank(part@),
{
    proof {
        reveal_strlit("/");
        reveal_strlit(".");
        reveal_strlit("..");
        assert("/"@ =~= seq!['/']);
        assert("."@ =~= seq!['.']);
        assert(".."@ =~= seq!['.', '.']);
    }
    if same_text(part, "/") {
        0
    } else if same_text(part, ".") {
        1
    } else if same_text(part, "..") {
        2
    } else {
        3
    }
}

/// Decides [`path_before`].
pub fn is_path_before(a: &str, b: &str) -> (r: bool)
    ensures
        r == path_before(a@, b@),
{
    let x = path_parts(a);
    let y = path_parts(b);
    let ghost xs = components(a@);
    let ghost ys = components(b@);
    let mut i: usize = 0;
    assert(xs.skip(0) =~= xs);
    assert(ys.skip(0) =~= ys);
    while i < x.len() && i < y.len()
        invariant
            xs == texts(x@),
            ys == texts(y@),
            xs == components(a@),
            ys == components(b@),
            i <= x.len(),
            i <= y.len(),
            parts_before(xs, ys) == parts_before(xs.skip(i as int), ys.skip(i as int)),
        decreases x.len() - i,
    {
        assert(xs.skip(i as int)[0] == x@[i as int]@);
        assert(ys.skip(i as int)[0] == y@[i as int]@);
        if !same_text(x[i].as_str(), y[i].as_str()) {
            let p: u8 = rank_of(x[i].as_str());
            let q: u8 = rank_of(y[i].as_str());
            return p < q || (p == q && is_chars_before(x[i].as_str(), y[i].as_str()));
        }
        assert(xs.skip(i as int).skip(1) =~= xs.skip(i + 1));
        assert(ys.skip(i as int).skip(1) =~= ys.skip(i + 1));
        i = i + 1;
    }
    i < y.len()
}

/// Puts `p` into a sorted list, behind the paths that do not come after it.
fn insert_sorted(list: &mut Vec<String>, p: String)
    requires
        paths_sorted(texts(old(list)@)),
    ensures
        paths_sorted(texts(final(list)@)),
        texts(final(list)@).to_multiset() == texts(old(list)@).to_multiset().insert(p@),
        final(list).len() == old(list).len() + 1,
{
    let ghost before = texts(list@);
    let mut at: usize = list.len();
    while at > 0 && is_path_before(p.as_str(), list[at - 1].as_str())
        invariant
            at <= list.len(),
            before == texts(list@),
            forall|j: int| at <= j < before.len() ==> path_before(p@, #[trigger] before[j]),
        decreases at,
    {
        at = at - 1;
    }
    let ghost q = p@;
    list.insert(at, p);
    let ghost after = texts(list@);
    proof {
        assert(after =~= before.insert(at as int, q));
        before.insert_ensures(at as int, q);
        broadcast use vstd::seq_lib::to_multiset_insert;

        assert(after.to_multiset() == before.to_multiset().insert(q));
        assert forall|i: int, j: int| 0 <= i < j < after.len() implies !path_before(
            #[trigger] after[j],
            #[trigger] after[i],
        ) by {
            let at = at as int;
            if i < at && j < at {
                assert(!path_before(before[j], before[i]));
            } else if i < at && j == at {
                assert(!path_before(q, before[at - 1]));
                if i < at - 1 {
                    assert(!path_before(before[at - 1], before[i]));
                    law_path_order(q, before[at - 1], before[i]);
                    law_path_order(before[at - 1], q, before[i]);
                    law_path_order(before[i], before[at - 1], before[i]);
                    law_path_order(q, before[i], before[at - 1]);
                }
            } else if i < at {
                assert(!path_before(before[j - 1], before[i]));
            } else if i == at {
                law_path_order(q, before[j - 1], q);
            } else {
                assert(!path_before(before[j - 1], before[i - 1]));
            }
        }
    }
}

/// Sorts paths.
pub fn sort_paths(list: &Vec<String>) -> (r: Vec<String>)
    ensures
        paths_sorted(texts(r@)),
        texts(r@).to_multiset() == texts(list@).to_multiset(),
        r.len() == list.len(),
{
    let mut r: Vec<String> = Vec::new();
    let mut i: usize = 0;
    let ghost all = texts(list@);
    assert(texts(r@) =~= all.take(0));
    while i < list.len()
        invariant
            i <= list.len(),
            all == texts(list@),
            r.len() == i,
            paths_sorted(texts(r@)),
            texts(r@).to_multiset() == all.take(i as int).to_multiset(),
        decreases list.len() - i,
    {
        insert_sorted(&mut r, list[i].clone());
        proof {
            broadcast use vstd::seq_lib::to_multiset_build;

            assert(all.take(i + 1) =~= all.take(i as int).push(all[i as int]));
        }
        i = i + 1;
    }
    assert(all.take(i as int) =~= all);
    r
}

/// Paths are ordered by the first component in which they differ: a path comes before all
/// that lie below it; of two components the root comes first, then a leading `.`, then
/// `..`, then names; and names go by the first character in which they differ, a name
/// before all that it begins.
pub proof fn law_order_by_first_difference(a: Seq<char>, b: Seq<char>, k: int, m: int)
    requires
        0 <= k <= components(a).len(),
        k < components(b).len(),
        forall|i: int| 0 <= i < k ==> #[trigger] components(a)[i] == components(b)[i],
    ensures
        k == components(a).len() ==> path_before(a, b),
        k < components(a).len() && components(a)[k] != components(b)[k] ==> {
            let x = components(a)[k];
            let y = components(b)[k];
            let x_named = x != seq!['/'] && x != seq!['.'] && x != seq!['.', '.'];
            let y_named = y != seq!['/'] && y != seq!['.'] && y != seq!['.', '.'];
            &&& x == seq!['/'] ==> path_before(a, b)
            &&& x == seq!['.'] && y != seq!['/'] ==> path_before(a, b)
            &&& x == seq!['.', '.'] && y_named ==> path_before(a, b)
            &&& x_named && y_named && 0 <= m <= x.len() && m <= y.len() && x.take(m) == y.take(m)
                ==> {
                &&& m == x.len() ==> path_before(a, b)
                &&& m < x.len() && m < y.len() && x[m] != y[m] ==> (path_before(a, b)
                    <==> (x[m] as int) < (y[m] as int))
            }
        },
{
    lemma_parts_after_prefix(components(a), components(b), k);
    if k < components(a).len() && components(a)[k] != components(b)[k] {
        let x = components(a)[k];
        let y = components(b)[k];
        assert(seq!['/'][0] == '/' && seq!['.'][0] == '.');
        assert(seq!['.'].len() == 1 && seq!['.', '.'].len() == 2);
        if 0 <= m <= x.len() && m <= y.len() && x.take(m) == y.take(m) {
            lemma_chars_after_prefix(x, y, m);
            if m == x.len() && m == y.len() {
                assert(x.take(m) =~= x && y.take(m) =~= y);
            }
        }
    }
}

/// What two sequences of components have in common at the start does not decide.
proof fn lemma_parts_after_prefix(a: Seq<Seq<char>>, b: Seq<Seq<char>>, k: int)
    requires
        0 <= k <= a.len(),
        k < b.len(),
        forall|i: int| 0 <= i < k ==> #[trigger] a[i] == b[i],
    ensures
        k == a.len() ==> parts_before(a, b),
        k < a.len() && a[k] != b[k] ==> parts_before(a, b) == part_before(a[k], b[k]),
    decreases k,
{
    if k > 0 {
        assert(a[0] == b[0]);
        let ra = a.skip(1);
        let rb = b.skip(1);
        assert forall|i: int| 0 <= i < k - 1 implies #[trigger] ra[i] == rb[i] by {
            assert(a[i + 1] == b[i + 1]);
        }
        lemma_parts_after_prefix(ra, rb, k - 1);
    }
}

/// What two texts have in common at the start does not decide.
proof fn lemma_chars_after_prefix(a: Seq<char>, b: Seq<char>, m: int)
    requires
        0 <= m <= a.len(),
        m <= b.len(),
        a.take(m) == b.take(m),
    ensures
        m == a.len() && m < b.len() ==> chars_before(a, b),
        m < a.len() && m < b.len() && a[m] != b[m] ==> chars_before(a, b) == (a[m] < b[m]),
    decreases m,
{
    if m > 0 {
        assert(a.take(m)[0] == a[0] && b.take(m)[0] == b[0]);
        let ra = a.skip(1);
        let rb = b.skip(1);
        assert(ra.take(m - 1) =~= a.take(m).skip(1));
        assert(rb.take(m - 1) =~= b.take(m).skip(1));
        lemma_chars_after_prefix(ra, rb, m - 1);
    }
}

} // verus!
