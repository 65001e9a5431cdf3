//! Sorting by a whole number, largest first. Items with equal numbers keep their order.

use vstd::prelude::*;

verus! {

/// Whether the items stand largest first.
pub open spec fn descending<T>(s: Seq<T>, key: spec_fn(T) -> int) -> bool {
    forall|i: int, j: int| 0 <= i < j < s.len() ==> key(#[trigger] s[i]) >= key(#[trigger] s[j])
}

/// Picks the items whose number is `k`.
pub open spec fn has_key<T>(key: spec_fn(T) -> int, k: int) -> spec_fn(T) -> bool {
    |x: T| key(x) == k
}

/// The items whose number is `k`, in their order.
pub open spec fn class_of<T>(s: Seq<T>, key: spec_fn(T) -> int, k: int) -> Seq<T> {
    s.filter(has_key(key, k))
}

/// Whether `r` holds the items of `s`, largest first, and items with equal numbers in
/// the order that they have in `s`.
pub open spec fn sorts<T>(s: Seq<T>, r: Seq<T>, key: spec_fn(T) -> int) -> bool {
    &&& descending(r, key)
    &&& forall|k: int| #[trigger] class_of(r, key, k) == class_of(s, key, k)
}

/// Filtering after an item was put in: where no later item passes the filter, it comes last.
proof fn lemma_filter_insert<T>(s: Seq<T>, at: int, x: T, keep: spec_fn(T) -> bool)
    requires
        0 <= at <= s.len(),
        keep(x) ==> forall|j: int| at <= j < s.len() ==> !keep(#[trigger] s[j]),
    ensures
        s.insert(at, x).filter(keep) == if keep(x) {
            s.filter(keep).push(x)
        } else {
            s.filter(keep)
        },
    decreases s.len(),
{
    let r = s.insert(at, x);
    if at == s.len() {
        assert(r =~= s.push(x));
        s.lemma_filter_push(x, keep);
    } else {
        let init = s.drop_last();
        assert forall|j: int| at <= j < init.len() && keep(x) implies !keep(
            #[trigger] init[j],
        ) by {
            assert(init[j] == s[j]);
        }
        lemma_filter_insert(init, at, x, keep);
        assert(r =~= init.insert(at, x).push(s.last()));
        assert(s =~= init.push(s.last()));
        init.insert(at, x).lemma_filter_push(s.last(), keep);
        init.lemma_filter_push(s.last(), keep);
        assert(keep(x) ==> !keep(s[s.len() - 1]));
    }
}

/// Sorts the items by `keys`, their numbers, largest first.
#[verifier::rlimit(40)]
pub(crate) fn sort_descending<T>(
    items: Vec<T>,
    keys: Vec<i128>,
    Ghost(key): Ghost<spec_fn(T) -> int>,
) -> (r: Vec<T>)
    requires
        keys.len() == items.len(),
        forall|i: int| 0 <= i < items.len() ==> #[trigger] keys[i] == key(items[i]),
    ensures
        sorts(items@, r@, key),
        r@.to_multiset() == items@.to_multiset(),
        r.len() == items.len(),
{
    let mut rest = items;
    let mut sorted: Vec<T> = Vec::new();
    let mut sorted_keys: Vec<i128> = Vec::new();
    let mut i: usize = 0;
    let ghost all = items@;
    assert(all.skip(0) =~= all);
    assert forall|k: int| #[trigger] class_of(sorted@, key, k) == class_of(all.take(0), key, k) by {
        assert(sorted@ =~= all.take(0));
    }
    assert(sorted@ =~= all.take(0));
    while i < keys.len()
        invariant
            i <= keys.len(),
            keys.len() == all.len(),
            forall|j: int| 0 <= j < all.len() ==> #[trigger] keys[j] == key(all[j]),
            rest@ == all.skip(i as int),
            sorted.len() == i,
            sorted_keys.len() == i,
            forall|j: int| 0 <= j < i ==> #[trigger] sorted_keys[j] == key(sorted[j]),
            descending(sorted@, key),
            forall|k: int| #[trigger]
                class_of(sorted@, key, k) == class_of(all.take(i as int), key, k),
            sorted@.to_multiset() == all.take(i as int).to_multiset(),
        decreases keys.len() - i,
    {
        let x = rest.remove(0);
        assert(rest@ =~= all.skip(i + 1));
        assert(x == all[i as int]);
        let k: i128 = keys[i];
        let mut at: usize = sorted.len();
        while at > 0 && sorted_keys[at - 1] < k
            invariant
                at <= sorted.len(),
                sorted.len() == sorted_keys.len(),
                forall|j: int|
                    0 <= j < sorted.len() ==> #[trigger] sorted_keys[j] == key(sorted[j]),
                forall|j: int| at <= j < sorted.len() ==> key(#[trigger] sorted[j]) < k,
            decreases at,
        {
            assert(sorted_keys[at - 1] == key(sorted[at - 1]));
            at = at - 1;
        }
        let ghost before = sorted@;
        let ghost taken = all.take(i as int);
        assert(at > 0 ==> sorted_keys[at - 1] == key(sorted[at - 1]));
        sorted.insert(at, x);
        sorted_keys.insert(at, k);
        proof {
            assert(all.take(i + 1) =~= taken.push(x));
            assert forall|c: int| #[trigger] class_of(sorted@, key, c) == class_of(
                all.take(i + 1),
                key,
                c,
            ) by {
                let keep = has_key(key, c);
                lemma_filter_insert(before, at as int, x, keep);
                taken.lemma_filter_push(x, keep);
                assert(class_of(before, key, c) == class_of(taken, key, c));
            }
            assert(descending(sorted@, key)) by {
                assert forall|a: int, b: int| 0 <= a < b < sorted.len() implies key(
                    #[trigger] sorted@[a],
                ) >= key(#[trigger] sorted@[b]) by {
                    let at = at as int;
                    let pa = if a < at {
                        a
                    } else {
                        a - 1
                    };
                    let pb = if b < at {
                        b
                    } else {
                        b - 1
                    };
                    if a == at {
                        assert(key(before[pb]) < k);
                    } else if b == at {
                        assert(key(before[pa]) >= key(before[at - 1]));
                    } else {
                        assert(key(before[pa]) >= key(before[pb]));
                    }
                }
            }
            assert forall|j: int| 0 <= j < i + 1 implies #[trigger] sorted_keys[j] == key(
                sorted[j],
            ) by {}
            broadcast use vstd::seq_lib::to_multiset_insert, vstd::seq_lib::to_multiset_build;

        }
        i = i + 1;
    }
    assert(all.take(i as int) =~= all);
    sorted
}

/// Sorting has one result: two sequences that sort the same items are equal.
pub proof fn law_sorted_unique<T>(s: Seq<T>, a: Seq<T>, b: Seq<T>, key: spec_fn(T) -> int)
    requires
        sorts(s, a, key),
        sorts(s, b, key),
    ensures
        a == b,
{
    assert forall|k: int| #[trigger] class_of(a, key, k) == class_of(b, key, k) by {}
    lemma_same_classes(a, b, key);
}

proof fn lemma_same_classes<T>(a: Seq<T>, b: Seq<T>, key: spec_fn(T) -> int)
    requires
        descending(a, key),
        descending(b, key),
        forall|k: int| #[trigger] class_of(a, key, k) == class_of(b, key, k),
    ensures
        a == b,
    decreases a.len(),
{
    if a.len() == 0 {
        if b.len() > 0 {
            let k = key(b.last());
            let keep = has_key(key, k);
            b.lemma_filter_contains(keep, b.len() - 1);
            assert(class_of(a, key, k) =~= seq![]) by {
                a.lemma_filter_len(keep);
            }
            assert(class_of(b, key, k).contains(b.last()));
        }
        assert(a =~= b);
    } else {
        let k = key(a.last());
        let keep = has_key(key, k);
        a.lemma_filter_contains(keep, a.len() - 1);
        assert(class_of(a, key, k).contains(a.last()));
        assert(class_of(b, key, k).contains(a.last()));
        if b.len() == 0 {
            b.lemma_filter_len(keep);
        }
        // The smallest number of each side occurs on the other side.
        lemma_filter_member(b, keep, a.last());
        let m = key(b.last());
        let keep_m = has_key(key, m);
        b.lemma_filter_contains(keep_m, b.len() - 1);
        assert(class_of(a, key, m).contains(b.last()));
        lemma_filter_member(a, keep_m, b.last());
        assert(k == m);
        let ia = a.drop_last();
        let ib = b.drop_last();
        assert(a =~= ia.push(a.last()));
        assert(b =~= ib.push(b.last()));
        ia.lemma_filter_push(a.last(), keep);
        ib.lemma_filter_push(b.last(), keep);
        assert(class_of(a, key, k).last() == a.last());
        assert(class_of(b, key, k).last() == b.last());
        assert(a.last() == b.last());
        assert forall|c: int| #[trigger] class_of(ia, key, c) == class_of(ib, key, c) by {
            let kc = has_key(key, c);
            ia.lemma_filter_push(a.last(), kc);
            ib.lemma_filter_push(b.last(), kc);
            assert(class_of(a, key, c) == class_of(b, key, c));
            if c == k {
                assert(class_of(ia, key, c) =~= class_of(a, key, c).drop_last());
                assert(class_of(ib, key, c) =~= class_of(b, key, c).drop_last());
            }
        }
        assert forall|i: int, j: int| 0 <= i < j < ia.len() implies key(#[trigger] ia[i]) >= key(
            #[trigger] ia[j],
        ) by {
            assert(key(a[i]) >= key(a[j]));
        }
        assert forall|i: int, j: int| 0 <= i < j < ib.len() implies key(#[trigger] ib[i]) >= key(
            #[trigger] ib[j],
        ) by {
            assert(key(b[i]) >= key(b[j]));
        }
        lemma_same_classes(ia, ib, key);
    }
}

/// What a filter passes on is an element of the sequence.
proof fn lemma_filter_member<T>(s: Seq<T>, keep: spec_fn(T) -> bool, x: T)
    requires
        s.filter(keep).contains(x),
    ensures
        exists|i: int| 0 <= i < s.len() && #[trigger] s[i] == x && keep(x),
{
    s.lemma_filter_contains_rev(keep, x);
    let i = choose|i: int| 0 <= i < s.filter(keep).len() && s.filter(keep)[i] == x;
    s.lemma_filter_pred(keep, i);
    assert(s.contains(x));
}

/// The items, largest first; items with equal numbers keep their order.
pub open spec fn sorted_by<T>(s: Seq<T>, key: spec_fn(T) -> int) -> Seq<T> {
    choose|r: Seq<T>| sorts(s, r, key)
}

/// Where an item with the number `k` goes among items that stand largest first.
proof fn place_for<T>(s: Seq<T>, key: spec_fn(T) -> int, k: int) -> (at: int)
    requires
        descending(s, key),
    ensures
        0 <= at <= s.len(),
        forall|j: int| 0 <= j < at ==> key(#[trigger] s[j]) >= k,
        forall|j: int| at <= j < s.len() ==> key(#[trigger] s[j]) < k,
    decreases s.len(),
{
    if s.len() == 0 || key(s.last()) >= k {
        assert forall|j: int| 0 <= j < s.len() implies key(#[trigger] s[j]) >= k by {
            if j < s.len() - 1 {
                assert(key(s[j]) >= key(s[s.len() - 1]));
            }
        }
        s.len() as int
    } else {
        let init = s.drop_last();
        assert forall|i: int, j: int| 0 <= i < j < init.len() implies key(#[trigger] init[i])
            >= key(#[trigger] init[j]) by {
            assert(key(s[i]) >= key(s[j]));
        }
        let at = place_for(init, key, k);
        assert forall|j: int| 0 <= j < at implies key(#[trigger] s[j]) >= k by {
            assert(key(init[j]) >= k);
        }
        assert forall|j: int| at <= j < s.len() implies key(#[trigger] s[j]) < k by {
            if j < init.len() {
                assert(key(init[j]) < k);
            }
        }
        at
    }
}

/// All items can be sorted.
proof fn sorting_of<T>(s: Seq<T>, key: spec_fn(T) -> int) -> (r: Seq<T>)
    ensures
        sorts(s, r, key),
    decreases s.len(),
{
    if s.len() == 0 {
        s
    } else {
        let init = s.drop_last();
        let x = s.last();
        let before = sorting_of(init, key);
        let at = place_for(before, key, key(x));
        let r = before.insert(at, x);
        assert(s =~= init.push(x));
        assert forall|k: int| #[trigger] class_of(r, key, k) == class_of(s, key, k) by {
            lemma_filter_insert(before, at, x, has_key(key, k));
            init.lemma_filter_push(x, has_key(key, k));
            assert(class_of(before, key, k) == class_of(init, key, k));
        }
        assert forall|i: int, j: int| 0 <= i < j < r.len() implies key(#[trigger] r[i]) >= key(
            #[trigger] r[j],
        ) by {
            let pi = if i < at {
                i
            } else {
                i - 1
            };
            let pj = if j < at {
                j
            } else {
                j - 1
            };
            if i == at {
                assert(key(before[pj]) < key(x));
            } else if j == at {
                assert(key(before[pi]) >= key(x));
            } else {
                assert(key(before[pi]) >= key(before[pj]));
            }
        }
        r
    }
}

/// Sorting puts the items largest first, and keeps items with equal numbers in order.
pub proof fn law_sorted_by<T>(s: Seq<T>, key: spec_fn(T) -> int)
    ensures
        sorts(s, sorted_by(s, key), key),
{
    let r = sorting_of(s, key);
    assert(sorts(s, r, key));
}

/// What sorts the items is the sorted sequence.
pub proof fn lemma_sorted_by<T>(s: Seq<T>, r: Seq<T>, key: spec_fn(T) -> int)
    requires
        sorts(s, r, key),
    ensures
        sorted_by(s, key) == r,
{
    law_sorted_by(s, key);
    law_sorted_unique(s, r, sorted_by(s, key), key);
}

/// Picking from what items stand for is the same as picking from the items.
proof fn lemma_filter_map<T, U>(
    s: Seq<T>,
    f: spec_fn(T) -> U,
    keep: spec_fn(U) -> bool,
    keep_items: spec_fn(T) -> bool,
)
    requires
        forall|x: T| #[trigger] keep_items(x) == keep(f(x)),
    ensures
        s.map_values(f).filter(keep) == s.filter(keep_items).map_values(f),
    decreases s.len(),
{
    if s.len() == 0 {
        assert(s.map_values(f) =~= seq![]);
        assert(s.filter(keep_items).map_values(f) =~= seq![]);
    } else {
        let init = s.drop_last();
        lemma_filter_map(init, f, keep, keep_items);
        assert(s =~= init.push(s.last()));
        assert(s.map_values(f) =~= init.map_values(f).push(f(s.last())));
        init.lemma_filter_push(s.last(), keep_items);
        init.map_values(f).lemma_filter_push(f(s.last()), keep);
        assert(keep_items(s.last()) == keep(f(s.last())));
        if keep_items(s.last()) {
            assert(init.filter(keep_items).push(s.last()).map_values(f) =~= init.filter(
                keep_items,
            ).map_values(f).push(f(s.last())));
        }
    }
}

/// Sorting items also sorts what they stand for, where the numbers are the same.
pub proof fn lemma_sorts_map<T, U>(
    s: Seq<T>,
    r: Seq<T>,
    key: spec_fn(T) -> int,
    f: spec_fn(T) -> U,
    key_of: spec_fn(U) -> int,
)
    requires
        sorts(s, r, key),
        forall|x: T| #[trigger] key(x) == key_of(f(x)),
    ensures
        sorts(s.map_values(f), r.map_values(f), key_of),
{
    let sm = s.map_values(f);
    let rm = r.map_values(f);
    assert forall|i: int, j: int| 0 <= i < j < rm.len() implies key_of(#[trigger] rm[i])
        >= key_of(#[trigger] rm[j]) by {
        assert(key(r[i]) >= key(r[j]));
    }
    assert forall|k: int| #[trigger] class_of(rm, key_of, k) == class_of(sm, key_of, k) by {
        lemma_filter_map(s, f, has_key(key_of, k), has_key(key, k));
        lemma_filter_map(r, f, has_key(key_of, k), has_key(key, k));
        assert(class_of(r, key, k) == class_of(s, key, k));
    }
}

/// Sorting neither loses nor adds nor repeats an item: each is there as often as before.
pub proof fn law_sorting_keeps_the_items<T>(s: Seq<T>, r: Seq<T>, key: spec_fn(T) -> int, x: T)
    requires
        sorts(s, r, key),
    ensures
        r.to_multiset().count(x) == s.to_multiset().count(x),
        r.contains(x) <==> s.contains(x),
        r.len() == s.len(),
{
    broadcast use vstd::seq_lib::group_to_multiset_ensures;

    assert forall|y: T| #[trigger] r.to_multiset().count(y) == s.to_multiset().count(y) by {
        let keep = has_key(key, key(y));
        assert(class_of(r, key, key(y)) == class_of(s, key, key(y)));
        lemma_count_in_class(s, keep, y);
        lemma_count_in_class(r, keep, y);
    }
    assert(r.to_multiset() =~= s.to_multiset());
    assert(r.len() == r.to_multiset().len());
    assert(s.len() == s.to_multiset().len());
    assert(r.contains(x) <==> r.to_multiset().count(x) > 0);
    assert(s.contains(x) <==> s.to_multiset().count(x) > 0);
}

/// A filter that an item passes keeps all its occurrences.
proof fn lemma_count_in_class<T>(s: Seq<T>, keep: spec_fn(T) -> bool, x: T)
    requires
        keep(x),
    ensures
        s.filter(keep).to_multiset().count(x) == s.to_multiset().count(x),
    decreases s.len(),
{
    broadcast use vstd::seq_lib::group_to_multiset_ensures;

    reveal(Seq::filter);
    if s.len() > 0 {
        let init = s.drop_last();
        lemma_count_in_class(init, keep, x);
        assert(s =~= init.push(s.last()));
    } else {
        assert(s.filter(keep) =~= s);
    }
}

/// Items with equal numbers keep their order: of two, the one that stands first in `s`
/// stands first in what sorts it.
pub proof fn law_sorting_is_stable<T>(s: Seq<T>, r: Seq<T>, key: spec_fn(T) -> int, k: int)
    requires
        sorts(s, r, key),
    ensures
        r.filter(|x: T| key(x) == k) == s.filter(|x: T| key(x) == k),
        forall|i: int, j: int|
            0 <= i < j < r.len() ==> key(#[trigger] r[i]) >= key(#[trigger] r[j]),
{
    assert(class_of(r, key, k) == class_of(s, key, k));
    assert(has_key(key, k) =~= (|x: T| key(x) == k));
}

} // verus!
