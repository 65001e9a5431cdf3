//! File paths, compared by their components.
//!
//! A path is a text whose parts are separated by `/`. Two paths are the same where
//! their components are: repeated separators, a separator at the end and `.` parts
//! other than a leading one make no difference.

use vstd::prelude::*;
use vstd::string::*;

use crate::text::{
    first_of, law_split_around, law_split_is_undone, lemma_first_of_unique, same_text, split,
    split_at_char, texts, to_chars,
};

verus! {

/// Whether a path starts at the root.
pub open spec fn is_absolute(p: Seq<char>) -> bool {
    p.len() > 0 && p[0] == '/'
}

/// Whether a part between two separators is a component of its own.
pub open spec fn is_named_part(part: Seq<char>) -> bool {
    part.len() > 0 && part != seq!['.']
}

/// The component that stands before the named parts: the root, or a leading `.`.
pub open spec fn leading_component(p: Seq<char>) -> Seq<Seq<char>> {
    if is_absolute(p) {
        seq![seq!['/']]
    } else if split_at_char(p, '/')[0] == seq!['.'] {
        seq![seq!['.']]
    } else {
        seq![]
    }
}

/// The components of a path.
pub open spec fn components(p: Seq<char>) -> Seq<Seq<char>> {
    leading_component(p) + split_at_char(p, '/').filter(|part: Seq<char>| is_named_part(part))
}

/// Whether two texts name the same path.
pub open spec fn same_path(a: Seq<char>, b: Seq<char>) -> bool {
    components(a) == components(b)
}

/// Whether `p` is `base` or lies below it.
pub open spec fn path_starts_with(p: Seq<char>, base: Seq<char>) -> bool {
    components(base).is_prefix_of(components(p))
}

/// Whether some path of `list` is the same as `p`.
pub open spec fn lists_path(list: Seq<Seq<char>>, p: Seq<char>) -> bool {
    exists|i: int| 0 <= i < list.len() && same_path(#[trigger] list[i], p)
}

/// Whether `p` is, or lies below, some path of `roots`.
pub open spec fn under_some(roots: Seq<Seq<char>>, p: Seq<char>) -> bool {
    exists|i: int| 0 <= i < roots.len() && path_starts_with(p, #[trigger] roots[i])
}

/// `base` extended by `child`; an absolute `child` replaces it.
pub open spec fn joined_path(base: Seq<char>, child: Seq<char>) -> Seq<char> {
    if is_absolute(child) {
        child
    } else if base.len() == 0 || base.last() == '/' {
        base + child
    } else {
        base + seq!['/'] + child
    }
}

/// Extends `base` by `child`.
pub fn join_path(base: &str, child: &str) -> (r: String)
    ensures
        r@ == joined_path(base@, child@),
{
    let b = to_chars(base);
    let c = to_chars(child);
    if c.len() > 0 && c[0] == '/' {
        child.to_owned()
    } else {
        let mut r = base.to_owned();
        if b.len() > 0 && b[b.len() - 1] != '/' {
            r.push('/');
            assert(r@ =~= base@ + seq!['/']);
        }
        r.append(child);
        r
    }
}

/// The components of a path, as strings.
pub fn path_parts(p: &str) -> (r: Vec<String>)
    ensures
        texts(r@) == components(p@),
{
    let v = to_chars(p);
    let parts = split(p, '/');
    let mut r: Vec<String> = Vec::new();
    proof {
        reveal_strlit("/");
        reveal_strlit(".");
        assert("/"@ =~= seq!['/']);
        assert("."@ =~= seq!['.']);
    }
    if v.len() > 0 && v[0] == '/' {
        r.push("/".to_owned());
    } else if same_text(parts[0].as_str(), ".") {
        assert(texts(parts@)[0] == parts@[0]@);
        r.push(".".to_owned());
    } else {
        assert(texts(parts@)[0] == parts@[0]@);
    }
    assert(texts(r@) =~= leading_component(p@));
    let ghost head = leading_component(p@);
    let ghost all = texts(parts@);
    let ghost named = |part: Seq<char>| is_named_part(part);
    let mut i: usize = 0;
    assert(all.take(0).filter(named) =~= seq![]);
    while i < parts.len()
        invariant
            i <= parts.len(),
            "."@ == seq!['.'],
            all == texts(parts@),
            named == (|part: Seq<char>| is_named_part(part)),
            texts(r@) =~= head + all.take(i as int).filter(named),
        decreases parts.len() - i,
    {
        let part = parts[i].clone();
        let ghost before = r@;
        assert(all.take(i + 1) =~= all.take(i as int).push(all[i as int]));
        proof {
            all.take(i as int).lemma_filter_push(all[i as int], named);
        }
        if !part.as_str().is_empty() && !same_text(part.as_str(), ".") {
            r.push(part);
            assert(texts(r@) =~= texts(before).push(part@));
        }
        i = i + 1;
    }
    assert(all.take(i as int) =~= all);
    r
}

/// Whether the first `n` strings of two lists are the same.
fn same_first(a: &Vec<String>, b: &Vec<String>, n: usize) -> (r: bool)
    requires
        n <= a.len(),
        n <= b.len(),
    ensures
        r == (texts(a@).take(n as int) == texts(b@).take(n as int)),
{
    let mut i: usize = 0;
    while i < n
        invariant
            i <= n <= a.len(),
            n <= b.len(),
            forall|j: int| 0 <= j < i ==> texts(a@)[j] == texts(b@)[j],
        decreases n - i,
    {
        if !same_text(a[i].as_str(), b[i].as_str()) {
            assert(texts(a@).take(n as int)[i as int] != texts(b@).take(n as int)[i as int]);
            return false;
        }
        assert(texts(a@)[i as int] == texts(b@)[i as int]);
        i = i + 1;
    }
    assert(texts(a@).take(n as int) =~= texts(b@).take(n as int));
    true
}

/// Decides [`same_path`].
pub fn is_same_path(a: &str, b: &str) -> (r: bool)
    ensures
        r == same_path(a@, b@),
{
    let x = path_parts(a);
    let y = path_parts(b);
    assert(texts(x@).take(x.len() as int) =~= texts(x@));
    assert(texts(y@).take(y.len() as int) =~= texts(y@));
    x.len() == y.len() && same_first(&x, &y, x.len())
}

/// Decides [`path_starts_with`].
pub fn starts_with_path(p: &str, base: &str) -> (r: bool)
    ensures
        r == path_starts_with(p@, base@),
{
    let x = path_parts(p);
    let y = path_parts(base);
    assert(texts(y@).take(y.len() as int) =~= texts(y@));
    y.len() <= x.len() && same_first(&x, &y, y.len())
}

/// Decides [`lists_path`].
pub fn contains_path(list: &Vec<String>, p: &str) -> (r: bool)
    ensures
        r == lists_path(texts(list@), p@),
{
    let mut i: usize = 0;
    while i < list.len()
        invariant
            i <= list.len(),
            forall|j: int| 0 <= j < i ==> !same_path(#[trigger] texts(list@)[j], p@),
        decreases list.len() - i,
    {
        if is_same_path(list[i].as_str(), p) {
            assert(same_path(texts(list@)[i as int], p@));
            return true;
        }
        i = i + 1;
    }
    false
}

/// Decides [`under_some`].
pub fn is_under_some(roots: &Vec<String>, p: &str) -> (r: bool)
    ensures
        r == under_some(texts(roots@), p@),
{
    let mut i: usize = 0;
    while i < roots.len()
        invariant
            i <= roots.len(),
            forall|j: int| 0 <= j < i ==> !path_starts_with(p@, #[trigger] texts(roots@)[j]),
        decreases roots.len() - i,
    {
        if starts_with_path(p, roots[i].as_str()) {
            assert(path_starts_with(p@, texts(roots@)[i as int]));
            return true;
        }
        i = i + 1;
    }
    false
}

/// A path that is the same as a root lies under that root.
pub proof fn law_same_path_is_under(p: Seq<char>, root: Seq<char>)
    requires
        same_path(p, root),
    ensures
        path_starts_with(p, root),
{
}

/// Joining goes below: the components of a path that was extended by a relative one, which
/// does not start at `.`, are those of the first and then those of the second.
pub proof fn law_join_appends(base: Seq<char>, child: Seq<char>)
    requires
        base.len() > 0,
        child.len() > 0,
        child[0] != '/',
        split_at_char(child, '/')[0] != seq!['.'],
    ensures
        components(joined_path(base, child)) == components(base) + components(child),
        components(base).is_prefix_of(components(joined_path(base, child))),
        path_starts_with(joined_path(base, child), base),
{
    let named = |part: Seq<char>| is_named_part(part);
    let whole = joined_path(base, child);
    if base.last() == '/' {
        let front = base.drop_last();
        let none = Seq::<char>::empty();
        assert(base =~= front + seq!['/'] + none);
        assert(whole =~= front + seq!['/'] + child);
        law_split_around(front, '/', none);
        law_split_around(front, '/', child);
        assert(split_at_char(none, '/') =~= seq![none]);
        Seq::filter_distributes_over_add(split_at_char(front, '/'), seq![none], named);
        Seq::filter_distributes_over_add(
            split_at_char(front, '/'),
            split_at_char(child, '/'),
            named,
        );
        lemma_part_left_out(none);
        law_split_is_undone(front, '/');
        assert(whole[0] == base[0]);
        assert(split_at_char(whole, '/')[0] == split_at_char(front, '/')[0]);
        assert(split_at_char(base, '/')[0] == split_at_char(front, '/')[0]);
        assert(leading_component(whole) == leading_component(base));
    } else {
        law_split_around(base, '/', child);
        Seq::filter_distributes_over_add(
            split_at_char(base, '/'),
            split_at_char(child, '/'),
            named,
        );
        law_split_is_undone(base, '/');
        assert(whole[0] == base[0]);
        assert(split_at_char(whole, '/')[0] == split_at_char(base, '/')[0]);
        assert(leading_component(whole) == leading_component(base));
    }
    assert(leading_component(child) =~= seq![]);
    assert(components(whole) =~= components(base) + components(child));
}

/// A part that is no component of its own is left out.
proof fn lemma_part_left_out(part: Seq<char>)
    requires
        !is_named_part(part),
    ensures
        seq![part].filter(|p: Seq<char>| is_named_part(p)) == Seq::<Seq<char>>::empty(),
{
    let named = |p: Seq<char>| is_named_part(p);
    let kept = seq![part].filter(named);
    if kept.len() > 0 {
        assert(kept.contains(kept[0]));
        seq![part].lemma_filter_contains_rev(named, kept[0]);
    }
}

/// A separator at the end, a repeated separator and a `.` part between two separators make
/// no difference; a leading separator does.
pub proof fn law_separators_do_not_matter(a: Seq<char>, b: Seq<char>)
    requires
        a.len() > 0,
    ensures
        same_path(a + seq!['/'], a),
        same_path(a + seq!['/', '/'] + b, a + seq!['/'] + b),
        same_path(a + seq!['/', '.', '/'] + b, a + seq!['/'] + b),
        a[0] != '/' ==> !same_path(seq!['/'] + a, a),
{
    let named = |part: Seq<char>| is_named_part(part);
    let none = Seq::<char>::empty();
    let dot = seq!['.'];
    let pa = split_at_char(a, '/');
    let pb = split_at_char(b, '/');
    law_split_is_undone(a, '/');
    assert(split_at_char(none, '/') =~= seq![none]);
    assert(first_of(dot, '/') == 1) by {
        lemma_first_of_unique(dot, '/', 1);
    }
    assert(split_at_char(dot, '/') =~= seq![dot]);
    lemma_part_left_out(none);
    lemma_part_left_out(dot);

    let ended = a + seq!['/'];
    assert(ended =~= a + seq!['/'] + none);
    law_split_around(a, '/', none);
    Seq::filter_distributes_over_add(pa, seq![none], named);
    assert(split_at_char(ended, '/')[0] == pa[0]);
    assert(ended[0] == a[0]);
    assert(components(ended) =~= components(a));

    let plain = a + seq!['/'] + b;
    law_split_around(a, '/', b);
    Seq::filter_distributes_over_add(pa, pb, named);
    assert(split_at_char(plain, '/')[0] == pa[0]);
    assert(plain[0] == a[0]);

    let twice = a + seq!['/', '/'] + b;
    assert(twice =~= a + seq!['/'] + (none + seq!['/'] + b));
    law_split_around(none, '/', b);
    law_split_around(a, '/', none + seq!['/'] + b);
    Seq::filter_distributes_over_add(seq![none], pb, named);
    Seq::filter_distributes_over_add(pa, seq![none] + pb, named);
    assert(split_at_char(twice, '/')[0] == pa[0]);
    assert(twice[0] == a[0]);
    assert(components(twice) =~= components(plain));

    let dotted = a + seq!['/', '.', '/'] + b;
    assert(dotted =~= a + seq!['/'] + (dot + seq!['/'] + b));
    law_split_around(dot, '/', b);
    law_split_around(a, '/', dot + seq!['/'] + b);
    Seq::filter_distributes_over_add(seq![dot], pb, named);
    Seq::filter_distributes_over_add(pa, seq![dot] + pb, named);
    assert(split_at_char(dotted, '/')[0] == pa[0]);
    assert(dotted[0] == a[0]);
    assert(components(dotted) =~= components(plain));

    if a[0] != '/' {
        let rooted = seq!['/'] + a;
        assert(components(rooted)[0] == seq!['/']);
        if components(a) == components(rooted) {
            let c = components(a)[0];
            assert(c == seq!['/']);
            assert(c[0] == '/');
            if pa[0] == dot {
                assert(c == dot);
                assert(dot[0] == '.');
            } else {
                let kept = pa.filter(named);
                assert(components(a) =~= kept);
                assert(kept.contains(c)) by {
                    assert(kept[0] == c);
                }
                pa.lemma_filter_contains_rev(named, c);
                let i = choose|i: int| 0 <= i < pa.len() && pa[i] == c;
                assert(pa[i].contains('/'));
            }
        }
    }
}

/// A name without separators is its own only component, `..` among the names; the root and
/// a leading `.` are components of their own, and a text without any names nothing.
pub proof fn law_names_are_components(name: Seq<char>)
    requires
        !name.contains('/'),
    ensures
        name.len() > 0 ==> components(name) == seq![name],
        components(seq!['/'] + name) == if name.len() == 0 || name == seq!['.'] {
            seq![seq!['/']]
        } else {
            seq![seq!['/'], name]
        },
        name.len() == 0 ==> components(name) == Seq::<Seq<char>>::empty(),
{
    let named = |part: Seq<char>| is_named_part(part);
    let none = Seq::<char>::empty();
    assert forall|i: int| 0 <= i < name.len() implies name[i] != '/' by {
        assert(name.contains(name[i]));
    }
    lemma_first_of_unique(name, '/', name.len() as int);
    assert(split_at_char(name, '/') =~= seq![name]);
    assert(split_at_char(none, '/') =~= seq![none]);
    law_split_around(none, '/', name);
    let rooted = seq!['/'] + name;
    assert(rooted =~= none + seq!['/'] + name);
    Seq::filter_distributes_over_add(seq![none], seq![name], named);
    lemma_part_left_out(none);
    if is_named_part(name) {
        Seq::<Seq<char>>::empty().lemma_filter_push(name, named);
        assert(Seq::<Seq<char>>::empty().push(name) =~= seq![name]);
        assert(Seq::<Seq<char>>::empty().filter(named) =~= seq![]) by {
            Seq::<Seq<char>>::empty().lemma_filter_len(named);
        }
        assert(seq![name].filter(named) =~= seq![name]);
    } else {
        lemma_part_left_out(name);
    }
    assert(components(rooted) =~= if name.len() == 0 || name == seq!['.'] {
        seq![seq!['/']]
    } else {
        seq![seq!['/'], name]
    });
    if name.len() > 0 {
        assert(components(name) =~= seq![name]);
    } else {
        assert(seq!['.'].len() == 1);
        assert(components(name) =~= Seq::<Seq<char>>::empty());
    }
}

} // verus!
