//! Text: characters, lines, separators and columns.
//!
//! A `String` or `&str` is modelled by the sequence of its characters.

use vstd::prelude::*;
use vstd::string::*;

verus! {

/// `String::push` of the standard library appends one character.
pub assume_specification[ String::push ](s: &mut String, c: char)
    ensures
        final(s)@ == old(s)@.push(c),
;

/// The texts of a sequence of strings.
pub open spec fn texts(v: Seq<String>) -> Seq<Seq<char>> {
    v.map_values(|s: String| s@)
}

/// The text of an optional string.
pub open spec fn opt_text(o: Option<String>) -> Option<Seq<char>> {
    match o {
        Some(s) => Some(s@),
        None => None,
    }
}

/// The characters of `s`, in order.
pub fn to_chars(s: &str) -> (v: Vec<char>)
    ensures
        v@ == s@,
{
    let mut v: Vec<char> = Vec::new();
    for c in it: s.chars()
        invariant
            v@ == it.seq().take(it.index()),
            it.seq() == s@,
    {
        v.push(c);
    }
    v
}

/// The string made of the characters of `v` from `from` up to, not including, `to`.
pub fn from_chars(v: &Vec<char>, from: usize, to: usize) -> (s: String)
    requires
        from <= to <= v.len(),
    ensures
        s@ == v@.subrange(from as int, to as int),
{
    let mut s = String::new();
    let mut i: usize = from;
    while i < to
        invariant
            from <= i <= to <= v.len(),
            s@ == v@.subrange(from as int, i as int),
        decreases to - i,
    {
        s.push(v[i]);
        i = i + 1;
        assert(v@.subrange(from as int, i as int) =~= v@.subrange(from as int, i - 1).push(
            v@[i - 1],
        ));
    }
    s
}

/// Two texts, one after the other.
pub fn concat(a: &str, b: &str) -> (r: String)
    ensures
        r@ == a@ + b@,
{
    let mut r = a.to_owned();
    r.append(b);
    r
}

/// A copy of a list of texts.
pub fn copy_texts(v: &Vec<String>) -> (r: Vec<String>)
    ensures
        r@ == v@,
{
    let mut r: Vec<String> = Vec::new();
    let mut i: usize = 0;
    while i < v.len()
        invariant
            i <= v.len(),
            r@ =~= v@.take(i as int),
        decreases v.len() - i,
    {
        r.push(v[i].clone());
        i = i + 1;
    }
    r
}

/// Whether two texts are equal.
pub fn same_text(a: &str, b: &str) -> (r: bool)
    ensures
        r == (a@ == b@),
{
    a.to_owned() == b.to_owned()
}

/// Whether an optional text equals another.
pub fn same_opt_text(a: &Option<String>, b: &Option<String>) -> (r: bool)
    ensures
        r == (opt_text(*a) == opt_text(*b)),
{
    match (a, b) {
        (Some(x), Some(y)) => same_text(x.as_str(), y.as_str()),
        (None, None) => true,
        _ => false,
    }
}

// ---------------------------------------------------------------------------
// White space and trimming
// ---------------------------------------------------------------------------

/// The characters with the Unicode property `White_Space`.
pub open spec fn is_white_space(c: char) -> bool {
    ||| '\u{9}' <= c <= '\u{d}'
    ||| c == '\u{20}'
    ||| c == '\u{85}'
    ||| c == '\u{a0}'
    ||| c == '\u{1680}'
    ||| '\u{2000}' <= c <= '\u{200a}'
    ||| c == '\u{2028}'
    ||| c == '\u{2029}'
    ||| c == '\u{202f}'
    ||| c == '\u{205f}'
    ||| c == '\u{3000}'
}

/// Decides [`is_white_space`].
pub fn white_space(c: char) -> (r: bool)
    ensures
        r == is_white_space(c),
{
    ('\u{9}' <= c && c <= '\u{d}') || c == '\u{20}' || c == '\u{85}' || c == '\u{a0}' || c
        == '\u{1680}' || ('\u{2000}' <= c && c <= '\u{200a}') || c == '\u{2028}' || c == '\u{2029}'
        || c == '\u{202f}' || c == '\u{205f}' || c == '\u{3000}'
}

/// `s` without its leading white space.
pub open spec fn trimmed_start(s: Seq<char>) -> Seq<char>
    decreases s.len(),
{
    if s.len() > 0 && is_white_space(s[0]) {
        trimmed_start(s.skip(1))
    } else {
        s
    }
}

/// `s` without its trailing white space.
pub open spec fn trimmed_end(s: Seq<char>) -> Seq<char>
    decreases s.len(),
{
    if s.len() > 0 && is_white_space(s.last()) {
        trimmed_end(s.drop_last())
    } else {
        s
    }
}

/// `s` without leading and trailing white space.
pub open spec fn trimmed(s: Seq<char>) -> Seq<char> {
    trimmed_end(trimmed_start(s))
}

/// Removes leading and trailing white space.
pub fn trim(s: &str) -> (r: String)
    ensures
        r@ == trimmed(s@),
{
    let v = to_chars(s);
    let mut from: usize = 0;
    assert(v@.skip(0) =~= v@);
    while from < v.len() && white_space(v[from])
        invariant
            from <= v.len(),
            trimmed_start(v@) == trimmed_start(v@.skip(from as int)),
        decreases v.len() - from,
    {
        assert(v@.skip(from as int).skip(1) =~= v@.skip(from + 1));
        from = from + 1;
    }
    let mut to: usize = v.len();
    assert(v@.skip(from as int) =~= v@.subrange(from as int, to as int));
    while from < to && white_space(v[to - 1])
        invariant
            from <= to <= v.len(),
            trimmed(v@) == trimmed_end(v@.subrange(from as int, to as int)),
        decreases to - from,
    {
        assert(v@.subrange(from as int, to as int).drop_last() =~= v@.subrange(
            from as int,
            to - 1,
        ));
        to = to - 1;
    }
    from_chars(&v, from, to)
}

/// A text without white space at either end is its own trimming.
pub proof fn lemma_trimmed_fixed(s: Seq<char>)
    requires
        s.len() > 0 ==> !is_white_space(s[0]) && !is_white_space(s.last()),
    ensures
        trimmed(s) == s,
{
}

// ---------------------------------------------------------------------------
// Separators
// ---------------------------------------------------------------------------

/// The position of the first `c` in `s`, or the length of `s` where there is none.
pub open spec fn first_of(s: Seq<char>, c: char) -> int
    decreases s.len(),
{
    if s.len() == 0 || s[0] == c {
        0
    } else {
        1 + first_of(s.skip(1), c)
    }
}

/// What [`first_of`] finds.
pub proof fn lemma_first_of(s: Seq<char>, c: char)
    ensures
        0 <= first_of(s, c) <= s.len(),
        first_of(s, c) < s.len() ==> s[first_of(s, c)] == c,
        forall|i: int| 0 <= i < first_of(s, c) ==> s[i] != c,
    decreases s.len(),
{
    if s.len() > 0 && s[0] != c {
        lemma_first_of(s.skip(1), c);
        assert forall|i: int| 0 <= i < first_of(s, c) implies s[i] != c by {
            if i > 0 {
                assert(s.skip(1)[i - 1] == s[i]);
            }
        }
    }
}

/// [`first_of`] is the only position with these properties.
pub proof fn lemma_first_of_unique(s: Seq<char>, c: char, n: int)
    requires
        0 <= n <= s.len(),
        n < s.len() ==> s[n] == c,
        forall|i: int| 0 <= i < n ==> s[i] != c,
    ensures
        first_of(s, c) == n,
{
    lemma_first_of(s, c);
}

/// Finds the first `c` at or after `from`; the length where there is none.
fn find_from(v: &Vec<char>, from: usize, c: char) -> (n: usize)
    requires
        from <= v.len(),
    ensures
        from <= n <= v.len(),
        n - from == first_of(v@.skip(from as int), c),
{
    let mut n: usize = from;
    while n < v.len() && v[n] != c
        invariant
            from <= n <= v.len(),
            forall|i: int| from <= i < n ==> v[i] != c,
        decreases v.len() - n,
    {
        n = n + 1;
    }
    proof {
        lemma_first_of_unique(v@.skip(from as int), c, n - from);
    }
    n
}

/// The parts of `s` between its occurrences of `c`; one more than there are of those.
pub open spec fn split_at_char(s: Seq<char>, c: char) -> Seq<Seq<char>>
    decreases s.len(),
    via split_at_char_decreases
{
    let n = first_of(s, c);
    if n >= s.len() {
        seq![s]
    } else {
        seq![s.take(n)] + split_at_char(s.skip(n + 1), c)
    }
}

#[via_fn]
proof fn split_at_char_decreases(s: Seq<char>, c: char) {
    lemma_first_of(s, c);
}

/// Splits `s` at every `c`.
pub fn split(s: &str, c: char) -> (parts: Vec<String>)
    ensures
        texts(parts@) == split_at_char(s@, c),
        parts.len() > 0,
{
    let v = to_chars(s);
    let mut parts: Vec<String> = Vec::new();
    let mut from: usize = 0;
    assert(v@.skip(0) =~= v@);
    loop
        invariant
            v@ == s@,
            from <= v.len(),
            split_at_char(s@, c) =~= texts(parts@) + split_at_char(v@.skip(from as int), c),
        decreases v.len() - from,
    {
        let n: usize = find_from(&v, from, c);
        let part = from_chars(&v, from, n);
        let ghost rest = v@.skip(from as int);
        let ghost before = texts(parts@);
        assert(part@ =~= rest.take(n - from));
        parts.push(part);
        assert(texts(parts@) =~= before.push(part@));
        if n == v.len() {
            assert(rest.take(n - from) =~= rest);
            return parts;
        }
        assert(rest.skip(n - from + 1) =~= v@.skip(n + 1));
        from = n + 1;
    }
}

/// `s` without a carriage return at its end.
pub open spec fn without_return(s: Seq<char>) -> Seq<char> {
    if s.len() > 0 && s.last() == '\r' {
        s.drop_last()
    } else {
        s
    }
}

/// The lines of `s`: each ends at a line feed, and a carriage return before that
/// line feed is no part of it; what follows the last line feed is a line of its own
/// where it is not empty.
pub open spec fn line_seq(s: Seq<char>) -> Seq<Seq<char>>
    decreases s.len(),
    via line_seq_decreases
{
    let n = first_of(s, '\n');
    if s.len() == 0 {
        seq![]
    } else if n >= s.len() {
        seq![s]
    } else {
        seq![without_return(s.take(n))] + line_seq(s.skip(n + 1))
    }
}

#[via_fn]
proof fn line_seq_decreases(s: Seq<char>) {
    lemma_first_of(s, '\n');
}

/// Splits `s` into its lines.
pub fn lines(s: &str) -> (r: Vec<String>)
    ensures
        texts(r@) == line_seq(s@),
{
    let v = to_chars(s);
    let mut r: Vec<String> = Vec::new();
    let mut from: usize = 0;
    assert(v@.skip(0) =~= v@);
    while from < v.len()
        invariant
            v@ == s@,
            from <= v.len(),
            line_seq(s@) =~= texts(r@) + line_seq(v@.skip(from as int)),
        decreases v.len() - from,
    {
        let n: usize = find_from(&v, from, '\n');
        let ghost rest = v@.skip(from as int);
        let ghost before = texts(r@);
        if n == v.len() {
            let part = from_chars(&v, from, n);
            assert(part@ =~= rest);
            r.push(part);
            assert(texts(r@) =~= before.push(part@));
            from = n;
            assert(v@.skip(from as int) =~= seq![]);
        } else {
            let to: usize = if n > from && v[n - 1] == '\r' {
                n - 1
            } else {
                n
            };
            let part = from_chars(&v, from, to);
            assert(part@ =~= without_return(rest.take(n - from)));
            r.push(part);
            assert(texts(r@) =~= before.push(part@));
            assert(rest.skip(n - from + 1) =~= v@.skip(n + 1));
            from = n + 1;
        }
    }
    assert(v@.skip(from as int) =~= seq![]);
    r
}

/// The parts one after another, with `sep` between each two.
pub open spec fn joined(parts: Seq<Seq<char>>, sep: Seq<char>) -> Seq<char>
    decreases parts.len(),
{
    if parts.len() == 0 {
        seq![]
    } else if parts.len() == 1 {
        parts[0]
    } else {
        joined(parts.drop_last(), sep) + sep + parts.last()
    }
}

/// Joins the first `count` parts with `sep` between each two.
pub fn join_first(parts: &Vec<String>, count: usize, sep: &str) -> (r: String)
    requires
        count <= parts.len(),
    ensures
        r@ == joined(texts(parts@).take(count as int), sep@),
{
    let mut r = String::new();
    let mut i: usize = 0;
    let ghost all = texts(parts@);
    while i < count
        invariant
            i <= count <= parts.len(),
            all == texts(parts@),
            r@ == joined(all.take(i as int), sep@),
        decreases count - i,
    {
        let ghost before = r@;
        if i > 0 {
            r.append(sep);
        }
        r.append(parts[i].as_str());
        i = i + 1;
        assert(all.take(i as int).drop_last() =~= all.take(i - 1));
        if i == 1 {
            assert(r@ =~= parts@[0]@);
        } else {
            assert(r@ =~= before + sep@ + parts@[i - 1]@);
        }
    }
    r
}

/// Joins all the parts with `sep` between each two.
pub fn join(parts: &Vec<String>, sep: &str) -> (r: String)
    ensures
        r@ == joined(texts(parts@), sep@),
{
    let r = join_first(parts, parts.len(), sep);
    assert(texts(parts@).take(parts.len() as int) =~= texts(parts@));
    r
}

/// [`joined`], unfolded at the front.
pub proof fn lemma_joined_front(parts: Seq<Seq<char>>, sep: Seq<char>)
    requires
        parts.len() >= 2,
    ensures
        joined(parts, sep) == parts[0] + sep + joined(parts.skip(1), sep),
    decreases parts.len(),
{
    if parts.len() == 2 {
        assert(parts.drop_last()[0] == parts[0]);
        assert(parts.skip(1)[0] == parts[1]);
        assert(joined(parts.drop_last(), sep) == parts[0]);
        assert(joined(parts.skip(1), sep) == parts[1]);
    } else {
        lemma_joined_front(parts.drop_last(), sep);
        assert(parts.drop_last().skip(1) =~= parts.skip(1).drop_last());
        assert(joined(parts, sep) =~= parts[0] + sep + (joined(parts.skip(1).drop_last(), sep) + sep
            + parts.last()));
    }
}

/// Whether `parts`, joined by line feeds, can be told apart again: none is empty,
/// none holds a line feed, and only the last may end in a carriage return.
pub open spec fn line_safe(parts: Seq<Seq<char>>) -> bool {
    &&& forall|i: int| 0 <= i < parts.len() ==> (#[trigger] parts[i]).len() > 0
    &&& forall|i: int|
        0 <= i < parts.len() ==> !(#[trigger] parts[i]).contains('\n')
    &&& forall|i: int|
        0 <= i < parts.len() - 1 ==> (#[trigger] parts[i]).last() != '\r'
}

/// Splitting into lines undoes joining by line feeds.
pub proof fn law_lines_of_joined(parts: Seq<Seq<char>>)
    requires
        line_safe(parts),
    ensures
        line_seq(joined(parts, seq!['\n'])) == parts,
    decreases parts.len(),
{
    let sep = seq!['\n'];
    let whole = joined(parts, sep);
    if parts.len() == 0 {
        assert(line_seq(whole) =~= parts);
    } else {
        let head = parts[0];
        assert forall|i: int| 0 <= i < head.len() implies head[i] != '\n' by {
            if head[i] == '\n' {
                assert(head.contains('\n'));
            }
        }
        if parts.len() == 1 {
            lemma_first_of_unique(head, '\n', head.len() as int);
            assert(line_seq(whole) =~= parts);
        } else {
            let tail = parts.skip(1);
            lemma_joined_front(parts, sep);
            lemma_first_of_unique(whole, '\n', head.len() as int);
            assert(whole.take(head.len() as int) =~= head);
            assert(whole.skip((head.len() + 1) as int) =~= joined(tail, sep));
            assert(line_safe(tail)) by {
                assert forall|i: int| 0 <= i < tail.len() implies (#[trigger] tail[i]).len() > 0
                    && !tail[i].contains('\n') by {
                    assert(tail[i] == parts[i + 1]);
                }
                assert forall|i: int| 0 <= i < tail.len() - 1 implies (#[trigger] tail[i]).last()
                    != '\r' by {
                    assert(tail[i] == parts[i + 1]);
                }
            }
            law_lines_of_joined(tail);
            assert(line_seq(whole) =~= seq![head] + tail);
            assert(seq![head] + tail =~= parts);
        }
    }
}

// ---------------------------------------------------------------------------
// Fixed-width columns and cut-off text
// ---------------------------------------------------------------------------

/// `s`, filled up on the right with spaces to at least `width` characters.
pub open spec fn padded(s: Seq<char>, width: nat) -> Seq<char> {
    s + Seq::new(
        if s.len() < width {
            (width - s.len()) as nat
        } else {
            0
        },
        |i: int| ' ',
    )
}

/// Fills `s` up on the right with spaces to at least `width` characters.
pub fn pad(s: &str, width: usize) -> (r: String)
    ensures
        r@ == padded(s@, width as nat),
{
    let n: usize = s.unicode_len();
    let mut r = s.to_owned();
    let mut i: usize = n;
    while i < width
        invariant
            s@.len() == n,
            n <= i,
            i <= width || i == n,
            r@ == s@ + Seq::new((i - n) as nat, |j: int| ' '),
        decreases width - i,
    {
        r.push(' ');
        i = i + 1;
        assert(r@ =~= s@ + Seq::new((i - n) as nat, |j: int| ' '));
    }
    assert(r@ =~= padded(s@, width as nat));
    r
}

/// The first `limit` characters of `s`, and an ellipsis where `s` is longer.
pub open spec fn cut_off(s: Seq<char>, limit: nat) -> Seq<char> {
    if s.len() > limit {
        s.take(limit as int).push('\u{2026}')
    } else {
        s
    }
}

/// Cuts `s` off after `limit` characters.
pub fn cut(s: &str, limit: usize) -> (r: String)
    ensures
        r@ == cut_off(s@, limit as nat),
{
    let v = to_chars(s);
    if v.len() > limit {
        let mut r = from_chars(&v, 0, limit);
        r.push('\u{2026}');
        r
    } else {
        s.to_owned()
    }
}

/// Trimming takes off white space at the two ends, all of it and nothing else.
pub proof fn law_trimmed_takes_off_the_ends(s: Seq<char>) -> (cuts: (int, int))
    ensures
        0 <= cuts.0 <= cuts.1 <= s.len(),
        trimmed(s) == s.subrange(cuts.0, cuts.1),
        forall|i: int| 0 <= i < cuts.0 ==> is_white_space(#[trigger] s[i]),
        forall|i: int| cuts.1 <= i < s.len() ==> is_white_space(#[trigger] s[i]),
        cuts.0 < cuts.1 ==> !is_white_space(s[cuts.0]) && !is_white_space(s[cuts.1 - 1]),
        trimmed(s).len() == 0 <==> forall|i: int|
            0 <= i < s.len() ==> is_white_space(#[trigger] s[i]),
{
    let from = lemma_trimmed_start(s);
    let rest = s.skip(from);
    let to = lemma_trimmed_end(rest);
    assert(rest.take(to) =~= s.subrange(from, from + to));
    assert forall|i: int| from + to <= i < s.len() implies is_white_space(#[trigger] s[i]) by {
        assert(rest[i - from] == s[i]);
    }
    if to > 0 {
        assert(rest[0] == s[from]);
        assert(rest[to - 1] == s[from + to - 1]);
        if is_white_space(rest[0]) {
            assert(false);
        }
    }
    (from, from + to)
}

proof fn lemma_trimmed_start(s: Seq<char>) -> (from: int)
    ensures
        0 <= from <= s.len(),
        trimmed_start(s) == s.skip(from),
        forall|i: int| 0 <= i < from ==> is_white_space(#[trigger] s[i]),
        from < s.len() ==> !is_white_space(s[from]),
    decreases s.len(),
{
    if s.len() > 0 && is_white_space(s[0]) {
        let n = lemma_trimmed_start(s.skip(1));
        assert(s.skip(1).skip(n) =~= s.skip(n + 1));
        assert forall|i: int| 0 <= i < n + 1 implies is_white_space(#[trigger] s[i]) by {
            if i > 0 {
                assert(s.skip(1)[i - 1] == s[i]);
            }
        }
        n + 1
    } else {
        assert(s.skip(0) =~= s);
        0
    }
}

proof fn lemma_trimmed_end(s: Seq<char>) -> (to: int)
    ensures
        0 <= to <= s.len(),
        trimmed_end(s) == s.take(to),
        forall|i: int| to <= i < s.len() ==> is_white_space(#[trigger] s[i]),
        to > 0 ==> !is_white_space(s[to - 1]),
    decreases s.len(),
{
    if s.len() > 0 && is_white_space(s.last()) {
        let n = lemma_trimmed_end(s.drop_last());
        assert(s.drop_last().take(n) =~= s.take(n));
        assert forall|i: int| n <= i < s.len() implies is_white_space(#[trigger] s[i]) by {
            if i < s.len() - 1 {
                assert(s.drop_last()[i] == s[i]);
            }
        }
        n
    } else {
        assert(s.take(s.len() as int) =~= s);
        s.len() as int
    }
}

/// A text that ends in `c` and goes on is split into the parts before and those after.
pub proof fn law_split_around(a: Seq<char>, c: char, b: Seq<char>)
    ensures
        split_at_char(a + seq![c] + b, c) == split_at_char(a, c) + split_at_char(b, c),
    decreases a.len(),
{
    let whole = a + seq![c] + b;
    let n = first_of(a, c);
    lemma_first_of(a, c);
    assert forall|i: int| 0 <= i < n implies whole[i] != c by {
        assert(whole[i] == a[i]);
    }
    if n >= a.len() {
        lemma_first_of_unique(whole, c, n);
        assert(whole.take(n) =~= a);
        assert(whole.skip(n + 1) =~= b);
    } else {
        lemma_first_of_unique(whole, c, n);
        assert(whole.take(n) =~= a.take(n));
        assert(whole.skip(n + 1) =~= a.skip(n + 1) + seq![c] + b);
        law_split_around(a.skip(n + 1), c, b);
        assert(split_at_char(whole, c) =~= split_at_char(a, c) + split_at_char(b, c));
    }
}

/// Splitting loses nothing but the separators: the parts hold none of them, and joined by
/// them they are the text again.
pub proof fn law_split_is_undone(s: Seq<char>, c: char)
    ensures
        split_at_char(s, c).len() > 0,
        joined(split_at_char(s, c), seq![c]) == s,
        forall|i: int|
            0 <= i < split_at_char(s, c).len() ==> !(#[trigger] split_at_char(s, c)[i]).contains(c),
    decreases s.len(),
{
    let n = first_of(s, c);
    lemma_first_of(s, c);
    let parts = split_at_char(s, c);
    if n >= s.len() {
        assert(!s.contains(c));
    } else {
        let rest = s.skip(n + 1);
        law_split_is_undone(rest, c);
        lemma_joined_front(parts, seq![c]);
        assert(parts.skip(1) =~= split_at_char(rest, c));
        assert(joined(parts, seq![c]) =~= s);
        assert(!s.take(n).contains(c));
        assert forall|i: int| 0 <= i < parts.len() implies !(#[trigger] parts[i]).contains(c) by {
            if i > 0 {
                assert(parts[i] == split_at_char(rest, c)[i - 1]);
            }
        }
    }
}

/// The lines of a text, one after the other: a line ends at its line feed, one carriage
/// return before that is no part of it, and what is left at the end is a line as it stands,
/// where there is something left.
pub proof fn law_lines_one_by_one(line: Seq<char>, rest: Seq<char>)
    requires
        !line.contains('\n'),
    ensures
        line.len() == 0 || line.last() != '\r' ==> line_seq(line + seq!['\n'] + rest) == seq![
            line,
        ] + line_seq(rest),
        line_seq(line + seq!['\r', '\n'] + rest) == seq![line] + line_seq(rest),
        line.len() > 0 ==> line_seq(line) == seq![line],
        line.len() == 0 ==> line_seq(line) == Seq::<Seq<char>>::empty(),
{
    assert forall|i: int| 0 <= i < line.len() implies line[i] != '\n' by {
        assert(line.contains(line[i]));
    }
    let one = line + seq!['\n'] + rest;
    let n = line.len() as int;
    lemma_first_of_unique(one, '\n', n);
    assert(one.take(n) =~= line);
    assert(one.skip(n + 1) =~= rest);
    let two = line + seq!['\r', '\n'] + rest;
    lemma_first_of_unique(two, '\n', n + 1);
    assert(two.take(n + 1) =~= line.push('\r'));
    assert(line.push('\r').drop_last() =~= line);
    assert(two.skip(n + 2) =~= rest);
    lemma_first_of_unique(line, '\n', n);
}

/// A column starts with its text, is filled with spaces, and is never too narrow.
pub proof fn law_padded_keeps_the_text(s: Seq<char>, width: nat)
    ensures
        s.is_prefix_of(padded(s, width)),
        padded(s, width).len() >= width,
        padded(s, width).len() == width || padded(s, width) == s,
        forall|i: int| s.len() <= i < padded(s, width).len() ==> #[trigger] padded(s, width)[i]
            == ' ',
{
}

/// A text that fits is shown as it is; of a longer one the first `limit` characters are
/// shown, and an ellipsis in place of the rest.
pub proof fn law_cut_off_keeps_the_start(s: Seq<char>, limit: nat)
    ensures
        s.len() <= limit ==> cut_off(s, limit) == s,
        s.len() > limit ==> cut_off(s, limit).len() == limit + 1 && cut_off(s, limit).last()
            == '\u{2026}',
        forall|i: int| 0 <= i < limit && i < s.len() ==> #[trigger] cut_off(s, limit)[i] == s[i],
{
}

} // verus!
