//! Character-level string utilities: splitting on a separator, joining with a
//! separator, building aliases, escaping quotes, and membership tests, each
//! specified over `Seq<char>` views.
use vstd::prelude::*;

verus! {

/// Index of the first occurrence of `c` in `s`, or `s.len()` if absent.
pub open spec fn first_occ<A>(s: Seq<A>, c: A) -> int
    decreases s.len(),
{
    if s.len() == 0 {
        0
    } else if s[0] == c {
        0
    } else {
        1 + first_occ(s.drop_first(), c)
    }
}

pub proof fn lemma_first_occ_bounds<A>(s: Seq<A>, c: A)
    ensures
        0 <= first_occ(s, c) <= s.len(),
        forall|j: int| 0 <= j < first_occ(s, c) ==> s[j] != c,
        first_occ(s, c) < s.len() ==> s[first_occ(s, c)] == c,
        s.contains(c) <==> first_occ(s, c) < s.len(),
    decreases s.len(),
{
    if s.len() == 0 {
    } else if s[0] == c {
    } else {
        lemma_first_occ_bounds(s.drop_first(), c);
        assert forall|j: int| 0 <= j < first_occ(s, c) implies s[j] != c by {
            if j > 0 {
                assert(s.drop_first()[j - 1] == s[j]);
            }
        }
        if first_occ(s, c) < s.len() {
            assert(s.drop_first()[first_occ(s.drop_first(), c)] == s[first_occ(s, c)]);
        }
        if s.contains(c) {
            let k = choose|k: int| 0 <= k < s.len() && s[k] == c;
            assert(k >= first_occ(s, c) || s[k] != c);
        }
        if first_occ(s, c) < s.len() {
            assert(s[first_occ(s, c)] == c);
        }
    }
}

/// With one element appended, an earlier first occurrence is kept, and an
/// absent element's first occurrence becomes the old length when the
/// appended element is it.
pub proof fn lemma_first_occ_push<A>(s: Seq<A>, x: A, y: A)
    ensures
        s.contains(y) ==> first_occ(s.push(x), y) == first_occ(s, y),
        !s.contains(y) && y == x ==> first_occ(s.push(x), y) == s.len(),
        !s.contains(y) && y != x ==> first_occ(s.push(x), y) == s.len() + 1,
    decreases s.len(),
{
    lemma_first_occ_bounds(s, y);
    lemma_first_occ_bounds(s.push(x), y);
    if s.len() == 0 {
        assert(s.push(x)[0] == x);
        if y != x {
            assert(s.push(x).drop_first() =~= Seq::<A>::empty());
        }
    } else {
        assert(s.push(x)[0] == s[0]);
        if s[0] == y {
            assert(s.contains(y)) by {
                assert(s[0] == y);
            }
        } else {
            assert(s.push(x).drop_first() =~= s.drop_first().push(x));
            lemma_first_occ_push(s.drop_first(), x, y);
            assert(s.contains(y) <==> s.drop_first().contains(y)) by {
                if s.contains(y) {
                    let k = choose|k: int| 0 <= k < s.len() && s[k] == y;
                    assert(k > 0);
                    assert(s.drop_first()[k - 1] == y);
                }
                if s.drop_first().contains(y) {
                    let k = choose|k: int|
                        0 <= k < s.drop_first().len() && s.drop_first()[k] == y;
                    assert(s[k + 1] == y);
                }
            }
        }
    }
}

/// The segments of `s` split on every occurrence of `c`, in order.
pub open spec fn split_char(s: Seq<char>, c: char) -> Seq<Seq<char>>
    decreases s.len(),
{
    let i = first_occ(s, c);
    if 0 <= i && i < s.len() {
        seq![s.take(i)] + split_char(s.skip(i + 1), c)
    } else {
        seq![s]
    }
}

pub proof fn lemma_split_char_len_ge1(s: Seq<char>, c: char)
    ensures
        split_char(s, c).len() >= 1,
{
}

/// Finds the first occurrence of `c` in `s`, returning `s@.len()` when absent.
pub fn find_first(s: &str, c: char) -> (r: usize)
    ensures
        r == first_occ(s@, c),
        r <= s@.len(),
        forall|j: int| 0 <= j < r ==> s@[j] != c,
        r < s@.len() ==> s@[r as int] == c,
{
    let n: usize = s.unicode_len();
    let mut i: usize = 0;
    while i < n
        invariant
            n == s@.len(),
            i <= n,
            forall|j: int| 0 <= j < i ==> s@[j] != c,
        decreases n - i,
    {
        if s.get_char(i) == c {
            proof {
                lemma_first_occ_bounds(s@, c);
                let f = first_occ(s@, c);
                if f < i {
                    assert(s@[f] == c);
                    assert(false);
                }
                if f > i {
                    assert(s@[i as int] != c);
                    assert(false);
                }
            }
            return i;
        }
        i = i + 1;
    }
    proof {
        lemma_first_occ_bounds(s@, c);
        let f = first_occ(s@, c);
        if f < n {
            assert(s@[f] == c);
            assert(false);
        }
    }
    n
}

/// Splits `s` on `c` when that yields exactly two segments; `None` otherwise.
pub fn split2(s: &str, c: char) -> (r: Option<(String, String)>)
    ensures
        (r is Some) <==> split_char(s@, c).len() == 2,
        r matches Some(p) ==> p.0@ == split_char(s@, c)[0] && p.1@ == split_char(s@, c)[1],
{
    let n: usize = s.unicode_len();
    let i = find_first(s, c);
    if i >= n {
        proof {
            assert(split_char(s@, c) =~= seq![s@]);
        }
        return None;
    }
    let rest = s.substring_char(i + 1, n);
    proof {
        assert(rest@ =~= s@.skip(i + 1));
    }
    let j = find_first(rest, c);
    if j < rest.unicode_len() {
        proof {
            lemma_split_char_len_ge1(rest@.skip(j + 1), c);
            assert(split_char(rest@, c).len() >= 2);
            assert(split_char(s@, c) =~= seq![s@.take(i as int)] + split_char(rest@, c));
            assert(split_char(s@, c).len() >= 3);
        }
        None
    } else {
        let a = String::from_str(s.substring_char(0, i));
        let b = String::from_str(rest);
        proof {
            assert(split_char(rest@, c) =~= seq![rest@]);
            assert(split_char(s@, c) =~= seq![s@.take(i as int), rest@]);
            assert(a@ =~= s@.take(i as int));
        }
        Some((a, b))
    }
}

/// First two segments of `s` split on `c`, when there are at least two.
pub fn split_seg2(s: &str, c: char) -> (r: Option<(String, String)>)
    ensures
        (r is Some) <==> split_char(s@, c).len() >= 2,
        r matches Some(p) ==> p.0@ == split_char(s@, c)[0] && p.1@ == split_char(s@, c)[1],
{
    let n: usize = s.unicode_len();
    let i = find_first(s, c);
    if i >= n {
        proof {
            assert(split_char(s@, c) =~= seq![s@]);
        }
        return None;
    }
    let rest = s.substring_char(i + 1, n);
    proof {
        assert(rest@ =~= s@.skip(i + 1));
        assert(split_char(s@, c) =~= seq![s@.take(i as int)] + split_char(rest@, c));
        lemma_split_char_len_ge1(rest@, c);
    }
    let a = String::from_str(s.substring_char(0, i));
    let j = find_first(rest, c);
    let b = if j < rest.unicode_len() {
        let seg = String::from_str(rest.substring_char(0, j));
        proof {
            lemma_split_char_len_ge1(rest@.skip(j + 1), c);
            assert(split_char(rest@, c)[0] == rest@.take(j as int));
            assert(seg@ =~= rest@.take(j as int));
        }
        seg
    } else {
        proof {
            assert(split_char(rest@, c) =~= seq![rest@]);
        }
        String::from_str(rest)
    };
    proof {
        assert(a@ =~= s@.take(i as int));
        assert(split_char(s@, c)[1] == split_char(rest@, c)[0]);
    }
    Some((a, b))
}

/// Splits `s` at the first occurrence of `c`, as `str::split_once` does.
pub fn split_once_char(s: &str, c: char) -> (r: Option<(String, String)>)
    ensures
        (r is Some) <==> first_occ(s@, c) < s@.len(),
        r matches Some(p) ==> p.0@ == s@.take(first_occ(s@, c)) && p.1@ == s@.skip(
            first_occ(s@, c) + 1,
        ),
{
    let n: usize = s.unicode_len();
    let i = find_first(s, c);
    if i >= n {
        None
    } else {
        let a = String::from_str(s.substring_char(0, i));
        let b = String::from_str(s.substring_char(i + 1, n));
        proof {
            assert(a@ =~= s@.take(i as int));
            assert(b@ =~= s@.skip(i + 1));
        }
        Some((a, b))
    }
}

/// The views of a sequence of strings.
pub open spec fn str_views(ss: Seq<String>) -> Seq<Seq<char>>
    decreases ss.len(),
{
    if ss.len() == 0 {
        Seq::empty()
    } else {
        str_views(ss.drop_last()).push(ss.last()@)
    }
}

pub proof fn lemma_str_views(ss: Seq<String>)
    ensures
        str_views(ss).len() == ss.len(),
        forall|j: int| 0 <= j < ss.len() ==> str_views(ss)[j] == ss[j]@,
    decreases ss.len(),
{
    if ss.len() > 0 {
        lemma_str_views(ss.drop_last());
    }
}

pub proof fn lemma_str_views_last(ss: Seq<String>)
    requires
        ss.len() > 0,
    ensures
        str_views(ss) == str_views(ss.drop_last()).push(ss.last()@),
{
}

pub proof fn lemma_take_succ<A>(s: Seq<A>, i: int)
    requires
        0 <= i < s.len(),
    ensures
        s.take(i + 1).drop_last() == s.take(i),
        s.take(i + 1).last() == s[i],
{
    assert(s.take(i + 1).drop_last() =~= s.take(i));
}

pub proof fn lemma_skip_succ<A>(s: Seq<A>, i: int)
    requires
        0 <= i < s.len(),
    ensures
        s.skip(i).drop_first() == s.skip(i + 1),
        s.skip(i)[0] == s[i],
{
    assert(s.skip(i).drop_first() =~= s.skip(i + 1));
}

/// The parts joined with the separator between consecutive parts.
pub open spec fn join_with(parts: Seq<Seq<char>>, sep: Seq<char>) -> Seq<char>
    decreases parts.len(),
{
    if parts.len() == 0 {
        Seq::empty()
    } else if parts.len() == 1 {
        parts[0]
    } else {
        join_with(parts.drop_last(), sep) + sep + parts.last()
    }
}

/// Joins the strings of `v` with `sep` between consecutive entries.
pub fn join_strings(v: &Vec<String>, sep: &str) -> (r: String)
    ensures
        r@ == join_with(str_views(v@), sep@),
{
    let mut r = String::new();
    let mut i: usize = 0;
    while i < v.len()
        invariant
            i <= v.len(),
            r@ == join_with(str_views(v@.take(i as int)), sep@),
        decreases v.len() - i,
    {
        if i > 0 {
            r.append(sep);
        }
        r.append(v[i].as_str());
        proof {
            lemma_take_succ(v@, i as int);
            let pre = str_views(v@.take(i as int));
            let post = str_views(v@.take(i + 1));
            assert(post == pre.push(v@[i as int]@));
            if i == 0 {
                assert(post.len() == 1);
                assert(join_with(post, sep@) == post[0]);
                assert(r@ =~= v@[0]@);
            } else {
                lemma_str_views(v@.take(i as int));
                assert(post.len() >= 2);
                assert(post.drop_last() =~= pre);
                assert(join_with(post, sep@) == join_with(pre, sep@) + sep@ + v@[i as int]@);
            }
        }
        i = i + 1;
    }
    proof {
        assert(v@.take(v@.len() as int) =~= v@);
    }
    r
}

/// How a single character is rendered inside a quoted SQL literal.
pub open spec fn escaped_char(c: char) -> Seq<char> {
    if c == '\'' {
        seq!['\'', '\'']
    } else {
        seq![c]
    }
}

/// `s` with every single quote doubled, the only escaping performed.
pub open spec fn escape_quotes(s: Seq<char>) -> Seq<char>
    decreases s.len(),
{
    if s.len() == 0 {
        Seq::empty()
    } else {
        escape_quotes(s.drop_last()) + escaped_char(s.last())
    }
}

/// Doubles every single quote of `s`.
pub fn escape_text(s: &str) -> (r: String)
    ensures
        r@ == escape_quotes(s@),
{
    let n: usize = s.unicode_len();
    let mut r = String::new();
    let mut i: usize = 0;
    while i < n
        invariant
            n == s@.len(),
            i <= n,
            r@ == escape_quotes(s@.take(i as int)),
        decreases n - i,
    {
        if s.get_char(i) == '\'' {
            r.append("''");
            proof {
                reveal_strlit("''");
            }
        } else {
            r.append(s.substring_char(i, i + 1));
        }
        proof {
            lemma_take_succ(s@, i as int);
            assert(s@.take(i + 1).drop_last() =~= s@.take(i as int));
            assert(r@ =~= escape_quotes(s@.take(i as int)) + escaped_char(s@[i as int]));
        }
        i = i + 1;
    }
    proof {
        assert(s@.take(n as int) =~= s@);
    }
    r
}

/// How one character of a cross-table reference is rendered in its alias.
pub open spec fn alias_char(c: char) -> char {
    if c == '/' || c == '.' {
        '_'
    } else {
        c
    }
}

/// The alias of a raw cross-table reference: `/` and `.` become `_`.
pub open spec fn alias_chars(s: Seq<char>) -> Seq<char>
    decreases s.len(),
{
    if s.len() == 0 {
        Seq::empty()
    } else {
        alias_chars(s.drop_last()).push(alias_char(s.last()))
    }
}

/// Replaces every `/` and `.` of `s` with `_`.
pub fn alias_text(s: &str) -> (r: String)
    ensures
        r@ == alias_chars(s@),
{
    let n: usize = s.unicode_len();
    let mut r = String::new();
    let mut i: usize = 0;
    while i < n
        invariant
            n == s@.len(),
            i <= n,
            r@ == alias_chars(s@.take(i as int)),
        decreases n - i,
    {
        let c = s.get_char(i);
        if c == '/' || c == '.' {
            r.append("_");
            proof {
                reveal_strlit("_");
            }
        } else {
            r.append(s.substring_char(i, i + 1));
        }
        proof {
            lemma_take_succ(s@, i as int);
            assert(s@.take(i + 1).drop_last() =~= s@.take(i as int));
            assert(r@ =~= alias_chars(s@.take(i as int)).push(alias_char(s@[i as int])));
        }
        i = i + 1;
    }
    proof {
        assert(s@.take(n as int) =~= s@);
    }
    r
}

/// Whether some string of `v` has the same characters as `s`.
pub fn vec_contains_string(v: &Vec<String>, s: &String) -> (r: bool)
    ensures
        r == str_views(v@).contains(s@),
{
    proof {
        lemma_str_views(v@);
    }
    let mut i: usize = 0;
    while i < v.len()
        invariant
            i <= v.len(),
            str_views(v@).len() == v@.len(),
            forall|j: int| 0 <= j < v@.len() ==> str_views(v@)[j] == v@[j]@,
            forall|j: int| 0 <= j < i ==> v@[j]@ != s@,
        decreases v.len() - i,
    {
        if v[i] == *s {
            assert(str_views(v@)[i as int] == s@);
            return true;
        }
        i = i + 1;
    }
    proof {
        assert forall|j: int| 0 <= j < str_views(v@).len() implies str_views(v@)[j] != s@ by {
            assert(str_views(v@)[j] == v@[j]@);
        }
    }
    false
}

/// `acc` with every entry of `pend` appended, in order, that is not already
/// present; the first-occurrence rule for destination columns.
pub open spec fn append_missing(acc: Seq<Seq<char>>, pend: Seq<Seq<char>>) -> Seq<Seq<char>>
    decreases pend.len(),
{
    if pend.len() == 0 {
        acc
    } else {
        let acc2 = if acc.contains(pend[0]) {
            acc
        } else {
            acc.push(pend[0])
        };
        append_missing(acc2, pend.drop_first())
    }
}

/// No two entries of `s` are equal.
pub open spec fn no_dups(s: Seq<Seq<char>>) -> bool {
    forall|i: int, j: int| 0 <= i < j < s.len() ==> s[i] != s[j]
}

pub proof fn lemma_append_missing_props(acc: Seq<Seq<char>>, pend: Seq<Seq<char>>)
    requires
        no_dups(acc),
    ensures
        no_dups(append_missing(acc, pend)),
        forall|x: Seq<char>|
            append_missing(acc, pend).contains(x) <==> acc.contains(x) || pend.contains(x),
    decreases pend.len(),
{
    if pend.len() == 0 {
    } else {
        let h = pend[0];
        let acc2 = if acc.contains(h) {
            acc
        } else {
            acc.push(h)
        };
        assert(no_dups(acc2)) by {
            if !acc.contains(h) {
                assert forall|i: int, j: int| 0 <= i < j < acc2.len() implies acc2[i] != acc2[j] by {
                    if j == acc2.len() - 1 {
                        assert(acc2[j] == h);
                        assert(acc2[i] == acc[i]);
                        assert(acc.contains(acc[i]) == true);
                    }
                }
            }
        }
        lemma_append_missing_props(acc2, pend.drop_first());
        assert forall|x: Seq<char>|
            append_missing(acc, pend).contains(x) <==> acc.contains(x) || pend.contains(x) by {
            assert(acc2.contains(x) <==> acc.contains(x) || x == h) by {
                if !acc.contains(h) {
                    if acc2.contains(x) {
                        let k = choose|k: int| 0 <= k < acc2.len() && acc2[k] == x;
                        if k < acc2.len() - 1 {
                            assert(acc2[k] == acc[k]);
                            assert(acc.contains(x));
                        } else {
                            assert(acc2[k] == h);
                        }
                    }
                    if acc.contains(x) {
                        let k = choose|k: int| 0 <= k < acc.len() && acc[k] == x;
                        assert(acc2[k] == x);
                        assert(acc2.contains(x));
                    }
                    if x == h {
                        assert(acc2[acc2.len() - 1] == x);
                        assert(acc2.contains(x));
                    }
                }
            }
            assert(pend.contains(x) <==> x == h || pend.drop_first().contains(x)) by {
                if pend.contains(x) {
                    let k = choose|k: int| 0 <= k < pend.len() && pend[k] == x;
                    if k > 0 {
                        assert(pend.drop_first()[k - 1] == x);
                    }
                }
                if pend.drop_first().contains(x) {
                    let k = choose|k: int| 0 <= k < pend.drop_first().len() && pend.drop_first()[k]
                        == x;
                    assert(pend[k + 1] == x);
                }
            }
        }
    }
}

/// Appending one more pending entry applies one more first-occurrence step
/// at the end.
pub proof fn lemma_append_missing_snoc(acc: Seq<Seq<char>>, pend: Seq<Seq<char>>, x: Seq<char>)
    ensures
        append_missing(acc, pend).contains(x) ==> append_missing(acc, pend.push(x))
            == append_missing(acc, pend),
        !append_missing(acc, pend).contains(x) ==> append_missing(acc, pend.push(x))
            == append_missing(acc, pend).push(x),
    decreases pend.len(),
{
    if pend.len() == 0 {
        assert(append_missing(acc, pend) == acc);
        let acc2 = if acc.contains(x) {
            acc
        } else {
            acc.push(x)
        };
        assert(pend.push(x)[0] == x);
        assert(pend.push(x).drop_first() =~= Seq::<Seq<char>>::empty());
        assert(append_missing(acc2, pend.push(x).drop_first()) == acc2);
        assert(append_missing(acc, pend.push(x)) == acc2);
    } else {
        assert(pend.push(x)[0] == pend[0]);
        assert(pend.push(x).drop_first() =~= pend.drop_first().push(x));
        let acc2 = if acc.contains(pend[0]) {
            acc
        } else {
            acc.push(pend[0])
        };
        lemma_append_missing_snoc(acc2, pend.drop_first(), x);
    }
}

/// Each entry of the first-occurrence list stands at its first occurrence in
/// the raw list, and the list is ordered by those first occurrences.
pub proof fn lemma_append_missing_order(raw: Seq<Seq<char>>)
    ensures
        forall|i: int|
            0 <= i < append_missing(Seq::empty(), raw).len() ==> first_occ(
                raw,
                #[trigger] append_missing(Seq::empty(), raw)[i],
            ) < raw.len() && raw[first_occ(raw, append_missing(Seq::empty(), raw)[i])]
                == append_missing(Seq::empty(), raw)[i],
        forall|i: int, j: int|
            0 <= i < j < append_missing(Seq::empty(), raw).len() ==> first_occ(
                raw,
                append_missing(Seq::empty(), raw)[i],
            ) < first_occ(raw, append_missing(Seq::empty(), raw)[j]),
    decreases raw.len(),
{
    if raw.len() == 0 {
    } else {
        let r0 = raw.drop_last();
        let x = raw.last();
        lemma_append_missing_order(r0);
        assert(raw =~= r0.push(x));
        lemma_append_missing_snoc(Seq::empty(), r0, x);
        let d0 = append_missing(Seq::empty(), r0);
        let d = append_missing(Seq::empty(), raw);
        assert forall|i: int| 0 <= i < d0.len() implies first_occ(raw, #[trigger] d0[i])
            == first_occ(r0, d0[i]) && first_occ(r0, d0[i]) < r0.len() by {
            lemma_first_occ_bounds(r0, d0[i]);
            assert(r0[first_occ(r0, d0[i])] == d0[i]);
            assert(r0.contains(d0[i]));
            lemma_first_occ_push(r0, x, d0[i]);
        }
        if d0.contains(x) {
            assert(d == d0);
            assert forall|i: int| 0 <= i < d.len() implies first_occ(raw, #[trigger] d[i])
                < raw.len() && raw[first_occ(raw, d[i])] == d[i] by {
                lemma_first_occ_bounds(r0, d0[i]);
                assert(raw[first_occ(r0, d0[i])] == r0[first_occ(r0, d0[i])]);
            }
            assert forall|i: int, j: int| 0 <= i < j < d.len() implies first_occ(raw, d[i])
                < first_occ(raw, d[j]) by {
                assert(d[i] == d0[i] && d[j] == d0[j]);
            }
        } else {
            assert(d == d0.push(x));
            assert(!r0.contains(x)) by {
                lemma_append_missing_props(Seq::empty(), r0);
            }
            lemma_first_occ_push(r0, x, x);
            assert(first_occ(raw, x) == r0.len());
            assert(raw[r0.len() as int] == x);
            assert forall|i: int| 0 <= i < d.len() implies first_occ(raw, #[trigger] d[i])
                < raw.len() && raw[first_occ(raw, d[i])] == d[i] by {
                if i < d.len() - 1 {
                    assert(d[i] == d0[i]);
                    lemma_first_occ_bounds(r0, d0[i]);
                    assert(raw[first_occ(r0, d0[i])] == r0[first_occ(r0, d0[i])]);
                } else {
                    assert(d[i] == x);
                }
            }
            assert forall|i: int, j: int| 0 <= i < j < d.len() implies first_occ(raw, d[i])
                < first_occ(raw, d[j]) by {
                if j < d.len() - 1 {
                    assert(d[i] == d0[i] && d[j] == d0[j]);
                } else {
                    assert(d[j] == x);
                    assert(d[i] == d0[i]);
                    assert(first_occ(raw, d0[i]) < r0.len());
                }
            }
        }
    }
}

} // verus!
