//! Unix paths, taken as text.
//!
//! Nothing here touches a file system. A path is read the way the operating system
//! reads it: repeated separators count once, a trailing separator adds nothing, and a
//! `.` names a component only where it begins a relative path.
use crate::text;
use vstd::prelude::*;

verus! {

/// Where one component stands in a path's text.
#[derive(Clone, Copy)]
pub struct Span {
    pub start: usize,
    pub end: usize,
}

/// The ends of a list of spans.
pub open spec fn span_views(v: Seq<Span>) -> Seq<(int, int)> {
    v.map_values(|p: Span| (p.start as int, p.end as int))
}

/// The components of `s` from index `i` on, each by where it starts and ends.
pub open spec fn spans_from(s: Seq<char>, i: int) -> Seq<(int, int)>
    decreases s.len() - i,
{
    if i < 0 || i >= s.len() {
        Seq::empty()
    } else if s[i] == '/' {
        spans_from(s, i + 1)
    } else {
        let e = text::first_where(s, text::is_char('/'), i);
        proof {
            text::lemma_first_where(s, text::is_char('/'), i);
        }
        if i > 0 && e == i + 1 && s[i] == '.' {
            spans_from(s, e)
        } else {
            seq![(i, e)] + spans_from(s, e)
        }
    }
}

/// The components of the path `s`, each by where it starts and ends.
pub open spec fn spans(s: Seq<char>) -> Seq<(int, int)> {
    spans_from(s, 0)
}

/// The components of the path `s`.
pub open spec fn components(s: Seq<char>) -> Seq<Seq<char>> {
    spans(s).map_values(|p: (int, int)| s.subrange(p.0, p.1))
}

/// Whether `s` starts at the root.
pub open spec fn absolute(s: Seq<char>) -> bool {
    s.len() > 0 && s[0] == '/'
}

/// What tells two paths apart: the root, where the path starts there, and the
/// components. Two texts with the same parts name the same path.
pub open spec fn parts(s: Seq<char>) -> Seq<Seq<char>> {
    if absolute(s) {
        seq![seq!['/']] + components(s)
    } else {
        components(s)
    }
}

/// The directory that the first `k` components of `s` lead to. With all of them it is
/// `s` itself, as it was written.
pub open spec fn ancestor(s: Seq<char>, k: int) -> Seq<char> {
    if k >= spans(s).len() {
        s
    } else if k > 0 {
        s.take(spans(s)[k - 1].1)
    } else if absolute(s) {
        s.take(1)
    } else {
        Seq::empty()
    }
}

/// The entry `name` of the directory `dir`.
pub open spec fn joined(dir: Seq<char>, name: Seq<char>) -> Seq<char> {
    if dir.len() == 0 || dir.last() == '/' {
        dir + name
    } else {
        dir.push('/') + name
    }
}

/// The last component, where it is a name: not the root, `.` or `..`.
pub open spec fn file_name_of(s: Seq<char>) -> Option<Seq<char>> {
    let c = components(s);
    if c.len() > 0 && c.last() != seq!['.'] && c.last() != seq!['.', '.'] {
        Some(c.last())
    } else {
        None
    }
}

/// The text of `s` from its component `i` up to and with its component `j - 1`.
pub open spec fn between(s: Seq<char>, i: int, j: int) -> Seq<char> {
    if 0 <= i < j <= spans(s).len() {
        s.subrange(spans(s)[i].0, spans(s)[j - 1].1)
    } else {
        Seq::empty()
    }
}

/// Every component is not empty, lies inside the text, holds no separator, and starts
/// after the one before it ended.
pub proof fn lemma_spans_from(s: Seq<char>, i: int)
    requires
        0 <= i,
    ensures
        forall|k: int|
            0 <= k < spans_from(s, i).len() ==> i <= (#[trigger] spans_from(s, i)[k]).0 < spans_from(
                s,
                i,
            )[k].1 <= s.len(),
        forall|k: int, l: int|
            0 <= k < l < spans_from(s, i).len() ==> (#[trigger] spans_from(s, i)[k]).1 < (
            #[trigger] spans_from(s, i)[l]).0,
        forall|k: int, j: int|
            0 <= k < spans_from(s, i).len() && (#[trigger] spans_from(s, i)[k]).0 <= j < spans_from(
                s,
                i,
            )[k].1 ==> #[trigger] s[j] != '/',
    decreases s.len() - i,
{
    if i < s.len() {
        if s[i] == '/' {
            lemma_spans_from(s, i + 1);
            assert(spans_from(s, i) == spans_from(s, i + 1));
        } else {
            let f = text::is_char('/');
            let e = text::first_where(s, f, i);
            text::lemma_first_where(s, f, i);
            lemma_spans_from(s, e);
            let rest = spans_from(s, e);
            if e < s.len() {
                assert(f(s[e]));
            }
            if i > 0 && e == i + 1 && s[i] == '.' {
                assert(spans_from(s, i) == rest);
            } else {
                let all = spans_from(s, i);
                assert(all =~= seq![(i, e)] + rest);
                assert forall|k: int| 0 <= k < all.len() implies i <= (#[trigger] all[k]).0
                    < all[k].1 <= s.len() by {
                    if k > 0 {
                        assert(all[k] == rest[k - 1]);
                    }
                }
                assert forall|k: int, l: int| 0 <= k < l < all.len() implies (
                #[trigger] all[k]).1 < (#[trigger] all[l]).0 by {
                    assert(all[l] == rest[l - 1]);
                    if k > 0 {
                        assert(all[k] == rest[k - 1]);
                    } else {
                        assert(s[rest[l - 1].0] != '/');
                    }
                }
                assert forall|k: int, j: int|
                    0 <= k < all.len() && (#[trigger] all[k]).0 <= j < all[k].1 implies
                    #[trigger] s[j] != '/' by {
                    if k > 0 {
                        assert(all[k] == rest[k - 1]);
                    } else {
                        assert(!f(s[j]));
                    }
                }
            }
        }
    }
}

/// Cut at a separator, a path keeps exactly the components that end before the cut.
proof fn lemma_spans_of_cut(s: Seq<char>, m: int, i: int)
    requires
        0 <= i <= m <= s.len(),
        m < s.len() ==> s[m] == '/',
    ensures
        spans_from(s.take(m), i).len() <= spans_from(s, i).len(),
        spans_from(s.take(m), i) == spans_from(s, i).take(spans_from(s.take(m), i).len() as int),
        spans_from(s.take(m), i).len() < spans_from(s, i).len() ==> spans_from(
            s,
            i,
        )[spans_from(s.take(m), i).len() as int].0 >= m,
    decreases m - i,
{
    let t = s.take(m);
    let a = spans_from(t, i);
    let b = spans_from(s, i);
    if i == m {
        lemma_spans_from(s, i);
        assert(a =~= b.take(0));
    } else if s[i] == '/' {
        lemma_spans_of_cut(s, m, i + 1);
        assert(a == spans_from(t, i + 1));
        assert(b == spans_from(s, i + 1));
    } else {
        let f = text::is_char('/');
        let e = text::first_where(s, f, i);
        text::lemma_first_where(s, f, i);
        if e > m {
            assert(!f(s[m]));
        }
        assert(t[i] == s[i]);
        assert forall|j: int| i <= j < e implies !f(#[trigger] t[j]) by {
            assert(t[j] == s[j]);
        }
        if e < m {
            assert(f(s[e]));
            assert(t[e] == s[e]);
        }
        text::lemma_first_where_is(t, f, i, e);
        lemma_spans_of_cut(s, m, e);
        let ra = spans_from(t, e);
        let rb = spans_from(s, e);
        if i > 0 && e == i + 1 && s[i] == '.' {
            assert(a == ra);
            assert(b == rb);
        } else {
            assert(a =~= seq![(i, e)] + ra);
            assert(b =~= seq![(i, e)] + rb);
            assert(a =~= b.take(a.len() as int));
            assert(a.len() < b.len() ==> b[a.len() as int] == rb[ra.len() as int]);
        }
    }
}

/// The directory that the first `k` components of a path lead to has exactly those
/// components, and starts at the root where the path does.
pub proof fn lemma_ancestor_components(s: Seq<char>, k: int)
    requires
        0 <= k <= components(s).len(),
    ensures
        components(ancestor(s, k)) == components(s).take(k),
        absolute(ancestor(s, k)) == absolute(s),
{
    let n = spans(s).len() as int;
    lemma_spans_from(s, 0);
    if k == n {
        assert(components(s).take(k) =~= components(s));
    } else if k > 0 {
        let m = spans(s)[k - 1].1;
        let t = s.take(m);
        let a = spans(t);
        let b = spans(s);
        lemma_cut_keeps(s, k);
        assert forall|j: int| 0 <= j < k implies #[trigger] components(t)[j] == components(
            s,
        ).take(k)[j] by {
            assert(a[j] == b[j]);
            assert(t.subrange(a[j].0, a[j].1) =~= s.subrange(b[j].0, b[j].1));
        }
        assert(components(t) =~= components(s).take(k));
        assert(m > 0);
        assert(t[0] == s[0]);
    } else if absolute(s) {
        let t = s.take(1);
        assert(spans_from(t, 1) =~= Seq::<(int, int)>::empty());
        assert(t[0] == '/');
        assert(spans_from(t, 0) == spans_from(t, 1));
        assert(components(t) =~= components(s).take(0));
    } else {
        assert(components(Seq::<char>::empty()) =~= components(s).take(0));
    }
}

/// Scanning from where the component `k` starts finds the components from `k` on.
proof fn lemma_spans_from_component(s: Seq<char>, i: int, k: int)
    requires
        0 <= i,
        0 <= k < spans_from(s, i).len(),
    ensures
        spans_from(s, spans_from(s, i)[k].0) == spans_from(s, i).skip(k),
        spans_from(s, i)[k].0 < s.len(),
    decreases s.len() - i,
{
    if s[i] == '/' {
        lemma_spans_from_component(s, i + 1, k);
        assert(spans_from(s, i) == spans_from(s, i + 1));
    } else {
        let f = text::is_char('/');
        let e = text::first_where(s, f, i);
        text::lemma_first_where(s, f, i);
        if i > 0 && e == i + 1 && s[i] == '.' {
            lemma_spans_from_component(s, e, k);
            assert(spans_from(s, i) == spans_from(s, e));
        } else {
            let rest = spans_from(s, e);
            assert(spans_from(s, i) =~= seq![(i, e)] + rest);
            if k > 0 {
                assert(spans_from(s, i)[k] == rest[k - 1]);
                lemma_spans_from_component(s, e, k - 1);
                assert(rest.skip(k - 1) =~= spans_from(s, i).skip(k));
            } else {
                assert(spans_from(s, i).skip(0) =~= spans_from(s, i));
            }
        }
    }
}

/// Where spans come to stand when the text before `a` is left out.
spec fn shifted(v: Seq<(int, int)>, a: int) -> Seq<(int, int)> {
    v.map_values(|p: (int, int)| (p.0 - a, p.1 - a))
}

/// Leaving out the text before `a` shifts the components after it.
proof fn lemma_spans_of_rest(s: Seq<char>, a: int, i: int)
    requires
        0 <= a < i <= s.len(),
    ensures
        spans_from(s.skip(a), i - a) == shifted(spans_from(s, i), a),
    decreases s.len() - i,
{
    let t = s.skip(a);
    if i == s.len() {
        assert(spans_from(t, i - a) =~= shifted(spans_from(s, i), a));
    } else if s[i] == '/' {
        lemma_spans_of_rest(s, a, i + 1);
        assert(t[i - a] == s[i]);
        assert(spans_from(t, i - a) == spans_from(t, i + 1 - a));
        assert(spans_from(s, i) == spans_from(s, i + 1));
    } else {
        let f = text::is_char('/');
        let e = text::first_where(s, f, i);
        text::lemma_first_where(s, f, i);
        lemma_first_where_of_rest(s, a, i);
        assert(t[i - a] == s[i]);
        lemma_spans_of_rest(s, a, e);
        if e == i + 1 && s[i] == '.' {
            assert(spans_from(t, i - a) == spans_from(t, e - a));
            assert(spans_from(s, i) == spans_from(s, e));
        } else {
            assert(spans_from(t, i - a) =~= shifted(spans_from(s, i), a));
        }
    }
}

/// Leaving out the text before `a` shifts the next separator.
proof fn lemma_first_where_of_rest(s: Seq<char>, a: int, i: int)
    requires
        0 <= a <= i <= s.len(),
    ensures
        text::first_where(s.skip(a), text::is_char('/'), i - a) == text::first_where(
            s,
            text::is_char('/'),
            i,
        ) - a,
{
    let f = text::is_char('/');
    let t = s.skip(a);
    let e = text::first_where(s, f, i);
    text::lemma_first_where(s, f, i);
    assert forall|j: int| i - a <= j < e - a implies !f(#[trigger] t[j]) by {
        assert(t[j] == s[j + a]);
    }
    if e < s.len() {
        assert(t[e - a] == s[e]);
        assert(f(s[e]));
    }
    text::lemma_first_where_is(t, f, i - a, e - a);
}

/// The text from one component to another has exactly the components between them, and
/// is relative.
pub proof fn lemma_between_components(s: Seq<char>, i: int, j: int)
    requires
        0 <= i < j <= components(s).len(),
    ensures
        components(between(s, i, j)) == components(s).subrange(i, j),
        !absolute(between(s, i, j)),
{
    lemma_spans_from(s, 0);
    let a = spans(s)[i].0;
    let b = spans(s)[j - 1].1;
    assert(i < j - 1 ==> spans(s)[i].1 < spans(s)[j - 1].0);
    let u = s.take(b);
    lemma_ancestor_components(s, j);
    lemma_end_is_separator(s, 0, j - 1);
    lemma_spans_of_cut(s, b, 0);
    lemma_cut_keeps(s, j);
    assert(spans(u) == spans(s).take(j));
    assert(spans(u)[i] == spans(s)[i]);
    lemma_spans_from_component(u, 0, i);
    assert(spans_from(u, a) == spans(u).skip(i));
    let t = u.skip(a);
    assert(t =~= between(s, i, j));
    let f = text::is_char('/');
    let e = text::first_where(u, f, a);
    text::lemma_first_where(u, f, a);
    assert(u[a] == s[a]);
    assert(s[a] != '/');
    assert(t[0] == u[a]);
    lemma_first_where_of_rest(u, a, a);
    lemma_spans_of_rest(u, a, e);
    assert(spans(u).skip(i)[0] == spans(u)[i]);
    if a > 0 && e == a + 1 && u[a] == '.' {
        lemma_spans_from(u, e);
        assert(spans_from(u, a) == spans_from(u, e));
        assert(spans_from(u, e)[0].0 >= e);
        assert(false);
    }
    assert(spans_from(u, a) =~= seq![(a, e)] + spans_from(u, e));
    assert(spans(t) =~= shifted(spans(u).skip(i), a));
    assert(components(t).len() == j - i);
    assert forall|k: int| 0 <= k < j - i implies #[trigger] components(t)[k] == components(
        s,
    ).subrange(i, j)[k] by {
        assert(spans(t)[k] == shifted(spans(u).skip(i), a)[k]);
        assert(spans(u).skip(i)[k] == spans(s)[i + k]);
        let sp = spans(s)[i + k];
        assert(k > 0 ==> spans(s)[i].1 < sp.0);
        assert(i + k < j - 1 ==> sp.1 < spans(s)[j - 1].0);
        assert(t.subrange(sp.0 - a, sp.1 - a) =~= s.subrange(sp.0, sp.1));
    }
    assert(components(t) =~= components(s).subrange(i, j));
}

/// A path cut at the end of its component `k - 1` keeps its first `k` components where
/// they stood.
proof fn lemma_cut_keeps(s: Seq<char>, k: int)
    requires
        0 < k <= spans(s).len(),
    ensures
        spans(s.take(spans(s)[k - 1].1)) == spans(s).take(k),
{
    lemma_spans_from(s, 0);
    let m = spans(s)[k - 1].1;
    lemma_end_is_separator(s, 0, k - 1);
    lemma_spans_of_cut(s, m, 0);
    let t = s.take(m);
    let a = spans(t);
    let b = spans(s);
    lemma_spans_from(t, 0);
    if a.len() < k {
        assert(b[a.len() as int].0 >= m);
        assert(b[a.len() as int].1 > m);
        assert(a.len() == k - 1 || b[a.len() as int].1 < b[k - 1].0);
        assert(false);
    }
    if a.len() > k {
        assert(a[k] == b[k]);
        assert(a[k].1 <= m);
        assert(b[k - 1].1 < b[k].0);
        assert(false);
    }
}

/// A component ends at a separator or at the end of the text.
proof fn lemma_end_is_separator(s: Seq<char>, i: int, k: int)
    requires
        0 <= i,
        0 <= k < spans_from(s, i).len(),
    ensures
        spans_from(s, i)[k].1 < s.len() ==> s[spans_from(s, i)[k].1] == '/',
    decreases s.len() - i,
{
    if s[i] == '/' {
        lemma_end_is_separator(s, i + 1, k);
    } else {
        let f = text::is_char('/');
        let e = text::first_where(s, f, i);
        text::lemma_first_where(s, f, i);
        if e < s.len() {
            assert(f(s[e]));
        }
        if i > 0 && e == i + 1 && s[i] == '.' {
            lemma_end_is_separator(s, e, k);
        } else if k > 0 {
            assert(spans_from(s, i)[k] == spans_from(s, e)[k - 1]);
            lemma_end_is_separator(s, e, k - 1);
        }
    }
}

/// Where the components of `v` stand.
pub fn find_spans(v: &Vec<char>) -> (r: Vec<Span>)
    ensures
        span_views(r@) == spans(v@),
        forall|k: int| 0 <= k < r@.len() ==> (#[trigger] r@[k]).start < r@[k].end <= v@.len(),
        forall|k: int, l: int|
            0 <= k < l < r@.len() ==> (#[trigger] r@[k]).end < (#[trigger] r@[l]).start,
{
    let mut r: Vec<Span> = Vec::new();
    let mut i: usize = 0;
    proof {
        assert(span_views(r@) =~= Seq::<(int, int)>::empty());
        assert(span_views(r@) + spans(v@) =~= spans(v@));
    }
    while i < v.len()
        invariant
            0 <= i <= v@.len(),
            span_views(r@) + spans_from(v@, i as int) == spans(v@),
        decreases v@.len() - i,
    {
        if v[i] == '/' {
            i = i + 1;
        } else {
            let e: usize = text::position_char(v, '/', i);
            let ghost before = span_views(r@);
            let ghost at = i as int;
            proof {
                text::lemma_first_where(v@, text::is_char('/'), i as int);
            }
            if !(i > 0 && e - i == 1 && v[i] == '.') {
                r.push(Span { start: i, end: e });
                proof {
                    assert(span_views(r@) =~= before.push((at, e as int)));
                    assert(span_views(r@) + spans_from(v@, e as int) =~= before + spans_from(v@, at));
                }
            }
            i = e;
        }
    }
    proof {
        assert(spans_from(v@, i as int) =~= Seq::<(int, int)>::empty());
        assert(span_views(r@) + spans_from(v@, i as int) =~= span_views(r@));
        lemma_spans_from(v@, 0);
        assert forall|k: int| 0 <= k < r@.len() implies (#[trigger] r@[k]).start < r@[k].end
            <= v@.len() by {
            assert(spans(v@)[k] == span_views(r@)[k]);
        }
        assert forall|k: int, l: int| 0 <= k < l < r@.len() implies (#[trigger] r@[k]).end < (
        #[trigger] r@[l]).start by {
            assert(spans(v@)[k] == span_views(r@)[k]);
            assert(spans(v@)[l] == span_views(r@)[l]);
        }
    }
    r
}

/// The components of the path `s`.
pub fn split_components(s: &str) -> (r: Vec<String>)
    ensures
        text::views(r@) == components(s@),
{
    let v = text::to_chars(s);
    let found = find_spans(&v);
    let mut r: Vec<String> = Vec::new();
    let mut i: usize = 0;
    while i < found.len()
        invariant
            0 <= i <= found@.len(),
            v@ == s@,
            span_views(found@) == spans(s@),
            forall|k: int|
                0 <= k < found@.len() ==> (#[trigger] found@[k]).start < found@[k].end <= v@.len(),
            text::views(r@) == components(s@).take(i as int),
        decreases found@.len() - i,
    {
        let at = found[i];
        let piece = text::from_chars(&v, at.start, at.end);
        let ghost old_views = text::views(r@);
        proof {
            assert(spans(s@)[i as int] == span_views(found@)[i as int]);
            assert(components(s@)[i as int] == piece@);
        }
        r.push(piece);
        i = i + 1;
        proof {
            assert(text::views(r@) =~= old_views.push(piece@));
            assert(components(s@).take(i as int) =~= components(s@).take(i - 1).push(
                components(s@)[i - 1],
            ));
        }
    }
    proof {
        assert(components(s@).take(i as int) =~= components(s@));
    }
    r
}

/// What tells the path `s` apart: its root, if any, and its components.
pub fn split_parts(s: &str) -> (r: Vec<String>)
    ensures
        text::views(r@) == parts(s@),
{
    let v = text::to_chars(s);
    let mut tail = split_components(s);
    if v.len() > 0 && v[0] == '/' {
        let mut r: Vec<String> = Vec::new();
        let mut root = String::new();
        root.push('/');
        let ghost tail_views = text::views(tail@);
        proof {
            assert(root@ =~= seq!['/']);
        }
        r.push(root);
        r.append(&mut tail);
        proof {
            assert(text::views(r@) =~= seq![seq!['/']] + tail_views);
        }
        r
    } else {
        tail
    }
}

/// The directory that the first `k` components of `v` lead to.
pub fn ancestor_at(v: &Vec<char>, found: &Vec<Span>, k: usize) -> (r: String)
    requires
        span_views(found@) == spans(v@),
    ensures
        r@ == ancestor(v@, k as int),
{
    proof {
        assert(found@.len() == spans(v@).len());
    }
    if k >= found.len() {
        proof {
            assert(v@.subrange(0, v@.len() as int) =~= v@);
        }
        text::from_chars(v, 0, v.len())
    } else if k > 0 {
        proof {
            lemma_spans_from(v@, 0);
            assert(spans(v@)[k - 1] == span_views(found@)[k - 1]);
            assert(v@.subrange(0, found@[k - 1].end as int) =~= v@.take(
                found@[k - 1].end as int,
            ));
        }
        text::from_chars(v, 0, found[k - 1].end)
    } else if v.len() > 0 && v[0] == '/' {
        proof {
            assert(v@.subrange(0, 1) =~= v@.take(1));
        }
        text::from_chars(v, 0, 1)
    } else {
        String::new()
    }
}

/// The entry `name` of the directory `dir`.
pub fn join(dir: &str, name: &str) -> (r: String)
    ensures
        r@ == joined(dir@, name@),
{
    let v = text::to_chars(dir);
    let mut r = dir.to_owned();
    if v.len() > 0 && v[v.len() - 1] != '/' {
        r.push('/');
    }
    r.append(name);
    r
}

/// The last component, where it is a name.
pub fn file_name(s: &str) -> (r: Option<String>)
    ensures
        r.deep_view() == file_name_of(s@),
{
    let c = split_components(s);
    proof {
        assert(c@.len() == components(s@).len());
    }
    if c.len() == 0 {
        return None;
    }
    let last = &c[c.len() - 1];
    proof {
        assert(text::views(c@)[c@.len() - 1] == last@);
        reveal_strlit(".");
        reveal_strlit("..");
        assert("."@ =~= seq!['.']);
        assert(".."@ =~= seq!['.', '.']);
    }
    if text::same(last.as_str(), ".") || text::same(last.as_str(), "..") {
        None
    } else {
        Some(last.clone())
    }
}

/// The text of `v` from its component `i` up to and with its component `j - 1`.
pub fn text_between(v: &Vec<char>, found: &Vec<Span>, i: usize, j: usize) -> (r: String)
    requires
        span_views(found@) == spans(v@),
        i < j <= found@.len(),
    ensures
        r@ == between(v@, i as int, j as int),
{
    proof {
        lemma_spans_from(v@, 0);
        assert(spans(v@)[i as int] == span_views(found@)[i as int]);
        assert(spans(v@)[j - 1] == span_views(found@)[j - 1]);
        assert(found@.len() == spans(v@).len());
        assert(i < j - 1 ==> spans(v@)[i as int].1 < spans(v@)[j - 1].0);
    }
    text::from_chars(v, found[i].start, found[j - 1].end)
}

// ---------------------------------------------------------------------------------
// Sameness and order.
// ---------------------------------------------------------------------------------

/// Whether `a` and `b` name the same path.
pub open spec fn same_path(a: Seq<char>, b: Seq<char>) -> bool {
    parts(a) == parts(b)
}

/// Where a part stands among parts of other sorts: the root first, then `.`, then
/// `..`, then names.
pub open spec fn rank(p: Seq<char>) -> int {
    if p == seq!['/'] {
        0
    } else if p == seq!['.'] {
        1
    } else if p == seq!['.', '.'] {
        2
    } else {
        3
    }
}

/// Whether the part `p` stands before the part `q`.
pub open spec fn part_before(p: Seq<char>, q: Seq<char>) -> bool {
    rank(p) < rank(q) || (rank(p) == rank(q) && text::before(p, q))
}

/// Whether the parts `a` stand before the parts `b`, compared part by part.
pub open spec fn parts_before(a: Seq<Seq<char>>, b: Seq<Seq<char>>) -> bool
    decreases a.len(),
{
    if b.len() == 0 {
        false
    } else if a.len() == 0 {
        true
    } else if a[0] != b[0] {
        part_before(a[0], b[0])
    } else {
        parts_before(a.skip(1), b.skip(1))
    }
}

/// Whether the path `a` stands before the path `b`.
pub open spec fn path_before(a: Seq<char>, b: Seq<char>) -> bool {
    parts_before(parts(a), parts(b))
}

/// Nothing stands before itself.
pub proof fn lemma_parts_before_irreflexive(a: Seq<Seq<char>>)
    ensures
        !parts_before(a, a),
    decreases a.len(),
{
    if a.len() > 0 {
        lemma_parts_before_irreflexive(a.skip(1));
    }
}

/// Of two different lists of parts exactly one stands before the other.
pub proof fn lemma_parts_before_total(a: Seq<Seq<char>>, b: Seq<Seq<char>>)
    ensures
        parts_before(a, b) || parts_before(b, a) || a == b,
        !(parts_before(a, b) && parts_before(b, a)),
    decreases a.len(),
{
    if a.len() > 0 && b.len() > 0 {
        if a[0] == b[0] {
            lemma_parts_before_total(a.skip(1), b.skip(1));
            if a.skip(1) == b.skip(1) {
                assert(a =~= seq![a[0]] + a.skip(1));
                assert(b =~= seq![b[0]] + b.skip(1));
            }
        } else {
            text::lemma_before_total(a[0], b[0]);
        }
    } else if a.len() == 0 && b.len() == 0 {
        assert(a =~= b);
    }
}

/// The order of parts is transitive.
pub proof fn lemma_part_before_transitive(p: Seq<char>, q: Seq<char>, r: Seq<char>)
    requires
        part_before(p, q),
        part_before(q, r),
    ensures
        part_before(p, r),
        p != r,
{
    if rank(p) == rank(q) && rank(q) == rank(r) {
        text::lemma_before_transitive(p, q, r);
    }
    if p == r {
        text::lemma_before_irreflexive(p);
    }
}

/// The order of lists of parts is transitive.
pub proof fn lemma_parts_before_transitive(
    a: Seq<Seq<char>>,
    b: Seq<Seq<char>>,
    c: Seq<Seq<char>>,
)
    requires
        parts_before(a, b),
        parts_before(b, c),
    ensures
        parts_before(a, c),
    decreases a.len(),
{
    if a.len() > 0 {
        if a[0] == b[0] && b[0] == c[0] {
            lemma_parts_before_transitive(a.skip(1), b.skip(1), c.skip(1));
        } else if a[0] != b[0] && b[0] != c[0] {
            lemma_part_before_transitive(a[0], b[0], c[0]);
        }
    }
}

/// Whether two paths are the same.
pub fn is_same_path(a: &str, b: &str) -> (r: bool)
    ensures
        r == same_path(a@, b@),
{
    let x = split_parts(a);
    let y = split_parts(b);
    proof {
        assert(x@.len() == parts(a@).len());
        assert(y@.len() == parts(b@).len());
    }
    if x.len() != y.len() {
        return false;
    }
    let mut i: usize = 0;
    while i < x.len()
        invariant
            0 <= i <= x@.len(),
            x@.len() == y@.len(),
            text::views(x@) == parts(a@),
            text::views(y@) == parts(b@),
            forall|k: int| 0 <= k < i ==> parts(a@)[k] == parts(b@)[k],
        decreases x@.len() - i,
    {
        proof {
            assert(text::views(x@)[i as int] == x@[i as int]@);
            assert(text::views(y@)[i as int] == y@[i as int]@);
        }
        if !text::same(x[i].as_str(), y[i].as_str()) {
            return false;
        }
        i = i + 1;
    }
    proof {
        assert(parts(a@) =~= parts(b@));
    }
    true
}

/// Where a part stands among parts of other sorts.
fn rank_of(p: &str) -> (r: u8)
    ensures
        r == rank(p@),
{
    proof {
        reveal_strlit("/");
        reveal_strlit(".");
        reveal_strlit("..");
        assert("/"@ =~= seq!['/']);
        assert("."@ =~= seq!['.']);
        assert(".."@ =~= seq!['.', '.']);
    }
    if text::same(p, "/") {
        0
    } else if text::same(p, ".") {
        1
    } else if text::same(p, "..") {
        2
    } else {
        3
    }
}

/// Whether the path `a` stands before the path `b`.
pub fn is_path_before(a: &str, b: &str) -> (r: bool)
    ensures
        r == path_before(a@, b@),
{
    let x = split_parts(a);
    let y = split_parts(b);
    let ghost xs = parts(a@);
    let ghost ys = parts(b@);
    let mut i: usize = 0;
    proof {
        assert(xs.skip(0) =~= xs);
        assert(ys.skip(0) =~= ys);
        assert(x@.len() == xs.len());
        assert(y@.len() == ys.len());
    }
    while i < x.len() && i < y.len()
        invariant
            0 <= i <= x@.len(),
            i <= y@.len(),
            x@.len() == xs.len(),
            y@.len() == ys.len(),
            xs == parts(a@),
            ys == parts(b@),
            text::views(x@) == xs,
            text::views(y@) == ys,
            path_before(a@, b@) == parts_before(xs.skip(i as int), ys.skip(i as int)),
        decreases x@.len() - i,
    {
        proof {
            assert(text::views(x@)[i as int] == x@[i as int]@);
            assert(text::views(y@)[i as int] == y@[i as int]@);
            assert(xs.skip(i as int).skip(1) =~= xs.skip(i + 1));
            assert(ys.skip(i as int).skip(1) =~= ys.skip(i + 1));
        }
        if !text::same(x[i].as_str(), y[i].as_str()) {
            let p: u8 = rank_of(x[i].as_str());
            let q: u8 = rank_of(y[i].as_str());
            return p < q || (p == q && text::is_before(x[i].as_str(), y[i].as_str()));
        }
        i = i + 1;
    }
    i < y.len()
}

} // verus!
