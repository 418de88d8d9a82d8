//! Texts, numbers and paths: what taking them apart gives back.
use crate::numeral;
use crate::text;
use vstd::prelude::*;

verus! {

/// White space is what Unicode calls so; among the first 128 characters these are the
/// space and the five from tab to carriage return.
pub proof fn lemma_white_space(c: char)
    ensures
        (c as u32) < 0x80 ==> (text::is_space(c) <==> c == ' ' || c == '\t' || c == '\n' || c
            == '\r' || c as u32 == 11 || c as u32 == 12),
        (c as u32) >= 0x80 ==> (text::is_space(c) <==> seq![
            0x85u32,
            0xa0,
            0x1680,
            0x2000,
            0x2001,
            0x2002,
            0x2003,
            0x2004,
            0x2005,
            0x2006,
            0x2007,
            0x2008,
            0x2009,
            0x200a,
            0x2028,
            0x2029,
            0x202f,
            0x205f,
            0x3000,
        ].contains(c as u32)),
{
    let v = seq![
        0x85u32,
        0xa0,
        0x1680,
        0x2000,
        0x2001,
        0x2002,
        0x2003,
        0x2004,
        0x2005,
        0x2006,
        0x2007,
        0x2008,
        0x2009,
        0x200a,
        0x2028,
        0x2029,
        0x202f,
        0x205f,
        0x3000,
    ];
    let u = c as u32;
    assert(v[0] == 0x85 && v[1] == 0xa0 && v[2] == 0x1680);
    assert(v[14] == 0x2028 && v[15] == 0x2029 && v[16] == 0x202f && v[17] == 0x205f && v[18]
        == 0x3000);
    if 0x2000 <= u <= 0x200a {
        assert(v[u - 0x2000 + 3] == u);
    }
}

/// A text ends or begins with another exactly where it is that other with something put
/// before or after it.
pub proof fn lemma_ends_of_text(a: Seq<char>, b: Seq<char>, s: Seq<char>, p: Seq<char>)
    ensures
        text::has_prefix(a + b, a),
        text::has_suffix(a + b, b),
        text::has_prefix(s, p) ==> s == p + s.skip(p.len() as int),
        text::has_suffix(s, p) ==> s == s.take(s.len() - p.len()) + p,
{
    assert((a + b).take(a.len() as int) =~= a);
    assert((a + b).skip((a + b).len() - b.len()) =~= b);
    if text::has_prefix(s, p) {
        assert(s =~= p + s.skip(p.len() as int));
    }
    if text::has_suffix(s, p) {
        assert(s =~= s.take(s.len() - p.len()) + p);
    }
}

/// Cutting a text at the first character of some sort, and putting it together again.
pub proof fn lemma_cut_at_first(s: Seq<char>, f: spec_fn(char) -> bool)
    ensures
        match text::split_at_first(s, f) {
            Some((a, b)) => a.len() < s.len() && f(s[a.len() as int]) && s == a.push(
                s[a.len() as int],
            ) + b && forall|i: int| 0 <= i < a.len() ==> !f(#[trigger] a[i]),
            None => forall|i: int| 0 <= i < s.len() ==> !f(#[trigger] s[i]),
        },
{
    text::lemma_first_where(s, f, 0);
    let i = text::first_where(s, f, 0);
    if i < s.len() {
        let c = s[i];
        let (a, b) = (s.take(i), s.skip(i + 1));
        assert(text::split_at_first(s, f) == Some((a, b)));
        assert(s =~= a.push(c) + b);
        assert forall|k: int| 0 <= k < a.len() implies !f(#[trigger] a[k]) by {
            assert(!f(s[k]));
        }
    }
}

/// Cutting a text at its last character of some sort, and putting it together again.
#[verifier::rlimit(60)]
pub proof fn lemma_cut_at_last(s: Seq<char>, c: char)
    ensures
        match text::split_at_last(s, c) {
            Some((a, b)) => s == a.push(c) + b && !b.contains(c),
            None => !s.contains(c),
        },
    decreases s.len(),
{
    if s.len() > 0 {
        let front = s.drop_last();
        lemma_cut_at_last(front, c);
        let i = text::last_char(s, c);
        if s.last() == c {
            assert(s =~= s.take(i).push(c) + s.skip(i + 1));
        } else if i >= 0 {
            lemma_last_char_range(front, c);
            assert(s[i] == c);
            let (a, b) = (front.take(i), front.skip(i + 1));
            assert(s.take(i) =~= a);
            assert(s.skip(i + 1) =~= b.push(s.last()));
            assert(s =~= s.take(i).push(c) + s.skip(i + 1));
            if s.skip(i + 1).contains(c) {
                let t = s.skip(i + 1);
                let k = choose|k: int| 0 <= k < t.len() && t[k] == c;
                assert(k < b.len());
                assert(b[k] == c);
            }
        } else if s.contains(c) {
            let k = choose|k: int| 0 <= k < s.len() && s[k] == c;
            assert(front[k] == c);
        }
    }
}

/// Where the last such character stands.
proof fn lemma_last_char_range(s: Seq<char>, c: char)
    ensures
        -1 <= text::last_char(s, c) < s.len(),
        text::last_char(s, c) >= 0 ==> s[text::last_char(s, c)] == c,
    decreases s.len(),
{
    if s.len() > 0 && s.last() != c {
        lemma_last_char_range(s.drop_last(), c);
    }
}

/// Putting two texts together with a character between them, and cutting at it again:
/// from the front where the first does not hold it, from the back where the second does
/// not.
#[verifier::rlimit(60)]
pub proof fn lemma_cut_again(a: Seq<char>, c: char, b: Seq<char>)
    ensures
        !a.contains(c) ==> text::split_at_first(a.push(c) + b, text::is_char(c)) == Some((a, b)),
        !b.contains(c) ==> text::split_at_last(a.push(c) + b, c) == Some((a, b)),
        !a.contains(c) ==> text::split_on(a.push(c) + b, c) == seq![a] + text::split_on(b, c),
        !a.contains(c) ==> text::split_on(a, c) == seq![a],
        !a.contains(c) ==> text::split_at_first(a, text::is_char(c)) is None,
        !a.contains(c) ==> text::split_at_last(a, c) is None,
{
    let s = a.push(c) + b;
    let f = text::is_char(c);
    let n = a.len() as int;
    if !a.contains(c) {
        assert forall|j: int| 0 <= j < n implies !f(#[trigger] s[j]) by {
            assert(s[j] == a[j]);
        }
        text::lemma_first_where_is(s, f, 0, n);
        assert(s.take(n) =~= a);
        assert(s.skip(n + 1) =~= b);
        assert forall|j: int| 0 <= j < n implies !f(#[trigger] a[j]) by {
            if a[j] == c {
                assert(a.contains(c));
            }
        }
        text::lemma_first_where_is(a, f, 0, n);
        lemma_cut_at_last(a, c);
        match text::split_at_last(a, c) {
            Some((x, y)) => {
                assert(a[x.len() as int] == c);
            },
            None => {},
        }
    }
    if !b.contains(c) {
        lemma_cut_at_last(s, c);
        match text::split_at_last(s, c) {
            Some((x, y)) => {
                let t = x.push(c) + y;
                if y.len() > b.len() {
                    assert(t[n] == s[n]);
                    assert(y[n - x.len() - 1] == c);
                } else if y.len() < b.len() {
                    assert(t[x.len() as int] == c);
                    assert(s[x.len() as int] == b[x.len() - n - 1]);
                }
                assert(x.len() == n);
                assert(x =~= a) by {
                    assert forall|j: int| 0 <= j < n implies x[j] == a[j] by {
                        assert(t[j] == s[j]);
                    }
                }
                assert(y =~= b) by {
                    assert forall|j: int| 0 <= j < b.len() implies y[j] == b[j] by {
                        assert(t[j + n + 1] == s[j + n + 1]);
                    }
                }
            },
            None => {
                assert(s[n] == c);
            },
        }
    }
}

/// Texts with a character put between each two of them.
pub open spec fn joined_by(parts: Seq<Seq<char>>, c: char) -> Seq<char>
    decreases parts.len(),
{
    if parts.len() == 0 {
        Seq::empty()
    } else if parts.len() == 1 {
        parts[0]
    } else {
        parts[0].push(c) + joined_by(parts.skip(1), c)
    }
}

/// Splitting a text at every such character leaves none of them, and putting it between
/// the parts again gives the text.
pub proof fn lemma_split_and_join(s: Seq<char>, c: char)
    ensures
        text::split_on(s, c).len() > 0,
        joined_by(text::split_on(s, c), c) == s,
        forall|i: int|
            0 <= i < text::split_on(s, c).len() ==> !(#[trigger] text::split_on(s, c)[i]).contains(
                c,
            ),
    decreases s.len(),
{
    let f = text::is_char(c);
    text::lemma_first_where(s, f, 0);
    let i = text::first_where(s, f, 0);
    let parts = text::split_on(s, c);
    if i < s.len() {
        let rest = s.skip(i + 1);
        lemma_split_and_join(rest, c);
        let more = text::split_on(rest, c);
        assert(parts =~= seq![s.take(i)] + more);
        assert(parts.skip(1) =~= more);
        assert(s =~= s.take(i).push(c) + rest);
        assert forall|k: int| 0 <= k < parts.len() implies !(#[trigger] parts[k]).contains(c) by {
            if k > 0 {
                assert(parts[k] == more[k - 1]);
            } else if parts[0].contains(c) {
                let t = s.take(i);
                let j = choose|j: int| 0 <= j < t.len() && t[j] == c;
                assert(f(s[j]));
            }
        }
    } else {
        if s.contains(c) {
            let j = choose|j: int| 0 <= j < s.len() && s[j] == c;
            assert(f(s[j]));
        }
    }
}

/// A text of lines is read line by line: a line break ends a line, a carriage return
/// right before it belongs to it, and what follows the last line break is a line too
/// unless it is empty.
pub proof fn lemma_lines(line: Seq<char>, rest: Seq<char>)
    requires
        !line.contains('\n'),
    ensures
        line.len() == 0 || line.last() != '\r' ==> text::lines_of(line.push('\n') + rest)
            == seq![line] + text::lines_of(rest),
        text::lines_of(line.push('\r').push('\n') + rest) == seq![line] + text::lines_of(rest),
        line.len() > 0 ==> text::lines_of(line) == seq![line],
        text::lines_of(Seq::empty()) == Seq::<Seq<char>>::empty(),
{
    let f = text::is_char('\n');
    assert forall|j: int| 0 <= j < line.len() implies !f(#[trigger] line[j]) by {
        if line[j] == '\n' {
            assert(line.contains('\n'));
        }
    }
    let s = line.push('\n') + rest;
    assert forall|j: int| 0 <= j < line.len() implies !f(#[trigger] s[j]) by {
        assert(s[j] == line[j]);
    }
    text::lemma_first_where_is(s, f, 0, line.len() as int);
    assert(s.take(line.len() as int) =~= line);
    assert(s.skip(line.len() as int + 1) =~= rest);
    let l2 = line.push('\r');
    let t = l2.push('\n') + rest;
    assert forall|j: int| 0 <= j < l2.len() implies !f(#[trigger] t[j]) by {
        assert(t[j] == l2[j]);
        if j < line.len() {
            assert(l2[j] == line[j]);
        }
    }
    text::lemma_first_where_is(t, f, 0, l2.len() as int);
    assert(t.take(l2.len() as int) =~= l2);
    assert(t.skip(l2.len() as int + 1) =~= rest);
    assert(l2.drop_last() =~= line);
    text::lemma_first_where_is(line, f, 0, line.len() as int);
}

/// Lines, each with a line break behind it.
pub open spec fn written(lines: Seq<Seq<char>>) -> Seq<char>
    decreases lines.len(),
{
    if lines.len() == 0 {
        Seq::empty()
    } else {
        lines[0].push('\n') + written(lines.skip(1))
    }
}

/// Lines that are written and read again are the same lines.
pub proof fn lemma_lines_written_and_read(lines: Seq<Seq<char>>)
    requires
        forall|i: int|
            0 <= i < lines.len() ==> !(#[trigger] lines[i]).contains('\n') && (lines[i].len() > 0
                ==> lines[i].last() != '\r'),
    ensures
        text::lines_of(written(lines)) == lines,
    decreases lines.len(),
{
    if lines.len() > 0 {
        let rest = lines.skip(1);
        assert forall|i: int| 0 <= i < rest.len() implies !(#[trigger] rest[i]).contains('\n') && (
        rest[i].len() > 0 ==> rest[i].last() != '\r') by {
            assert(rest[i] == lines[i + 1]);
        }
        lemma_lines_written_and_read(rest);
        lemma_lines(lines[0], written(rest));
        assert(seq![lines[0]] + rest =~= lines);
    } else {
        lemma_lines(Seq::empty(), Seq::empty());
        assert(lines =~= Seq::empty());
    }
}

/// A field of a line is its first character, which is one of the first 128, and the rest.
pub proof fn lemma_field(tag: char, value: Seq<char>)
    ensures
        (tag as u32) < 0x80 ==> text::tag_and_value(seq![tag] + value) == Some((tag, value)),
        (tag as u32) >= 0x80 ==> text::tag_and_value(seq![tag] + value) is None,
{
    assert((seq![tag] + value).skip(1) =~= value);
}

/// Trimming takes white space off both ends, all of it, and nothing else.
pub proof fn lemma_trimmed(a: Seq<char>, s: Seq<char>, b: Seq<char>)
    requires
        forall|i: int| 0 <= i < a.len() ==> text::is_space(#[trigger] a[i]),
        forall|i: int| 0 <= i < b.len() ==> text::is_space(#[trigger] b[i]),
        s.len() > 0 ==> !text::is_space(s[0]) && !text::is_space(s.last()),
    ensures
        text::trim_of(a + s + b) == s,
        s.len() > 0 ==> text::trim_start_of(a + s + b) == s + b,
{
    let t = a + s + b;
    if s.len() > 0 {
        assert forall|j: int| 0 <= j < a.len() implies text::is_space(#[trigger] t[j]) by {
            assert(t[j] == a[j]);
        }
        assert(t[a.len() as int] == s[0]);
        text::lemma_trim_start(t, a.len() as int);
        assert(t.skip(a.len() as int) =~= s + b);
        let u = s + b;
        assert forall|j: int| s.len() <= j < u.len() implies text::is_space(#[trigger] u[j]) by {
            assert(u[j] == b[j - s.len()]);
        }
        assert(u[s.len() - 1] == s.last());
        text::lemma_trim_end(u, s.len() as int);
        assert(u.take(s.len() as int) =~= s);
    } else {
        assert forall|j: int| 0 <= j < t.len() implies text::is_space(#[trigger] t[j]) by {
            if j < a.len() {
                assert(t[j] == a[j]);
            } else {
                assert(t[j] == b[j - a.len()]);
            }
        }
        text::lemma_trim_start(t, t.len() as int);
        assert(t.skip(t.len() as int) =~= s);
        assert(text::trim_end_of(s) =~= s);
    }
}

/// A capital letter from A to Z becomes the small letter; every other character stays.
pub proof fn lemma_small_letters(s: Seq<char>, i: int)
    requires
        0 <= i < s.len(),
    ensures
        text::lower_of(s).len() == s.len(),
        'A' <= s[i] <= 'Z' ==> text::lower_of(s)[i] as int == s[i] as int + 32,
        !('A' <= s[i] <= 'Z') ==> text::lower_of(s)[i] == s[i],
{
}

/// Where a text stands in another.
#[verifier::opaque]
pub open spec fn occurs(s: Seq<char>, p: Seq<char>, i: int) -> bool {
    0 <= i && i + p.len() <= s.len() && forall|k: int|
        0 <= k < p.len() ==> #[trigger] p[k] == s[i + k]
}

/// A text that begins with another has it at its beginning.
pub proof fn lemma_prefix_occurs(s: Seq<char>, p: Seq<char>)
    ensures
        text::has_prefix(s, p) <==> occurs(s, p, 0),
{
    reveal(occurs);
    if occurs(s, p, 0) {
        assert(s.take(p.len() as int) =~= p);
    }
    if text::has_prefix(s, p) {
        assert forall|k: int| 0 <= k < p.len() implies #[trigger] p[k] == s[0 + k] by {
            assert(s.take(p.len() as int)[k] == s[k]);
        }
    }
}

/// What stands in a text from its second character on stands one further in the whole.
proof fn lemma_occurs_later(s: Seq<char>, p: Seq<char>, j: int)
    requires
        s.len() > 0,
        0 <= j,
    ensures
        occurs(s.skip(1), p, j) <==> occurs(s, p, j + 1),
{
    reveal(occurs);
    let t = s.skip(1);
    if occurs(t, p, j) {
        assert forall|k: int| 0 <= k < p.len() implies #[trigger] p[k] == s[j + 1 + k] by {
            assert(p[k] == t[j + k]);
        }
    }
    if occurs(s, p, j + 1) {
        assert forall|k: int| 0 <= k < p.len() implies #[trigger] p[k] == t[j + k] by {
            assert(p[k] == s[j + 1 + k]);
        }
    }
}

/// Searching gives the first place at which a text stands in another.
pub proof fn lemma_searching(s: Seq<char>, p: Seq<char>, from: int)
    requires
        0 <= from <= s.len(),
    ensures
        match text::find_from(s, p, from) {
            Some(i) => from <= i && occurs(s, p, i) && forall|j: int|
                from <= j < i ==> !(#[trigger] occurs(s, p, j)),
            None => forall|j: int| from <= j ==> !(#[trigger] occurs(s, p, j)),
        },
    decreases s.len() - from,
{
    reveal(occurs);
    lemma_matches_occurs(s, p, from);
    if !text::matches_at(s, p, from) && from < s.len() {
        lemma_searching(s, p, from + 1);
    }
}

/// The place is the same however it is looked at.
proof fn lemma_matches_occurs(s: Seq<char>, p: Seq<char>, i: int)
    requires
        0 <= i,
    ensures
        text::matches_at(s, p, i) <==> occurs(s, p, i),
{
    reveal(occurs);
    if i + p.len() <= s.len() {
        let t = s.subrange(i, i + p.len());
        if occurs(s, p, i) {
            assert(t =~= p);
        }
        if t == p {
            assert forall|k: int| 0 <= k < p.len() implies #[trigger] p[k] == s[i + k] by {
                assert(t[k] == s[i + k]);
            }
        }
    }
}

/// Replacing what does not occur changes nothing.
pub proof fn lemma_nothing_replaced(a: Seq<char>, p: Seq<char>, q: Seq<char>)
    requires
        p.len() > 0,
        forall|j: int| 0 <= j < a.len() ==> !(#[trigger] occurs(a, p, j)),
    ensures
        text::replaced(a, p, q) == a,
    decreases a.len(),
{
    if a.len() > 0 {
        let rest = a.skip(1);
        lemma_prefix_occurs(a, p);
        assert(!occurs(a, p, 0));
        assert forall|j: int| 0 <= j < rest.len() implies !(#[trigger] occurs(rest, p, j)) by {
            lemma_occurs_later(a, p, j);
        }
        lemma_nothing_replaced(rest, p, q);
        assert(a =~= seq![a[0]] + rest);
    }
}

/// What stands at the beginning is replaced.
proof fn lemma_replaced_at_once(b: Seq<char>, p: Seq<char>, q: Seq<char>)
    requires
        p.len() > 0,
    ensures
        text::replaced(p + b, p, q) == q + text::replaced(b, p, q),
{
    let s = p + b;
    assert(s.take(p.len() as int) =~= p);
    assert(s.skip(p.len() as int) =~= b);
}

/// What stands later is replaced later.
proof fn lemma_replaced_later(s: Seq<char>, p: Seq<char>, q: Seq<char>)
    requires
        p.len() > 0,
        s.len() > 0,
        !occurs(s, p, 0),
    ensures
        text::replaced(s, p, q) == seq![s[0]] + text::replaced(s.skip(1), p, q),
{
    lemma_prefix_occurs(s, p);
}

/// Replacing: the first occurrence is replaced, what stands before it stays, and the rest
/// goes on behind it.
#[verifier::rlimit(60)]
pub proof fn lemma_first_replaced(a: Seq<char>, b: Seq<char>, p: Seq<char>, q: Seq<char>)
    requires
        p.len() > 0,
        forall|j: int| 0 <= j < a.len() ==> !(#[trigger] occurs(a + p + b, p, j)),
    ensures
        text::replaced(a + p + b, p, q) == a + q + text::replaced(b, p, q),
    decreases a.len(),
{
    let s = a + p + b;
    let more = text::replaced(b, p, q);
    if a.len() == 0 {
        assert(s =~= p + b);
        lemma_replaced_at_once(b, p, q);
        assert(a + q + more =~= q + more);
    } else {
        let rest = a.skip(1);
        let t = rest + p + b;
        assert(s.skip(1) =~= t);
        assert(s[0] == a[0]);
        assert(!occurs(s, p, 0));
        lemma_replaced_later(s, p, q);
        assert forall|j: int| 0 <= j < rest.len() implies !(#[trigger] occurs(t, p, j)) by {
            lemma_occurs_later(s, p, j);
            assert(!occurs(s, p, j + 1));
        }
        lemma_first_replaced(rest, b, p, q);
        assert(a + q + more =~= seq![a[0]] + (rest + q + more));
    }
}

/// Texts stand in the order of their first difference, and a text before what it begins.
pub proof fn lemma_order_of_texts(c: Seq<char>, x: char, a: Seq<char>, y: char, b: Seq<char>)
    ensures
        text::before(c, c.push(x) + a),
        !text::before(c.push(x) + a, c),
        !text::before(c, c),
        x < y ==> text::before(c.push(x) + a, c.push(y) + b),
        x > y ==> !text::before(c.push(x) + a, c.push(y) + b),
    decreases c.len(),
{
    let s = c.push(x) + a;
    let t = c.push(y) + b;
    if c.len() > 0 {
        let d = c.skip(1);
        lemma_order_of_texts(d, x, a, y, b);
        assert(s.skip(1) =~= d.push(x) + a);
        assert(t.skip(1) =~= d.push(y) + b);
        assert(s[0] == c[0] && t[0] == c[0]);
    } else {
        assert(s[0] == x && t[0] == y);
    }
}

/// A number is read digit by digit: each further digit counts ten times what stands
/// before it, and a number beyond the limit is not read.
pub proof fn lemma_number_read(s: Seq<char>, d: char, max: nat)
    requires
        '0' <= d <= '9',
    ensures
        numeral::parsed(seq![d], max) == (if (d as u32) - 48 <= max {
            Some(((d as u32) - 48) as nat)
        } else {
            None
        }),
        numeral::parsed(s, max) matches Some(n) ==> numeral::parsed(s.push(d), max) == (if 10 * n + (
        d as u32) - 48 <= max {
            Some((10 * n + (d as u32) - 48) as nat)
        } else {
            None
        }),
{
    let one = seq![d];
    assert(one.drop_last() =~= Seq::<char>::empty());
    assert(one.last() == d);
    assert(numeral::value(Seq::empty()) == 0);
    assert(numeral::all_digits(one));
    if numeral::parsed(s, max) is Some {
        let t = s.push(d);
        let body = numeral::unsigned_body(s);
        assert(numeral::unsigned_body(t) =~= body.push(d));
        assert(body.push(d).drop_last() =~= body);
    }
}

/// Only digits make a number, but for one plus sign in front of them; and there must be
/// some.
pub proof fn lemma_only_digits_are_read(s: Seq<char>, i: int, max: nat)
    ensures
        0 <= i < s.len() && !('0' <= s[i] <= '9') && !(i == 0 && s[i] == '+') ==> numeral::parsed(
            s,
            max,
        ) is None,
        s.len() == 0 ==> numeral::parsed(s, max) is None,
        s.len() > 0 && s[0] != '+' ==> numeral::parsed(seq!['+'] + s, max) == numeral::parsed(s, max),
{
    let body = numeral::unsigned_body(s);
    if 0 <= i < s.len() && !('0' <= s[i] <= '9') && !(i == 0 && s[i] == '+') {
        if s[0] == '+' {
            assert(body[i - 1] == s[i]);
        } else {
            assert(body[i] == s[i]);
        }
    }
    assert((seq!['+'] + s).skip(1) =~= s);
}

/// A number is written in digits that read back as that number, without a zero in front
/// of it; a negative one after a minus sign; and one that is filled up to a width has at
/// least that width.
pub proof fn lemma_number_written(n: nat, width: nat, max: nat)
    requires
        n <= max,
    ensures
        numeral::parsed(numeral::decimal(n), max) == Some(n),
        numeral::decimal(n).len() > 1 ==> numeral::decimal(n)[0] != '0',
        numeral::decimal(n)[0] != '+',
        n > 0 ==> numeral::signed_decimal(-n) == seq!['-'] + numeral::decimal(n),
        numeral::signed_decimal(n as int) == numeral::decimal(n),
        numeral::parsed(numeral::padded(n, width), max) == Some(n),
        numeral::padded(n, width).len() >= width,
        numeral::decimal(n).len() >= width ==> numeral::padded(n, width) == numeral::decimal(n),
        numeral::decimal(n).len() <= width ==> numeral::padded(n, width).len() == width,
{
    numeral::lemma_parse_decimal(n, max);
    numeral::lemma_decimal(n);
    lemma_no_leading_zero(n);
    let d = numeral::decimal(n);
    assert(numeral::is_digit(d[0]));
    if d.len() < width {
        let k = (width - d.len()) as nat;
        lemma_zeros_in_front(k, d);
        let p = numeral::padded(n, width);
        assert(p =~= Seq::new(k, |i: int| '0') + d);
        assert(p[0] == '0');
        assert forall|i: int| 0 <= i < p.len() implies numeral::is_digit(#[trigger] p[i]) by {
            if i >= k {
                assert(p[i] == d[i - k]);
            }
        }
    }
}

/// A number of more than one digit does not begin with a zero.
proof fn lemma_no_leading_zero(n: nat)
    ensures
        numeral::decimal(n).len() > 0,
        n > 0 ==> numeral::decimal(n)[0] != '0',
        n < 10 ==> numeral::decimal(n).len() == 1,
    decreases n,
{
    if n >= 10 {
        lemma_no_leading_zero(n / 10);
    } else if n > 0 {
        assert((48 + n) as char != '0');
    }
}

/// Zeros in front of a number do not change it.
proof fn lemma_zeros_in_front(k: nat, d: Seq<char>)
    ensures
        numeral::value(Seq::new(k, |i: int| '0') + d) == numeral::value(d),
    decreases d.len() + k,
{
    let z = Seq::new(k, |i: int| '0');
    if d.len() > 0 {
        lemma_zeros_in_front(k, d.drop_last());
        assert((z + d).drop_last() =~= z + d.drop_last());
    } else if k > 0 {
        let y = Seq::new((k - 1) as nat, |i: int| '0');
        lemma_zeros_in_front((k - 1) as nat, d);
        assert((z + d).drop_last() =~= y + d);
        assert((z + d).last() == '0');
    } else {
        assert(z + d =~= d);
    }
}

} // verus!
