//! Text handling over Unicode scalar values.
//!
//! A string is modelled by the sequence of its characters. Every operation here is
//! stated as a function on such sequences and proved against it, so the parsers and
//! formatters of this crate can be specified without speaking of bytes.
use vstd::prelude::*;

verus! {

/// `String::push` appends one character to the end of a string and leaves what was
/// there before untouched.
pub assume_specification[ String::push ](s: &mut String, c: char)
    ensures
        final(s)@ == old(s)@.push(c),
;

// ---------------------------------------------------------------------------------
// Characters and strings.
// ---------------------------------------------------------------------------------

/// The characters of `s`, in order.
pub fn to_chars(s: &str) -> (v: Vec<char>)
    ensures
        v@ == s@,
{
    let mut v: Vec<char> = Vec::new();
    for c in it: s.chars()
        invariant
            it.seq() == s@,
            v@ == s@.take(it.index() as int),
    {
        v.push(c);
    }
    proof {
        assert(s@.take(s@.len() as int) =~= s@);
    }
    v
}

/// The string made of the characters `v[from..to]`.
pub fn from_chars(v: &Vec<char>, from: usize, to: usize) -> (s: String)
    requires
        from <= to <= v@.len(),
    ensures
        s@ == v@.subrange(from as int, to as int),
{
    let mut s = String::new();
    let mut i: usize = from;
    while i < to
        invariant
            from <= i <= to <= v@.len(),
            s@ == v@.subrange(from as int, i as int),
        decreases to - i,
    {
        s.push(v[i]);
        i = i + 1;
        proof {
            assert(v@.subrange(from as int, i as int) =~= v@.subrange(from as int, i - 1).push(
                v@[i - 1],
            ));
        }
    }
    s
}

/// Whether two strings hold the same characters.
pub fn same(a: &str, b: &str) -> (r: bool)
    ensures
        r == (a@ == b@),
{
    a.to_owned() == b.to_owned()
}

/// A copy of an optional string.
pub fn copy_option(a: &Option<String>) -> (r: Option<String>)
    ensures
        r.deep_view() == a.deep_view(),
{
    match a {
        Some(x) => Some(x.clone()),
        None => None,
    }
}

// ---------------------------------------------------------------------------------
// Searching.
// ---------------------------------------------------------------------------------

/// The characters Unicode gives the White_Space property.
pub open spec fn is_space(c: char) -> bool {
    let u = c as u32;
    ||| 0x9 <= u <= 0xd
    ||| u == 0x20
    ||| u == 0x85
    ||| u == 0xa0
    ||| u == 0x1680
    ||| 0x2000 <= u <= 0x200a
    ||| u == 0x2028
    ||| u == 0x2029
    ||| u == 0x202f
    ||| u == 0x205f
    ||| u == 0x3000
}

/// Whether `c` has the White_Space property.
pub fn space(c: char) -> (r: bool)
    ensures
        r == is_space(c),
{
    let u: u32 = c as u32;
    (0x9 <= u && u <= 0xd) || u == 0x20 || u == 0x85 || u == 0xa0 || u == 0x1680 || (0x2000 <= u
        && u <= 0x200a) || u == 0x2028 || u == 0x2029 || u == 0x202f || u == 0x205f || u == 0x3000
}

/// The first index at or after `from` whose character satisfies `f`, or the length of
/// `s` when there is none.
pub open spec fn first_where(s: Seq<char>, f: spec_fn(char) -> bool, from: int) -> int
    decreases s.len() - from,
{
    if from >= s.len() {
        s.len() as int
    } else if f(s[from]) {
        from
    } else {
        first_where(s, f, from + 1)
    }
}

/// The predicate "is the character `c`".
pub open spec fn is_char(c: char) -> spec_fn(char) -> bool {
    |x: char| x == c
}

/// The predicate "is white space".
pub open spec fn is_space_fn() -> spec_fn(char) -> bool {
    |x: char| is_space(x)
}

/// `first_where` stays inside the sequence and stops at the first match.
pub proof fn lemma_first_where(s: Seq<char>, f: spec_fn(char) -> bool, from: int)
    requires
        0 <= from <= s.len(),
    ensures
        from <= first_where(s, f, from) <= s.len(),
        first_where(s, f, from) < s.len() ==> f(s[first_where(s, f, from)]),
        forall|j: int| from <= j < first_where(s, f, from) ==> !f(#[trigger] s[j]),
    decreases s.len() - from,
{
    if from < s.len() && !f(s[from]) {
        lemma_first_where(s, f, from + 1);
    }
}

/// A match with no earlier match is what `first_where` finds.
pub proof fn lemma_first_where_is(s: Seq<char>, f: spec_fn(char) -> bool, from: int, i: int)
    requires
        0 <= from <= i <= s.len(),
        i < s.len() ==> f(s[i]),
        forall|j: int| from <= j < i ==> !f(#[trigger] s[j]),
    ensures
        first_where(s, f, from) == i,
    decreases i - from,
{
    if from < i {
        lemma_first_where_is(s, f, from + 1, i);
    }
}

/// The first position of `c` at or after `from`, or the length when there is none.
pub fn position_char(v: &Vec<char>, c: char, from: usize) -> (i: usize)
    requires
        from <= v@.len(),
    ensures
        from <= i <= v@.len(),
        i == first_where(v@, is_char(c), from as int),
{
    let mut i: usize = from;
    while i < v.len()
        invariant_except_break
            from <= i <= v@.len(),
            first_where(v@, is_char(c), from as int) == first_where(v@, is_char(c), i as int),
        ensures
            from <= i <= v@.len(),
            i == first_where(v@, is_char(c), from as int),
        decreases v@.len() - i,
    {
        if v[i] == c {
            break;
        }
        i = i + 1;
    }
    i
}

/// The first position of white space at or after `from`, or the length when there is
/// none.
pub fn position_space(v: &Vec<char>, from: usize) -> (i: usize)
    requires
        from <= v@.len(),
    ensures
        from <= i <= v@.len(),
        i == first_where(v@, is_space_fn(), from as int),
{
    let mut i: usize = from;
    while i < v.len()
        invariant_except_break
            from <= i <= v@.len(),
            first_where(v@, is_space_fn(), from as int) == first_where(
                v@,
                is_space_fn(),
                i as int,
            ),
        ensures
            from <= i <= v@.len(),
            i == first_where(v@, is_space_fn(), from as int),
        decreases v@.len() - i,
    {
        if space(v[i]) {
            break;
        }
        i = i + 1;
    }
    i
}

/// Whether `p` stands in `s` at index `i`.
pub open spec fn matches_at(s: Seq<char>, p: Seq<char>, i: int) -> bool {
    0 <= i && i + p.len() <= s.len() && s.subrange(i, i + p.len()) == p
}

/// The first index at or after `from` where `p` stands in `s`.
pub open spec fn find_from(s: Seq<char>, p: Seq<char>, from: int) -> Option<int>
    decreases s.len() + 1 - from,
{
    if from < 0 || from + p.len() > s.len() {
        None
    } else if matches_at(s, p, from) {
        Some(from)
    } else {
        find_from(s, p, from + 1)
    }
}

/// `find_from` finds a match at or after `from`, and none lies before it.
pub proof fn lemma_find_from(s: Seq<char>, p: Seq<char>, from: int)
    requires
        0 <= from,
    ensures
        match find_from(s, p, from) {
            Some(i) => from <= i && matches_at(s, p, i) && forall|j: int|
                from <= j < i ==> !#[trigger] matches_at(s, p, j),
            None => forall|j: int| from <= j ==> !#[trigger] matches_at(s, p, j),
        },
    decreases s.len() + 1 - from,
{
    if from + p.len() <= s.len() && !matches_at(s, p, from) {
        lemma_find_from(s, p, from + 1);
    }
}

/// Whether `p` stands in `v` at index `i`.
pub fn stands_at(v: &Vec<char>, p: &Vec<char>, i: usize) -> (r: bool)
    requires
        i <= v@.len(),
    ensures
        r == matches_at(v@, p@, i as int),
{
    if p.len() > v.len() - i {
        return false;
    }
    let mut j: usize = 0;
    while j < p.len()
        invariant
            0 <= j <= p@.len(),
            i + p@.len() <= v.len(),
            forall|k: int| 0 <= k < j ==> v@[i + k] == p@[k],
        decreases p@.len() - j,
    {
        if v[i + j] != p[j] {
            proof {
                assert(v@.subrange(i as int, i + p@.len())[j as int] == v@[i + j]);
            }
            return false;
        }
        j = j + 1;
    }
    proof {
        assert(v@.subrange(i as int, i + p@.len()) =~= p@);
    }
    true
}

/// The first index at or after `from` where `p` stands in `v`.
pub fn find(v: &Vec<char>, p: &Vec<char>, from: usize) -> (r: Option<usize>)
    requires
        from <= v@.len(),
    ensures
        match r {
            Some(i) => find_from(v@, p@, from as int) == Some(i as int) && from <= i && i + p@.len()
                <= v@.len(),
            None => find_from(v@, p@, from as int) is None,
        },
{
    let mut i: usize = from;
    while p.len() <= v.len() - i
        invariant
            from <= i <= v@.len(),
            find_from(v@, p@, from as int) == find_from(v@, p@, i as int),
        decreases v@.len() - i,
    {
        if stands_at(v, p, i) {
            return Some(i);
        }
        proof {
            assert(i == v@.len() ==> v@.subrange(i as int, i as int) =~= p@);
        }
        i = i + 1;
    }
    None
}

/// Whether `s` begins with `p`.
pub open spec fn has_prefix(s: Seq<char>, p: Seq<char>) -> bool {
    p.len() <= s.len() && s.take(p.len() as int) == p
}

/// Whether `s` ends with `p`.
pub open spec fn has_suffix(s: Seq<char>, p: Seq<char>) -> bool {
    p.len() <= s.len() && s.skip(s.len() - p.len()) == p
}

/// Whether `s` begins with `p`.
pub fn starts_with(s: &str, p: &str) -> (r: bool)
    ensures
        r == has_prefix(s@, p@),
{
    let v = to_chars(s);
    let q = to_chars(p);
    let r = stands_at(&v, &q, 0);
    proof {
        if q@.len() <= v@.len() {
            assert(v@.subrange(0, q@.len() as int) =~= v@.take(q@.len() as int));
        }
    }
    r
}

/// What is left of `s` without the suffix `p`, when `s` ends with it.
pub fn strip_suffix(s: &str, p: &str) -> (r: Option<String>)
    ensures
        match r {
            Some(t) => has_suffix(s@, p@) && t@ == s@.take(s@.len() - p@.len()),
            None => !has_suffix(s@, p@),
        },
{
    let v = to_chars(s);
    let q = to_chars(p);
    if q.len() > v.len() {
        return None;
    }
    let cut: usize = v.len() - q.len();
    proof {
        assert(v@.subrange(cut as int, cut + q@.len()) =~= v@.skip(cut as int));
        assert(v@.subrange(0, cut as int) =~= v@.take(cut as int));
    }
    if stands_at(&v, &q, cut) {
        Some(from_chars(&v, 0, cut))
    } else {
        None
    }
}

// ---------------------------------------------------------------------------------
// Trimming and splitting.
// ---------------------------------------------------------------------------------

/// `s` without its leading white space.
pub open spec fn trim_start_of(s: Seq<char>) -> Seq<char>
    decreases s.len(),
{
    if s.len() > 0 && is_space(s[0]) {
        trim_start_of(s.skip(1))
    } else {
        s
    }
}

/// `s` without its trailing white space.
pub open spec fn trim_end_of(s: Seq<char>) -> Seq<char>
    decreases s.len(),
{
    if s.len() > 0 && is_space(s.last()) {
        trim_end_of(s.drop_last())
    } else {
        s
    }
}

/// `s` without the white space around it.
pub open spec fn trim_of(s: Seq<char>) -> Seq<char> {
    trim_end_of(trim_start_of(s))
}

/// Without its leading white space, `s` is the part from the first other character on.
pub proof fn lemma_trim_start(s: Seq<char>, i: int)
    requires
        0 <= i <= s.len(),
        forall|j: int| 0 <= j < i ==> is_space(#[trigger] s[j]),
        i < s.len() ==> !is_space(s[i]),
    ensures
        trim_start_of(s) == s.skip(i),
    decreases i,
{
    if i == 0 {
        assert(s.skip(0) =~= s);
    } else {
        let t = s.skip(1);
        assert forall|j: int| 0 <= j < i - 1 implies is_space(#[trigger] t[j]) by {
            assert(t[j] == s[j + 1]);
        }
        lemma_trim_start(t, i - 1);
        assert(t.skip(i - 1) =~= s.skip(i));
    }
}

/// Without its trailing white space, `s` is the part up to its last other character.
pub proof fn lemma_trim_end(s: Seq<char>, i: int)
    requires
        0 <= i <= s.len(),
        forall|j: int| i <= j < s.len() ==> is_space(#[trigger] s[j]),
        i > 0 ==> !is_space(s[i - 1]),
    ensures
        trim_end_of(s) == s.take(i),
    decreases s.len() - i,
{
    if i == s.len() {
        assert(s.take(i) =~= s);
    } else {
        let t = s.drop_last();
        assert(is_space(s[s.len() - 1]));
        lemma_trim_end(t, i);
        assert(t.take(i) =~= s.take(i));
    }
}

/// `s` without its leading white space.
pub fn trim_start(s: &str) -> (r: String)
    ensures
        r@ == trim_start_of(s@),
{
    let v = to_chars(s);
    let mut i: usize = 0;
    while i < v.len() && space(v[i])
        invariant
            0 <= i <= v@.len(),
            forall|j: int| 0 <= j < i ==> is_space(#[trigger] v@[j]),
        decreases v@.len() - i,
    {
        i = i + 1;
    }
    proof {
        lemma_trim_start(v@, i as int);
        assert(v@.subrange(i as int, v@.len() as int) =~= v@.skip(i as int));
    }
    from_chars(&v, i, v.len())
}

/// `s` without the white space around it.
pub fn trim(s: &str) -> (r: String)
    ensures
        r@ == trim_of(s@),
{
    let t = trim_start(s);
    let v = to_chars(t.as_str());
    let mut i: usize = v.len();
    while i > 0 && space(v[i - 1])
        invariant
            0 <= i <= v@.len(),
            forall|j: int| i <= j < v@.len() ==> is_space(#[trigger] v@[j]),
        decreases i,
    {
        i = i - 1;
    }
    proof {
        lemma_trim_end(v@, i as int);
        assert(v@.subrange(0, i as int) =~= v@.take(i as int));
    }
    from_chars(&v, 0, i)
}

/// What stands before and after the first character satisfying `f`.
pub open spec fn split_at_first(s: Seq<char>, f: spec_fn(char) -> bool) -> Option<
    (Seq<char>, Seq<char>),
> {
    let i = first_where(s, f, 0);
    if i < s.len() {
        Some((s.take(i), s.skip(i + 1)))
    } else {
        None
    }
}

/// The two halves of a split, as sequences.
pub open spec fn pair_view(r: Option<(String, String)>) -> Option<(Seq<char>, Seq<char>)> {
    match r {
        Some((a, b)) => Some((a@, b@)),
        None => None,
    }
}

/// Cut `v` at `i`, leaving out the character there.
fn cut_around(v: &Vec<char>, i: usize) -> (r: (String, String))
    requires
        i < v.len(),
    ensures
        r.0@ == v@.take(i as int),
        r.1@ == v@.skip(i + 1),
{
    proof {
        assert(v@.subrange(0, i as int) =~= v@.take(i as int));
        assert(v@.subrange(i + 1, v@.len() as int) =~= v@.skip(i + 1));
    }
    (from_chars(v, 0, i), from_chars(v, i + 1, v.len()))
}

/// What stands before and after the first white space.
pub fn split_once_space(s: &str) -> (r: Option<(String, String)>)
    ensures
        pair_view(r) == split_at_first(s@, is_space_fn()),
{
    let v = to_chars(s);
    let i: usize = position_space(&v, 0);
    if i < v.len() {
        Some(cut_around(&v, i))
    } else {
        None
    }
}

/// What stands before and after the first `c`.
pub fn split_once_char(s: &str, c: char) -> (r: Option<(String, String)>)
    ensures
        pair_view(r) == split_at_first(s@, is_char(c)),
{
    let v = to_chars(s);
    let i: usize = position_char(&v, c, 0);
    if i < v.len() {
        Some(cut_around(&v, i))
    } else {
        None
    }
}

/// The last index of `c` in `s`, or -1 when it does not occur.
pub open spec fn last_char(s: Seq<char>, c: char) -> int
    decreases s.len(),
{
    if s.len() == 0 {
        -1
    } else if s.last() == c {
        s.len() - 1
    } else {
        last_char(s.drop_last(), c)
    }
}

/// What stands before and after the last `c`.
pub open spec fn split_at_last(s: Seq<char>, c: char) -> Option<(Seq<char>, Seq<char>)> {
    let i = last_char(s, c);
    if i >= 0 {
        Some((s.take(i), s.skip(i + 1)))
    } else {
        None
    }
}

/// What stands before and after the last `c`.
pub fn rsplit_once_char(s: &str, c: char) -> (r: Option<(String, String)>)
    ensures
        pair_view(r) == split_at_last(s@, c),
{
    let v = to_chars(s);
    let mut n: usize = v.len();
    proof {
        assert(v@.take(n as int) =~= v@);
    }
    while n > 0
        invariant
            0 <= n <= v@.len(),
            v@ == s@,
            last_char(v@, c) == last_char(v@.take(n as int), c),
        decreases n,
    {
        proof {
            assert(v@.take(n as int).last() == v@[n - 1]);
            assert(v@.take(n as int).drop_last() =~= v@.take(n - 1));
        }
        if v[n - 1] == c {
            return Some(cut_around(&v, n - 1));
        }
        n = n - 1;
    }
    None
}

/// The pieces of `s` between the occurrences of `c`: one more than there are.
pub open spec fn split_on(s: Seq<char>, c: char) -> Seq<Seq<char>>
    decreases s.len(),
{
    let i = first_where(s, is_char(c), 0);
    if 0 <= i < s.len() {
        seq![s.take(i)] + split_on(s.skip(i + 1), c)
    } else {
        seq![s]
    }
}

/// The characters of each string of a list.
pub open spec fn views(v: Seq<String>) -> Seq<Seq<char>> {
    v.map_values(|s: String| s@)
}

/// The pieces of `s` between the occurrences of `c`.
pub fn split_char(s: &str, c: char) -> (r: Vec<String>)
    ensures
        views(r@) == split_on(s@, c),
{
    let v = to_chars(s);
    let mut r: Vec<String> = Vec::new();
    let mut from: usize = 0;
    proof {
        assert(v@.skip(0) =~= v@);
        assert(views(r@) =~= Seq::<Seq<char>>::empty());
        assert(views(r@) + split_on(v@, c) =~= split_on(v@, c));
    }
    loop
        invariant
            0 <= from <= v@.len(),
            v@ == s@,
            views(r@) + split_on(v@.skip(from as int), c) == split_on(s@, c),
        decreases v@.len() - from,
    {
        let i: usize = position_char(&v, c, from);
        let ghost rest = v@.skip(from as int);
        let ghost before = views(r@);
        proof {
            lemma_first_where_skip(v@, is_char(c), from as int);
        }
        if i < v.len() {
            let piece = from_chars(&v, from, i);
            proof {
                assert(piece@ =~= rest.take(i - from));
                assert(rest.skip(i - from + 1) =~= v@.skip(i + 1));
            }
            r.push(piece);
            from = i + 1;
            proof {
                assert(views(r@) =~= before.push(piece@));
                assert(views(r@) + split_on(v@.skip(from as int), c) =~= before + split_on(rest, c));
            }
        } else {
            let piece = from_chars(&v, from, v.len());
            proof {
                assert(piece@ =~= rest);
            }
            r.push(piece);
            proof {
                assert(views(r@) =~= before + seq![rest]);
            }
            return r;
        }
    }
}

/// Searching from `from` is searching what is left after skipping `from` characters.
pub proof fn lemma_first_where_skip(s: Seq<char>, f: spec_fn(char) -> bool, from: int)
    requires
        0 <= from <= s.len(),
    ensures
        first_where(s, f, from) == first_where(s.skip(from), f, 0) + from,
{
    let t = s.skip(from);
    lemma_first_where(t, f, 0);
    let k = first_where(t, f, 0);
    assert forall|j: int| from <= j < from + k implies !f(#[trigger] s[j]) by {
        assert(s[j] == t[j - from]);
    }
    lemma_first_where_is(s, f, from, from + k);
}

/// A line without the carriage return that a line feed followed.
pub open spec fn without_return(s: Seq<char>) -> Seq<char> {
    if s.len() > 0 && s.last() == '\r' {
        s.drop_last()
    } else {
        s
    }
}

/// The lines of `s`. A line ends at a line feed, or at a carriage return and a line
/// feed; the ending of the last line may be missing.
pub open spec fn lines_of(s: Seq<char>) -> Seq<Seq<char>>
    decreases s.len(),
{
    let i = first_where(s, is_char('\n'), 0);
    if s.len() == 0 {
        Seq::empty()
    } else if 0 <= i < s.len() {
        seq![without_return(s.take(i))] + lines_of(s.skip(i + 1))
    } else {
        seq![s]
    }
}

/// The lines of `s`.
pub fn lines(s: &str) -> (r: Vec<String>)
    ensures
        views(r@) == lines_of(s@),
{
    let v = to_chars(s);
    let mut r: Vec<String> = Vec::new();
    let mut from: usize = 0;
    proof {
        assert(v@.skip(0) =~= v@);
        assert(views(r@) =~= Seq::<Seq<char>>::empty());
        assert(views(r@) + lines_of(v@) =~= lines_of(v@));
    }
    while from < v.len()
        invariant
            0 <= from <= v@.len(),
            v@ == s@,
            views(r@) + lines_of(v@.skip(from as int)) == lines_of(s@),
        decreases v@.len() - from,
    {
        let i: usize = position_char(&v, '\n', from);
        let ghost rest = v@.skip(from as int);
        let ghost before = views(r@);
        proof {
            lemma_first_where_skip(v@, is_char('\n'), from as int);
        }
        if i < v.len() {
            let end: usize = if i > from && v[i - 1] == '\r' {
                i - 1
            } else {
                i
            };
            let piece = from_chars(&v, from, end);
            proof {
                assert(piece@ =~= without_return(rest.take(i - from)));
                assert(rest.skip(i - from + 1) =~= v@.skip(i + 1));
            }
            r.push(piece);
            from = i + 1;
            proof {
                assert(views(r@) =~= before.push(piece@));
                assert(views(r@) + lines_of(v@.skip(from as int)) =~= before + lines_of(rest));
            }
        } else {
            let piece = from_chars(&v, from, v.len());
            proof {
                assert(piece@ =~= rest);
            }
            r.push(piece);
            from = v.len();
            proof {
                assert(views(r@) =~= before + seq![rest]);
                assert(views(r@) + lines_of(v@.skip(from as int)) =~= before + lines_of(rest));
            }
        }
    }
    proof {
        assert(lines_of(v@.skip(from as int)) =~= Seq::<Seq<char>>::empty());
        assert(views(r@) + Seq::<Seq<char>>::empty() =~= views(r@));
    }
    r
}

/// A line whose first character takes one byte, as that character and the rest.
pub open spec fn tag_and_value(s: Seq<char>) -> Option<(char, Seq<char>)> {
    if s.len() > 0 && (s[0] as u32) < 0x80 {
        Some((s[0], s.skip(1)))
    } else {
        None
    }
}

/// A line whose first character takes one byte, as that character and the rest.
pub fn split_tag(s: &str) -> (r: Option<(char, String)>)
    ensures
        match r {
            Some((c, t)) => tag_and_value(s@) == Some((c, t@)),
            None => tag_and_value(s@) is None,
        },
{
    let v = to_chars(s);
    if v.len() > 0 && (v[0] as u32) < 0x80 {
        proof {
            assert(v@.subrange(1, v@.len() as int) =~= v@.skip(1));
        }
        Some((v[0], from_chars(&v, 1, v.len())))
    } else {
        None
    }
}

// ---------------------------------------------------------------------------------
// Case, replacement and order.
// ---------------------------------------------------------------------------------

/// `c`, or its lower-case form where `c` is an ASCII capital.
pub open spec fn lower(c: char) -> char {
    if 'A' <= c <= 'Z' {
        ((c as u8) + 32) as char
    } else {
        c
    }
}

/// `s` with every ASCII capital in lower case.
pub open spec fn lower_of(s: Seq<char>) -> Seq<char> {
    s.map_values(|c: char| lower(c))
}

/// `v` with every ASCII capital in lower case.
pub fn to_lower(v: &Vec<char>) -> (r: Vec<char>)
    ensures
        r@ == lower_of(v@),
{
    let mut r: Vec<char> = Vec::new();
    let mut i: usize = 0;
    while i < v.len()
        invariant
            0 <= i <= v@.len(),
            r@ == lower_of(v@.take(i as int)),
        decreases v@.len() - i,
    {
        let c = v[i];
        let d: char = if 'A' <= c && c <= 'Z' {
            ((c as u8) + 32) as char
        } else {
            c
        };
        r.push(d);
        i = i + 1;
        proof {
            assert(lower_of(v@.take(i as int)) =~= lower_of(v@.take(i - 1)).push(lower(c)));
        }
    }
    proof {
        assert(v@.take(i as int) =~= v@);
    }
    r
}

/// `s` with each `p` replaced by `q`, looking from the left and never inside what was
/// replaced already.
pub open spec fn replaced(s: Seq<char>, p: Seq<char>, q: Seq<char>) -> Seq<char>
    decreases s.len(),
{
    if s.len() == 0 {
        s
    } else if p.len() > 0 && has_prefix(s, p) {
        q + replaced(s.skip(p.len() as int), p, q)
    } else {
        seq![s[0]] + replaced(s.skip(1), p, q)
    }
}

/// `s` with each `p` replaced by `q`.
pub fn replace(s: &str, p: &str, q: &str) -> (r: String)
    requires
        p@.len() > 0,
    ensures
        r@ == replaced(s@, p@, q@),
{
    let v = to_chars(s);
    let pv = to_chars(p);
    let mut r = String::new();
    let mut i: usize = 0;
    proof {
        assert(v@.skip(0) =~= v@);
        assert(r@ + replaced(v@, p@, q@) =~= replaced(v@, p@, q@));
    }
    while i < v.len()
        invariant
            0 <= i <= v@.len(),
            v@ == s@,
            pv@ == p@,
            p@.len() > 0,
            r@ + replaced(v@.skip(i as int), p@, q@) == replaced(s@, p@, q@),
        decreases v@.len() - i,
    {
        let ghost rest = v@.skip(i as int);
        let ghost before = r@;
        let here = stands_at(&v, &pv, i);
        proof {
            if i + p@.len() <= v@.len() {
                assert(v@.subrange(i as int, i + p@.len()) =~= rest.take(p@.len() as int));
            }
        }
        if here {
            r.append(q);
            i = i + pv.len();
            proof {
                assert(rest.skip(p@.len() as int) =~= v@.skip(i as int));
                assert(r@ + replaced(v@.skip(i as int), p@, q@) =~= before + replaced(rest, p@, q@));
            }
        } else {
            r.push(v[i]);
            i = i + 1;
            proof {
                assert(rest.skip(1) =~= v@.skip(i as int));
                assert(r@ + replaced(v@.skip(i as int), p@, q@) =~= before + replaced(rest, p@, q@));
            }
        }
    }
    proof {
        assert(r@ + replaced(v@.skip(i as int), p@, q@) =~= r@);
    }
    r
}

/// Whether `a` stands before `b` in the order of their characters' numbers.
pub open spec fn before(a: Seq<char>, b: Seq<char>) -> bool
    decreases a.len(),
{
    if b.len() == 0 {
        false
    } else if a.len() == 0 {
        true
    } else if a[0] != b[0] {
        a[0] < b[0]
    } else {
        before(a.skip(1), b.skip(1))
    }
}

/// Nothing stands before itself.
pub proof fn lemma_before_irreflexive(a: Seq<char>)
    ensures
        !before(a, a),
    decreases a.len(),
{
    if a.len() > 0 {
        lemma_before_irreflexive(a.skip(1));
    }
}

/// Of two different texts exactly one stands before the other.
pub proof fn lemma_before_total(a: Seq<char>, b: Seq<char>)
    ensures
        before(a, b) || before(b, a) || a == b,
        !(before(a, b) && before(b, a)),
    decreases a.len(),
{
    if a.len() > 0 && b.len() > 0 && a[0] == b[0] {
        lemma_before_total(a.skip(1), b.skip(1));
        if a.skip(1) == b.skip(1) {
            assert(a =~= seq![a[0]] + a.skip(1));
            assert(b =~= seq![b[0]] + b.skip(1));
        }
    } else if a.len() == 0 && b.len() == 0 {
        assert(a =~= b);
    }
}

/// The order is transitive.
pub proof fn lemma_before_transitive(a: Seq<char>, b: Seq<char>, c: Seq<char>)
    requires
        before(a, b),
        before(b, c),
    ensures
        before(a, c),
    decreases a.len(),
{
    if a.len() > 0 && a[0] == b[0] && b[0] == c[0] {
        lemma_before_transitive(a.skip(1), b.skip(1), c.skip(1));
    }
}

/// Whether `a` stands before `b`.
pub fn is_before(a: &str, b: &str) -> (r: bool)
    ensures
        r == before(a@, b@),
{
    let x = to_chars(a);
    let y = to_chars(b);
    let mut i: usize = 0;
    proof {
        assert(x@.skip(0) =~= x@);
        assert(y@.skip(0) =~= y@);
    }
    while i < x.len() && i < y.len()
        invariant
            0 <= i <= x@.len(),
            i <= y@.len(),
            x@ == a@,
            y@ == b@,
            before(a@, b@) == before(x@.skip(i as int), y@.skip(i as int)),
        decreases x@.len() - i,
    {
        let ghost xs = x@.skip(i as int);
        let ghost ys = y@.skip(i as int);
        if x[i] != y[i] {
            return x[i] < y[i];
        }
        i = i + 1;
        proof {
            assert(xs.skip(1) =~= x@.skip(i as int));
            assert(ys.skip(1) =~= y@.skip(i as int));
        }
    }
    i < y.len()
}

} // verus!
