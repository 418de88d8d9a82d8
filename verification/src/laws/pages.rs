//! The title of a page, and the date of a snapshot.
use super::words::{lemma_first_replaced, lemma_nothing_replaced, lemma_searching, occurs};
use crate::numeral;
use crate::probe;
use crate::text;
use crate::time;
use crate::time::Timestamp;
use vstd::prelude::*;

verus! {

/// The title of a page is what stands between the first opening tag and the first closing
/// one behind it, in whatever case they are written and whatever the opening one carries,
/// without the white space round it and with its entities read; a blank one is none.
#[verifier::rlimit(60)]
pub proof fn lemma_title_of_a_page(
    before: Seq<char>,
    tag: Seq<char>,
    attributes: Seq<char>,
    inside: Seq<char>,
    end: Seq<char>,
    after: Seq<char>,
)
    requires
        text::lower_of(tag) == "<title"@,
        text::lower_of(end) == "</title>"@,
        !attributes.contains('>'),
        ({
            let page = before + tag + attributes.push('>') + inside + end + after;
            let opened = before.len() + tag.len() + attributes.len() + 1;
            &&& forall|j: int|
                0 <= j < before.len() ==> !(#[trigger] occurs(text::lower_of(page), "<title"@, j))
            &&& forall|j: int|
                opened <= j < opened + inside.len() ==> !(#[trigger] occurs(
                    text::lower_of(page),
                    "</title>"@,
                    j,
                ))
        }),
    ensures
        ({
            let page = before + tag + attributes.push('>') + inside + end + after;
            let title = text::trim_of(inside);
            &&& title.len() > 0 ==> probe::title_of(page) == Some(probe::decoded(title))
            &&& title.len() == 0 ==> probe::title_of(page) is None
        }),
{
    reveal(occurs);
    let page = before + tag + attributes.push('>') + inside + end + after;
    let s = text::lower_of(page);
    let f = text::is_char('>');
    reveal_strlit("<title");
    reveal_strlit("</title>");
    assert(tag.len() == text::lower_of(tag).len() && end.len() == text::lower_of(end).len());
    let at = before.len() as int;
    assert forall|k: int| 0 <= k < "<title"@.len() implies #[trigger] "<title"@[k] == s[at + k] by {
        assert(text::lower_of(tag)[k] == text::lower(tag[k]));
        assert(page[at + k] == tag[k]);
    }
    assert(occurs(s, "<title"@, at));
    lemma_searching(s, "<title"@, 0);
    assert(text::find_from(s, "<title"@, 0) == Some(at));
    let close = at + tag.len() + attributes.len();
    assert(page[close] == '>');
    assert(text::lower('>') == '>');
    assert forall|j: int| at <= j < close implies !f(#[trigger] s[j]) by {
        if j < at + tag.len() {
            assert(page[j] == tag[j - at]);
            assert(text::lower_of(tag)[j - at] == text::lower(tag[j - at]));
            assert("<title"@[j - at] != '>');
        } else {
            let c = attributes[j - at - tag.len()];
            assert(page[j] == c);
            assert(attributes.contains(c));
            assert(text::lower(c) == '>' ==> c == '>');
        }
    }
    text::lemma_first_where_is(s, f, at, close);
    let stop = close + 1 + inside.len();
    assert forall|k: int| 0 <= k < "</title>"@.len() implies #[trigger] "</title>"@[k] == s[stop
        + k] by {
        assert(text::lower_of(end)[k] == text::lower(end[k]));
        assert(page[stop + k] == end[k]);
    }
    assert(occurs(s, "</title>"@, stop));
    lemma_searching(s, "</title>"@, close + 1);
    assert(text::find_from(s, "</title>"@, close + 1) == Some(stop));
    assert(page.subrange(close + 1, stop) =~= inside);
}

/// A page without an opening tag, or without a closing one behind it, has no title.
pub proof fn lemma_page_without_a_title(page: Seq<char>)
    ensures
        (forall|j: int| 0 <= j ==> !(#[trigger] occurs(text::lower_of(page), "<title"@, j)))
            ==> probe::title_of(page) is None,
        (forall|j: int| 0 <= j ==> !(#[trigger] occurs(text::lower_of(page), "</title>"@, j)))
            ==> probe::title_of(page) is None,
        !page.contains('>') ==> probe::title_of(page) is None,
{
    reveal(occurs);
    let s = text::lower_of(page);
    let f = text::is_char('>');
    lemma_searching(s, "<title"@, 0);
    match text::find_from(s, "<title"@, 0) {
        Some(open) => {
            reveal_strlit("<title");
            assert(occurs(s, "<title"@, open));
            text::lemma_first_where(s, f, open);
            let close = text::first_where(s, f, open);
            if close < s.len() {
                lemma_searching(s, "</title>"@, close + 1);
                assert(text::lower(page[close]) == '>');
                assert(page[close] == '>');
                assert(page.contains('>'));
            }
        },
        None => {},
    }
}

/// A text without an ampersand in it has no place at which an entity begins.
proof fn lemma_no_entity(a: Seq<char>, p: Seq<char>, rest: Seq<char>)
    requires
        !a.contains('&'),
        p.len() > 0,
        p[0] == '&',
    ensures
        forall|j: int| 0 <= j < a.len() ==> !(#[trigger] occurs(a, p, j)),
        forall|j: int| 0 <= j < a.len() ==> !(#[trigger] occurs(a + rest, p, j)),
{
    reveal(occurs);
    assert forall|j: int| 0 <= j < a.len() implies !(#[trigger] occurs(a, p, j)) by {
        if occurs(a, p, j) {
            assert(p[0] == a[j + 0]);
            assert(a.contains(a[j]));
        }
    }
    assert forall|j: int| 0 <= j < a.len() implies !(#[trigger] occurs(a + rest, p, j)) by {
        if occurs(a + rest, p, j) {
            assert(p[0] == (a + rest)[j + 0]);
            assert((a + rest)[j] == a[j]);
            assert(a.contains(a[j]));
        }
    }
}

/// A text in which nothing is to be replaced stays.
proof fn lemma_nothing_to_replace(a: Seq<char>, p: Seq<char>, q: Seq<char>)
    requires
        !a.contains('&'),
        p.len() > 0,
        p[0] == '&',
    ensures
        text::replaced(a, p, q) == a,
{
    lemma_no_entity(a, p, Seq::empty());
    lemma_nothing_replaced(a, p, q);
}

/// One entity between texts without any is replaced.
proof fn lemma_one_to_replace(a: Seq<char>, p: Seq<char>, q: Seq<char>, b: Seq<char>)
    requires
        !a.contains('&'),
        !b.contains('&'),
        p.len() > 0,
        p[0] == '&',
    ensures
        text::replaced(a + p + b, p, q) == a + q + b,
{
    assert(a + p + b =~= a + (p + b));
    lemma_no_entity(a, p, p + b);
    lemma_first_replaced(a, b, p, q);
    lemma_nothing_to_replace(b, p, q);
}

/// An entity that is another one stays.
proof fn lemma_another_entity_stays(
    a: Seq<char>,
    e: Seq<char>,
    p: Seq<char>,
    q: Seq<char>,
    b: Seq<char>,
)
    requires
        !a.contains('&'),
        !b.contains('&'),
        e.len() > 1,
        !e.skip(1).contains('&'),
        p.len() > 1,
        p[0] == '&',
        p[1] != e[1],
    ensures
        text::replaced(a + e + b, p, q) == a + e + b,
{
    reveal(occurs);
    let s = a + e + b;
    let n = a.len() as int;
    assert forall|j: int| 0 <= j < s.len() implies !(#[trigger] occurs(s, p, j)) by {
        if occurs(s, p, j) {
            assert(p[0] == s[j + 0]);
            assert(p[1] == s[j + 1]);
            if j < n {
                assert(s[j] == a[j]);
                assert(a.contains('&'));
            } else if j == n {
                assert(s[n + 1] == e[1]);
            } else if j < n + e.len() {
                assert(s[j] == e.skip(1)[j - n - 1]);
                assert(e.skip(1).contains('&'));
            } else {
                assert(s[j] == b[j - n - e.len()]);
                assert(b.contains('&'));
            }
        }
    }
    lemma_nothing_replaced(s, p, q);
}

/// Texts without an ampersand that are put together have none.
proof fn lemma_no_ampersand(a: Seq<char>, c: Seq<char>, b: Seq<char>)
    requires
        !a.contains('&'),
        !b.contains('&'),
        !c.contains('&'),
    ensures
        !(a + c + b).contains('&'),
{
    let s = a + c + b;
    if s.contains('&') {
        let i = choose|i: int| 0 <= i < s.len() && s[i] == '&';
        if i < a.len() {
            assert(a[i] == '&');
        } else if i < a.len() + c.len() {
            assert(c[i - a.len()] == '&');
        } else {
            assert(b[i - a.len() - c.len()] == '&');
        }
    }
}

/// What the entities stand for, between texts that hold no ampersand. An ampersand that is
/// itself written as an entity is read first, so that what it makes is read too.
#[verifier::rlimit(60)]
pub proof fn lemma_entities(a: Seq<char>, b: Seq<char>)
    requires
        !a.contains('&'),
        !b.contains('&'),
    ensures
        probe::decoded(a) == a,
        probe::decoded(a + "&lt;"@ + b) == a + "<"@ + b,
        probe::decoded(a + "&gt;"@ + b) == a + ">"@ + b,
        probe::decoded(a + "&quot;"@ + b) == a + "\""@ + b,
        probe::decoded(a + "&#39;"@ + b) == a + "'"@ + b,
        probe::decoded(a + "&amp;lt;"@ + b) == a + "<"@ + b,
{
    reveal_strlit("&amp;");
    reveal_strlit("&lt;");
    reveal_strlit("&gt;");
    reveal_strlit("&quot;");
    reveal_strlit("&#39;");
    reveal_strlit("&");
    reveal_strlit("<");
    reveal_strlit(">");
    reveal_strlit("\"");
    reveal_strlit("'");
    reveal_strlit("&amp;lt;");
    let amp = "&amp;"@;
    let lt = "&lt;"@;
    let gt = "&gt;"@;
    let quot = "&quot;"@;
    let apos = "&#39;"@;
    lemma_plain(a);
    assert(!lt.skip(1).contains('&') && !gt.skip(1).contains('&') && !quot.skip(1).contains('&')
        && !apos.skip(1).contains('&'));
    lemma_no_ampersand(a, "<"@, b);
    lemma_no_ampersand(a, ">"@, b);
    lemma_no_ampersand(a, "\""@, b);
    lemma_no_ampersand(a, "'"@, b);
    // <
    lemma_another_entity_stays(a, lt, amp, "&"@, b);
    lemma_one_to_replace(a, lt, "<"@, b);
    lemma_nothing_to_replace(a + "<"@ + b, gt, ">"@);
    lemma_nothing_to_replace(a + "<"@ + b, quot, "\""@);
    lemma_nothing_to_replace(a + "<"@ + b, apos, "'"@);
    // >
    lemma_another_entity_stays(a, gt, amp, "&"@, b);
    lemma_another_entity_stays(a, gt, lt, "<"@, b);
    lemma_one_to_replace(a, gt, ">"@, b);
    lemma_nothing_to_replace(a + ">"@ + b, quot, "\""@);
    lemma_nothing_to_replace(a + ">"@ + b, apos, "'"@);
    // "
    lemma_another_entity_stays(a, quot, amp, "&"@, b);
    lemma_another_entity_stays(a, quot, lt, "<"@, b);
    lemma_another_entity_stays(a, quot, gt, ">"@, b);
    lemma_one_to_replace(a, quot, "\""@, b);
    lemma_nothing_to_replace(a + "\""@ + b, apos, "'"@);
    // '
    lemma_another_entity_stays(a, apos, amp, "&"@, b);
    lemma_another_entity_stays(a, apos, lt, "<"@, b);
    lemma_another_entity_stays(a, apos, gt, ">"@, b);
    lemma_another_entity_stays(a, apos, quot, "\""@, b);
    lemma_one_to_replace(a, apos, "'"@, b);
    // & and then <
    let tail = "&amp;lt;"@.skip(5) + b;
    assert(!"&amp;lt;"@.skip(5).contains('&'));
    lemma_no_ampersand("&amp;lt;"@.skip(5), Seq::empty(), b);
    assert("&amp;lt;"@.skip(5) + Seq::<char>::empty() + b =~= tail);
    assert(a + "&amp;lt;"@ + b =~= a + amp + tail);
    lemma_one_to_replace(a, amp, "&"@, tail);
    assert(a + "&"@ + tail =~= a + lt + b);
}

/// A text without an ampersand is read as it stands.
proof fn lemma_plain(a: Seq<char>)
    requires
        !a.contains('&'),
    ensures
        probe::decoded(a) == a,
{
    reveal_strlit("&amp;");
    reveal_strlit("&lt;");
    reveal_strlit("&gt;");
    reveal_strlit("&quot;");
    reveal_strlit("&#39;");
    lemma_nothing_to_replace(a, "&amp;"@, "&"@);
    lemma_nothing_to_replace(a, "&lt;"@, "<"@);
    lemma_nothing_to_replace(a, "&gt;"@, ">"@);
    lemma_nothing_to_replace(a, "&quot;"@, "\""@);
    lemma_nothing_to_replace(a, "&#39;"@, "'"@);
}

// ---------------------------------------------------------------------------------
// Dates.
// ---------------------------------------------------------------------------------

/// The months and how long they are.
pub open spec fn length_of(year: int, month: int) -> int {
    if month == 4 || month == 6 || month == 9 || month == 11 {
        30
    } else if month == 2 {
        if year % 400 == 0 {
            29
        } else if year % 100 == 0 {
            28
        } else if year % 4 == 0 {
            29
        } else {
            28
        }
    } else {
        31
    }
}

/// Days are counted one by one, from the first of January 1970 on: each day has the number
/// after the one before it, within a month, from month to month, and from year to year.
pub proof fn lemma_days_are_counted(y: int, m: int, d: int)
    requires
        1 <= m <= 12,
    ensures
        time::day_number(1970, 1, 1) == 0,
        time::is_date(y, m, d) <==> 1 <= d <= length_of(y, m),
        time::day_number(y, m, d + 1) == time::day_number(y, m, d) + 1,
        m < 12 ==> time::day_number(y, m + 1, 1) == time::day_number(y, m, length_of(y, m)) + 1,
        time::day_number(y + 1, 1, 1) == time::day_number(y, 12, 31) + 1,
{
    time::lemma_year_length(y);
    reveal_with_fuel(time::days_before_month, 14);
    lemma_year_of_twelve_months(y);
    assert(y % 400 == 0 ==> y % 100 == 0 && y % 4 == 0);
    assert(y % 100 == 0 ==> y % 4 == 0);
    assert(time::days_in_month(y, m) == length_of(y, m));
}

/// A year has as many days as its months.
proof fn lemma_year_of_twelve_months(y: int)
    ensures
        time::days_before_month(y, 12) + 31 == (if time::is_leap(y) {
            366int
        } else {
            365int
        }),
{
    reveal_with_fuel(time::days_before_month, 14);
}

/// The date of a snapshot is written as year, month and day, and the time of day as hours,
/// minutes and seconds: those at which the moment lies. Moments before 1970 are written as
/// its beginning.
#[verifier::rlimit(60)]
pub proof fn lemma_date_is_written(now: Timestamp, y: nat, m: nat, d: nat, h: nat, min: nat, s: nat)
    requires
        time::is_date(y as int, m as int, d as int),
        h < 24 && min < 60 && s < 60,
        time::day_number(y as int, m as int, d as int) >= 0,
        now.ns() / 1_000_000_000 == 86_400 * time::day_number(y as int, m as int, d as int) + 3_600
            * h + 60 * min + s,
    ensures
        time::iso8601(now) == numeral::padded(y, 4).push('-') + numeral::padded(m, 2).push('-')
            + numeral::padded(d, 2).push('T') + numeral::padded(h, 2).push(':') + numeral::padded(
            min,
            2,
        ).push(':') + numeral::padded(s, 2).push('Z'),
{
    let z = time::day_number(y as int, m as int, d as int);
    let secs = now.ns() / 1_000_000_000;
    let rest = 3_600 * h + 60 * min + s;
    assert(0 <= rest < 86_400);
    assert(secs / 86_400 == z && secs % 86_400 == rest);
    assert(now.ns() >= 0);
    time::lemma_date_of(y as int, m as int, d as int);
    assert(rest / 3600 == h);
    assert(rest % 3600 == 60 * min + s);
    assert((60 * min + s) as int / 60 == min);
    assert(rest % 60 == s);
    let clock = time::clock_text(rest as nat);
    let date = time::date_text(y, m, d);
    assert(time::iso8601(now) == (date.push('T') + clock).push('Z'));
    assert((date.push('T') + clock).push('Z') =~= numeral::padded(y, 4).push('-') + numeral::padded(
        m,
        2,
    ).push('-') + numeral::padded(d, 2).push('T') + numeral::padded(h, 2).push(':')
        + numeral::padded(min, 2).push(':') + numeral::padded(s, 2).push('Z'));
}

/// A moment before 1970 is written as its beginning.
pub proof fn lemma_date_before_the_beginning(now: Timestamp, first: Timestamp)
    requires
        now.ns() < 0,
        first.ns() == 0,
    ensures
        time::iso8601(now) == time::iso8601(first),
{
}

} // verus!
