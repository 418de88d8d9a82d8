//! The first entry of a list that has some property.
use vstd::prelude::*;

verus! {

/// The first entry of `s` that satisfies `f`.
pub open spec fn first_such<T>(s: Seq<T>, f: spec_fn(T) -> bool) -> Option<T>
    decreases s.len(),
{
    if s.len() == 0 {
        None
    } else if f(s[0]) {
        Some(s[0])
    } else {
        first_such(s.skip(1), f)
    }
}

/// An entry that satisfies `f`, with none before it that does, is the first.
pub proof fn lemma_first_such_is<T>(s: Seq<T>, f: spec_fn(T) -> bool, i: int)
    requires
        0 <= i <= s.len(),
        i < s.len() ==> f(s[i]),
        forall|j: int| 0 <= j < i ==> !f(#[trigger] s[j]),
    ensures
        i < s.len() ==> first_such(s, f) == Some(s[i]),
        i == s.len() ==> first_such(s, f) is None,
    decreases s.len(),
{
    if i > 0 {
        let rest = s.skip(1);
        assert(!f(s[0]));
        assert forall|j: int| 0 <= j < i - 1 implies !f(#[trigger] rest[j]) by {
            assert(rest[j] == s[j + 1]);
        }
        lemma_first_such_is(rest, f, i - 1);
    }
}

/// The first entry that satisfies `f` is an entry and satisfies it; where there is none,
/// no entry does.
pub proof fn lemma_first_such<T>(s: Seq<T>, f: spec_fn(T) -> bool)
    ensures
        match first_such(s, f) {
            Some(x) => f(x) && s.contains(x),
            None => forall|j: int| 0 <= j < s.len() ==> !f(#[trigger] s[j]),
        },
    decreases s.len(),
{
    if s.len() > 0 {
        if f(s[0]) {
            assert(s.contains(s[0]));
        } else {
            let rest = s.skip(1);
            lemma_first_such(rest, f);
            match first_such(s, f) {
                Some(x) => {
                    let j = choose|j: int| 0 <= j < rest.len() && rest[j] == x;
                    assert(s[j + 1] == x);
                },
                None => {
                    assert forall|j: int| 0 <= j < s.len() implies !f(#[trigger] s[j]) by {
                        if j > 0 {
                            assert(s[j] == rest[j - 1]);
                        }
                    }
                },
            }
        }
    }
}

/// The last entry of `s` that satisfies `f`.
pub open spec fn last_such<T>(s: Seq<T>, f: spec_fn(T) -> bool) -> Option<T>
    decreases s.len(),
{
    if s.len() == 0 {
        None
    } else if f(s.last()) {
        Some(s.last())
    } else {
        last_such(s.drop_last(), f)
    }
}

/// An entry that satisfies `f`, with none after it that does, is the last.
pub proof fn lemma_last_such_is<T>(s: Seq<T>, f: spec_fn(T) -> bool, i: int)
    requires
        -1 <= i < s.len(),
        i >= 0 ==> f(s[i]),
        forall|j: int| i < j < s.len() ==> !f(#[trigger] s[j]),
    ensures
        i >= 0 ==> last_such(s, f) == Some(s[i]),
        i == -1 ==> last_such(s, f) is None,
    decreases s.len(),
{
    if s.len() > 0 && i < s.len() - 1 {
        assert(!f(s[s.len() - 1]));
        lemma_last_such_is(s.drop_last(), f, i);
    }
}

} // verus!
