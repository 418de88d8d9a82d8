//! Sorting by a key, keeping the order of what has the same key.
use vstd::prelude::*;

verus! {

/// `s`, which is sorted, with `x` put behind everything whose key is not larger.
pub open spec fn inserted<T>(s: Seq<T>, x: T, key: spec_fn(T) -> int) -> Seq<T>
    decreases s.len(),
{
    if s.len() == 0 || key(s.last()) <= key(x) {
        s.push(x)
    } else {
        inserted(s.drop_last(), x, key).push(s.last())
    }
}

/// `s` sorted by `key`. What has the same key stays in the order it was in.
pub open spec fn sorted_by_key<T>(s: Seq<T>, key: spec_fn(T) -> int) -> Seq<T>
    decreases s.len(),
{
    if s.len() == 0 {
        s
    } else {
        inserted(sorted_by_key(s.drop_last(), key), s.last(), key)
    }
}

/// Whether the keys of `s` never fall.
pub open spec fn is_sorted<T>(s: Seq<T>, key: spec_fn(T) -> int) -> bool {
    forall|i: int, j: int| 0 <= i <= j < s.len() ==> key(#[trigger] s[i]) <= key(#[trigger] s[j])
}

/// Whether no two entries of `s` have the same key.
pub open spec fn distinct_keys<T>(s: Seq<T>, key: spec_fn(T) -> int) -> bool {
    forall|i: int, j: int| 0 <= i < j < s.len() ==> key(#[trigger] s[i]) != key(#[trigger] s[j])
}

/// Where what is put in comes to stand.
pub proof fn lemma_inserted_at<T>(s: Seq<T>, x: T, key: spec_fn(T) -> int, at: int)
    requires
        0 <= at <= s.len(),
        at > 0 ==> key(s[at - 1]) <= key(x),
        forall|i: int| at <= i < s.len() ==> key(#[trigger] s[i]) > key(x),
    ensures
        inserted(s, x, key) == s.insert(at, x),
    decreases s.len(),
{
    if at == s.len() {
        assert(s.insert(at, x) =~= s.push(x));
    } else {
        assert(key(s[s.len() - 1]) > key(x));
        lemma_inserted_at(s.drop_last(), x, key, at);
        assert(s.drop_last().insert(at, x).push(s.last()) =~= s.insert(at, x));
    }
}

/// Putting an entry in keeps a list sorted and adds just that entry.
pub proof fn lemma_inserted<T>(s: Seq<T>, x: T, key: spec_fn(T) -> int)
    requires
        is_sorted(s, key),
    ensures
        is_sorted(inserted(s, x, key), key),
        inserted(s, x, key).to_multiset() == s.to_multiset().insert(x),
        inserted(s, x, key).len() == s.len() + 1,
        forall|i: int|
            0 <= i < inserted(s, x, key).len() ==> key(#[trigger] inserted(s, x, key)[i]) == key(x)
                || exists|j: int|
                0 <= j < s.len() && key(#[trigger] s[j]) == key(inserted(s, x, key)[i]),
    decreases s.len(),
{
    broadcast use vstd::seq_lib::group_to_multiset_ensures;

    let r = inserted(s, x, key);
    if s.len() == 0 || key(s.last()) <= key(x) {
        assert forall|i: int, j: int| 0 <= i <= j < r.len() implies key(#[trigger] r[i]) <= key(
            #[trigger] r[j],
        ) by {
            if i < s.len() {
                assert(key(s[i]) <= key(s[s.len() - 1]));
            }
        }
        assert forall|i: int| 0 <= i < r.len() implies key(#[trigger] r[i]) == key(x) || exists|
            j: int,
        |
            0 <= j < s.len() && key(#[trigger] s[j]) == key(r[i]) by {
            if i < s.len() {
                assert(r[i] == s[i]);
            }
        }
    } else {
        let front = s.drop_last();
        lemma_inserted(front, x, key);
        let rf = inserted(front, x, key);
        assert(r =~= rf.push(s.last()));
        assert forall|i: int| 0 <= i < r.len() implies key(#[trigger] r[i]) == key(x) || exists|
            j: int,
        |
            0 <= j < s.len() && key(#[trigger] s[j]) == key(r[i]) by {
            if i < rf.len() {
                assert(r[i] == rf[i]);
                if key(rf[i]) != key(x) {
                    let j = choose|j: int|
                        0 <= j < front.len() && key(#[trigger] front[j]) == key(rf[i]);
                    assert(s[j] == front[j]);
                }
            } else {
                assert(r[i] == s[s.len() - 1]);
            }
        }
        assert forall|i: int, j: int| 0 <= i <= j < r.len() implies key(#[trigger] r[i]) <= key(
            #[trigger] r[j],
        ) by {
            if j < rf.len() {
                assert(r[i] == rf[i] && r[j] == rf[j]);
            } else if i < rf.len() {
                assert(r[i] == rf[i]);
                if key(rf[i]) != key(x) {
                    let k = choose|k: int|
                        0 <= k < front.len() && key(#[trigger] front[k]) == key(rf[i]);
                    assert(key(s[k]) <= key(s[s.len() - 1]));
                }
            }
        }
        assert(s =~= front.push(s.last()));
        assert(s.to_multiset() == front.to_multiset().insert(s.last()));
        assert(r.to_multiset() == rf.to_multiset().insert(s.last()));
        assert(r.to_multiset() =~= s.to_multiset().insert(x));
    }
}

/// Sorting sorts, and neither adds nor loses anything.
pub proof fn lemma_sorted_by_key<T>(s: Seq<T>, key: spec_fn(T) -> int)
    ensures
        is_sorted(sorted_by_key(s, key), key),
        sorted_by_key(s, key).to_multiset() == s.to_multiset(),
        sorted_by_key(s, key).len() == s.len(),
    decreases s.len(),
{
    broadcast use vstd::seq_lib::group_to_multiset_ensures;

    if s.len() > 0 {
        let front = s.drop_last();
        lemma_sorted_by_key(front, key);
        lemma_inserted(sorted_by_key(front, key), s.last(), key);
        assert(s =~= front.push(s.last()));
    }
}

/// Where no two entries have the same key, the sorted list does not depend on the order
/// that the entries came in.
pub proof fn lemma_sorting_forgets_order<T>(a: Seq<T>, b: Seq<T>, key: spec_fn(T) -> int)
    requires
        a.to_multiset() == b.to_multiset(),
        distinct_keys(a, key),
    ensures
        sorted_by_key(a, key) == sorted_by_key(b, key),
{
    lemma_sorted_by_key(a, key);
    lemma_sorted_by_key(b, key);
    let x = sorted_by_key(a, key);
    let y = sorted_by_key(b, key);
    assert forall|p: T, q: T|
        x.to_multiset().count(p) > 0 && x.to_multiset().count(q) > 0 && key(p) == key(
            q,
        ) implies p == q by {
        lemma_same_key_same_entry(a, key, p, q);
    }
    lemma_sorted_lists_agree(x, y, key);
}

/// Among entries with distinct keys one key belongs to one entry.
proof fn lemma_same_key_same_entry<T>(a: Seq<T>, key: spec_fn(T) -> int, p: T, q: T)
    requires
        distinct_keys(a, key),
        a.to_multiset().count(p) > 0,
        a.to_multiset().count(q) > 0,
        key(p) == key(q),
    ensures
        p == q,
{
    broadcast use vstd::seq_lib::group_to_multiset_ensures;

    assert(a.contains(p));
    assert(a.contains(q));
    let i = choose|i: int| 0 <= i < a.len() && a[i] == p;
    let j = choose|j: int| 0 <= j < a.len() && a[j] == q;
    if i < j {
        assert(key(a[i]) != key(a[j]));
    }
    if j < i {
        assert(key(a[j]) != key(a[i]));
    }
}

/// Two sorted lists of the same entries, of which each key has only one, are the same.
proof fn lemma_sorted_lists_agree<T>(x: Seq<T>, y: Seq<T>, key: spec_fn(T) -> int)
    requires
        is_sorted(x, key),
        is_sorted(y, key),
        x.to_multiset() == y.to_multiset(),
        forall|p: T, q: T|
            #![trigger x.to_multiset().count(p), x.to_multiset().count(q)]
            x.to_multiset().count(p) > 0 && x.to_multiset().count(q) > 0 && key(p) == key(q) ==> p
                == q,
    ensures
        x == y,
    decreases x.len(),
{
    broadcast use vstd::seq_lib::group_to_multiset_ensures;

    assert(x.len() == x.to_multiset().len());
    assert(y.len() == y.to_multiset().len());
    if x.len() == 0 {
        assert(x =~= y);
    } else {
        let p = x.last();
        let q = y.last();
        assert(x.contains(p));
        assert(y.contains(q));
        assert(y.contains(p)) by {
            assert(y.to_multiset().count(p) > 0);
        }
        assert(x.contains(q)) by {
            assert(x.to_multiset().count(q) > 0);
        }
        let i = choose|i: int| 0 <= i < y.len() && y[i] == p;
        let j = choose|j: int| 0 <= j < x.len() && x[j] == q;
        assert(key(y[i]) <= key(y[y.len() - 1]));
        assert(key(x[j]) <= key(x[x.len() - 1]));
        assert(p == q);
        let xf = x.drop_last();
        let yf = y.drop_last();
        assert(x =~= xf.push(p));
        assert(y =~= yf.push(p));
        assert(x.to_multiset() == xf.to_multiset().insert(p));
        assert(y.to_multiset() == yf.to_multiset().insert(p));
        assert(xf.to_multiset() =~= x.to_multiset().remove(p));
        assert(yf.to_multiset() =~= y.to_multiset().remove(p));
        assert forall|u: T, v: T|
            #![trigger xf.to_multiset().count(u), xf.to_multiset().count(v)]
            xf.to_multiset().count(u) > 0 && xf.to_multiset().count(v) > 0 && key(u) == key(
                v,
            ) implies u == v by {
            assert(x.to_multiset().count(u) > 0);
            assert(x.to_multiset().count(v) > 0);
        }
        assert(is_sorted(xf, key)) by {
            assert forall|a: int, b: int| 0 <= a <= b < xf.len() implies key(#[trigger] xf[a])
                <= key(#[trigger] xf[b]) by {
                assert(xf[a] == x[a] && xf[b] == x[b]);
            }
        }
        assert(is_sorted(yf, key)) by {
            assert forall|a: int, b: int| 0 <= a <= b < yf.len() implies key(#[trigger] yf[a])
                <= key(#[trigger] yf[b]) by {
                assert(yf[a] == y[a] && yf[b] == y[b]);
            }
        }
        lemma_sorted_lists_agree(xf, yf, key);
    }
}

/// Changing entries in a way that keeps their keys does not change the order.
pub proof fn lemma_sorted_map<T, U>(
    s: Seq<T>,
    f: spec_fn(T) -> U,
    key: spec_fn(T) -> int,
    key_after: spec_fn(U) -> int,
)
    requires
        forall|x: T| key_after(#[trigger] f(x)) == key(x),
    ensures
        sorted_by_key(s.map_values(f), key_after) == sorted_by_key(s, key).map_values(f),
    decreases s.len(),
{
    if s.len() > 0 {
        let front = s.drop_last();
        lemma_sorted_map(front, f, key, key_after);
        assert(s.map_values(f).drop_last() =~= front.map_values(f));
        lemma_inserted_map(sorted_by_key(front, key), s.last(), f, key, key_after);
    } else {
        assert(s.map_values(f) =~= Seq::<U>::empty());
        assert(sorted_by_key(s, key).map_values(f) =~= Seq::<U>::empty());
    }
}

/// Changing entries in a way that keeps their keys does not change where one is put in.
proof fn lemma_inserted_map<T, U>(
    s: Seq<T>,
    x: T,
    f: spec_fn(T) -> U,
    key: spec_fn(T) -> int,
    key_after: spec_fn(U) -> int,
)
    requires
        forall|y: T| key_after(#[trigger] f(y)) == key(y),
    ensures
        inserted(s.map_values(f), f(x), key_after) == inserted(s, x, key).map_values(f),
    decreases s.len(),
{
    if s.len() == 0 || key(s.last()) <= key(x) {
        assert(s.push(x).map_values(f) =~= s.map_values(f).push(f(x)));
    } else {
        let front = s.drop_last();
        lemma_inserted_map(front, x, f, key, key_after);
        assert(s.map_values(f).drop_last() =~= front.map_values(f));
        assert(inserted(front, x, key).push(s.last()).map_values(f) =~= inserted(
            front,
            x,
            key,
        ).map_values(f).push(f(s.last())));
    }
}

} // verus!
