//! Telling whether anything about the listeners has changed.
//!
//! What matters is written down as a list of numbers and hashed. Start times and usage
//! are left out: the former differ by a second from reading to reading, the latter on
//! every reading, and hashing them would make every scan look like a change.
use crate::path;
use crate::platform::{
    listener_views, AddressFamily, PortBinding, RawListener, RawListenerView, Reachability,
};
use crate::sorting;
use crate::text;
use std::collections::hash_map::DefaultHasher;
use std::hash::Hasher;
use vstd::bytes::u64_to_le_bytes;
use vstd::multiset::Multiset;
use vstd::prelude::*;
use vstd::std_specs::hash::DefaultHasherAdditionalSpecFns;

verus! {

// ---------------------------------------------------------------------------------
// What is written down.
// ---------------------------------------------------------------------------------

/// A text: a number above zero for each of its characters, and zero at the end.
pub open spec fn text_words(s: Seq<char>) -> Seq<u64>
    decreases s.len(),
{
    if s.len() == 0 {
        seq![0u64]
    } else {
        seq![((s[0] as u32) + 1) as u64] + text_words(s.skip(1))
    }
}

/// Texts: one before each of them, and zero at the end.
pub open spec fn all_text_words(v: Seq<Seq<char>>) -> Seq<u64>
    decreases v.len(),
{
    if v.len() == 0 {
        seq![0u64]
    } else {
        seq![1u64] + text_words(v[0]) + all_text_words(v.skip(1))
    }
}

/// A path: its parts. How it is spelled does not matter.
pub open spec fn path_words(s: Seq<char>) -> Seq<u64> {
    all_text_words(path::parts(s))
}

/// A path that may be missing.
pub open spec fn optional_path_words(s: Option<Seq<char>>) -> Seq<u64> {
    match s {
        Some(p) => seq![1u64] + path_words(p),
        None => seq![0u64],
    }
}

/// The number of an address family.
pub open spec fn family_word(f: AddressFamily) -> u64 {
    match f {
        AddressFamily::V4 => 4,
        AddressFamily::V6 => 6,
    }
}

/// The number of a reachability.
pub open spec fn reachability_word(r: Reachability) -> u64 {
    match r {
        Reachability::LocalhostOnly => 0,
        Reachability::AllInterfaces => 1,
    }
}

/// A binding.
pub open spec fn binding_words(b: PortBinding) -> Seq<u64> {
    seq![b.port as u64, family_word(b.family), reachability_word(b.reachability)]
}

/// Bindings: one before each of them, and zero at the end.
pub open spec fn all_binding_words(v: Seq<PortBinding>) -> Seq<u64>
    decreases v.len(),
{
    if v.len() == 0 {
        seq![0u64]
    } else {
        seq![1u64] + binding_words(v[0]) + all_binding_words(v.skip(1))
    }
}

/// What bindings are sorted by: the port, then the family.
pub open spec fn binding_key() -> spec_fn(PortBinding) -> int {
    |b: PortBinding| b.port * 10 + family_word(b.family)
}

/// What listeners are sorted by.
pub open spec fn listener_key() -> spec_fn(RawListenerView) -> int {
    |l: RawListenerView| l.pid as int
}

/// The bindings of a listener, in order.
pub open spec fn ports_words(v: Seq<PortBinding>) -> Seq<u64> {
    all_binding_words(sorting::sorted_by_key(v, binding_key()))
}

/// A listener, without its start time and its usage.
pub open spec fn listener_words(l: RawListenerView) -> Seq<u64> {
    seq![l.pid as u64, l.ppid as u64] + text_words(l.command) + path_words(l.exe_path)
        + optional_path_words(l.cwd) + text_words(l.user) + ports_words(l.ports)
}

/// Listeners: one before each of them, and zero at the end.
pub open spec fn all_listener_words(v: Seq<RawListenerView>) -> Seq<u64>
    decreases v.len(),
{
    if v.len() == 0 {
        seq![0u64]
    } else {
        seq![1u64] + listener_words(v[0]) + all_listener_words(v.skip(1))
    }
}

/// Everything that matters about listeners, in the order of their process numbers.
pub open spec fn structure_words(v: Seq<RawListenerView>) -> Seq<u64> {
    all_listener_words(sorting::sorted_by_key(v, listener_key()))
}

/// The hash of a list of numbers, each written as eight bytes.
pub open spec fn digest(words: Seq<u64>) -> u64 {
    DefaultHasher::spec_finish(words.map_values(|w: u64| vstd::bytes::spec_u64_to_le_bytes(w)))
}

// ---------------------------------------------------------------------------------
// Writing it down.
// ---------------------------------------------------------------------------------

/// Write a text down.
fn push_text(out: &mut Vec<u64>, s: &str)
    ensures
        final(out)@ == old(out)@ + text_words(s@),
{
    let v = text::to_chars(s);
    let mut i: usize = 0;
    proof {
        assert(v@.skip(0) =~= v@);
    }
    while i < v.len()
        invariant
            0 <= i <= v@.len(),
            v@ == s@,
            out@ + text_words(v@.skip(i as int)) == old(out)@ + text_words(s@),
        decreases v@.len() - i,
    {
        let ghost before = out@;
        let ghost rest = v@.skip(i as int);
        out.push((v[i] as u32) as u64 + 1);
        i = i + 1;
        proof {
            assert(rest.skip(1) =~= v@.skip(i as int));
            assert(out@ + text_words(v@.skip(i as int)) =~= before + text_words(rest));
        }
    }
    out.push(0);
    proof {
        assert(out@ =~= old(out)@ + text_words(s@));
    }
}

/// Write a path down.
fn push_path(out: &mut Vec<u64>, s: &str)
    ensures
        final(out)@ == old(out)@ + path_words(s@),
{
    let parts = path::split_parts(s);
    let ghost all = path::parts(s@);
    let mut i: usize = 0;
    proof {
        assert(parts@.len() == all.len());
        assert(all.skip(0) =~= all);
    }
    while i < parts.len()
        invariant
            0 <= i <= parts@.len(),
            parts@.len() == all.len(),
            text::views(parts@) == all,
            all == path::parts(s@),
            out@ + all_text_words(all.skip(i as int)) == old(out)@ + path_words(s@),
        decreases parts@.len() - i,
    {
        let ghost before = out@;
        let ghost rest = all.skip(i as int);
        proof {
            assert(text::views(parts@)[i as int] == parts@[i as int]@);
        }
        out.push(1);
        push_text(out, parts[i].as_str());
        i = i + 1;
        proof {
            assert(rest.skip(1) =~= all.skip(i as int));
            assert(out@ + all_text_words(all.skip(i as int)) =~= before + all_text_words(rest));
        }
    }
    out.push(0);
    proof {
        assert(out@ =~= old(out)@ + path_words(s@));
    }
}

/// Write a path that may be missing down.
fn push_optional_path(out: &mut Vec<u64>, s: &Option<String>)
    ensures
        final(out)@ == old(out)@ + optional_path_words(s.deep_view()),
{
    match s {
        Some(p) => {
            out.push(1);
            push_path(out, p.as_str());
            proof {
                assert(out@ =~= old(out)@ + optional_path_words(s.deep_view()));
            }
        },
        None => {
            out.push(0);
            proof {
                assert(out@ =~= old(out)@ + optional_path_words(s.deep_view()));
            }
        },
    }
}

/// What a binding is sorted by.
fn key_of_binding(b: &PortBinding) -> (r: u64)
    ensures
        r == binding_key()(*b),
{
    (b.port as u64) * 10 + (match b.family {
        AddressFamily::V4 => 4u64,
        AddressFamily::V6 => 6u64,
    })
}

/// The bindings in order.
fn sort_ports(v: &Vec<PortBinding>) -> (r: Vec<PortBinding>)
    ensures
        r@ == sorting::sorted_by_key(v@, binding_key()),
{
    let ghost key = binding_key();
    let mut r: Vec<PortBinding> = Vec::new();
    let mut i: usize = 0;
    proof {
        assert(r@ =~= v@.take(0));
    }
    while i < v.len()
        invariant
            0 <= i <= v@.len(),
            key == binding_key(),
            r@ == sorting::sorted_by_key(v@.take(i as int), key),
        decreases v@.len() - i,
    {
        let b = v[i];
        let k: u64 = key_of_binding(&b);
        let mut at: usize = r.len();
        while at > 0 && key_of_binding(&r[at - 1]) > k
            invariant
                0 <= at <= r@.len(),
                key == binding_key(),
                k == key(b),
                forall|j: int| at <= j < r@.len() ==> key(#[trigger] r@[j]) > k,
            decreases at,
        {
            at = at - 1;
        }
        proof {
            sorting::lemma_inserted_at(r@, b, key, at as int);
            assert(v@.take(i + 1).drop_last() =~= v@.take(i as int));
            assert(v@.take(i + 1).last() == b);
        }
        r.insert(at, b);
        i = i + 1;
    }
    proof {
        assert(v@.take(i as int) =~= v@);
    }
    r
}

/// Write the bindings of a listener down.
fn push_ports(out: &mut Vec<u64>, v: &Vec<PortBinding>)
    ensures
        final(out)@ == old(out)@ + ports_words(v@),
{
    let s = sort_ports(v);
    let mut i: usize = 0;
    proof {
        assert(s@.skip(0) =~= s@);
    }
    while i < s.len()
        invariant
            0 <= i <= s@.len(),
            out@ + all_binding_words(s@.skip(i as int)) == old(out)@ + all_binding_words(s@),
        decreases s@.len() - i,
    {
        let ghost before = out@;
        let ghost rest = s@.skip(i as int);
        let b = s[i];
        out.push(1);
        out.push(b.port as u64);
        out.push(
            match b.family {
                AddressFamily::V4 => 4,
                AddressFamily::V6 => 6,
            },
        );
        out.push(
            match b.reachability {
                Reachability::LocalhostOnly => 0,
                Reachability::AllInterfaces => 1,
            },
        );
        i = i + 1;
        proof {
            assert(rest.skip(1) =~= s@.skip(i as int));
            assert(out@ + all_binding_words(s@.skip(i as int)) =~= before + all_binding_words(
                rest,
            ));
        }
    }
    out.push(0);
    proof {
        assert(out@ =~= old(out)@ + ports_words(v@));
    }
}

/// Write a listener down.
fn push_listener(out: &mut Vec<u64>, l: &RawListener)
    ensures
        final(out)@ == old(out)@ + listener_words(l@),
{
    out.push(l.pid as u64);
    out.push(l.ppid as u64);
    push_text(out, l.command.as_str());
    push_path(out, l.exe_path.as_str());
    push_optional_path(out, &l.cwd);
    push_text(out, l.user.as_str());
    push_ports(out, &l.ports);
    proof {
        assert(out@ =~= old(out)@ + listener_words(l@));
    }
}

/// Where the listeners stand in the order of their process numbers.
fn sort_listeners(v: &Vec<RawListener>) -> (r: Vec<usize>)
    ensures
        forall|i: int| 0 <= i < r@.len() ==> (#[trigger] r@[i]) < v@.len(),
        r@.map_values(|i: usize| v@[i as int]@) == sorting::sorted_by_key(
            listener_views(v@),
            listener_key(),
        ),
{
    let ghost key = listener_key();
    let ghost all = listener_views(v@);
    let ghost pick = |i: usize| v@[i as int]@;
    let mut r: Vec<usize> = Vec::new();
    let mut n: usize = 0;
    proof {
        assert(r@.map_values(pick) =~= all.take(0));
    }
    while n < v.len()
        invariant
            0 <= n <= v@.len(),
            key == listener_key(),
            all == listener_views(v@),
            pick == (|i: usize| v@[i as int]@),
            forall|i: int| 0 <= i < r@.len() ==> (#[trigger] r@[i]) < v@.len(),
            r@.map_values(pick) == sorting::sorted_by_key(all.take(n as int), key),
        decreases v@.len() - n,
    {
        let pid: u32 = v[n].pid;
        let mut at: usize = r.len();
        let ghost so_far = r@.map_values(pick);
        while at > 0 && v[r[at - 1]].pid > pid
            invariant
                0 <= at <= r@.len(),
                key == listener_key(),
                pick == (|i: usize| v@[i as int]@),
                so_far == r@.map_values(pick),
                forall|i: int| 0 <= i < r@.len() ==> (#[trigger] r@[i]) < v@.len(),
                forall|j: int| at <= j < r@.len() ==> key(#[trigger] so_far[j]) > pid,
            decreases at,
        {
            proof {
                assert(so_far[at - 1] == v@[r@[at - 1] as int]@);
            }
            at = at - 1;
        }
        proof {
            if at > 0 {
                assert(so_far[at - 1] == v@[r@[at - 1] as int]@);
            }
            sorting::lemma_inserted_at(so_far, all[n as int], key, at as int);
            assert(all.take(n + 1).drop_last() =~= all.take(n as int));
            assert(all.take(n + 1).last() == all[n as int]);
        }
        r.insert(at, n);
        proof {
            assert(r@.map_values(pick) =~= so_far.insert(at as int, all[n as int]));
        }
        n = n + 1;
    }
    proof {
        assert(all.take(n as int) =~= all);
    }
    r
}

/// Write everything that matters about listeners down.
fn describe(v: &Vec<RawListener>) -> (out: Vec<u64>)
    ensures
        out@ == structure_words(listener_views(v@)),
{
    let order = sort_listeners(v);
    let ghost s = sorting::sorted_by_key(listener_views(v@), listener_key());
    let mut out: Vec<u64> = Vec::new();
    let mut i: usize = 0;
    proof {
        assert(s.skip(0) =~= s);
        assert(out@ + all_listener_words(s) =~= all_listener_words(s));
    }
    while i < order.len()
        invariant
            0 <= i <= order@.len(),
            forall|k: int| 0 <= k < order@.len() ==> (#[trigger] order@[k]) < v@.len(),
            order@.map_values(|k: usize| v@[k as int]@) == s,
            out@ + all_listener_words(s.skip(i as int)) == all_listener_words(s),
        decreases order@.len() - i,
    {
        let ghost before = out@;
        let ghost rest = s.skip(i as int);
        proof {
            assert(s[i as int] == v@[order@[i as int] as int]@);
        }
        out.push(1);
        push_listener(&mut out, &v[order[i]]);
        i = i + 1;
        proof {
            assert(rest.skip(1) =~= s.skip(i as int));
            assert(out@ + all_listener_words(s.skip(i as int)) =~= before + all_listener_words(
                rest,
            ));
        }
    }
    out.push(0);
    proof {
        assert(order@.len() == s.len());
        assert(out@ =~= structure_words(listener_views(v@)));
    }
    out
}

/// The hash of everything that matters about listeners.
pub fn fingerprint(listeners: &Vec<RawListener>) -> (r: u64)
    ensures
        r == digest(structure_words(listener_views(listeners@))),
{
    let words = describe(listeners);
    let mut hasher = DefaultHasher::new();
    let mut i: usize = 0;
    let ghost le = |w: u64| vstd::bytes::spec_u64_to_le_bytes(w);
    proof {
        assert(hasher@ =~= words@.take(0).map_values(le));
    }
    while i < words.len()
        invariant
            0 <= i <= words@.len(),
            le == (|w: u64| vstd::bytes::spec_u64_to_le_bytes(w)),
            hasher@ == words@.take(i as int).map_values(le),
        decreases words@.len() - i,
    {
        let bytes = u64_to_le_bytes(words[i]);
        hasher.write(bytes.as_slice());
        i = i + 1;
        proof {
            assert(hasher@ =~= words@.take(i as int).map_values(le));
        }
    }
    proof {
        assert(words@.take(i as int) =~= words@);
    }
    hasher.finish()
}

// ---------------------------------------------------------------------------------
// What the fingerprint sees, and what it does not.
// ---------------------------------------------------------------------------------

/// A listener without what the fingerprint leaves out.
pub open spec fn without_readings(l: RawListenerView) -> RawListenerView {
    RawListenerView {
        start_time: crate::time::Timestamp { secs: 0, nanos: 0 },
        usage: crate::platform::ResourceSample { cpu_tenths_percent: None, memory_bytes: None },
        ..l
    }
}

/// Start times and usage do not change the fingerprint, however they move.
pub proof fn lemma_fingerprint_ignores_readings(a: Seq<RawListenerView>, b: Seq<RawListenerView>)
    requires
        a.map_values(|l: RawListenerView| without_readings(l)) == b.map_values(
            |l: RawListenerView| without_readings(l),
        ),
    ensures
        structure_words(a) == structure_words(b),
{
    let f = |l: RawListenerView| without_readings(l);
    sorting::lemma_sorted_map(a, f, listener_key(), listener_key());
    sorting::lemma_sorted_map(b, f, listener_key(), listener_key());
    lemma_words_without_readings(sorting::sorted_by_key(a, listener_key()));
    lemma_words_without_readings(sorting::sorted_by_key(b, listener_key()));
}

/// What is written down of listeners does not hold their readings.
proof fn lemma_words_without_readings(v: Seq<RawListenerView>)
    ensures
        all_listener_words(v) == all_listener_words(
            v.map_values(|l: RawListenerView| without_readings(l)),
        ),
    decreases v.len(),
{
    let f = |l: RawListenerView| without_readings(l);
    if v.len() > 0 {
        lemma_words_without_readings(v.skip(1));
        assert(v.map_values(f).skip(1) =~= v.skip(1).map_values(f));
    }
}

/// The order in which the listeners were listed does not change the fingerprint.
pub proof fn lemma_fingerprint_ignores_order(a: Seq<RawListenerView>, b: Seq<RawListenerView>)
    requires
        a.to_multiset() == b.to_multiset(),
        sorting::distinct_keys(a, listener_key()),
    ensures
        structure_words(a) == structure_words(b),
{
    sorting::lemma_sorting_forgets_order(a, b, listener_key());
}

/// Nor does the order in which a listener's bindings were listed.
pub proof fn lemma_fingerprint_ignores_port_order(a: Seq<PortBinding>, b: Seq<PortBinding>)
    requires
        a.to_multiset() == b.to_multiset(),
        sorting::distinct_keys(a, binding_key()),
    ensures
        ports_words(a) == ports_words(b),
{
    sorting::lemma_sorting_forgets_order(a, b, binding_key());
}

/// What a listener is, but for its readings and the order of its bindings.
#[verifier::ext_equal]
pub struct Identity {
    pub pid: u32,
    pub ppid: u32,
    pub command: Seq<char>,
    pub exe_path: Seq<char>,
    pub cwd: Option<Seq<char>>,
    pub user: Seq<char>,
    pub ports: Multiset<PortBinding>,
}

/// What a listener is, but for its readings and the order of its bindings.
pub open spec fn identity(l: RawListenerView) -> Identity {
    Identity {
        pid: l.pid,
        ppid: l.ppid,
        command: l.command,
        exe_path: l.exe_path,
        cwd: l.cwd,
        user: l.user,
        ports: l.ports.to_multiset(),
    }
}

/// What listeners are, but for their order, their readings and the order of their
/// bindings.
pub open spec fn identities(v: Seq<RawListenerView>) -> Multiset<Identity> {
    v.map_values(|l: RawListenerView| identity(l)).to_multiset()
}

/// The order of the listeners, the order of each one's bindings, start times and usage,
/// all of them together, do not change the fingerprint. No process may be listed twice,
/// and no process may have two bindings at one address.
pub proof fn lemma_fingerprint_sees_identity_alone(
    a: Seq<RawListenerView>,
    b: Seq<RawListenerView>,
)
    requires
        identities(a) == identities(b),
        sorting::distinct_keys(a, listener_key()),
        forall|i: int|
            0 <= i < a.len() ==> sorting::distinct_keys((#[trigger] a[i]).ports, binding_key()),
    ensures
        structure_words(a) == structure_words(b),
{
    broadcast use vstd::seq_lib::group_to_multiset_ensures;

    let f = |l: RawListenerView| identity(l);
    let key = |t: Identity| t.pid as int;
    sorting::lemma_sorted_map(a, f, listener_key(), key);
    sorting::lemma_sorted_map(b, f, listener_key(), key);
    let fa = a.map_values(f);
    assert forall|i: int, j: int| 0 <= i < j < fa.len() implies key(#[trigger] fa[i]) != key(
        #[trigger] fa[j],
    ) by {
        assert(listener_key()(a[i]) != listener_key()(a[j]));
    }
    sorting::lemma_sorting_forgets_order(fa, b.map_values(f), key);
    let x = sorting::sorted_by_key(a, listener_key());
    let y = sorting::sorted_by_key(b, listener_key());
    sorting::lemma_sorted_by_key(a, listener_key());
    assert forall|i: int| 0 <= i < x.len() implies sorting::distinct_keys(
        (#[trigger] x[i]).ports,
        binding_key(),
    ) by {
        assert(x.contains(x[i]));
        assert(x.to_multiset().count(x[i]) > 0);
        assert(a.contains(x[i]));
        let k = choose|k: int| 0 <= k < a.len() && a[k] == x[i];
        assert(a[k] == x[i]);
    }
    lemma_words_of_identities(x, y);
}

/// Listeners that are the same one by one, but for their readings and the order of their
/// bindings, are written down alike.
proof fn lemma_words_of_identities(x: Seq<RawListenerView>, y: Seq<RawListenerView>)
    requires
        x.map_values(|l: RawListenerView| identity(l)) == y.map_values(
            |l: RawListenerView| identity(l),
        ),
        forall|i: int|
            0 <= i < x.len() ==> sorting::distinct_keys((#[trigger] x[i]).ports, binding_key()),
    ensures
        all_listener_words(x) == all_listener_words(y),
    decreases x.len(),
{
    let f = |l: RawListenerView| identity(l);
    assert(x.map_values(f).len() == y.map_values(f).len());
    if x.len() > 0 {
        assert(x.map_values(f)[0] == y.map_values(f)[0]);
        assert(identity(x[0]) == identity(y[0]));
        lemma_fingerprint_ignores_port_order(x[0].ports, y[0].ports);
        let xs = x.skip(1);
        let ys = y.skip(1);
        assert(xs.map_values(f) =~= x.map_values(f).skip(1));
        assert(ys.map_values(f) =~= y.map_values(f).skip(1));
        assert forall|i: int| 0 <= i < xs.len() implies sorting::distinct_keys(
            (#[trigger] xs[i]).ports,
            binding_key(),
        ) by {
            assert(xs[i] == x[i + 1]);
        }
        lemma_words_of_identities(xs, ys);
    }
}

/// What the fingerprint sees of a listener.
#[verifier::ext_equal]
pub struct Essence {
    pub pid: u32,
    pub ppid: u32,
    pub command: Seq<char>,
    pub exe_path: Seq<Seq<char>>,
    pub cwd: Option<Seq<Seq<char>>>,
    pub user: Seq<char>,
    pub ports: Seq<PortBinding>,
}

/// What the fingerprint sees of a listener.
pub open spec fn essence(l: RawListenerView) -> Essence {
    Essence {
        pid: l.pid,
        ppid: l.ppid,
        command: l.command,
        exe_path: path::parts(l.exe_path),
        cwd: match l.cwd {
            Some(c) => Some(path::parts(c)),
            None => None,
        },
        user: l.user,
        ports: sorting::sorted_by_key(l.ports, binding_key()),
    }
}

/// What the fingerprint sees of listeners, in the order of their process numbers.
pub open spec fn essences(v: Seq<RawListenerView>) -> Seq<Essence> {
    sorting::sorted_by_key(v, listener_key()).map_values(|l: RawListenerView| essence(l))
}

/// Characters with the same number are the same.
proof fn lemma_char_word(a: char, b: char)
    requires
        ((a as u32) + 1) as u64 == ((b as u32) + 1) as u64,
    ensures
        a == b,
{
}

/// Two texts written down alike are the same, and so is what follows them.
proof fn lemma_text_words(a: Seq<char>, b: Seq<char>, r: Seq<u64>, s: Seq<u64>)
    requires
        text_words(a) + r == text_words(b) + s,
    ensures
        a == b,
        r == s,
    decreases a.len(),
{
    let x = text_words(a) + r;
    let y = text_words(b) + s;
    assert(x[0] == text_words(a)[0]);
    assert(y[0] == text_words(b)[0]);
    if a.len() == 0 {
        assert(b.len() == 0);
        assert(a =~= b);
        assert(r =~= x.skip(1));
        assert(s =~= y.skip(1));
    } else {
        assert(b.len() > 0);
        lemma_char_word(a[0], b[0]);
        assert(x.skip(1) =~= text_words(a.skip(1)) + r);
        assert(y.skip(1) =~= text_words(b.skip(1)) + s);
        lemma_text_words(a.skip(1), b.skip(1), r, s);
        assert(a =~= seq![a[0]] + a.skip(1));
        assert(b =~= seq![b[0]] + b.skip(1));
    }
}

/// Two lists of texts written down alike are the same, and so is what follows them.
proof fn lemma_all_text_words(a: Seq<Seq<char>>, b: Seq<Seq<char>>, r: Seq<u64>, s: Seq<u64>)
    requires
        all_text_words(a) + r == all_text_words(b) + s,
    ensures
        a == b,
        r == s,
    decreases a.len(),
{
    let x = all_text_words(a) + r;
    let y = all_text_words(b) + s;
    assert(x[0] == all_text_words(a)[0]);
    assert(y[0] == all_text_words(b)[0]);
    if a.len() == 0 {
        assert(b.len() == 0);
        assert(a =~= b);
        assert(r =~= x.skip(1));
        assert(s =~= y.skip(1));
    } else {
        assert(b.len() > 0);
        let ra = all_text_words(a.skip(1)) + r;
        let rb = all_text_words(b.skip(1)) + s;
        assert(x.skip(1) =~= text_words(a[0]) + ra);
        assert(y.skip(1) =~= text_words(b[0]) + rb);
        lemma_text_words(a[0], b[0], ra, rb);
        lemma_all_text_words(a.skip(1), b.skip(1), r, s);
        assert(a =~= seq![a[0]] + a.skip(1));
        assert(b =~= seq![b[0]] + b.skip(1));
    }
}

/// Two optional paths written down alike are the same, and so is what follows them.
proof fn lemma_optional_path_words(
    a: Option<Seq<char>>,
    b: Option<Seq<char>>,
    r: Seq<u64>,
    s: Seq<u64>,
)
    requires
        optional_path_words(a) + r == optional_path_words(b) + s,
    ensures
        a is Some == b is Some,
        a is Some ==> path::parts(a->0) == path::parts(b->0),
        r == s,
{
    let x = optional_path_words(a) + r;
    let y = optional_path_words(b) + s;
    assert(x[0] == optional_path_words(a)[0]);
    assert(y[0] == optional_path_words(b)[0]);
    match (a, b) {
        (Some(p), Some(q)) => {
            assert(x.skip(1) =~= path_words(p) + r);
            assert(y.skip(1) =~= path_words(q) + s);
            lemma_all_text_words(path::parts(p), path::parts(q), r, s);
        },
        _ => {
            assert(r =~= x.skip(1));
            assert(s =~= y.skip(1));
        },
    }
}

/// Two lists of bindings written down alike are the same, and so is what follows them.
proof fn lemma_all_binding_words(
    a: Seq<PortBinding>,
    b: Seq<PortBinding>,
    r: Seq<u64>,
    s: Seq<u64>,
)
    requires
        all_binding_words(a) + r == all_binding_words(b) + s,
    ensures
        a == b,
        r == s,
    decreases a.len(),
{
    let x = all_binding_words(a) + r;
    let y = all_binding_words(b) + s;
    assert(x[0] == all_binding_words(a)[0]);
    assert(y[0] == all_binding_words(b)[0]);
    if a.len() == 0 {
        assert(b.len() == 0);
        assert(a =~= b);
        assert(r =~= x.skip(1));
        assert(s =~= y.skip(1));
    } else {
        assert(b.len() > 0);
        assert(x[1] == a[0].port as u64 && x[2] == family_word(a[0].family) && x[3]
            == reachability_word(a[0].reachability));
        assert(y[1] == b[0].port as u64 && y[2] == family_word(b[0].family) && y[3]
            == reachability_word(b[0].reachability));
        assert(a[0] == b[0]);
        assert(x.skip(4) =~= all_binding_words(a.skip(1)) + r);
        assert(y.skip(4) =~= all_binding_words(b.skip(1)) + s);
        lemma_all_binding_words(a.skip(1), b.skip(1), r, s);
        assert(a =~= seq![a[0]] + a.skip(1));
        assert(b =~= seq![b[0]] + b.skip(1));
    }
}

/// Joining lists of numbers is associative.
proof fn lemma_assoc(a: Seq<u64>, b: Seq<u64>, c: Seq<u64>)
    ensures
        (a + b) + c == a + (b + c),
{
    assert((a + b) + c =~= a + (b + c));
}

/// What is written down of a listener, grouped from the right.
proof fn lemma_regroup(l: RawListenerView, r: Seq<u64>)
    ensures
        listener_words(l) + r == seq![l.pid as u64, l.ppid as u64] + (text_words(l.command) + (
        path_words(l.exe_path) + (optional_path_words(l.cwd) + (text_words(l.user) + (ports_words(
            l.ports,
        ) + r))))),
{
    let h = seq![l.pid as u64, l.ppid as u64];
    let c = text_words(l.command);
    let e = path_words(l.exe_path);
    let w = optional_path_words(l.cwd);
    let u = text_words(l.user);
    let p = ports_words(l.ports);
    lemma_assoc(h + c + e + w + u, p, r);
    lemma_assoc(h + c + e + w, u, p + r);
    lemma_assoc(h + c + e, w, u + (p + r));
    lemma_assoc(h + c, e, w + (u + (p + r)));
    lemma_assoc(h, c, e + (w + (u + (p + r))));
}

/// Two listeners written down alike are seen alike, and what follows them is the same.
proof fn lemma_listener_words(a: RawListenerView, b: RawListenerView, r: Seq<u64>, s: Seq<u64>)
    requires
        listener_words(a) + r == listener_words(b) + s,
    ensures
        essence(a) == essence(b),
        r == s,
{
    let x = listener_words(a) + r;
    let y = listener_words(b) + s;
    assert(x[0] == a.pid as u64 && x[1] == a.ppid as u64);
    assert(y[0] == b.pid as u64 && y[1] == b.ppid as u64);
    let a1 = ports_words(a.ports) + r;
    let b1 = ports_words(b.ports) + s;
    let a2 = text_words(a.user) + a1;
    let b2 = text_words(b.user) + b1;
    let a3 = optional_path_words(a.cwd) + a2;
    let b3 = optional_path_words(b.cwd) + b2;
    let a4 = path_words(a.exe_path) + a3;
    let b4 = path_words(b.exe_path) + b3;
    lemma_regroup(a, r);
    lemma_regroup(b, s);
    assert(x.skip(2) =~= text_words(a.command) + a4);
    assert(y.skip(2) =~= text_words(b.command) + b4);
    lemma_text_words(a.command, b.command, a4, b4);
    lemma_all_text_words(path::parts(a.exe_path), path::parts(b.exe_path), a3, b3);
    lemma_optional_path_words(a.cwd, b.cwd, a2, b2);
    lemma_text_words(a.user, b.user, a1, b1);
    lemma_all_binding_words(
        sorting::sorted_by_key(a.ports, binding_key()),
        sorting::sorted_by_key(b.ports, binding_key()),
        r,
        s,
    );
}

/// Two lists of listeners written down alike are seen alike.
proof fn lemma_all_listener_words(a: Seq<RawListenerView>, b: Seq<RawListenerView>)
    requires
        all_listener_words(a) == all_listener_words(b),
    ensures
        a.map_values(|l: RawListenerView| essence(l)) == b.map_values(
            |l: RawListenerView| essence(l),
        ),
    decreases a.len(),
{
    let f = |l: RawListenerView| essence(l);
    let x = all_listener_words(a);
    let y = all_listener_words(b);
    if a.len() == 0 {
        assert(x[0] == 0);
        assert(b.len() == 0);
        assert(a.map_values(f) =~= b.map_values(f));
    } else {
        assert(x[0] == 1);
        assert(b.len() > 0);
        let ra = all_listener_words(a.skip(1));
        let rb = all_listener_words(b.skip(1));
        assert(x.skip(1) =~= listener_words(a[0]) + ra);
        assert(y.skip(1) =~= listener_words(b[0]) + rb);
        lemma_listener_words(a[0], b[0], ra, rb);
        lemma_all_listener_words(a.skip(1), b.skip(1));
        assert(a.map_values(f) =~= seq![f(a[0])] + a.skip(1).map_values(f));
        assert(b.map_values(f) =~= seq![f(b[0])] + b.skip(1).map_values(f));
    }
}

/// Whatever else changes about the listeners changes what is hashed: a process that
/// comes or goes, another parent, command, executable, directory, user or binding.
pub proof fn lemma_fingerprint_sees_structure(a: Seq<RawListenerView>, b: Seq<RawListenerView>)
    requires
        structure_words(a) == structure_words(b),
    ensures
        essences(a) == essences(b),
{
    lemma_all_listener_words(
        sorting::sorted_by_key(a, listener_key()),
        sorting::sorted_by_key(b, listener_key()),
    );
}

} // verus!
