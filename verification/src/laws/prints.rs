//! When a listing counts as the same as the last one.
use crate::path;
use crate::platform::{AddressFamily, RawListenerView};
use crate::scanner::fingerprint;
use crate::scanner::fingerprint::{binding_key, listener_key};
use crate::scanner::state;
use crate::sorting;
use std::collections::hash_map::DefaultHasher;
use vstd::prelude::*;
use vstd::std_specs::hash::DefaultHasherAdditionalSpecFns;

verus! {

/// What the hasher is handed of a listing.
pub open spec fn handed(listeners: Seq<RawListenerView>) -> Seq<Seq<u8>> {
    fingerprint::structure_words(listeners).map_values(
        |w: u64| vstd::bytes::spec_u64_to_le_bytes(w),
    )
}

/// Whether two processes are the same but for what was measured of them: the number, the
/// parent, the command, the program, the directory, the user, and the ports in any order.
pub open spec fn same_but_for_readings(a: RawListenerView, b: RawListenerView) -> bool {
    &&& a.pid == b.pid
    &&& a.ppid == b.ppid
    &&& a.command == b.command
    &&& path::parts(a.exe_path) == path::parts(b.exe_path)
    &&& match (a.cwd, b.cwd) {
        (Some(x), Some(y)) => path::parts(x) == path::parts(y),
        (None, None) => true,
        _ => false,
    }
    &&& a.user == b.user
    &&& a.ports.to_multiset() == b.ports.to_multiset()
}

/// The fingerprint of a listing is the hash of what is handed over, and all of it.
pub proof fn lemma_fingerprint_hashes_it_all(listeners: Seq<RawListenerView>)
    ensures
        state::fingerprint_of(listeners) == DefaultHasher::spec_finish(handed(listeners)),
{
}

/// What is handed to the hasher tells the whole listing: where it is the same for two
/// listings, they have as many processes, and each process of the one is in the other.
pub proof fn lemma_everything_is_hashed(
    a: Seq<RawListenerView>,
    b: Seq<RawListenerView>,
    i: int,
)
    requires
        handed(a) == handed(b),
        0 <= i < a.len(),
    ensures
        a.len() == b.len(),
        exists|j: int| 0 <= j < b.len() && same_but_for_readings(a[i], #[trigger] b[j]),
{
    lemma_words_are_handed(a, b);
    fingerprint::lemma_fingerprint_sees_structure(a, b);
    let key = listener_key();
    let x = sorting::sorted_by_key(a, key);
    let y = sorting::sorted_by_key(b, key);
    sorting::lemma_sorted_by_key(a, key);
    sorting::lemma_sorted_by_key(b, key);
    let ex = fingerprint::essences(a);
    let ey = fingerprint::essences(b);
    assert(ex.len() == a.len() && ey.len() == b.len());
    broadcast use vstd::seq_lib::group_to_multiset_ensures;

    assert(a.contains(a[i]));
    assert(a.to_multiset().contains(a[i]));
    assert(x.contains(a[i]));
    let k = choose|k: int| 0 <= k < x.len() && x[k] == a[i];
    assert(y.contains(y[k]));
    assert(b.to_multiset().contains(y[k]));
    assert(b.contains(y[k]));
    let j = choose|j: int| 0 <= j < b.len() && b[j] == y[k];
    assert(ex[k] == fingerprint::essence(x[k]));
    assert(ey[k] == fingerprint::essence(y[k]));
    sorting::lemma_sorted_by_key(a[i].ports, binding_key());
    sorting::lemma_sorted_by_key(b[j].ports, binding_key());
    assert(same_but_for_readings(a[i], b[j]));
}

/// The bytes of a word tell the word.
proof fn lemma_words_are_handed(a: Seq<RawListenerView>, b: Seq<RawListenerView>)
    requires
        handed(a) == handed(b),
    ensures
        fingerprint::structure_words(a) == fingerprint::structure_words(b),
{
    vstd::bytes::lemma_auto_spec_u64_to_from_le_bytes();
    let x = fingerprint::structure_words(a);
    let y = fingerprint::structure_words(b);
    assert(x.len() == handed(a).len() && y.len() == handed(b).len());
    assert forall|k: int| 0 <= k < x.len() implies x[k] == y[k] by {
        assert(handed(a)[k] == vstd::bytes::spec_u64_to_le_bytes(x[k]));
        assert(handed(b)[k] == vstd::bytes::spec_u64_to_le_bytes(y[k]));
        assert(vstd::bytes::spec_u64_from_le_bytes(handed(a)[k]) == x[k]);
    }
    assert(x =~= y);
}

/// A process that the last listing did not have makes the hasher be handed something else,
/// however many there are.
pub proof fn lemma_newcomer_is_hashed(
    a: Seq<RawListenerView>,
    b: Seq<RawListenerView>,
    i: int,
)
    requires
        0 <= i < a.len(),
        forall|j: int| 0 <= j < b.len() ==> !same_but_for_readings(a[i], #[trigger] b[j]),
    ensures
        handed(a) != handed(b),
{
    if handed(a) == handed(b) {
        lemma_everything_is_hashed(a, b, i);
    }
}

/// What was only measured does not count: listings whose processes differ in nothing but
/// their resources and the time they began have the same fingerprint.
pub proof fn lemma_readings_do_not_count(a: Seq<RawListenerView>, b: Seq<RawListenerView>)
    requires
        a.len() == b.len(),
        forall|i: int|
            0 <= i < a.len() ==> (#[trigger] a[i]).pid == b[i].pid && a[i].ppid == b[i].ppid
                && a[i].command == b[i].command && a[i].exe_path == b[i].exe_path && a[i].cwd
                == b[i].cwd && a[i].user == b[i].user && a[i].ports == b[i].ports,
    ensures
        state::fingerprint_of(a) == state::fingerprint_of(b),
{
    let f = |l: RawListenerView| fingerprint::without_readings(l);
    assert forall|i: int| 0 <= i < a.len() implies a.map_values(f)[i] == b.map_values(f)[i] by {
        assert(a[i].pid == b[i].pid);
    }
    assert(a.map_values(f) =~= b.map_values(f));
    fingerprint::lemma_fingerprint_ignores_readings(a, b);
}

/// The order in which processes are listed does not count.
pub proof fn lemma_order_does_not_count(a: Seq<RawListenerView>, b: Seq<RawListenerView>)
    requires
        a.to_multiset() == b.to_multiset(),
        forall|i: int, j: int|
            0 <= i < j < a.len() ==> (#[trigger] a[i]).pid != (#[trigger] a[j]).pid,
    ensures
        state::fingerprint_of(a) == state::fingerprint_of(b),
{
    assert(sorting::distinct_keys(a, listener_key()));
    fingerprint::lemma_fingerprint_ignores_order(a, b);
}

/// Nor does the order of a process's ports, where no two have the same number and family.
pub proof fn lemma_order_of_ports_does_not_count(
    l: RawListenerView,
    m: RawListenerView,
)
    requires
        l.ports.to_multiset() == m.ports.to_multiset(),
        m == (RawListenerView { ports: m.ports, ..l }),
        forall|i: int, j: int|
            0 <= i < j < l.ports.len() ==> (#[trigger] l.ports[i]).port != (
            #[trigger] l.ports[j]).port || l.ports[i].family != l.ports[j].family,
    ensures
        fingerprint::listener_words(l) == fingerprint::listener_words(m),
{
    assert forall|i: int, j: int| 0 <= i < j < l.ports.len() implies binding_key()(
        #[trigger] l.ports[i],
    ) != binding_key()(#[trigger] l.ports[j]) by {
        assert(l.ports[i].family == AddressFamily::V4 || l.ports[i].family == AddressFamily::V6);
    }
    assert(sorting::distinct_keys(l.ports, binding_key()));
    fingerprint::lemma_fingerprint_ignores_port_order(l.ports, m.ports);
}

/// A scan looks closely unless it was not told to and the fingerprint is the last one's.
pub proof fn lemma_when_a_scan_looks_closely(
    s: state::Scanned,
    listeners: Seq<RawListenerView>,
    force_full: bool,
)
    ensures
        force_full ==> !state::unchanged(s, listeners, force_full),
        s.fingerprint is None ==> !state::unchanged(s, listeners, force_full),
        s.fingerprint is Some && !force_full ==> (state::unchanged(s, listeners, force_full)
            <==> s.fingerprint->0 == DefaultHasher::spec_finish(handed(listeners))),
{
}

} // verus!
