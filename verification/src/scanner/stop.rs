//! What may be stopped, and what must be refused. Nothing here signals anything; these
//! are the questions that every stop has to pass first.
use crate::domain::model::Kind;
use crate::find;
use crate::platform;
use crate::platform::{
    holds_address, listener_views, shares_address, PortBinding, RawListener, RawListenerView,
};
use crate::scanner::pressure;
use crate::scanner::server::{server_views, ScannedServer, ScannedView};
use crate::text;
use crate::time::Timestamp;
use vstd::hash_map::StringHashMap;
use vstd::prelude::*;

verus! {

// ---------------------------------------------------------------------------------
// By Kind.
// ---------------------------------------------------------------------------------

/// Why a Server of this Kind must not be stopped, where it must not.
pub fn refuse_if_watch_only(kind: Kind) -> (r: Option<&'static str>)
    ensures
        match r {
            Some(reason) => kind.watch_only() && reason@
                == "this Server is Watch Only and cannot be stopped through this tool"@,
            None => !kind.watch_only(),
        },
{
    if kind.is_watch_only() {
        Some("this Server is Watch Only and cannot be stopped through this tool")
    } else {
        None
    }
}

/// Whether a Server is a development server.
pub open spec fn is_dev() -> spec_fn(ScannedView) -> bool {
    |s: ScannedView| s.kind == Kind::DevServer
}

/// The ids of the development servers.
pub open spec fn bulk_ids(servers: Seq<ScannedView>) -> Seq<Seq<char>> {
    servers.filter(is_dev()).map_values(|s: ScannedView| s.id)
}

/// The ids of the Servers that stopping everything stops: the development servers, and
/// nothing else.
pub fn eligible_for_bulk_stop(servers: &Vec<ScannedServer>) -> (r: Vec<String>)
    ensures
        text::views(r@) == bulk_ids(server_views(servers@)),
{
    let mut r: Vec<String> = Vec::new();
    let mut i: usize = 0;
    let ghost all = server_views(servers@);
    let ghost f = |s: ScannedView| s.id;
    proof {
        reveal(Seq::filter);
        assert(all.take(0) =~= Seq::<ScannedView>::empty());
        assert(text::views(r@) =~= bulk_ids(all.take(0)));
    }
    while i < servers.len()
        invariant
            0 <= i <= servers@.len(),
            all == server_views(servers@),
            f == (|s: ScannedView| s.id),
            text::views(r@) == bulk_ids(all.take(i as int)),
        decreases servers@.len() - i,
    {
        let s = &servers[i];
        let ghost before = text::views(r@);
        proof {
            reveal(Seq::filter);
            assert(all.take(i + 1).drop_last() =~= all.take(i as int));
            assert(all.take(i + 1).last() == s@);
            let kept = all.take(i as int).filter(is_dev());
            assert(kept.push(s@).map_values(f) =~= kept.map_values(f).push(s@.id));
        }
        if s.kind == Kind::DevServer {
            let id = s.id.clone();
            let ghost t = id@;
            r.push(id);
            proof {
                assert(text::views(r@) =~= before.push(t));
            }
        }
        i = i + 1;
    }
    proof {
        assert(all.take(i as int) =~= all);
    }
    r
}

// ---------------------------------------------------------------------------------
// Forcing.
// ---------------------------------------------------------------------------------

/// For how many seconds a polite stop that failed allows a forced one.
pub const FORCE_STOP_AUTHORIZATION_TTL: u64 = 120;

/// What a polite stop that failed leaves behind: the ports of the Server, by which a
/// surviving child is found, and when it failed.
#[derive(Debug)]
pub struct FailedPoliteStop {
    pub ports: Vec<PortBinding>,
    pub recorded_at: Timestamp,
}

/// What a [`FailedPoliteStop`] holds.
#[verifier::ext_equal]
pub struct FailureView {
    pub ports: Seq<PortBinding>,
    pub recorded_at: Timestamp,
}

impl View for FailedPoliteStop {
    type V = FailureView;

    open spec fn view(&self) -> FailureView {
        FailureView { ports: self.ports@, recorded_at: self.recorded_at }
    }
}

/// Whether a permission given at `recorded_at` is over at `now`. Where the clock was set
/// back it is over too: another polite stop can earn it anew.
pub open spec fn expired(recorded_at: Timestamp, now: Timestamp) -> bool {
    now.ns() < recorded_at.ns() || now.ns() - recorded_at.ns() > FORCE_STOP_AUTHORIZATION_TTL
        * 1_000_000_000
}

impl FailedPoliteStop {
    /// A failure of a Server with these ports.
    pub fn new(ports: Vec<PortBinding>, recorded_at: Timestamp) -> (r: FailedPoliteStop)
        ensures
            r@ == (FailureView { ports: ports@, recorded_at }),
    {
        FailedPoliteStop { ports, recorded_at }
    }

    /// Whether the permission is over.
    pub fn is_expired(&self, now: Timestamp) -> (r: bool)
        ensures
            r == expired(self@.recorded_at, now),
    {
        match now.nanos_since(self.recorded_at) {
            Some(age) => age > (FORCE_STOP_AUTHORIZATION_TTL as u128) * 1_000_000_000,
            None => true,
        }
    }
}

/// The polite stops that failed, by Server.
pub type FailedPoliteStops = StringHashMap<FailedPoliteStop>;

/// What each failure of a map holds.
pub open spec fn failures(m: Map<Seq<char>, FailedPoliteStop>) -> Map<Seq<char>, FailureView> {
    m.map_values(|f: FailedPoliteStop| f@)
}

/// Whether a Server may be forced to stop: where a polite stop of the same Server failed,
/// and not too long ago.
pub open spec fn may_force(failed: Map<Seq<char>, FailureView>, id: Seq<char>, now: Timestamp) -> bool {
    failed.contains_key(id) && !expired(failed[id].recorded_at, now)
}

/// Why a Server must not be forced to stop, where it must not.
pub open spec fn force_refusal(failed: Map<Seq<char>, FailureView>, id: Seq<char>) -> Seq<char> {
    if failed.contains_key(id) {
        "That stop attempt was a while ago. Try stopping this Server again before forcing it."@
    } else {
        "Force Stop is only available after a polite stop has been tried and the Server is still running."@
    }
}

/// Why a Server must not be forced to stop, where it must not.
pub fn refuse_force_stop_without_prior_failure(
    failed_polite_stops: &FailedPoliteStops,
    id: &str,
    now: Timestamp,
) -> (r: Option<&'static str>)
    ensures
        match r {
            Some(reason) => !may_force(failures(failed_polite_stops@), id@, now) && reason@
                == force_refusal(failures(failed_polite_stops@), id@),
            None => may_force(failures(failed_polite_stops@), id@, now),
        },
{
    match failed_polite_stops.get(id) {
        Some(record) => {
            if record.is_expired(now) {
                Some(
                    "That stop attempt was a while ago. Try stopping this Server again before forcing it.",
                )
            } else {
                None
            }
        },
        None => Some(
            "Force Stop is only available after a polite stop has been tried and the Server is still running.",
        ),
    }
}

// ---------------------------------------------------------------------------------
// Identity.
// ---------------------------------------------------------------------------------

/// Whether a listener is the process `pid`.
pub open spec fn has_pid(pid: u32) -> spec_fn(RawListenerView) -> bool {
    |l: RawListenerView| l.pid == pid
}

/// Whether two lists of bindings are at the same addresses: none of either is at an
/// address that the other lacks. How often an address occurs does not matter.
pub open spec fn same_addresses(a: Seq<PortBinding>, b: Seq<PortBinding>) -> bool {
    &&& forall|i: int| 0 <= i < a.len() ==> platform::holds(b, #[trigger] a[i])
    &&& forall|j: int| 0 <= j < b.len() ==> platform::holds(a, #[trigger] b[j])
}

/// Whether the process listed now is the Server that was scanned: on the same addresses,
/// and started at the same time.
pub open spec fn is_same_server(current: RawListenerView, target: ScannedView) -> bool {
    same_addresses(target.ports, current.ports) && pressure::same_start(
        current.start_time,
        target.start_time,
    )
}

/// Whether the Server that was scanned is still there, in the listeners listed just now.
pub open spec fn still_itself(fresh: Seq<RawListenerView>, target: ScannedView) -> bool {
    match find::first_such(fresh, has_pid(target.pid)) {
        Some(current) => is_same_server(current, target),
        None => false,
    }
}

/// Why nothing may be signalled, where the Server that was scanned is not still there.
pub open spec fn identity_refusal(fresh: Seq<RawListenerView>, target: ScannedView) -> Seq<char> {
    if find::first_such(fresh, has_pid(target.pid)) is None {
        "This Server is no longer running — it may have already stopped."@
    } else {
        "This Server changed since it was last checked — nothing was stopped."@
    }
}

/// Whether each of the first bindings is at an address of the second.
fn all_held(a: &Vec<PortBinding>, b: &Vec<PortBinding>) -> (r: bool)
    ensures
        r == forall|i: int| 0 <= i < a@.len() ==> platform::holds(b@, #[trigger] a@[i]),
{
    let mut i: usize = 0;
    while i < a.len()
        invariant
            0 <= i <= a@.len(),
            forall|k: int| 0 <= k < i ==> platform::holds(b@, #[trigger] a@[k]),
        decreases a@.len() - i,
    {
        if !holds_address(b, a[i]) {
            return false;
        }
        i = i + 1;
    }
    true
}

/// Whether two lists of bindings are at the same addresses.
fn are_same_addresses(a: &Vec<PortBinding>, b: &Vec<PortBinding>) -> (r: bool)
    ensures
        r == same_addresses(a@, b@),
{
    all_held(a, b) && all_held(b, a)
}

/// The process `pid`, where it is listed.
fn find_pid<'a>(listeners: &'a Vec<RawListener>, pid: u32) -> (r: Option<&'a RawListener>)
    ensures
        match r {
            Some(l) => find::first_such(listener_views(listeners@), has_pid(pid)) == Some(l@),
            None => find::first_such(listener_views(listeners@), has_pid(pid)) is None,
        },
{
    let ghost all = listener_views(listeners@);
    let mut i: usize = 0;
    while i < listeners.len()
        invariant
            0 <= i <= listeners@.len(),
            all == listener_views(listeners@),
            forall|j: int| 0 <= j < i ==> !has_pid(pid)(#[trigger] all[j]),
        decreases listeners@.len() - i,
    {
        proof {
            assert(all[i as int] == listeners@[i as int]@);
        }
        if listeners[i].pid == pid {
            proof {
                find::lemma_first_such_is(all, has_pid(pid), i as int);
            }
            return Some(&listeners[i]);
        }
        i = i + 1;
    }
    proof {
        find::lemma_first_such_is(all, has_pid(pid), i as int);
    }
    None
}

/// Why nothing may be signalled, where the Server that was scanned is not still there.
///
/// What was scanned may be a minute old, and its process number may meanwhile belong to
/// something else. So before anything is signalled the listeners are listed afresh, and
/// the process must be on the same addresses and have started at the same time.
pub fn refuse_if_identity_changed(fresh: &Vec<RawListener>, target: &ScannedServer) -> (r: Option<
    &'static str,
>)
    ensures
        match r {
            Some(reason) => !still_itself(listener_views(fresh@), target@) && reason@
                == identity_refusal(listener_views(fresh@), target@),
            None => still_itself(listener_views(fresh@), target@),
        },
{
    match find_pid(fresh, target.pid) {
        Some(current) => {
            if !are_same_addresses(&target.ports, &current.ports) {
                return Some("This Server changed since it was last checked — nothing was stopped.");
            }
            if !pressure::is_same_start(current.start_time, target.start_time) {
                return Some("This Server changed since it was last checked — nothing was stopped.");
            }
            None
        },
        None => Some("This Server is no longer running — it may have already stopped."),
    }
}

// ---------------------------------------------------------------------------------
// Who holds a port.
// ---------------------------------------------------------------------------------

/// Whether a Server holds one of these addresses.
pub open spec fn holds_one_of(ports: Seq<PortBinding>) -> spec_fn(ScannedView) -> bool {
    |s: ScannedView| platform::share_address(s.ports, ports)
}

/// The first Server that holds one of these addresses.
pub open spec fn holder_of(servers: Seq<ScannedView>, ports: Seq<PortBinding>) -> Option<ScannedView> {
    find::first_such(servers, holds_one_of(ports))
}

/// The first Server that holds one of these addresses. A child that survives its parent
/// keeps the address but has a number, and so an id, of its own.
pub fn find_current_holder<'a>(servers: &'a Vec<ScannedServer>, target_ports: &Vec<PortBinding>) -> (r:
    Option<&'a ScannedServer>)
    ensures
        match r {
            Some(s) => holder_of(server_views(servers@), target_ports@) == Some(s@),
            None => holder_of(server_views(servers@), target_ports@) is None,
        },
{
    let ghost all = server_views(servers@);
    let ghost f = holds_one_of(target_ports@);
    let mut i: usize = 0;
    while i < servers.len()
        invariant
            0 <= i <= servers@.len(),
            all == server_views(servers@),
            f == holds_one_of(target_ports@),
            forall|j: int| 0 <= j < i ==> !f(#[trigger] all[j]),
        decreases servers@.len() - i,
    {
        proof {
            assert(all[i as int] == servers@[i as int]@);
        }
        if shares_address(&servers[i].ports, target_ports) {
            proof {
                find::lemma_first_such_is(all, f, i as int);
            }
            return Some(&servers[i]);
        }
        i = i + 1;
    }
    proof {
        find::lemma_first_such_is(all, f, i as int);
    }
    None
}

/// Whether a listener holds one of these addresses.
pub open spec fn listener_holds(ports: Seq<PortBinding>) -> spec_fn(RawListenerView) -> bool {
    |l: RawListenerView| platform::share_address(l.ports, ports)
}

/// Whether anything listed holds one of these addresses.
pub open spec fn any_holds(listeners: Seq<RawListenerView>, ports: Seq<PortBinding>) -> bool {
    exists|i: int| 0 <= i < listeners.len() && listener_holds(ports)(#[trigger] listeners[i])
}

/// Whether anything listed holds one of these addresses, not just the process that was
/// signalled.
pub fn still_held(listeners: &Vec<RawListener>, ports: &Vec<PortBinding>) -> (r: bool)
    ensures
        r == any_holds(listener_views(listeners@), ports@),
{
    let ghost all = listener_views(listeners@);
    let mut i: usize = 0;
    while i < listeners.len()
        invariant
            0 <= i <= listeners@.len(),
            all == listener_views(listeners@),
            forall|j: int| 0 <= j < i ==> !listener_holds(ports@)(#[trigger] all[j]),
        decreases listeners@.len() - i,
    {
        proof {
            assert(all[i as int] == listeners@[i as int]@);
        }
        if shares_address(&listeners[i].ports, ports) {
            proof {
                assert(listener_holds(ports@)(all[i as int]));
            }
            return true;
        }
        i = i + 1;
    }
    false
}

// ---------------------------------------------------------------------------------
// What these questions keep.
// ---------------------------------------------------------------------------------

/// A Server that is listed unchanged is still itself: the question never refuses what
/// has not changed, and small differences in the start time do not count.
pub proof fn lemma_unchanged_is_itself(
    fresh: Seq<RawListenerView>,
    target: ScannedView,
    current: RawListenerView,
)
    requires
        find::first_such(fresh, has_pid(target.pid)) == Some(current),
        current.ports == target.ports,
        pressure::same_start(current.start_time, target.start_time),
    ensures
        still_itself(fresh, target),
{
    assert forall|i: int| 0 <= i < target.ports.len() implies platform::holds(
        target.ports,
        #[trigger] target.ports[i],
    ) by {
        assert(platform::same_address(target.ports[i], target.ports[i]));
    }
}

/// A process number that has been given to something else is noticed: one that started
/// well before or after, or has lost or gained an address, is not the Server that was
/// scanned.
pub proof fn lemma_recycled_pid_is_noticed(
    fresh: Seq<RawListenerView>,
    target: ScannedView,
    current: RawListenerView,
)
    requires
        find::first_such(fresh, has_pid(target.pid)) == Some(current),
        ({
            ||| !pressure::same_start(current.start_time, target.start_time)
            ||| exists|i: int|
                0 <= i < target.ports.len() && !platform::holds(
                    current.ports,
                    #[trigger] target.ports[i],
                )
            ||| exists|j: int|
                0 <= j < current.ports.len() && !platform::holds(
                    target.ports,
                    #[trigger] current.ports[j],
                )
        }),
    ensures
        !still_itself(fresh, target),
{
}

/// A permission to force is never older than two minutes, and never without a polite
/// stop that failed before.
pub proof fn lemma_permission_is_fresh(
    failed: Map<Seq<char>, FailureView>,
    id: Seq<char>,
    now: Timestamp,
)
    ensures
        may_force(failed, id, now) ==> failed.contains_key(id) && 0 <= now.ns()
            - failed[id].recorded_at.ns() <= 120 * 1_000_000_000,
{
}

} // verus!
