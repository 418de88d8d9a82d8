//! What a scan makes of what is listening.
use super::kinds::is_this_tool;
use super::panel::{lemma_dev_server_is_shown_as_it_is, shown_under, tells_of};
use crate::domain::classify;
use crate::domain::model::{AttributionView, Health, Kind, SelfPids};
use crate::domain::project;
use crate::keeplist::MarkKey;
use crate::numeral;
use crate::platform::{PortBinding, RawListenerView};
use crate::scanner::pipeline;
use crate::scanner::pipeline::{ClassifyDeps, Judged, PendingView, ProbeDeps};
use crate::scanner::pressure::Pressure;
use crate::scanner::renew;
use crate::scanner::server;
use crate::scanner::server::ScannedView;
use crate::scanner::snapshot;
use crate::scanner::state;
use crate::scanner::state::{ScanOutcome, Scanned};
use crate::scanner::titles::Titles;
use crate::scanner::usage;
use crate::time::Timestamp;
use vstd::prelude::*;

verus! {

/// The processes that hold a port, in the order in which they are listed.
pub open spec fn with_ports(listeners: Seq<RawListenerView>) -> Seq<RawListenerView> {
    listeners.filter(|l: RawListenerView| l.ports.len() > 0)
}

/// The id of a process: its number, a colon, and the first port that it holds.
pub open spec fn id_for(l: RawListenerView) -> Seq<char> {
    numeral::decimal(l.pid as nat) + ":"@ + numeral::decimal(l.ports[0].port as nat)
}

/// Whether a Server is what the listing says of a process and what the verdict on it is.
pub open spec fn is_made_of(s: ScannedView, l: RawListenerView, j: Judged) -> bool {
    &&& s.id == id_for(l)
    &&& s.pid == l.pid
    &&& s.command == l.command
    &&& s.ports == l.ports
    &&& s.unattended == (l.ppid == 0 || l.ppid == 1)
    &&& s.usage == l.usage
    &&& s.kind == j.kind
    &&& s.attribution == j.attribution
    &&& s.belongs_to == j.belongs_to
}

/// The verdicts are on the processes that hold a port, one each.
pub proof fn lemma_each_is_judged<O: Fn(&str) -> Option<String>, F: Fn(&str) -> bool>(
    listeners: Seq<RawListenerView>,
    self_pids: SelfPids,
    deps: ClassifyDeps<O, F>,
    judged: Seq<Judged>,
)
    requires
        pipeline::all_judged_by(listeners, self_pids, deps, judged),
    ensures
        judged.len() == with_ports(listeners).len(),
        forall|i: int|
            0 <= i < judged.len() ==> {
                let l = with_ports(listeners)[i];
                let j = #[trigger] judged[i];
                &&& classify::classified_by(
                    l,
                    self_pids,
                    deps.owning_app,
                    deps.path_exists,
                    (j.kind, j.attribution),
                )
                &&& is_this_tool(l.pid, self_pids) ==> j.belongs_to == Some("Portside — this app"@)
                &&& !is_this_tool(l.pid, self_pids) ==> exists|q: &str, r: Option<String>|
                    #[trigger] call_ensures(deps.owning_app, (q,), r) && q@ == l.exe_path
                        && r.deep_view() == j.belongs_to
            },
    decreases listeners.len(),
{
    reveal(Seq::filter);
    if listeners.len() > 0 {
        let front = listeners.drop_last();
        let l = listeners.last();
        if l.ports.len() > 0 {
            lemma_each_is_judged(front, self_pids, deps, judged.drop_last());
            assert(with_ports(listeners) == with_ports(front).push(l));
            assert forall|i: int| 0 <= i < judged.len() implies {
                let l = with_ports(listeners)[i];
                let j = #[trigger] judged[i];
                &&& classify::classified_by(
                    l,
                    self_pids,
                    deps.owning_app,
                    deps.path_exists,
                    (j.kind, j.attribution),
                )
                &&& is_this_tool(l.pid, self_pids) ==> j.belongs_to == Some("Portside — this app"@)
                &&& !is_this_tool(l.pid, self_pids) ==> exists|q: &str, r: Option<String>|
                    #[trigger] call_ensures(deps.owning_app, (q,), r) && q@ == l.exe_path
                        && r.deep_view() == j.belongs_to
            } by {
                if i < judged.len() - 1 {
                    assert(judged.drop_last()[i] == judged[i]);
                    assert(with_ports(listeners)[i] == with_ports(front)[i]);
                } else {
                    assert(judged[i] == judged.last());
                    assert(with_ports(listeners)[i] == l);
                    assert(pipeline::judged_by(l, self_pids, deps, judged[i]));
                }
            }
        } else {
            lemma_each_is_judged(front, self_pids, deps, judged);
            assert(with_ports(listeners) == with_ports(front));
        }
    }
}

/// What is pending carries the verdicts, one each.
proof fn lemma_pending_carries_the_verdicts(
    listeners: Seq<RawListenerView>,
    judged: Seq<Judged>,
    live: Map<Seq<char>, bool>,
    cache: Titles,
)
    requires
        judged.len() == with_ports(listeners).len(),
    ensures
        ({
            let pending = pipeline::pending_all(listeners, judged, live, cache).0;
            &&& pending.len() == judged.len()
            &&& forall|i: int|
                0 <= i < pending.len() ==> {
                    let p = #[trigger] pending[i];
                    &&& p.listener == with_ports(listeners)[i]
                    &&& p.id == id_for(p.listener)
                    &&& p.kind == judged[i].kind
                    &&& p.attribution == judged[i].attribution
                    &&& p.belongs_to == judged[i].belongs_to
                    &&& p.health == (if live.contains_key(p.id) {
                        if live[p.id] {
                            Health::Responding
                        } else {
                            Health::NotResponding
                        }
                    } else {
                        Health::Unknown
                    })
                }
        }),
    decreases listeners.len(),
{
    reveal(Seq::filter);
    if listeners.len() > 0 {
        let front = listeners.drop_last();
        let l = listeners.last();
        if l.ports.len() > 0 {
            assert(with_ports(listeners) == with_ports(front).push(l));
            lemma_pending_carries_the_verdicts(front, judged.drop_last(), live, cache);
            let before = pipeline::pending_all(front, judged.drop_last(), live, cache).0;
            let pending = pipeline::pending_all(listeners, judged, live, cache).0;
            super::kinds::lemma_name_of_a_server(l.pid, l.ports[0], l.ports.skip(1));
            assert(seq![l.ports[0]] + l.ports.skip(1) =~= l.ports);
            assert forall|i: int| 0 <= i < pending.len() implies {
                let p = #[trigger] pending[i];
                &&& p.listener == with_ports(listeners)[i]
                &&& p.id == id_for(p.listener)
                &&& p.kind == judged[i].kind
                &&& p.attribution == judged[i].attribution
                &&& p.belongs_to == judged[i].belongs_to
                &&& p.health == (if live.contains_key(p.id) {
                    if live[p.id] {
                        Health::Responding
                    } else {
                        Health::NotResponding
                    }
                } else {
                    Health::Unknown
                })
            } by {
                if i < before.len() {
                    assert(pending[i] == before[i]);
                    assert(judged.drop_last()[i] == judged[i]);
                } else {
                    assert(judged[i] == judged.last());
                }
            }
        } else {
            assert(with_ports(listeners) == with_ports(front));
            lemma_pending_carries_the_verdicts(front, judged, live, cache);
        }
    }
}

/// A full look makes one Server of each process that holds a port, in order, and of
/// nothing else; each is what the listing and the verdict say, and is unattended exactly
/// where nothing but the system's first process is its parent.
pub proof fn lemma_servers_are_the_processes(
    listeners: Seq<RawListenerView>,
    judged: Seq<Judged>,
    answers: Seq<(usize, bool)>,
    found: Seq<(usize, Option<Seq<char>>)>,
    cache: Titles,
)
    requires
        judged.len() == with_ports(listeners).len(),
    ensures
        ({
            let servers = pipeline::probed(listeners, judged, answers, found, cache).0;
            &&& servers.len() == with_ports(listeners).len()
            &&& forall|i: int|
                0 <= i < servers.len() ==> is_made_of(
                    #[trigger] servers[i],
                    with_ports(listeners)[i],
                    judged[i],
                ) && servers[i].start_time == with_ports(listeners)[i].start_time
                    && servers[i].pressure == Pressure::Normal
        }),
{
    let live = pipeline::live_by_id(pipeline::asked_ids(listeners), answers);
    lemma_pending_carries_the_verdicts(listeners, judged, live, cache);
    let (pending, kept) = pipeline::pending_all(listeners, judged, live, cache);
    pipeline::lemma_titled_keeps_the_rest(pending, found, kept);
    let done = pipeline::titled(pending, found, kept).0;
    let servers = pipeline::probed(listeners, judged, answers, found, cache).0;
    assert forall|i: int| 0 <= i < servers.len() implies is_made_of(
        #[trigger] servers[i],
        with_ports(listeners)[i],
        judged[i],
    ) && servers[i].start_time == with_ports(listeners)[i].start_time && servers[i].pressure
        == Pressure::Normal by {
        assert(servers[i] == pipeline::scanned_of(done[i]));
        assert(pipeline::with_title(done[i], pending[i].title) == pending[i]);
        assert(pending[i].listener == with_ports(listeners)[i]);
    }
}

/// After a full scan there is one Server for each process that holds a port, in order, and
/// no other; each is what the listing says of its process.
#[verifier::rlimit(60)]
pub proof fn lemma_full_scan_finds_every_process<
    O: Fn(&str) -> Option<String>,
    F: Fn(&str) -> bool,
    L: Fn(&Vec<Vec<PortBinding>>) -> Vec<(usize, bool)>,
    B: Fn(&Vec<(usize, PortBinding)>) -> Vec<(usize, Option<String>)>,
    T: Fn(&PortBinding) -> Option<String>,
>(
    before: Scanned,
    listeners: Seq<RawListenerView>,
    self_pids: SelfPids,
    deps: ClassifyDeps<O, F>,
    probes: ProbeDeps<L, B, T>,
    force_full: bool,
    threshold: u32,
    now: Timestamp,
    judged: Seq<Judged>,
    answers: Seq<(usize, bool)>,
    found: Seq<(usize, Option<Seq<char>>)>,
    servers: Seq<ScannedView>,
    after: Scanned,
    outcome: ScanOutcome,
)
    requires
        state::full_scan_leads_to(
            before,
            listeners,
            self_pids,
            deps,
            probes,
            force_full,
            threshold,
            now,
            judged,
            answers,
            found,
            servers,
            after,
            outcome,
        ),
    ensures
        after.servers.len() == with_ports(listeners).len(),
        judged.len() == with_ports(listeners).len(),
        forall|i: int|
            0 <= i < after.servers.len() ==> is_made_of(
                #[trigger] after.servers[i],
                with_ports(listeners)[i],
                judged[i],
            ),
{
    let cache = if force_full {
        Titles::empty()
    } else {
        before.titles
    };
    let kept = crate::scanner::refresh::titles_kept(before.servers, listeners, cache);
    lemma_each_is_judged(listeners, self_pids, deps, judged);
    lemma_servers_are_the_processes(listeners, judged, answers, found, kept);
    let fresh = pipeline::probed(listeners, judged, answers, found, kept).0;
    renew::lemma_anchoring_keeps_the_rest(before.servers, fresh);
    let runs = usage::live_runs(before.runs, servers);
    usage::lemma_pressed_keeps_the_rest(runs, servers, threshold, now);
    assert forall|i: int| 0 <= i < after.servers.len() implies is_made_of(
        #[trigger] after.servers[i],
        with_ports(listeners)[i],
        judged[i],
    ) by {
        let pressed = usage::pressed(runs, servers, threshold, now)[i];
        assert(after.servers[i] == pressed);
        assert((ScannedView { pressure: servers[i].pressure, ..pressed }) == servers[i]);
        let anchored = renew::anchored_all(before.servers, fresh)[i];
        assert((ScannedView { start_time: fresh[i].start_time, ..anchored }) == fresh[i]);
        assert(is_made_of(fresh[i], with_ports(listeners)[i], judged[i]));
    }
}

/// From the listing to the panel: each process that holds a port and is a development
/// server has a row under its Project that shows it as unattended exactly where its parent
/// is the system's first process or none.
pub proof fn lemma_unattended_from_listing_to_panel<
    O: Fn(&str) -> Option<String>,
    F: Fn(&str) -> bool,
    L: Fn(&Vec<Vec<PortBinding>>) -> Vec<(usize, bool)>,
    B: Fn(&Vec<(usize, PortBinding)>) -> Vec<(usize, Option<String>)>,
    T: Fn(&PortBinding) -> Option<String>,
>(
    before: Scanned,
    listeners: Seq<RawListenerView>,
    self_pids: SelfPids,
    deps: ClassifyDeps<O, F>,
    probes: ProbeDeps<L, B, T>,
    force_full: bool,
    threshold: u32,
    now: Timestamp,
    judged: Seq<Judged>,
    answers: Seq<(usize, bool)>,
    found: Seq<(usize, Option<Seq<char>>)>,
    servers: Seq<ScannedView>,
    after: Scanned,
    outcome: ScanOutcome,
    marks: Set<MarkKey>,
    shown_at: Timestamp,
    i: int,
)
    requires
        state::full_scan_leads_to(
            before,
            listeners,
            self_pids,
            deps,
            probes,
            force_full,
            threshold,
            now,
            judged,
            answers,
            found,
            servers,
            after,
            outcome,
        ),
        0 <= i < with_ports(listeners).len(),
        judged[i].kind == Kind::DevServer,
    ensures
        ({
            let groups = snapshot::shown(after.servers, marks, shown_at).projects;
            let l = with_ports(listeners)[i];
            exists|g: int, k: int|
                0 <= g < groups.len() && 0 <= k < groups[g].servers.len() && (
                #[trigger] groups[g].servers[k]).id == id_for(l) && groups[g].servers[k].pid == l.pid
                    && groups[g].servers[k].command == l.command && (groups[g].servers[k].unattended
                    <==> l.ppid <= 1)
        }),
{
    lemma_full_scan_finds_every_process(
        before,
        listeners,
        self_pids,
        deps,
        probes,
        force_full,
        threshold,
        now,
        judged,
        answers,
        found,
        servers,
        after,
        outcome,
    );
    let s = after.servers[i];
    assert(is_made_of(s, with_ports(listeners)[i], judged[i]));
    lemma_dev_server_is_shown_as_it_is(after.servers, marks, shown_at, i);
    let groups = snapshot::shown(after.servers, marks, shown_at).projects;
    let (g, k) = choose|g: int, k: int|
        0 <= g < groups.len() && 0 <= k < groups[g].servers.len() && groups[g].project
            == shown_under(s) && tells_of(#[trigger] groups[g].servers[k], s, marks, shown_at);
    assert(tells_of(groups[g].servers[k], s, marks, shown_at));
}

/// No two processes of a listing have the same number.
pub open spec fn all_different(listeners: Seq<RawListenerView>) -> bool {
    forall|i: int, j: int|
        0 <= i < j < listeners.len() ==> (#[trigger] listeners[i]).pid != (
        #[trigger] listeners[j]).pid
}

/// What is asked about is each process that holds a port, all its ports, in order.
pub proof fn lemma_every_process_is_asked(listeners: Seq<RawListenerView>)
    ensures
        pipeline::liveness_questions(listeners).len() == with_ports(listeners).len(),
        forall|i: int|
            0 <= i < with_ports(listeners).len() ==> #[trigger] pipeline::liveness_questions(
                listeners,
            )[i] == (id_for(with_ports(listeners)[i]), with_ports(listeners)[i].ports),
    decreases listeners.len(),
{
    reveal(Seq::filter);
    if listeners.len() > 0 {
        let front = listeners.drop_last();
        let l = listeners.last();
        lemma_every_process_is_asked(front);
        if l.ports.len() > 0 {
            assert(with_ports(listeners) == with_ports(front).push(l));
            super::kinds::lemma_name_of_a_server(l.pid, l.ports[0], l.ports.skip(1));
            assert(seq![l.ports[0]] + l.ports.skip(1) =~= l.ports);
        } else {
            assert(with_ports(listeners) == with_ports(front));
        }
    }
}

/// What holds a port among different processes are different processes.
proof fn lemma_still_different(listeners: Seq<RawListenerView>)
    requires
        all_different(listeners),
    ensures
        all_different(with_ports(listeners)),
        forall|k: int|
            0 <= k < with_ports(listeners).len() ==> listeners.contains(
                #[trigger] with_ports(listeners)[k],
            ) && with_ports(listeners)[k].ports.len() > 0,
    decreases listeners.len(),
{
    reveal(Seq::filter);
    if listeners.len() > 0 {
        let front = listeners.drop_last();
        let l = listeners.last();
        lemma_still_different(front);
        assert forall|k: int| 0 <= k < with_ports(front).len() implies listeners.contains(
            #[trigger] with_ports(front)[k],
        ) && with_ports(front)[k].pid != l.pid by {
            assert(front.contains(with_ports(front)[k]));
            let i = choose|i: int| 0 <= i < front.len() && front[i] == with_ports(front)[k];
            assert(listeners[i] == with_ports(front)[k]);
            assert(listeners[i].pid != listeners[listeners.len() - 1].pid);
        }
        if l.ports.len() > 0 {
            assert(with_ports(listeners) == with_ports(front).push(l));
            assert(listeners[listeners.len() - 1] == l);
            assert forall|k: int| 0 <= k < with_ports(listeners).len() implies listeners.contains(
                #[trigger] with_ports(listeners)[k],
            ) && with_ports(listeners)[k].ports.len() > 0 by {
                if k < with_ports(front).len() {
                    assert(with_ports(listeners)[k] == with_ports(front)[k]);
                }
            }
        } else {
            assert(with_ports(listeners) == with_ports(front));
        }
    }
}

/// Whether the answers about the process at `i` say that it lives: the last one counts.
pub open spec fn last_answer(answers: Seq<(usize, bool)>, i: int) -> Option<bool>
    decreases answers.len(),
{
    if answers.len() == 0 {
        None
    } else if answers.last().0 == i {
        Some(answers.last().1)
    } else {
        last_answer(answers.drop_last(), i)
    }
}

/// Where ids differ, what is known under an id is the last answer about it.
proof fn lemma_live_is_the_last_answer(ids: Seq<Seq<char>>, answers: Seq<(usize, bool)>, i: int)
    requires
        0 <= i < ids.len(),
        forall|j: int, k: int| 0 <= j < k < ids.len() ==> #[trigger] ids[j] != #[trigger] ids[k],
    ensures
        pipeline::live_by_id(ids, answers).contains_key(ids[i]) <==> last_answer(answers, i) is Some,
        last_answer(answers, i) matches Some(b) ==> pipeline::live_by_id(ids, answers)[ids[i]] == b,
    decreases answers.len(),
{
    if answers.len() > 0 {
        lemma_live_is_the_last_answer(ids, answers.drop_last(), i);
        let (k, live) = answers.last();
        if k < ids.len() && k != i {
            assert(ids[k as int] != ids[i]);
        }
    }
}

/// Different processes have different ids.
proof fn lemma_ids_differ(listeners: Seq<RawListenerView>, i: int, j: int)
    requires
        all_different(listeners),
        0 <= i < j < with_ports(listeners).len(),
    ensures
        id_for(with_ports(listeners)[i]) != id_for(with_ports(listeners)[j]),
{
    lemma_still_different(listeners);
    let a = with_ports(listeners)[i];
    let b = with_ports(listeners)[j];
    assert(a.pid != b.pid);
    reveal_strlit(":");
    assert(id_for(a) =~= server::id_text(a.pid, a.ports[0].port));
    assert(id_for(b) =~= server::id_text(b.pid, b.ports[0].port));
    if id_for(a) == id_for(b) {
        server::lemma_id_tells_apart(a.pid, a.ports[0].port, b.pid, b.ports[0].port);
    }
}

/// A Server is healthy where it was last found to live, not where it was last found not
/// to, and unknown where nothing was found out.
pub proof fn lemma_health_is_what_was_answered(
    listeners: Seq<RawListenerView>,
    judged: Seq<Judged>,
    answers: Seq<(usize, bool)>,
    found: Seq<(usize, Option<Seq<char>>)>,
    cache: Titles,
    i: int,
)
    requires
        all_different(listeners),
        judged.len() == with_ports(listeners).len(),
        0 <= i < judged.len(),
    ensures
        pipeline::probed(listeners, judged, answers, found, cache).0[i].health == match last_answer(
            answers,
            i,
        ) {
            Some(true) => Health::Responding,
            Some(false) => Health::NotResponding,
            None => Health::Unknown,
        },
{
    let ids = pipeline::asked_ids(listeners);
    let live = pipeline::live_by_id(ids, answers);
    lemma_every_process_is_asked(listeners);
    assert forall|j: int, k: int| 0 <= j < k < ids.len() implies #[trigger] ids[j]
        != #[trigger] ids[k] by {
        lemma_ids_differ(listeners, j, k);
        assert(pipeline::liveness_questions(listeners)[j].0 == id_for(with_ports(listeners)[j]));
        assert(pipeline::liveness_questions(listeners)[k].0 == id_for(with_ports(listeners)[k]));
    }
    assert(pipeline::liveness_questions(listeners)[i].0 == id_for(with_ports(listeners)[i]));
    assert(ids[i] == id_for(with_ports(listeners)[i]));
    lemma_live_is_the_last_answer(ids, answers, i);
    lemma_pending_carries_the_verdicts(listeners, judged, live, cache);
    let (pending, kept) = pipeline::pending_all(listeners, judged, live, cache);
    pipeline::lemma_titled_keeps_the_rest(pending, found, kept);
    let done = pipeline::titled(pending, found, kept).0;
    assert(pipeline::with_title(done[i], pending[i].title) == pending[i]);
    assert(pending[i].listener == with_ports(listeners)[i]);
    assert(pipeline::probed(listeners, judged, answers, found, cache).0[i]
        == pipeline::scanned_of(done[i]));
}

/// The place at which the title of a process is remembered.
pub open spec fn title_place(l: RawListenerView) -> (u32, u16) {
    (l.pid, l.ports[0].port)
}

/// What happens to other processes leaves a remembered title alone.
proof fn lemma_others_leave_the_title(
    listeners: Seq<RawListenerView>,
    judged: Seq<Judged>,
    live: Map<Seq<char>, bool>,
    cache: Titles,
    place: (u32, u16),
)
    requires
        forall|i: int| 0 <= i < listeners.len() ==> (#[trigger] listeners[i]).pid != place.0,
    ensures
        ({
            let after = pipeline::pending_all(listeners, judged, live, cache).1;
            after.contains_key(place) == cache.contains_key(place) && (cache.contains_key(place)
                ==> after[place] == cache[place])
        }),
    decreases listeners.len(),
{
    if listeners.len() > 0 {
        let front = listeners.drop_last();
        let l = listeners.last();
        assert(listeners[listeners.len() - 1].pid != place.0);
        assert forall|i: int| 0 <= i < front.len() implies (#[trigger] front[i]).pid != place.0 by {
            assert(listeners[i].pid != place.0);
        }
        if l.ports.len() > 0 {
            lemma_others_leave_the_title(front, judged.drop_last(), live, cache, place);
        } else {
            lemma_others_leave_the_title(front, judged, live, cache, place);
        }
    }
}

/// A title is known beforehand, or asked for, of a development server that answers, and of
/// nothing else: known where it is remembered, asked for where it is not.
#[verifier::rlimit(60)]
pub proof fn lemma_when_a_title_is_asked_for(
    listeners: Seq<RawListenerView>,
    judged: Seq<Judged>,
    live: Map<Seq<char>, bool>,
    cache: Titles,
    i: int,
)
    requires
        all_different(listeners),
        judged.len() == with_ports(listeners).len(),
        0 <= i < judged.len(),
    ensures
        ({
            let (pending, after) = pipeline::pending_all(listeners, judged, live, cache);
            let p = pending[i];
            let place = title_place(with_ports(listeners)[i]);
            &&& !(p.kind == Kind::DevServer && p.health == Health::Responding) ==> p.title is None
                && !p.needs_fetch
            &&& p.kind == Kind::DevServer && p.health == Health::Responding && cache.contains_key(
                place,
            ) ==> p.title == cache[place] && !p.needs_fetch && after.contains_key(place)
                && after[place] == cache[place]
            &&& p.kind == Kind::DevServer && p.health == Health::Responding && !cache.contains_key(
                place,
            ) ==> p.title is None && p.needs_fetch && !after.contains_key(place)
            &&& p.kind == Kind::DevServer && p.health != Health::Responding ==> !after.contains_key(
                place,
            )
            &&& p.kind != Kind::DevServer ==> after.contains_key(place) == cache.contains_key(place)
        }),
    decreases listeners.len(),
{
    reveal(Seq::filter);
    let front = listeners.drop_last();
    let l = listeners.last();
    lemma_still_different(listeners);
    lemma_still_different(front);
    lemma_pending_carries_the_verdicts(listeners, judged, live, cache);
    if l.ports.len() > 0 {
        assert(with_ports(listeners) == with_ports(front).push(l));
        let (before, kept) = pipeline::pending_all(front, judged.drop_last(), live, cache);
        lemma_pending_carries_the_verdicts(front, judged.drop_last(), live, cache);
        if i < before.len() {
            lemma_when_a_title_is_asked_for(front, judged.drop_last(), live, cache, i);
            assert(with_ports(listeners)[i] == with_ports(front)[i]);
            let last = with_ports(listeners).len() - 1;
            assert(with_ports(listeners)[i].pid != with_ports(listeners)[last].pid);
            assert(pipeline::pending_all(listeners, judged, live, cache).0[i] == before[i]);
        } else {
            assert forall|k: int| 0 <= k < front.len() implies (#[trigger] front[k]).pid != l.pid by {
                assert(listeners[k].pid != listeners[listeners.len() - 1].pid);
            }
            lemma_others_leave_the_title(
                front,
                judged.drop_last(),
                live,
                cache,
                title_place(l),
            );
            assert(judged[i] == judged.last());
        }
    } else {
        assert(with_ports(listeners) == with_ports(front));
        lemma_when_a_title_is_asked_for(front, judged, live, cache, i);
    }
}

/// What was found of the title at `i`: the last answer counts.
pub open spec fn last_found(found: Seq<(usize, Option<Seq<char>>)>, i: int) -> Option<
    Option<Seq<char>>,
>
    decreases found.len(),
{
    if found.len() == 0 {
        None
    } else if found.last().0 == i {
        Some(found.last().1)
    } else {
        last_found(found.drop_last(), i)
    }
}

/// A title that was asked for is what was found, and is remembered; one that was not asked
/// for stays what it was.
#[verifier::rlimit(60)]
pub proof fn lemma_found_titles_are_taken(
    pending: Seq<PendingView>,
    found: Seq<(usize, Option<Seq<char>>)>,
    cache: Titles,
    i: int,
)
    requires
        0 <= i < pending.len(),
        pending[i].listener.ports.len() > 0,
        forall|j: int|
            0 <= j < pending.len() && j != i ==> (#[trigger] pending[j]).listener.pid
                != pending[i].listener.pid,
    ensures
        ({
            let (after, titles) = pipeline::titled(pending, found, cache);
            let place = title_place(pending[i].listener);
            &&& pending[i].needs_fetch ==> after[i].title == match last_found(found, i) {
                Some(t) => t,
                None => pending[i].title,
            }
            &&& pending[i].needs_fetch && last_found(found, i) is Some ==> titles.contains_key(place)
                && titles[place] == last_found(found, i)->0
            &&& !pending[i].needs_fetch || last_found(found, i) is None ==> after[i].title
                == pending[i].title && titles.contains_key(place) == cache.contains_key(place) && (
            cache.contains_key(place) ==> titles[place] == cache[place])
        }),
    decreases found.len(),
{
    if found.len() > 0 {
        let front = found.drop_last();
        lemma_found_titles_are_taken(pending, front, cache, i);
        pipeline::lemma_titled_keeps_the_rest(pending, front, cache);
        let (mid, titles) = pipeline::titled(pending, front, cache);
        let (k, title) = found.last();
        assert(pipeline::with_title(mid[i], pending[i].title) == pending[i]);
        if k < pending.len() {
            assert(pipeline::with_title(mid[k as int], pending[k as int].title) == pending[k as int]);
            if k != i {
                assert(pending[k as int].listener.pid != pending[i].listener.pid);
            }
        }
    }
}

/// The title of a Server: of a development server that answers, the one that is remembered
/// of it or else the one that was found; of anything else none.
#[verifier::rlimit(60)]
pub proof fn lemma_title_of_a_server(
    listeners: Seq<RawListenerView>,
    judged: Seq<Judged>,
    answers: Seq<(usize, bool)>,
    found: Seq<(usize, Option<Seq<char>>)>,
    cache: Titles,
    i: int,
)
    requires
        all_different(listeners),
        judged.len() == with_ports(listeners).len(),
        0 <= i < judged.len(),
    ensures
        ({
            let (servers, titles) = pipeline::probed(listeners, judged, answers, found, cache);
            let s = servers[i];
            let place = title_place(with_ports(listeners)[i]);
            let answering = s.kind == Kind::DevServer && s.health == Health::Responding;
            &&& !answering ==> s.title is None
            &&& answering && cache.contains_key(place) ==> s.title == cache[place]
                && titles.contains_key(place) && titles[place] == s.title
            &&& answering && !cache.contains_key(place) ==> s.title == match last_found(found, i) {
                Some(t) => t,
                None => None,
            }
            &&& answering && !cache.contains_key(place) ==> titles.contains_key(place) == (
            last_found(found, i) is Some)
            &&& answering && titles.contains_key(place) ==> titles[place] == s.title
            &&& s.kind == Kind::DevServer && s.health != Health::Responding ==> !titles.contains_key(
                place,
            )
        }),
{
    let live = pipeline::live_by_id(pipeline::asked_ids(listeners), answers);
    let (pending, kept) = pipeline::pending_all(listeners, judged, live, cache);
    lemma_pending_carries_the_verdicts(listeners, judged, live, cache);
    lemma_when_a_title_is_asked_for(listeners, judged, live, cache, i);
    lemma_still_different(listeners);
    assert(pending[i].listener == with_ports(listeners)[i]);
    assert forall|j: int| 0 <= j < pending.len() && j != i implies (
    #[trigger] pending[j]).listener.pid != pending[i].listener.pid by {
        assert(pending[j].listener == with_ports(listeners)[j]);
        if j < i {
            assert(with_ports(listeners)[j].pid != with_ports(listeners)[i].pid);
        } else {
            assert(with_ports(listeners)[i].pid != with_ports(listeners)[j].pid);
        }
    }
    lemma_found_titles_are_taken(pending, found, kept, i);
    pipeline::lemma_titled_keeps_the_rest(pending, found, kept);
    let done = pipeline::titled(pending, found, kept).0;
    assert(pipeline::with_title(done[i], pending[i].title) == pending[i]);
    assert(pipeline::probed(listeners, judged, answers, found, cache).0[i]
        == pipeline::scanned_of(done[i]));
}

/// Titles are asked for at the first port of each Server that needs one, in order, and
/// nowhere else.
pub proof fn lemma_titles_that_are_asked_for(pending: Seq<PendingView>, i: int)
    requires
        0 <= i < pending.len() <= usize::MAX,
        pending[i].listener.ports.len() > 0,
    ensures
        pending[i].needs_fetch <==> pipeline::title_questions(pending).contains(
            (i as usize, pending[i].listener.ports[0]),
        ),
    decreases pending.len(),
{
    let q = (i as usize, pending[i].listener.ports[0]);
    let front = pending.drop_last();
    let asked = pipeline::title_questions(pending);
    let before = pipeline::title_questions(front);
    if i < front.len() {
        assert(front[i] == pending[i]);
        lemma_titles_that_are_asked_for(front, i);
        if before.contains(q) {
            let k = choose|k: int| 0 <= k < before.len() && before[k] == q;
            assert(asked[k] == q);
        }
        if asked.contains(q) {
            let k = choose|k: int| 0 <= k < asked.len() && asked[k] == q;
            if k < before.len() {
                assert(before[k] == q);
            }
        }
    } else {
        if pending[i].needs_fetch {
            assert(asked[before.len() as int] == q);
        }
        if asked.contains(q) {
            let k = choose|k: int| 0 <= k < asked.len() && asked[k] == q;
            pipeline::lemma_title_questions(pending);
            let (j, b) = asked[k];
            assert(pending[j as int].needs_fetch);
        }
    }
}

/// With answers that do not waver, the verdict on each process names its application, or
/// this tool.
pub proof fn lemma_owner_is_named<O: Fn(&str) -> Option<String>, F: Fn(&str) -> bool>(
    l: RawListenerView,
    self_pids: SelfPids,
    deps: ClassifyDeps<O, F>,
    own: spec_fn(Seq<char>) -> Option<Seq<char>>,
    j: Judged,
)
    requires
        classify::names(deps.owning_app, own),
        pipeline::judged_by(l, self_pids, deps, j),
    ensures
        is_this_tool(l.pid, self_pids) ==> j.belongs_to == Some("Portside — this app"@) && j.kind
            == Kind::YourOwnTool && j.attribution == AttributionView::NoProject,
        !is_this_tool(l.pid, self_pids) ==> j.belongs_to == own(l.exe_path),
{
}

/// Whether the Servers live is asked with one list of ports for each process that holds
/// one, in order.
pub proof fn lemma_what_is_asked_of_liveness<L: Fn(&Vec<Vec<PortBinding>>) -> Vec<(usize, bool)>>(
    liveness: L,
    listeners: Seq<RawListenerView>,
    answers: Seq<(usize, bool)>,
)
    requires
        pipeline::may_answer(liveness, listeners, answers),
    ensures
        exists|q: Vec<Vec<PortBinding>>, a: Vec<(usize, bool)>|
            #[trigger] call_ensures(liveness, (&q,), a) && a@ == answers && q@.len() == with_ports(
                listeners,
            ).len() && forall|i: int|
                0 <= i < q@.len() ==> (#[trigger] q@[i])@ == with_ports(listeners)[i].ports,
{
    lemma_every_process_is_asked(listeners);
    let asked = pipeline::liveness_questions(listeners);
    let lists = asked.map_values(|q: (Seq<char>, Seq<PortBinding>)| q.1);
    let (q, a) = choose|q: Vec<Vec<PortBinding>>, a: Vec<(usize, bool)>| #[trigger]
        call_ensures(liveness, (&q,), a) && pipeline::binding_lists(q@) == lists && a@ == answers;
    let views = pipeline::binding_lists(q@);
    assert(views.len() == q@.len());
    assert forall|i: int| 0 <= i < q@.len() implies (#[trigger] q@[i])@ == with_ports(
        listeners,
    )[i].ports by {
        assert(views[i] == q@[i]@);
        assert(asked[i] == (id_for(with_ports(listeners)[i]), with_ports(listeners)[i].ports));
    }
    assert(call_ensures(liveness, (&q,), a));
}

/// Titles are fetched with the questions that are there to be asked, and not at all where
/// there is none.
pub proof fn lemma_titles_that_are_fetched<
    B: Fn(&Vec<(usize, PortBinding)>) -> Vec<(usize, Option<String>)>,
>(
    fetch: B,
    asked: Seq<(usize, PortBinding)>,
    found: Seq<(usize, Option<Seq<char>>)>,
)
    requires
        pipeline::may_find(fetch, asked, found),
    ensures
        asked.len() == 0 ==> found.len() == 0,
        asked.len() > 0 ==> exists|q: Vec<(usize, PortBinding)>, a: Vec<(usize, Option<String>)>|
            #[trigger] call_ensures(fetch, (&q,), a) && q@ == asked && a@.len() == found.len()
                && forall|i: int|
                0 <= i < found.len() ==> (#[trigger] found[i]).0 == a@[i].0 && found[i].1
                    == a@[i].1.deep_view(),
{
    if asked.len() > 0 {
        let (q, a) = choose|q: Vec<(usize, PortBinding)>, a: Vec<(usize, Option<String>)>|
            #[trigger] call_ensures(fetch, (&q,), a) && q@ == asked && pipeline::found_views(a@)
                == found;
        assert(call_ensures(fetch, (&q,), a));
        assert(pipeline::found_views(a@).len() == a@.len());
    }
}

} // verus!
