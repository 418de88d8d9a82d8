//! From raw listeners to classified Servers with health and titles.
//!
//! Whether a Server answers, and what its page is titled, only the network can tell. The
//! work is cut at those two questions: what is asked, and what is made of the answers,
//! is decided here.
use crate::domain::classify;
use crate::domain::classify::{classify_with, SELF_LABEL};
use crate::domain::model::{AttributionView, Health, Kind, ProjectAttribution, SelfPids};
use crate::domain::project;
use crate::platform::{copy_ports, listener_views, PortBinding, RawListener, RawListenerView};
use crate::probe::TitleCache;
use crate::scanner::pressure::Pressure;
use crate::scanner::server::{
    distinct_ids, health_from_liveness_result, health_of, id_of, lemma_id_tells_apart, server_id,
    server_views, ScannedServer, ScannedView,
};
use crate::scanner::titles;
use crate::scanner::titles::Titles;
use crate::text;
use vstd::hash_map::StringHashMap;
use vstd::prelude::*;

verus! {

/// What classification asks of the operating system.
pub struct ClassifyDeps<O, F> {
    /// The application bundle that an executable lives in.
    pub owning_app: O,
    /// Whether a path exists.
    pub path_exists: F,
}

/// What probing asks of the network.
pub struct ProbeDeps<L, B, T> {
    /// For each list of bindings, by its index, whether any of them answers. A check
    /// that did not complete is left out.
    pub liveness: L,
    /// For each numbered binding, the title of the page there. One that did not
    /// complete is left out.
    pub titles: B,
    /// The title of the page at one binding.
    pub title: T,
}

// ---------------------------------------------------------------------------------
// Liveness.
// ---------------------------------------------------------------------------------

/// The bindings to check: those of every listener that has any, whatever its Kind.
pub open spec fn liveness_questions(listeners: Seq<RawListenerView>) -> Seq<(Seq<char>, Seq<PortBinding>)>
    decreases listeners.len(),
{
    if listeners.len() == 0 {
        Seq::empty()
    } else {
        let before = liveness_questions(listeners.drop_last());
        match id_of(listeners.last().pid, listeners.last().ports) {
            Some(id) => before.push((id, listeners.last().ports)),
            None => before,
        }
    }
}

/// The bindings of a list of lists.
pub open spec fn binding_lists(v: Seq<Vec<PortBinding>>) -> Seq<Seq<PortBinding>> {
    v.map_values(|p: Vec<PortBinding>| p@)
}

/// The bindings to check, with the ids they belong to.
pub fn liveness_input(listeners: &Vec<RawListener>) -> (r: (Vec<String>, Vec<Vec<PortBinding>>))
    ensures
        r.0@.len() == r.1@.len(),
        text::views(r.0@) == liveness_questions(listener_views(listeners@)).map_values(
            |q: (Seq<char>, Seq<PortBinding>)| q.0,
        ),
        binding_lists(r.1@) == liveness_questions(listener_views(listeners@)).map_values(
            |q: (Seq<char>, Seq<PortBinding>)| q.1,
        ),
{
    let mut ids: Vec<String> = Vec::new();
    let mut lists: Vec<Vec<PortBinding>> = Vec::new();
    let mut i: usize = 0;
    let ghost all = listener_views(listeners@);
    let ghost first = |q: (Seq<char>, Seq<PortBinding>)| q.0;
    let ghost second = |q: (Seq<char>, Seq<PortBinding>)| q.1;
    proof {
        assert(all.take(0) =~= Seq::<RawListenerView>::empty());
        assert(text::views(ids@) =~= liveness_questions(all.take(0)).map_values(first));
        assert(binding_lists(lists@) =~= liveness_questions(all.take(0)).map_values(second));
    }
    while i < listeners.len()
        invariant
            0 <= i <= listeners@.len(),
            all == listener_views(listeners@),
            first == (|q: (Seq<char>, Seq<PortBinding>)| q.0),
            second == (|q: (Seq<char>, Seq<PortBinding>)| q.1),
            ids@.len() == lists@.len(),
            text::views(ids@) == liveness_questions(all.take(i as int)).map_values(first),
            binding_lists(lists@) == liveness_questions(all.take(i as int)).map_values(second),
        decreases listeners@.len() - i,
    {
        let l = &listeners[i];
        let ghost ids0 = text::views(ids@);
        let ghost lists0 = binding_lists(lists@);
        let ghost q0 = liveness_questions(all.take(i as int));
        proof {
            assert(all.take(i + 1).drop_last() =~= all.take(i as int));
            assert(all.take(i + 1).last() == l@);
        }
        match server_id(l.pid, &l.ports) {
            Some(id) => {
                let ghost t = id@;
                ids.push(id);
                lists.push(copy_ports(&l.ports));
                proof {
                    assert(text::views(ids@) =~= ids0.push(t));
                    assert(binding_lists(lists@) =~= lists0.push(l.ports@));
                    let q = (t, l.ports@);
                    assert(liveness_questions(all.take(i + 1)) == q0.push(q));
                    assert(q0.push(q).map_values(first) =~= q0.map_values(first).push(t));
                    assert(q0.push(q).map_values(second) =~= q0.map_values(second).push(l.ports@));
                }
            },
            None => {},
        }
        i = i + 1;
    }
    proof {
        assert(all.take(i as int) =~= all);
    }
    (ids, lists)
}

/// Which ids were found to answer or not. Where an id was asked about twice, the later
/// answer counts; an answer to a question that was not asked does not.
pub open spec fn live_by_id(ids: Seq<Seq<char>>, answers: Seq<(usize, bool)>) -> Map<Seq<char>, bool>
    decreases answers.len(),
{
    if answers.len() == 0 {
        Map::empty()
    } else {
        let before = live_by_id(ids, answers.drop_last());
        let (i, live) = answers.last();
        if i < ids.len() {
            before.insert(ids[i as int], live)
        } else {
            before
        }
    }
}

/// Which ids were found to answer or not.
fn collect_live(ids: &Vec<String>, answers: &Vec<(usize, bool)>) -> (r: StringHashMap<bool>)
    ensures
        r@ == live_by_id(text::views(ids@), answers@),
{
    let mut r: StringHashMap<bool> = StringHashMap::new();
    let mut i: usize = 0;
    proof {
        assert(answers@.take(0) =~= Seq::<(usize, bool)>::empty());
    }
    while i < answers.len()
        invariant
            0 <= i <= answers@.len(),
            r@ == live_by_id(text::views(ids@), answers@.take(i as int)),
        decreases answers@.len() - i,
    {
        proof {
            assert(answers@.take(i + 1).drop_last() =~= answers@.take(i as int));
            assert(answers@.take(i + 1).last() == answers@[i as int]);
        }
        let (at, live) = answers[i];
        if at < ids.len() {
            proof {
                assert(text::views(ids@)[at as int] == ids@[at as int]@);
            }
            r.insert(ids[at].clone(), live);
        }
        i = i + 1;
    }
    proof {
        assert(answers@.take(i as int) =~= answers@);
    }
    r
}

// ---------------------------------------------------------------------------------
// Classification.
// ---------------------------------------------------------------------------------

/// A Server that is classified and whose health is known, and whose title may still
/// have to be asked for.
pub struct Pending {
    pub id: String,
    pub listener: RawListener,
    pub kind: Kind,
    pub attribution: ProjectAttribution,
    pub belongs_to: Option<String>,
    pub health: Health,
    pub title: Option<String>,
    pub needs_fetch: bool,
}

/// What a [`Pending`] holds.
#[verifier::ext_equal]
pub struct PendingView {
    pub id: Seq<char>,
    pub listener: RawListenerView,
    pub kind: Kind,
    pub attribution: AttributionView,
    pub belongs_to: Option<Seq<char>>,
    pub health: Health,
    pub title: Option<Seq<char>>,
    pub needs_fetch: bool,
}

impl View for Pending {
    type V = PendingView;

    open spec fn view(&self) -> PendingView {
        PendingView {
            id: self.id@,
            listener: self.listener@,
            kind: self.kind,
            attribution: self.attribution@,
            belongs_to: self.belongs_to.deep_view(),
            health: self.health,
            title: self.title.deep_view(),
            needs_fetch: self.needs_fetch,
        }
    }
}

/// What each pending Server of a list holds.
pub open spec fn pending_views(v: Seq<Pending>) -> Seq<PendingView> {
    v.map_values(|p: Pending| p@)
}

/// What asking about a listener came to: its Kind, its Project, and the application that
/// it belongs to.
#[verifier::ext_equal]
pub struct Judged {
    pub kind: Kind,
    pub attribution: AttributionView,
    pub belongs_to: Option<Seq<char>>,
}

/// Whether asking about a listener may come to this. The application's own processes go
/// by its own name; any other listener belongs to its bundle, where it lives in one.
pub open spec fn judged_by<O: Fn(&str) -> Option<String>, F: Fn(&str) -> bool>(
    l: RawListenerView,
    self_pids: SelfPids,
    deps: ClassifyDeps<O, F>,
    j: Judged,
) -> bool {
    &&& classify::classified_by(
        l,
        self_pids,
        deps.owning_app,
        deps.path_exists,
        (j.kind, j.attribution),
    )
    &&& if self_pids.guards(l.pid) {
        j.belongs_to == Some(SELF_LABEL@)
    } else {
        classify::may_name(deps.owning_app, l.exe_path, j.belongs_to)
    }
}

/// Whether asking about the listeners that have a port, one after the other, may come to
/// these.
pub open spec fn all_judged_by<O: Fn(&str) -> Option<String>, F: Fn(&str) -> bool>(
    listeners: Seq<RawListenerView>,
    self_pids: SelfPids,
    deps: ClassifyDeps<O, F>,
    judged: Seq<Judged>,
) -> bool
    decreases listeners.len(),
{
    if listeners.len() == 0 {
        judged.len() == 0
    } else if listeners.last().ports.len() > 0 {
        &&& judged.len() > 0
        &&& judged_by(listeners.last(), self_pids, deps, judged.last())
        &&& all_judged_by(listeners.drop_last(), self_pids, deps, judged.drop_last())
    } else {
        all_judged_by(listeners.drop_last(), self_pids, deps, judged)
    }
}

/// What asking about a listener comes to, where `own` says which bundle an executable
/// lives in and `fs` what exists.
pub open spec fn judgement(
    l: RawListenerView,
    self_pids: SelfPids,
    own: spec_fn(Seq<char>) -> Option<Seq<char>>,
    fs: spec_fn(Seq<char>) -> bool,
) -> Judged {
    let (kind, attribution) = classify::classified(l, self_pids, own, fs);
    let belongs_to = if self_pids.guards(l.pid) {
        Some(SELF_LABEL@)
    } else {
        own(l.exe_path)
    };
    Judged { kind, attribution, belongs_to }
}

/// What asking about the listeners that have a port comes to, where `own` says which
/// bundle an executable lives in and `fs` what exists.
pub open spec fn judgements(
    listeners: Seq<RawListenerView>,
    self_pids: SelfPids,
    own: spec_fn(Seq<char>) -> Option<Seq<char>>,
    fs: spec_fn(Seq<char>) -> bool,
) -> Seq<Judged>
    decreases listeners.len(),
{
    if listeners.len() == 0 {
        Seq::empty()
    } else {
        let before = judgements(listeners.drop_last(), self_pids, own, fs);
        if listeners.last().ports.len() > 0 {
            before.push(judgement(listeners.last(), self_pids, own, fs))
        } else {
            before
        }
    }
}

/// What the liveness answers say of an id.
pub open spec fn health_in(live: Map<Seq<char>, bool>, id: Seq<char>) -> Health {
    health_of(
        if live.contains_key(id) {
            Some(live[id])
        } else {
            None
        },
    )
}

/// What is done about the title of a Server of this Kind: only development servers are
/// ever asked for one.
pub open spec fn title_lookup(kind: Kind, l: RawListenerView, health: Health, cache: Titles) -> titles::TitleLookup {
    if kind == Kind::DevServer {
        titles::lookup(cache, l.pid, l.ports, health)
    } else {
        titles::TitleLookup { titles: cache, title: None, needs_fetch: false }
    }
}

/// The pending Server that a listener with this id makes.
pub open spec fn pending_of(
    id: Seq<char>,
    l: RawListenerView,
    j: Judged,
    live: Map<Seq<char>, bool>,
    cache: Titles,
) -> PendingView {
    let health = health_in(live, id);
    let look = title_lookup(j.kind, l, health, cache);
    PendingView {
        id,
        listener: l,
        kind: j.kind,
        attribution: j.attribution,
        belongs_to: j.belongs_to,
        health,
        title: look.title,
        needs_fetch: look.needs_fetch,
    }
}

/// The pending Servers that listeners make, one after the other, and the titles that
/// are remembered then. A listener without ports makes none.
pub open spec fn pending_all(
    listeners: Seq<RawListenerView>,
    judged: Seq<Judged>,
    live: Map<Seq<char>, bool>,
    cache: Titles,
) -> (Seq<PendingView>, Titles)
    decreases listeners.len(),
{
    if listeners.len() == 0 {
        (Seq::empty(), cache)
    } else {
        let l = listeners.last();
        match id_of(l.pid, l.ports) {
            Some(id) => {
                let (before, cache) = pending_all(
                    listeners.drop_last(),
                    judged.drop_last(),
                    live,
                    cache,
                );
                let j = judged.last();
                (
                    before.push(pending_of(id, l, j, live, cache)),
                    title_lookup(j.kind, l, health_in(live, id), cache).titles,
                )
            },
            None => pending_all(listeners.drop_last(), judged, live, cache),
        }
    }
}

/// What a pending Server was judged to be.
pub open spec fn judged_of(p: PendingView) -> Judged {
    Judged { kind: p.kind, attribution: p.attribution, belongs_to: p.belongs_to }
}

/// Classify one listener that has an id.
fn classify_one<O: Fn(&str) -> Option<String>, F: Fn(&str) -> bool>(
    id: String,
    l: &RawListener,
    self_pids: SelfPids,
    deps: &ClassifyDeps<O, F>,
    live: &StringHashMap<bool>,
    cache: &mut TitleCache,
) -> (r: Pending)
    requires
        classify::nameable(deps.owning_app),
        project::askable(deps.path_exists),
    ensures
        judged_by(l@, self_pids, *deps, judged_of(r@)),
        r@ == pending_of(id@, l@, judged_of(r@), live@, old(cache)@),
        final(cache)@ == title_lookup(r@.kind, l@, health_in(live@, id@), old(cache)@).titles,
{
    let belongs_to: Option<String> = if self_pids.covers(l.pid) {
        Some(SELF_LABEL.to_owned())
    } else {
        (deps.owning_app)(l.exe_path.as_str())
    };
    let (kind, attribution) = classify_with(l, self_pids, &deps.owning_app, &deps.path_exists);
    let answer = match live.get(id.as_str()) {
        Some(b) => Some(*b),
        None => None,
    };
    let health = health_from_liveness_result(answer);
    let (title, needs_fetch) = if kind == Kind::DevServer {
        titles::title_cache_lookup(l.pid, &l.ports, health, cache)
    } else {
        (None, false)
    };
    proof {
        if !self_pids.guards(l@.pid) {
            assert(classify::may_name(deps.owning_app, l@.exe_path, belongs_to.deep_view()));
        }
    }
    Pending {
        id,
        listener: l.clone(),
        kind,
        attribution,
        belongs_to,
        health,
        title,
        needs_fetch,
    }
}

/// Classify every listener, given the liveness answers.
///
/// `ids` are those that [`liveness_input`] gave; an answer's index is an index into
/// them.
pub fn classify_listeners<O: Fn(&str) -> Option<String>, F: Fn(&str) -> bool>(
    listeners: &Vec<RawListener>,
    self_pids: SelfPids,
    deps: &ClassifyDeps<O, F>,
    ids: &Vec<String>,
    answers: &Vec<(usize, bool)>,
    cache: &mut TitleCache,
) -> (r: Vec<Pending>)
    requires
        classify::nameable(deps.owning_app),
        project::askable(deps.path_exists),
    ensures
        all_judged_by(
            listener_views(listeners@),
            self_pids,
            *deps,
            pending_views(r@).map_values(|p: PendingView| judged_of(p)),
        ),
        (pending_views(r@), final(cache)@) == pending_all(
            listener_views(listeners@),
            pending_views(r@).map_values(|p: PendingView| judged_of(p)),
            live_by_id(text::views(ids@), answers@),
            old(cache)@,
        ),
{
    let live = collect_live(ids, answers);
    let ghost all = listener_views(listeners@);
    let ghost f = |p: PendingView| judged_of(p);
    let mut r: Vec<Pending> = Vec::new();
    let mut i: usize = 0;
    proof {
        assert(all.take(0) =~= Seq::<RawListenerView>::empty());
        assert(pending_views(r@) =~= Seq::<PendingView>::empty());
    }
    while i < listeners.len()
        invariant
            0 <= i <= listeners@.len(),
            all == listener_views(listeners@),
            f == (|p: PendingView| judged_of(p)),
            live@ == live_by_id(text::views(ids@), answers@),
            classify::nameable(deps.owning_app),
            project::askable(deps.path_exists),
            all_judged_by(all.take(i as int), self_pids, *deps, pending_views(r@).map_values(f)),
            (pending_views(r@), cache@) == pending_all(
                all.take(i as int),
                pending_views(r@).map_values(f),
                live@,
                old(cache)@,
            ),
        decreases listeners@.len() - i,
    {
        let l = &listeners[i];
        let ghost before = pending_views(r@);
        proof {
            assert(all.take(i + 1).drop_last() =~= all.take(i as int));
            assert(all.take(i + 1).last() == l@);
        }
        match server_id(l.pid, &l.ports) {
            Some(id) => {
                let p = classify_one(id, l, self_pids, deps, &live, cache);
                let ghost pv = p@;
                r.push(p);
                proof {
                    assert(pending_views(r@) =~= before.push(pv));
                    let judged = before.push(pv).map_values(f);
                    assert(judged.drop_last() =~= before.map_values(f));
                    assert(judged.last() == judged_of(pv));
                }
            },
            None => {},
        }
        i = i + 1;
    }
    proof {
        assert(all.take(i as int) =~= all);
    }
    r
}

// ---------------------------------------------------------------------------------
// Titles.
// ---------------------------------------------------------------------------------

/// Which Servers are asked for their title, and where: those that need it, at their
/// first binding.
pub open spec fn title_questions(pending: Seq<PendingView>) -> Seq<(usize, PortBinding)>
    decreases pending.len(),
{
    if pending.len() == 0 {
        Seq::empty()
    } else {
        let before = title_questions(pending.drop_last());
        let p = pending.last();
        if p.needs_fetch && p.listener.ports.len() > 0 {
            before.push(((pending.len() - 1) as usize, p.listener.ports[0]))
        } else {
            before
        }
    }
}

/// Which Servers are asked for their title, and where.
pub fn fetch_targets(pending: &Vec<Pending>) -> (r: Vec<(usize, PortBinding)>)
    ensures
        r@ == title_questions(pending_views(pending@)),
{
    let mut r: Vec<(usize, PortBinding)> = Vec::new();
    let mut i: usize = 0;
    let ghost all = pending_views(pending@);
    proof {
        assert(all.take(0) =~= Seq::<PendingView>::empty());
    }
    while i < pending.len()
        invariant
            0 <= i <= pending@.len(),
            all == pending_views(pending@),
            r@ == title_questions(all.take(i as int)),
        decreases pending@.len() - i,
    {
        proof {
            assert(all.take(i + 1).drop_last() =~= all.take(i as int));
            assert(all.take(i + 1).last() == pending@[i as int]@);
        }
        if pending[i].needs_fetch && pending[i].listener.ports.len() > 0 {
            r.push((i, pending[i].listener.ports[0]));
        }
        i = i + 1;
    }
    proof {
        assert(all.take(i as int) =~= all);
    }
    r
}

/// What was found when titles were asked for.
pub open spec fn found_views(v: Seq<(usize, Option<String>)>) -> Seq<(usize, Option<Seq<char>>)> {
    v.map_values(|f: (usize, Option<String>)| (f.0, f.1.deep_view()))
}

/// A pending Server with the title that was found.
pub open spec fn with_title(p: PendingView, title: Option<Seq<char>>) -> PendingView {
    PendingView { title, ..p }
}

/// The pending Servers with the titles that were found, and what is remembered then. A
/// title for a Server that was not asked is dropped.
pub open spec fn titled(
    pending: Seq<PendingView>,
    found: Seq<(usize, Option<Seq<char>>)>,
    cache: Titles,
) -> (Seq<PendingView>, Titles)
    decreases found.len(),
{
    if found.len() == 0 {
        (pending, cache)
    } else {
        let (pending, cache) = titled(pending, found.drop_last(), cache);
        let (i, title) = found.last();
        if i < pending.len() && pending[i as int].needs_fetch && pending[i as int].listener.ports.len()
            > 0 {
            let l = pending[i as int].listener;
            (
                pending.update(i as int, with_title(pending[i as int], title)),
                cache.insert((l.pid, l.ports[0].port), title),
            )
        } else {
            (pending, cache)
        }
    }
}

/// Give pending Servers the titles that were found, and remember those.
fn take_titles(
    pending: &mut Vec<Pending>,
    found: &Vec<(usize, Option<String>)>,
    cache: &mut TitleCache,
)
    ensures
        (pending_views(final(pending)@), final(cache)@) == titled(
            pending_views(old(pending)@),
            found_views(found@),
            old(cache)@,
        ),
{
    let mut i: usize = 0;
    let ghost all = found_views(found@);
    proof {
        assert(all.take(0) =~= Seq::<(usize, Option<Seq<char>>)>::empty());
    }
    while i < found.len()
        invariant
            0 <= i <= found@.len(),
            all == found_views(found@),
            (pending_views(pending@), cache@) == titled(
                pending_views(old(pending)@),
                all.take(i as int),
                old(cache)@,
            ),
        decreases found@.len() - i,
    {
        let at: usize = found[i].0;
        let ghost before = pending_views(pending@);
        proof {
            assert(all.take(i + 1).drop_last() =~= all.take(i as int));
            assert(all.take(i + 1).last() == (found@[i as int].0, found@[i as int].1.deep_view()));
        }
        if at < pending.len() {
            proof {
                assert(before[at as int] == pending@[at as int]@);
            }
            if pending[at].needs_fetch && pending[at].listener.ports.len() > 0 {
                let title = text::copy_option(&found[i].1);
                let ghost t = title.deep_view();
                cache.insert(
                    pending[at].listener.pid,
                    pending[at].listener.ports[0].port,
                    text::copy_option(&found[i].1),
                );
                pending[at].title = title;
                proof {
                    assert(pending_views(pending@) =~= before.update(
                        at as int,
                        with_title(before[at as int], t),
                    ));
                }
            }
        }
        i = i + 1;
    }
    proof {
        assert(all.take(i as int) =~= all);
    }
}

/// The Server that a pending one becomes. Whether its usage has been heavy for a while
/// cannot be told from one reading.
pub open spec fn scanned_of(p: PendingView) -> ScannedView {
    ScannedView {
        id: p.id,
        pid: p.listener.pid,
        command: p.listener.command,
        ports: p.listener.ports,
        start_time: p.listener.start_time,
        unattended: p.listener.ppid <= 1,
        kind: p.kind,
        attribution: p.attribution,
        belongs_to: p.belongs_to,
        health: p.health,
        title: p.title,
        usage: p.listener.usage,
        pressure: Pressure::Normal,
    }
}

/// The Servers that pending ones become.
pub open spec fn scanned_all(pending: Seq<PendingView>) -> Seq<ScannedView> {
    pending.map_values(|p: PendingView| scanned_of(p))
}

/// The Servers that pending ones become.
fn to_servers(pending: &Vec<Pending>) -> (r: Vec<ScannedServer>)
    ensures
        server_views(r@) == scanned_all(pending_views(pending@)),
{
    let mut r: Vec<ScannedServer> = Vec::new();
    let mut i: usize = 0;
    let ghost all = scanned_all(pending_views(pending@));
    while i < pending.len()
        invariant
            0 <= i <= pending@.len(),
            all == scanned_all(pending_views(pending@)),
            server_views(r@) == all.take(i as int),
        decreases pending@.len() - i,
    {
        let p = &pending[i];
        let ghost before = server_views(r@);
        let server = ScannedServer {
            id: p.id.clone(),
            pid: p.listener.pid,
            command: p.listener.command.clone(),
            ports: copy_ports(&p.listener.ports),
            start_time: p.listener.start_time,
            unattended: p.listener.ppid <= 1,
            kind: p.kind,
            attribution: p.attribution.clone(),
            belongs_to: text::copy_option(&p.belongs_to),
            health: p.health,
            title: text::copy_option(&p.title),
            usage: p.listener.usage,
            pressure: Pressure::Normal,
        };
        let ghost sv = server@;
        r.push(server);
        i = i + 1;
        proof {
            assert(server_views(r@) =~= before.push(sv));
            assert(all[i - 1] == sv);
            assert(all.take(i as int) =~= all.take(i - 1).push(all[i - 1]));
        }
    }
    proof {
        assert(all.take(i as int) =~= all);
    }
    r
}

/// The Servers that pending ones become once the titles that were asked for have been
/// found, and what is remembered then.
pub open spec fn finished(
    pending: Seq<PendingView>,
    found: Seq<(usize, Option<Seq<char>>)>,
    cache: Titles,
) -> (Seq<ScannedView>, Titles) {
    let (pending, cache) = titled(pending, found, cache);
    (scanned_all(pending), cache)
}

/// Make Servers of pending ones, given the titles that were found.
pub fn finish(
    pending: Vec<Pending>,
    found: &Vec<(usize, Option<String>)>,
    cache: &mut TitleCache,
) -> (r: Vec<ScannedServer>)
    ensures
        (server_views(r@), final(cache)@) == finished(
            pending_views(pending@),
            found_views(found@),
            old(cache)@,
        ),
{
    let mut pending = pending;
    take_titles(&mut pending, found, cache);
    to_servers(&pending)
}

// ---------------------------------------------------------------------------------
// The whole of it.
// ---------------------------------------------------------------------------------

/// Whether the network may be asked anything.
pub open spec fn probeable<
    L: Fn(&Vec<Vec<PortBinding>>) -> Vec<(usize, bool)>,
    B: Fn(&Vec<(usize, PortBinding)>) -> Vec<(usize, Option<String>)>,
    T: Fn(&PortBinding) -> Option<String>,
>(probes: ProbeDeps<L, B, T>) -> bool {
    &&& forall|q: &Vec<Vec<PortBinding>>| #[trigger] call_requires(probes.liveness, (q,))
    &&& forall|q: &Vec<(usize, PortBinding)>| #[trigger] call_requires(probes.titles, (q,))
    &&& forall|q: &PortBinding| #[trigger] call_requires(probes.title, (q,))
}

/// The ids that the liveness answers are about.
pub open spec fn asked_ids(listeners: Seq<RawListenerView>) -> Seq<Seq<char>> {
    liveness_questions(listeners).map_values(|q: (Seq<char>, Seq<PortBinding>)| q.0)
}

/// The Servers that listeners make, given what they were judged to be and what the
/// network answered, and what is remembered then.
pub open spec fn probed(
    listeners: Seq<RawListenerView>,
    judged: Seq<Judged>,
    answers: Seq<(usize, bool)>,
    found: Seq<(usize, Option<Seq<char>>)>,
    cache: Titles,
) -> (Seq<ScannedView>, Titles) {
    let (pending, cache) = pending_all(
        listeners,
        judged,
        live_by_id(asked_ids(listeners), answers),
        cache,
    );
    finished(pending, found, cache)
}

/// The titles that are asked for, given what the listeners were judged to be and the
/// liveness answers.
pub open spec fn asked_titles(
    listeners: Seq<RawListenerView>,
    judged: Seq<Judged>,
    answers: Seq<(usize, bool)>,
    cache: Titles,
) -> Seq<(usize, PortBinding)> {
    title_questions(
        pending_all(listeners, judged, live_by_id(asked_ids(listeners), answers), cache).0,
    )
}

/// Whether `answers` is what `liveness` may say when asked about these listeners.
pub open spec fn may_answer<L: Fn(&Vec<Vec<PortBinding>>) -> Vec<(usize, bool)>>(
    liveness: L,
    listeners: Seq<RawListenerView>,
    answers: Seq<(usize, bool)>,
) -> bool {
    exists|q: Vec<Vec<PortBinding>>, a: Vec<(usize, bool)>| #[trigger]
        call_ensures(liveness, (&q,), a) && binding_lists(q@) == liveness_questions(
            listeners,
        ).map_values(|q: (Seq<char>, Seq<PortBinding>)| q.1) && a@ == answers
}

/// Whether `found` is what `fetch` may say when asked for these titles. Where there are
/// none to ask for, nothing is asked and nothing found.
pub open spec fn may_find<B: Fn(&Vec<(usize, PortBinding)>) -> Vec<(usize, Option<String>)>>(
    fetch: B,
    asked: Seq<(usize, PortBinding)>,
    found: Seq<(usize, Option<Seq<char>>)>,
) -> bool {
    if asked.len() == 0 {
        found.len() == 0
    } else {
        exists|q: Vec<(usize, PortBinding)>, a: Vec<(usize, Option<String>)>| #[trigger]
            call_ensures(fetch, (&q,), a) && q@ == asked && found_views(a@) == found
    }
}

/// Whether the listeners may be judged so and the network may give these answers about
/// them, and `servers` and `titles` are what that leads to.
pub open spec fn explains<
    O: Fn(&str) -> Option<String>,
    F: Fn(&str) -> bool,
    L: Fn(&Vec<Vec<PortBinding>>) -> Vec<(usize, bool)>,
    B: Fn(&Vec<(usize, PortBinding)>) -> Vec<(usize, Option<String>)>,
    T: Fn(&PortBinding) -> Option<String>,
>(
    listeners: Seq<RawListenerView>,
    self_pids: SelfPids,
    deps: ClassifyDeps<O, F>,
    probes: ProbeDeps<L, B, T>,
    cache: Titles,
    judged: Seq<Judged>,
    answers: Seq<(usize, bool)>,
    found: Seq<(usize, Option<Seq<char>>)>,
    servers: Seq<ScannedView>,
    titles: Titles,
) -> bool {
    &&& may_answer(probes.liveness, listeners, answers)
    &&& all_judged_by(listeners, self_pids, deps, judged)
    &&& may_find(probes.titles, asked_titles(listeners, judged, answers, cache), found)
    &&& (servers, titles) == probed(listeners, judged, answers, found, cache)
}

/// Classify every listener, check whether it answers, and read the titles of the
/// development servers that answer and are not remembered.
pub fn classify_and_probe<
    O: Fn(&str) -> Option<String>,
    F: Fn(&str) -> bool,
    L: Fn(&Vec<Vec<PortBinding>>) -> Vec<(usize, bool)>,
    B: Fn(&Vec<(usize, PortBinding)>) -> Vec<(usize, Option<String>)>,
    T: Fn(&PortBinding) -> Option<String>,
>(
    listeners: &Vec<RawListener>,
    self_pids: SelfPids,
    deps: &ClassifyDeps<O, F>,
    probes: &ProbeDeps<L, B, T>,
    title_cache: &mut TitleCache,
) -> (r: Vec<ScannedServer>)
    requires
        classify::nameable(deps.owning_app),
        project::askable(deps.path_exists),
        probeable(*probes),
    ensures
        exists|
            judged: Seq<Judged>,
            answers: Seq<(usize, bool)>,
            found: Seq<(usize, Option<Seq<char>>)>,
        | #[trigger]
            explains(
                listener_views(listeners@),
                self_pids,
                *deps,
                *probes,
                old(title_cache)@,
                judged,
                answers,
                found,
                server_views(r@),
                final(title_cache)@,
            ),
{
    let (ids, lists) = liveness_input(listeners);
    let answers = (probes.liveness)(&lists);
    let pending = classify_listeners(listeners, self_pids, deps, &ids, &answers, title_cache);
    let ghost judged = pending_views(pending@).map_values(|p: PendingView| judged_of(p));
    let targets = fetch_targets(&pending);
    let found: Vec<(usize, Option<String>)> = if targets.len() > 0 {
        (probes.titles)(&targets)
    } else {
        Vec::new()
    };
    let r = finish(pending, &found, title_cache);
    proof {
        assert(may_answer(probes.liveness, listener_views(listeners@), answers@));
        assert(explains(
            listener_views(listeners@),
            self_pids,
            *deps,
            *probes,
            old(title_cache)@,
            judged,
            answers@,
            found_views(found@),
            server_views(r@),
            title_cache@,
        ));
    }
    r
}

// ---------------------------------------------------------------------------------
// What every scan keeps.
// ---------------------------------------------------------------------------------

/// Where the questions about listeners have one answer each, they may be judged in one
/// way only.
pub proof fn lemma_steady_judgements<O: Fn(&str) -> Option<String>, F: Fn(&str) -> bool>(
    listeners: Seq<RawListenerView>,
    self_pids: SelfPids,
    deps: ClassifyDeps<O, F>,
    own: spec_fn(Seq<char>) -> Option<Seq<char>>,
    fs: spec_fn(Seq<char>) -> bool,
    judged: Seq<Judged>,
)
    requires
        classify::names(deps.owning_app, own),
        project::answers(deps.path_exists, fs),
        all_judged_by(listeners, self_pids, deps, judged),
    ensures
        judged == judgements(listeners, self_pids, own, fs),
    decreases listeners.len(),
{
    if listeners.len() > 0 {
        let front = listeners.drop_last();
        let l = listeners.last();
        if l.ports.len() > 0 {
            lemma_steady_judgements(front, self_pids, deps, own, fs, judged.drop_last());
            let j = judged.last();
            classify::lemma_steady_answers(
                l,
                self_pids,
                deps.owning_app,
                deps.path_exists,
                own,
                fs,
                (j.kind, j.attribution),
            );
            assert(j == judgement(l, self_pids, own, fs));
            assert(judged =~= judged.drop_last().push(j));
        } else {
            lemma_steady_judgements(front, self_pids, deps, own, fs, judged);
        }
    } else {
        assert(judged =~= Seq::<Judged>::empty());
    }
}

/// The application itself is never offered to be stopped and goes by its own name,
/// whatever bundle it lives in and wherever it runs.
pub proof fn lemma_self_is_watch_only<O: Fn(&str) -> Option<String>, F: Fn(&str) -> bool>(
    l: RawListenerView,
    self_pids: SelfPids,
    deps: ClassifyDeps<O, F>,
    j: Judged,
)
    requires
        self_pids.guards(l.pid),
        judged_by(l, self_pids, deps, j),
    ensures
        j.kind.watch_only(),
        j.belongs_to == Some(SELF_LABEL@),
{
}

/// No request is ever sent to anything but a development server that answers: only such
/// Servers are asked for a title, and only of such one is remembered.
pub proof fn lemma_only_dev_servers_are_asked(
    listeners: Seq<RawListenerView>,
    judged: Seq<Judged>,
    live: Map<Seq<char>, bool>,
    cache: Titles,
)
    ensures
        ({
            let pending = pending_all(listeners, judged, live, cache).0;
            forall|i: int|
                0 <= i < pending.len() && ((#[trigger] pending[i]).needs_fetch
                    || pending[i].title is Some) ==> pending[i].kind == Kind::DevServer
                    && pending[i].health == Health::Responding
        }),
    decreases listeners.len(),
{
    if listeners.len() > 0 {
        if listeners.last().ports.len() > 0 {
            lemma_only_dev_servers_are_asked(
                listeners.drop_last(),
                judged.drop_last(),
                live,
                cache,
            );
        } else {
            lemma_only_dev_servers_are_asked(listeners.drop_last(), judged, live, cache);
        }
    }
}

/// The questions asked are those of Servers that need one, each at that Server's first
/// binding.
pub proof fn lemma_title_questions(pending: Seq<PendingView>)
    requires
        pending.len() <= usize::MAX,
    ensures
        forall|k: int|
            0 <= k < title_questions(pending).len() ==> {
                let (i, b) = #[trigger] title_questions(pending)[k];
                &&& i < pending.len()
                &&& pending[i as int].needs_fetch
                &&& pending[i as int].listener.ports.len() > 0
                &&& b == pending[i as int].listener.ports[0]
            },
    decreases pending.len(),
{
    if pending.len() > 0 {
        let front = pending.drop_last();
        lemma_title_questions(front);
        assert forall|k: int| 0 <= k < title_questions(pending).len() implies ({
            let (i, b) = #[trigger] title_questions(pending)[k];
            &&& i < pending.len()
            &&& pending[i as int].needs_fetch
            &&& pending[i as int].listener.ports.len() > 0
            &&& b == pending[i as int].listener.ports[0]
        }) by {
            if k < title_questions(front).len() {
                assert(title_questions(pending)[k] == title_questions(front)[k]);
                let i = title_questions(front)[k].0;
                assert(front[i as int] == pending[i as int]);
            }
        }
    }
}

/// Every listener that has a port becomes one pending Server, in the same order, and
/// nothing else does.
pub proof fn lemma_every_listener_is_pending(
    listeners: Seq<RawListenerView>,
    judged: Seq<Judged>,
    live: Map<Seq<char>, bool>,
    cache: Titles,
)
    ensures
        ({
            let pending = pending_all(listeners, judged, live, cache).0;
            pending.map_values(|p: PendingView| p.listener) == listeners.filter(
                |l: RawListenerView| l.ports.len() > 0,
            )
        }),
    decreases listeners.len(),
{
    let keep = |l: RawListenerView| l.ports.len() > 0;
    let pick = |p: PendingView| p.listener;
    let pending = pending_all(listeners, judged, live, cache).0;
    reveal(Seq::filter);
    if listeners.len() > 0 {
        let front = listeners.drop_last();
        if keep(listeners.last()) {
            lemma_every_listener_is_pending(front, judged.drop_last(), live, cache);
            let before = pending_all(front, judged.drop_last(), live, cache).0;
            assert(pending.map_values(pick) =~= before.map_values(pick).push(listeners.last()));
        } else {
            lemma_every_listener_is_pending(front, judged, live, cache);
        }
    } else {
        assert(pending.map_values(pick) =~= listeners.filter(keep));
    }
}

/// Whether no two listeners are the same process.
pub open spec fn distinct_pids(listeners: Seq<RawListenerView>) -> bool {
    forall|i: int, j: int|
        0 <= i < j < listeners.len() ==> (#[trigger] listeners[i]).pid != (
        #[trigger] listeners[j]).pid
}

/// Every pending Server bears the id of its own listener, and that listener is one of
/// those listed.
pub proof fn lemma_pending_ids(
    listeners: Seq<RawListenerView>,
    judged: Seq<Judged>,
    live: Map<Seq<char>, bool>,
    cache: Titles,
)
    ensures
        ({
            let pending = pending_all(listeners, judged, live, cache).0;
            forall|i: int|
                0 <= i < pending.len() ==> Some((#[trigger] pending[i]).id) == id_of(
                    pending[i].listener.pid,
                    pending[i].listener.ports,
                ) && listeners.contains(pending[i].listener)
        }),
    decreases listeners.len(),
{
    if listeners.len() > 0 {
        let front = listeners.drop_last();
        let rest = if listeners.last().ports.len() > 0 {
            judged.drop_last()
        } else {
            judged
        };
        lemma_pending_ids(front, rest, live, cache);
        let before = pending_all(front, rest, live, cache).0;
        let pending = pending_all(listeners, judged, live, cache).0;
        assert forall|i: int| 0 <= i < pending.len() implies Some((#[trigger] pending[i]).id)
            == id_of(pending[i].listener.pid, pending[i].listener.ports) && listeners.contains(
            pending[i].listener,
        ) by {
            if i < before.len() {
                assert(pending[i] == before[i]);
                let k = choose|k: int| 0 <= k < front.len() && front[k] == before[i].listener;
                assert(listeners[k] == front[k]);
            } else {
                assert(listeners[listeners.len() - 1] == pending[i].listener);
            }
        }
    }
}

/// Where no two listeners are the same process, no two pending Servers have the same id.
pub proof fn lemma_pending_ids_are_distinct(
    listeners: Seq<RawListenerView>,
    judged: Seq<Judged>,
    live: Map<Seq<char>, bool>,
    cache: Titles,
)
    requires
        distinct_pids(listeners),
    ensures
        ({
            let pending = pending_all(listeners, judged, live, cache).0;
            forall|i: int, j: int|
                0 <= i < j < pending.len() ==> (#[trigger] pending[i]).id != (
                #[trigger] pending[j]).id
        }),
    decreases listeners.len(),
{
    if listeners.len() > 0 {
        let front = listeners.drop_last();
        let rest = if listeners.last().ports.len() > 0 {
            judged.drop_last()
        } else {
            judged
        };
        assert(distinct_pids(front)) by {
            assert forall|i: int, j: int| 0 <= i < j < front.len() implies (
            #[trigger] front[i]).pid != (#[trigger] front[j]).pid by {
                assert(listeners[i].pid != listeners[j].pid);
            }
        }
        lemma_pending_ids_are_distinct(front, rest, live, cache);
        lemma_pending_ids(front, rest, live, cache);
        let before = pending_all(front, rest, live, cache).0;
        let pending = pending_all(listeners, judged, live, cache).0;
        assert forall|i: int, j: int| 0 <= i < j < pending.len() implies (
        #[trigger] pending[i]).id != (#[trigger] pending[j]).id by {
            assert(pending[i] == before[i]);
            if j < before.len() {
                assert(pending[j] == before[j]);
            } else {
                let l = before[i].listener;
                let k = choose|k: int| 0 <= k < front.len() && front[k] == l;
                assert(listeners[k] == front[k]);
                let last = listeners.last();
                assert(listeners[listeners.len() - 1] == last);
                assert(l.pid != last.pid);
                if pending[i].id == pending[j].id {
                    lemma_id_tells_apart(l.pid, l.ports[0].port, last.pid, last.ports[0].port);
                }
            }
        }
    }
}

/// A finished scan lists the same Servers in the same order as the pending ones, and
/// titles are all that asking for them changed.
pub proof fn lemma_titled_keeps_the_rest(
    pending: Seq<PendingView>,
    found: Seq<(usize, Option<Seq<char>>)>,
    cache: Titles,
)
    ensures
        titled(pending, found, cache).0.len() == pending.len(),
        forall|i: int|
            0 <= i < pending.len() ==> with_title(
                #[trigger] titled(pending, found, cache).0[i],
                pending[i].title,
            ) == pending[i],
    decreases found.len(),
{
    if found.len() > 0 {
        lemma_titled_keeps_the_rest(pending, found.drop_last(), cache);
    }
}

/// Where no two listeners are the same process, no two Servers that a scan makes of them
/// have the same id, whatever the disk and the network answer.
pub proof fn lemma_scanned_ids_are_distinct(
    listeners: Seq<RawListenerView>,
    judged: Seq<Judged>,
    answers: Seq<(usize, bool)>,
    found: Seq<(usize, Option<Seq<char>>)>,
    cache: Titles,
)
    requires
        distinct_pids(listeners),
    ensures
        distinct_ids(probed(listeners, judged, answers, found, cache).0),
{
    let live = live_by_id(asked_ids(listeners), answers);
    let (pending, titles) = pending_all(listeners, judged, live, cache);
    lemma_pending_ids_are_distinct(listeners, judged, live, cache);
    lemma_titled_keeps_the_rest(pending, found, titles);
    let servers = probed(listeners, judged, answers, found, cache).0;
    let after = titled(pending, found, titles).0;
    assert forall|i: int, j: int| 0 <= i < j < servers.len() implies (#[trigger] servers[i]).id != (
    #[trigger] servers[j]).id by {
        assert(with_title(after[i], pending[i].title) == pending[i]);
        assert(with_title(after[j], pending[j].title) == pending[j]);
        assert(pending[i].id != pending[j].id);
    }
}

/// A Server that was not asked for its title keeps what is remembered of it, whatever the
/// network answers.
pub proof fn lemma_unasked_titles_stay(
    pending: Seq<PendingView>,
    found: Seq<(usize, Option<Seq<char>>)>,
    cache: Titles,
    i: int,
)
    requires
        0 <= i < pending.len(),
        !pending[i].needs_fetch,
    ensures
        titled(pending, found, cache).0[i] == pending[i],
    decreases found.len(),
{
    lemma_titled_keeps_the_rest(pending, found, cache);
    if found.len() > 0 {
        lemma_unasked_titles_stay(pending, found.drop_last(), cache, i);
        lemma_titled_keeps_the_rest(pending, found.drop_last(), cache);
    }
}

/// Whether a Server has a title only where it is a development server that answers.
pub open spec fn rightly_titled(s: ScannedView) -> bool {
    s.title is Some ==> s.kind == Kind::DevServer && s.health == Health::Responding
}

/// Only a development server that answers ever has a title, whatever the network answers
/// and to whom.
pub proof fn lemma_only_dev_servers_are_titled(
    listeners: Seq<RawListenerView>,
    judged: Seq<Judged>,
    answers: Seq<(usize, bool)>,
    found: Seq<(usize, Option<Seq<char>>)>,
    cache: Titles,
)
    ensures
        ({
            let servers = probed(listeners, judged, answers, found, cache).0;
            forall|i: int| 0 <= i < servers.len() ==> rightly_titled(#[trigger] servers[i])
        }),
{
    let live = live_by_id(asked_ids(listeners), answers);
    let (pending, titles) = pending_all(listeners, judged, live, cache);
    lemma_only_dev_servers_are_asked(listeners, judged, live, cache);
    lemma_titled_keeps_the_rest(pending, found, titles);
    let servers = probed(listeners, judged, answers, found, cache).0;
    let after = titled(pending, found, titles).0;
    assert forall|i: int| 0 <= i < servers.len() implies rightly_titled(#[trigger] servers[i]) by {
        assert(with_title(after[i], pending[i].title) == pending[i]);
        if !pending[i].needs_fetch {
            lemma_unasked_titles_stay(pending, found, titles, i);
        }
    }
}

} // verus!
