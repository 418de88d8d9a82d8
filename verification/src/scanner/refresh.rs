//! What a scan does where nothing about the listeners has changed: it takes over the
//! latest readings and checks who answers, and leaves Kind and Project alone.
use crate::domain::model::{Health, Kind};
use crate::find;
use crate::platform::{copy_ports, listener_views, PortBinding, RawListener, RawListenerView};
use crate::probe::TitleCache;
use crate::scanner::pipeline::{binding_lists, rightly_titled};
use crate::scanner::pressure;
use crate::scanner::server::{
    distinct_ids, has_id, server_views, ScannedServer, ScannedView,
};
use crate::scanner::stop::has_pid;
use crate::scanner::titles;
use crate::scanner::titles::{came_from, Titles};
use crate::scanner::usage::ids;
use crate::text;
use crate::time::Timestamp;
use vstd::prelude::*;

verus! {

// ---------------------------------------------------------------------------------
// Readings and identity.
// ---------------------------------------------------------------------------------

/// What was just read of a process.
pub open spec fn reading_of(listeners: Seq<RawListenerView>, pid: u32) -> Option<RawListenerView> {
    find::last_such(listeners, has_pid(pid))
}

/// Whether another process has taken this Server's place: same number, ports, command
/// and path, but started at another time.
pub open spec fn replaced(s: ScannedView, listeners: Seq<RawListenerView>) -> bool {
    match reading_of(listeners, s.pid) {
        Some(l) => !pressure::same_start(s.start_time, l.start_time),
        None => false,
    }
}

/// The start time that a process is known by once it has been read again: the one it had,
/// unless another process has taken its place. Readings of one process differ by a
/// little; were each held against the one before, small differences to either side would
/// add up to a large one.
pub open spec fn known_start(stored: Timestamp, read: Timestamp) -> Timestamp {
    if pressure::same_start(stored, read) {
        stored
    } else {
        read
    }
}

/// A Server with what was just read of its process. Where another process has taken its
/// place, the title it had is not that one's.
pub open spec fn reread(s: ScannedView, listeners: Seq<RawListenerView>) -> ScannedView {
    match reading_of(listeners, s.pid) {
        Some(l) => ScannedView {
            usage: l.usage,
            start_time: known_start(s.start_time, l.start_time),
            title: if replaced(s, listeners) {
                None
            } else {
                s.title
            },
            ..s
        },
        None => s,
    }
}

/// The Servers with what was just read of their processes.
pub open spec fn reread_all(servers: Seq<ScannedView>, listeners: Seq<RawListenerView>) -> Seq<ScannedView> {
    servers.map_values(|s: ScannedView| reread(s, listeners))
}

/// The titles that are remembered once those of replaced Servers are forgotten.
pub open spec fn titles_kept(
    servers: Seq<ScannedView>,
    listeners: Seq<RawListenerView>,
    cache: Titles,
) -> Titles
    decreases servers.len(),
{
    if servers.len() == 0 {
        cache
    } else {
        let before = titles_kept(servers.drop_last(), listeners, cache);
        let s = servers.last();
        if replaced(s, listeners) {
            titles::forgotten(before, s.pid, s.ports)
        } else {
            before
        }
    }
}

/// Whether any Server was replaced.
pub open spec fn any_replaced(servers: Seq<ScannedView>, listeners: Seq<RawListenerView>) -> bool {
    exists|i: int| 0 <= i < servers.len() && replaced(#[trigger] servers[i], listeners)
}

/// What was just read of a process.
fn find_reading<'a>(listeners: &'a Vec<RawListener>, pid: u32) -> (r: Option<&'a RawListener>)
    ensures
        match r {
            Some(l) => reading_of(listener_views(listeners@), pid) == Some(l@),
            None => reading_of(listener_views(listeners@), pid) is None,
        },
{
    let ghost all = listener_views(listeners@);
    let mut n: usize = listeners.len();
    while n > 0
        invariant
            0 <= n <= listeners@.len(),
            all == listener_views(listeners@),
            forall|j: int| n <= j < all.len() ==> !has_pid(pid)(#[trigger] all[j]),
        decreases n,
    {
        proof {
            assert(all[n - 1] == listeners@[n - 1]@);
        }
        if listeners[n - 1].pid == pid {
            proof {
                find::lemma_last_such_is(all, has_pid(pid), n - 1);
            }
            return Some(&listeners[n - 1]);
        }
        n = n - 1;
    }
    proof {
        find::lemma_last_such_is(all, has_pid(pid), -1);
    }
    None
}

/// Forget the titles of the Servers that were replaced, and tell whether any was.
pub fn forget_replaced(
    servers: &Vec<ScannedServer>,
    listeners: &Vec<RawListener>,
    cache: &mut TitleCache,
) -> (r: bool)
    ensures
        final(cache)@ == titles_kept(
            server_views(servers@),
            listener_views(listeners@),
            old(cache)@,
        ),
        r == any_replaced(server_views(servers@), listener_views(listeners@)),
{
    let ghost all = server_views(servers@);
    let ghost ls = listener_views(listeners@);
    let mut any = false;
    let mut i: usize = 0;
    proof {
        assert(all.take(0) =~= Seq::<ScannedView>::empty());
    }
    while i < servers.len()
        invariant
            0 <= i <= servers@.len(),
            all == server_views(servers@),
            ls == listener_views(listeners@),
            cache@ == titles_kept(all.take(i as int), ls, old(cache)@),
            any == any_replaced(all.take(i as int), ls),
        decreases servers@.len() - i,
    {
        let s = &servers[i];
        proof {
            assert(all[i as int] == s@);
            assert(all.take(i + 1).drop_last() =~= all.take(i as int));
            assert(all.take(i + 1).last() == all[i as int]);
            lemma_any_replaced_step(all, ls, i as int);
        }
        match find_reading(listeners, s.pid) {
            Some(l) => {
                if !pressure::is_same_start(s.start_time, l.start_time) {
                    titles::forget_title(s.pid, &s.ports, cache);
                    any = true;
                }
            },
            None => {},
        }
        i = i + 1;
    }
    proof {
        assert(all.take(i as int) =~= all);
    }
    any
}

/// Take over what was just read of every Server's process.
fn reread_servers(servers: &mut Vec<ScannedServer>, listeners: &Vec<RawListener>)
    ensures
        server_views(final(servers)@) == reread_all(
            server_views(old(servers)@),
            listener_views(listeners@),
        ),
{
    let ghost before = server_views(servers@);
    let ghost ls = listener_views(listeners@);
    let mut i: usize = 0;
    while i < servers.len()
        invariant
            0 <= i <= servers@.len(),
            before == server_views(old(servers)@),
            ls == listener_views(listeners@),
            servers@.len() == before.len(),
            forall|k: int|
                0 <= k < i ==> (#[trigger] server_views(servers@)[k]) == reread(before[k], ls),
            forall|k: int|
                i <= k < before.len() ==> (#[trigger] server_views(servers@)[k]) == before[k],
        decreases servers@.len() - i,
    {
        let ghost shown = server_views(servers@);
        proof {
            assert(shown[i as int] == before[i as int]);
        }
        match find_reading(listeners, servers[i].pid) {
            Some(l) => {
                if !pressure::is_same_start(servers[i].start_time, l.start_time) {
                    servers[i].title = None;
                    servers[i].start_time = l.start_time;
                }
                servers[i].usage = l.usage;
                proof {
                    assert(server_views(servers@)[i as int] == reread(before[i as int], ls));
                    assert(server_views(servers@) =~= shown.update(
                        i as int,
                        reread(before[i as int], ls),
                    ));
                }
            },
            None => {},
        }
        i = i + 1;
    }
    proof {
        assert(server_views(servers@) =~= reread_all(before, ls));
    }
}

/// Take over what was just read of every Server's process, forget the titles of those
/// that were replaced, and tell whether any was.
pub fn refresh_identity(
    servers: &mut Vec<ScannedServer>,
    listeners: &Vec<RawListener>,
    cache: &mut TitleCache,
) -> (r: bool)
    ensures
        server_views(final(servers)@) == reread_all(
            server_views(old(servers)@),
            listener_views(listeners@),
        ),
        final(cache)@ == titles_kept(
            server_views(old(servers)@),
            listener_views(listeners@),
            old(cache)@,
        ),
        r == any_replaced(server_views(old(servers)@), listener_views(listeners@)),
{
    let any = forget_replaced(servers, listeners, cache);
    reread_servers(servers, listeners);
    any
}

/// Whether any of one more Server was replaced.
proof fn lemma_any_replaced_step(servers: Seq<ScannedView>, listeners: Seq<RawListenerView>, i: int)
    requires
        0 <= i < servers.len(),
    ensures
        any_replaced(servers.take(i + 1), listeners) == (any_replaced(servers.take(i), listeners)
            || replaced(servers[i], listeners)),
{
    let a = servers.take(i);
    let b = servers.take(i + 1);
    if any_replaced(a, listeners) {
        let k = choose|k: int| 0 <= k < a.len() && replaced(#[trigger] a[k], listeners);
        assert(b[k] == a[k]);
    }
    if replaced(servers[i], listeners) {
        assert(b[i] == servers[i]);
    }
    if any_replaced(b, listeners) {
        let k = choose|k: int| 0 <= k < b.len() && replaced(#[trigger] b[k], listeners);
        if k < i {
            assert(a[k] == b[k]);
        }
    }
}

// ---------------------------------------------------------------------------------
// Liveness and titles.
// ---------------------------------------------------------------------------------

/// How far the liveness answers have been worked in.
#[verifier::ext_equal]
pub struct Refresh {
    pub servers: Seq<ScannedView>,
    pub titles: Titles,
}

/// What an answer means.
pub open spec fn answer_health(live: bool) -> Health {
    if live {
        Health::Responding
    } else {
        Health::NotResponding
    }
}

/// Whether an answer leads to asking a Server for its title.
pub open spec fn asks(r: Refresh, answer: (usize, bool)) -> bool {
    let s = r.servers[answer.0 as int];
    answer.0 < r.servers.len() && s.kind == Kind::DevServer && titles::lookup(
        r.titles,
        s.pid,
        s.ports,
        answer_health(answer.1),
    ).needs_fetch
}

/// One more answer worked in, where `found` is the title found if one was asked for. An
/// answer about no Server changes nothing.
pub open spec fn refresh_step(r: Refresh, answer: (usize, bool), found: Option<Seq<char>>) -> Refresh {
    let (i, live) = answer;
    if i < r.servers.len() {
        let s = r.servers[i as int];
        let health = answer_health(live);
        let (titles, title) = if s.kind == Kind::DevServer {
            titles::answered(r.titles, s.pid, s.ports, health, found)
        } else {
            (r.titles, s.title)
        };
        Refresh {
            servers: r.servers.update(i as int, ScannedView { health, title, ..s }),
            titles,
        }
    } else {
        r
    }
}

/// All answers worked in, one after the other.
pub open spec fn refresh_all(
    r: Refresh,
    answers: Seq<(usize, bool)>,
    found: Seq<Option<Seq<char>>>,
) -> Refresh
    decreases answers.len(),
{
    if answers.len() == 0 {
        r
    } else {
        refresh_step(
            refresh_all(r, answers.drop_last(), found.drop_last()),
            answers.last(),
            found.last(),
        )
    }
}

/// Whether some Server's health differs between two lists.
pub open spec fn health_differs(a: Seq<ScannedView>, b: Seq<ScannedView>) -> bool {
    exists|i: int| 0 <= i < a.len() && (#[trigger] a[i]).health != b[i].health
}

/// Whether the titles found came from asking the Servers that had to be asked.
pub open spec fn refresh_explained<T: Fn(&PortBinding) -> Option<String>>(
    fetch: T,
    r: Refresh,
    answers: Seq<(usize, bool)>,
    found: Seq<Option<Seq<char>>>,
) -> bool {
    &&& found.len() == answers.len()
    &&& forall|k: int|
        0 <= k < answers.len() && asks(
            refresh_all(r, answers.take(k), found.take(k)),
            #[trigger] answers[k],
        ) ==> came_from(
            fetch,
            refresh_all(r, answers.take(k), found.take(k)).servers[answers[k].0 as int].ports[0],
            found[k],
        )
}

/// Whether working the answers in, with these titles found by asking, leads from one
/// state to the other.
pub open spec fn refresh_leads_to<T: Fn(&PortBinding) -> Option<String>>(
    fetch: T,
    start: Refresh,
    answers: Seq<(usize, bool)>,
    found: Seq<Option<Seq<char>>>,
    end: Refresh,
) -> bool {
    refresh_explained(fetch, start, answers, found) && refresh_all(start, answers, found) == end
}

/// The bindings of every Server.
pub open spec fn server_ports(servers: Seq<ScannedView>) -> Seq<Seq<PortBinding>> {
    servers.map_values(|s: ScannedView| s.ports)
}

/// The bindings of every Server, to be checked.
pub fn refresh_input(servers: &Vec<ScannedServer>) -> (r: Vec<Vec<PortBinding>>)
    ensures
        binding_lists(r@) == server_ports(server_views(servers@)),
{
    let mut r: Vec<Vec<PortBinding>> = Vec::new();
    let mut i: usize = 0;
    let ghost all = server_ports(server_views(servers@));
    while i < servers.len()
        invariant
            0 <= i <= servers@.len(),
            all == server_ports(server_views(servers@)),
            binding_lists(r@) == all.take(i as int),
        decreases servers@.len() - i,
    {
        let ghost before = binding_lists(r@);
        r.push(copy_ports(&servers[i].ports));
        i = i + 1;
        proof {
            assert(binding_lists(r@) =~= before.push(servers@[i - 1].ports@));
            assert(all[i - 1] == servers@[i - 1].ports@);
            assert(all.take(i as int) =~= all.take(i - 1).push(all[i - 1]));
        }
    }
    proof {
        assert(all.take(i as int) =~= all);
    }
    r
}

/// The health of every Server.
fn collect_health(servers: &Vec<ScannedServer>) -> (r: Vec<Health>)
    ensures
        r@ == server_views(servers@).map_values(|s: ScannedView| s.health),
{
    let mut r: Vec<Health> = Vec::new();
    let mut i: usize = 0;
    while i < servers.len()
        invariant
            0 <= i <= servers@.len(),
            r@.len() == i,
            forall|k: int| 0 <= k < i ==> (#[trigger] r@[k]) == servers@[k].health,
        decreases servers@.len() - i,
    {
        r.push(servers[i].health);
        i = i + 1;
    }
    proof {
        assert(r@ =~= server_views(servers@).map_values(|s: ScannedView| s.health));
    }
    r
}

/// Whether some Server's health is no longer what it was.
fn has_new_health(before: &Vec<Health>, servers: &Vec<ScannedServer>) -> (r: bool)
    requires
        before@.len() == servers@.len(),
    ensures
        r == exists|i: int|
            0 <= i < before@.len() && (#[trigger] before@[i]) != server_views(servers@)[i].health,
{
    let mut i: usize = 0;
    while i < servers.len()
        invariant
            0 <= i <= servers@.len(),
            before@.len() == servers@.len(),
            forall|k: int|
                0 <= k < i ==> (#[trigger] before@[k]) == server_views(servers@)[k].health,
        decreases servers@.len() - i,
    {
        proof {
            assert(server_views(servers@)[i as int].health == servers@[i as int].health);
        }
        if before[i] != servers[i].health {
            proof {
                assert(before@[i as int] != server_views(servers@)[i as int].health);
            }
            return true;
        }
        i = i + 1;
    }
    false
}

/// Whether working one answer in, with this title found if one had to be asked for, leads
/// from one state to the other.
pub open spec fn answer_leads_to<T: Fn(&PortBinding) -> Option<String>>(
    fetch: T,
    start: Refresh,
    answer: (usize, bool),
    found: Option<Seq<char>>,
    end: Refresh,
) -> bool {
    &&& refresh_step(start, answer, found) == end
    &&& asks(start, answer) ==> came_from(
        fetch,
        start.servers[answer.0 as int].ports[0],
        found,
    )
}

/// Work one liveness answer in.
fn apply_answer<T: Fn(&PortBinding) -> Option<String>>(
    servers: &mut Vec<ScannedServer>,
    answer: (usize, bool),
    cache: &mut TitleCache,
    fetch: &T,
)
    requires
        forall|b: &PortBinding| #[trigger] call_requires(*fetch, (b,)),
    ensures
        exists|found: Option<Seq<char>>| #[trigger]
            answer_leads_to(
                *fetch,
                (Refresh { servers: server_views(old(servers)@), titles: old(cache)@ }),
                answer,
                found,
                (Refresh { servers: server_views(final(servers)@), titles: final(cache)@ }),
            ),
{
    let ghost start = Refresh { servers: server_views(servers@), titles: cache@ };
    let ghost mut found: Option<Seq<char>> = None;
    let (at, live) = answer;
    if at < servers.len() {
        let ghost sv = start.servers[at as int];
        proof {
            assert(sv == servers@[at as int]@);
        }
        let health = if live {
            Health::Responding
        } else {
            Health::NotResponding
        };
        servers[at].health = health;
        if servers[at].kind == Kind::DevServer {
            let title = titles::title_for(
                servers[at].pid,
                &servers[at].ports,
                health,
                cache,
                fetch,
            );
            proof {
                found = title.deep_view();
            }
            servers[at].title = title;
        }
        proof {
            let r = refresh_step(start, answer, found);
            assert(servers@[at as int]@ == r.servers[at as int]);
            assert(server_views(servers@) =~= r.servers);
        }
    }
    proof {
        assert(answer_leads_to(
            *fetch,
            start,
            answer,
            found,
            Refresh { servers: server_views(servers@), titles: cache@ },
        ));
    }
}

/// Work the liveness answers in: health, and the titles of the development servers. A
/// Server that no answer is about keeps its health. Tells whether any Server's health is
/// another once all answers are worked in.
pub fn apply_liveness<T: Fn(&PortBinding) -> Option<String>>(
    servers: &mut Vec<ScannedServer>,
    answers: &Vec<(usize, bool)>,
    cache: &mut TitleCache,
    fetch: &T,
) -> (r: bool)
    requires
        forall|b: &PortBinding| #[trigger] call_requires(*fetch, (b,)),
    ensures
        exists|found: Seq<Option<Seq<char>>>| #[trigger]
            refresh_leads_to(
                *fetch,
                (Refresh { servers: server_views(old(servers)@), titles: old(cache)@ }),
                answers@,
                found,
                (Refresh { servers: server_views(final(servers)@), titles: final(cache)@ }),
            ),
        r == health_differs(server_views(old(servers)@), server_views(final(servers)@)),
{
    let ghost start = Refresh { servers: server_views(servers@), titles: cache@ };
    let ghost mut found: Seq<Option<Seq<char>>> = Seq::empty();
    let before = collect_health(servers);
    let mut i: usize = 0;
    proof {
        assert(answers@.take(0) =~= Seq::<(usize, bool)>::empty());
    }
    while i < answers.len()
        invariant
            0 <= i <= answers@.len(),
            forall|b: &PortBinding| #[trigger] call_requires(*fetch, (b,)),
            refresh_explained(*fetch, start, answers@.take(i as int), found),
            refresh_all(start, answers@.take(i as int), found) == (Refresh {
                servers: server_views(servers@),
                titles: cache@,
            }),
        decreases answers@.len() - i,
    {
        let ghost now = Refresh { servers: server_views(servers@), titles: cache@ };
        apply_answer(servers, answers[i], cache, fetch);
        proof {
            let next = Refresh { servers: server_views(servers@), titles: cache@ };
            let title = choose|title: Option<Seq<char>>| #[trigger]
                answer_leads_to(*fetch, now, answers@[i as int], title, next);
            lemma_explained_step(*fetch, start, answers@, found, title, i as int);
            assert(answers@.take(i + 1).drop_last() =~= answers@.take(i as int));
            assert(answers@.take(i + 1).last() == answers@[i as int]);
            assert(found.push(title).drop_last() =~= found);
            found = found.push(title);
        }
        i = i + 1;
    }
    proof {
        assert(answers@.take(i as int) =~= answers@);
        assert(refresh_leads_to(
            *fetch,
            start,
            answers@,
            found,
            Refresh { servers: server_views(servers@), titles: cache@ },
        ));
        lemma_refresh_keeps_identity(start, answers@, found);
    }
    let r = has_new_health(&before, servers);
    proof {
        let after = server_views(servers@);
        if r {
            let k = choose|k: int|
                0 <= k < before@.len() && (#[trigger] before@[k]) != after[k].health;
            assert(start.servers[k].health != after[k].health);
        }
        if health_differs(start.servers, after) {
            let k = choose|k: int|
                0 <= k < start.servers.len() && (#[trigger] start.servers[k]).health
                    != after[k].health;
            assert(before@[k] != after[k].health);
        }
    }
    r
}

/// One more answer is explained where the title that it led to asking for was found by
/// asking.
proof fn lemma_explained_step<T: Fn(&PortBinding) -> Option<String>>(
    fetch: T,
    start: Refresh,
    answers: Seq<(usize, bool)>,
    found: Seq<Option<Seq<char>>>,
    title: Option<Seq<char>>,
    i: int,
)
    requires
        0 <= i < answers.len(),
        refresh_explained(fetch, start, answers.take(i), found),
        asks(refresh_all(start, answers.take(i), found), answers[i]) ==> came_from(
            fetch,
            refresh_all(start, answers.take(i), found).servers[answers[i].0 as int].ports[0],
            title,
        ),
    ensures
        refresh_explained(fetch, start, answers.take(i + 1), found.push(title)),
{
    let a = answers.take(i + 1);
    let f = found.push(title);
    assert forall|k: int|
        0 <= k < a.len() && asks(
            refresh_all(start, a.take(k), f.take(k)),
            #[trigger] a[k],
        ) implies came_from(
        fetch,
        refresh_all(start, a.take(k), f.take(k)).servers[a[k].0 as int].ports[0],
        f[k],
    ) by {
        assert(a.take(k) =~= answers.take(k));
        if k < i {
            assert(answers.take(i).take(k) =~= answers.take(k));
            assert(f.take(k) =~= found.take(k));
            assert(answers.take(i)[k] == a[k]);
        } else {
            assert(f.take(k) =~= found);
        }
    }
}

// ---------------------------------------------------------------------------------
// Comparing scans.
// ---------------------------------------------------------------------------------

/// Whether a Server differs from what was shown of it in a way that is a reason to
/// redraw: it is new, or its health, Kind or pressure is another.
pub open spec fn row_differs(old_servers: Seq<ScannedView>, s: ScannedView) -> bool {
    match find::last_such(old_servers, has_id(s.id)) {
        None => true,
        Some(p) => p.health != s.health || p.kind != s.kind || p.pressure != s.pressure,
    }
}

/// Whether two scans differ in a way that is a reason to redraw.
pub open spec fn scans_differ(old_servers: Seq<ScannedView>, new_servers: Seq<ScannedView>) -> bool {
    old_servers.len() != new_servers.len() || exists|i: int|
        0 <= i < new_servers.len() && row_differs(old_servers, #[trigger] new_servers[i])
}

/// The last Server with an id.
pub fn find_last<'a>(servers: &'a Vec<ScannedServer>, id: &str) -> (r: Option<&'a ScannedServer>)
    ensures
        match r {
            Some(s) => find::last_such(server_views(servers@), has_id(id@)) == Some(s@),
            None => find::last_such(server_views(servers@), has_id(id@)) is None,
        },
{
    let ghost all = server_views(servers@);
    let mut n: usize = servers.len();
    while n > 0
        invariant
            0 <= n <= servers@.len(),
            all == server_views(servers@),
            forall|j: int| n <= j < all.len() ==> !has_id(id@)(#[trigger] all[j]),
        decreases n,
    {
        proof {
            assert(all[n - 1] == servers@[n - 1]@);
        }
        if text::same(servers[n - 1].id.as_str(), id) {
            proof {
                find::lemma_last_such_is(all, has_id(id@), n - 1);
            }
            return Some(&servers[n - 1]);
        }
        n = n - 1;
    }
    proof {
        find::lemma_last_such_is(all, has_id(id@), -1);
    }
    None
}

/// Whether two scans differ in a way that is a reason to redraw. Titles, uptimes and
/// figures are not: they change all the time, or are put into rows already drawn.
pub fn servers_differ(old_servers: &Vec<ScannedServer>, new_servers: &Vec<ScannedServer>) -> (r: bool)
    ensures
        r == scans_differ(server_views(old_servers@), server_views(new_servers@)),
{
    if old_servers.len() != new_servers.len() {
        return true;
    }
    let ghost olds = server_views(old_servers@);
    let ghost news = server_views(new_servers@);
    let mut i: usize = 0;
    while i < new_servers.len()
        invariant
            0 <= i <= new_servers@.len(),
            olds == server_views(old_servers@),
            news == server_views(new_servers@),
            olds.len() == news.len(),
            forall|k: int| 0 <= k < i ==> !row_differs(olds, #[trigger] news[k]),
        decreases new_servers@.len() - i,
    {
        let s = &new_servers[i];
        proof {
            assert(news[i as int] == s@);
        }
        let differs = match find_last(old_servers, s.id.as_str()) {
            None => true,
            Some(p) => p.health != s.health || p.kind != s.kind || p.pressure != s.pressure,
        };
        if differs {
            proof {
                assert(row_differs(olds, news[i as int]));
            }
            return true;
        }
        i = i + 1;
    }
    false
}

/// A scan never differs from itself where no id occurs twice, and figures, titles, start
/// times and the like never make it differ.
pub proof fn lemma_churn_is_no_difference(a: Seq<ScannedView>, b: Seq<ScannedView>)
    requires
        a.len() == b.len(),
        forall|i: int, j: int|
            0 <= i < j < a.len() ==> (#[trigger] a[i]).id != (#[trigger] a[j]).id,
        forall|i: int|
            0 <= i < a.len() ==> (#[trigger] a[i]).id == b[i].id && a[i].health == b[i].health
                && a[i].kind == b[i].kind && a[i].pressure == b[i].pressure,
    ensures
        !scans_differ(a, b),
{
    assert forall|i: int| 0 <= i < b.len() implies !row_differs(a, #[trigger] b[i]) by {
        assert(a[i].id == b[i].id);
        assert forall|j: int| i < j < a.len() implies !has_id(b[i].id)(#[trigger] a[j]) by {
            assert(a[i].id != a[j].id);
        }
        find::lemma_last_such_is(a, has_id(b[i].id), i);
    }
}

/// A change of health, Kind or pressure of a Server is always a difference, where no id
/// occurs twice.
pub proof fn lemma_change_is_a_difference(a: Seq<ScannedView>, b: Seq<ScannedView>, i: int)
    requires
        0 <= i < a.len(),
        i < b.len(),
        a[i].id == b[i].id,
        forall|j: int| i < j < a.len() ==> (#[trigger] a[j]).id != a[i].id,
        a[i].health != b[i].health || a[i].kind != b[i].kind || a[i].pressure != b[i].pressure,
    ensures
        scans_differ(a, b),
{
    assert forall|j: int| i < j < a.len() implies !has_id(b[i].id)(#[trigger] a[j]) by {}
    find::lemma_last_such_is(a, has_id(b[i].id), i);
    assert(row_differs(a, b[i]));
}

/// Whether two scans show different Servers, or one and the same Server with another
/// health, Kind or pressure.
pub open spec fn shown_differently(a: Seq<ScannedView>, b: Seq<ScannedView>) -> bool {
    ||| ids(a).to_set() != ids(b).to_set()
    ||| exists|i: int, j: int|
        0 <= i < a.len() && 0 <= j < b.len() && (#[trigger] a[i]).id == (#[trigger] b[j]).id && (
        a[i].health != b[j].health || a[i].kind != b[j].kind || a[i].pressure != b[j].pressure)
}

/// Where no id occurs twice in either, two scans differ exactly where their ids differ or
/// a Server that both have differs in health, Kind or pressure; and so it does not matter
/// which of them came first.
pub proof fn lemma_difference_is_exact(a: Seq<ScannedView>, b: Seq<ScannedView>)
    requires
        distinct_ids(a),
        distinct_ids(b),
    ensures
        scans_differ(a, b) == shown_differently(a, b),
        scans_differ(a, b) == scans_differ(b, a),
{
    lemma_difference_one_way(a, b);
    lemma_difference_one_way(b, a);
    if shown_differently(a, b) && ids(a).to_set() == ids(b).to_set() {
        let (i, j) = choose|i: int, j: int|
            0 <= i < a.len() && 0 <= j < b.len() && (#[trigger] a[i]).id == (#[trigger] b[j]).id
                && (a[i].health != b[j].health || a[i].kind != b[j].kind || a[i].pressure
                != b[j].pressure);
        assert(b[j].id == a[i].id);
        assert(shown_differently(b, a));
    }
    if shown_differently(b, a) && ids(a).to_set() == ids(b).to_set() {
        let (j, i) = choose|j: int, i: int|
            0 <= j < b.len() && 0 <= i < a.len() && (#[trigger] b[j]).id == (#[trigger] a[i]).id
                && (b[j].health != a[i].health || b[j].kind != a[i].kind || b[j].pressure
                != a[i].pressure);
        assert(a[i].id == b[j].id);
        assert(shown_differently(a, b));
    }
}

/// The ids of Servers of which no two are the same are as many as the Servers.
proof fn lemma_distinct_ids_count(s: Seq<ScannedView>)
    requires
        distinct_ids(s),
    ensures
        ids(s).to_set().len() == s.len(),
        ids(s).to_set().finite(),
{
    let v = ids(s);
    assert forall|i: int, j: int| 0 <= i < v.len() && 0 <= j < v.len() && i != j implies v[i]
        != v[j] by {
        if i < j {
            assert(s[i].id != s[j].id);
        } else {
            assert(s[j].id != s[i].id);
        }
    }
    v.unique_seq_to_set();
}

/// Whether two scans differ, from the first to the second.
proof fn lemma_difference_one_way(a: Seq<ScannedView>, b: Seq<ScannedView>)
    requires
        distinct_ids(a),
        distinct_ids(b),
    ensures
        scans_differ(a, b) == shown_differently(a, b),
{
    let sa = ids(a).to_set();
    let sb = ids(b).to_set();
    lemma_distinct_ids_count(a);
    lemma_distinct_ids_count(b);
    assert forall|j: int, i: int|
        0 <= j < b.len() && 0 <= i < a.len() && a[i].id == b[j].id implies find::last_such(
        a,
        has_id(#[trigger] b[j].id),
    ) == Some(#[trigger] a[i]) by {
        assert forall|k: int| i < k < a.len() implies !has_id(b[j].id)(#[trigger] a[k]) by {
            assert(a[i].id != a[k].id);
        }
        find::lemma_last_such_is(a, has_id(b[j].id), i);
    }
    if !scans_differ(a, b) {
        assert forall|t: Seq<char>| sb.contains(t) implies sa.contains(t) by {
            assert(ids(b).contains(t));
            let j = choose|j: int| 0 <= j < ids(b).len() && ids(b)[j] == t;
            assert(b[j].id == t);
            assert(!row_differs(a, b[j]));
            if !sa.contains(t) {
                assert forall|k: int| -1 < k < a.len() implies !has_id(t)(#[trigger] a[k]) by {
                    if a[k].id == t {
                        assert(ids(a)[k] == t);
                    }
                }
                find::lemma_last_such_is(a, has_id(t), -1);
            }
        }
        vstd::set_lib::lemma_subset_equality(sb, sa);
        if shown_differently(a, b) {
            let (i, j) = choose|i: int, j: int|
                0 <= i < a.len() && 0 <= j < b.len() && (#[trigger] a[i]).id == (
                #[trigger] b[j]).id && (a[i].health != b[j].health || a[i].kind != b[j].kind
                    || a[i].pressure != b[j].pressure);
            assert(find::last_such(a, has_id(b[j].id)) == Some(a[i]));
            assert(row_differs(a, b[j]));
        }
    } else if a.len() == b.len() {
        let j = choose|j: int| 0 <= j < b.len() && row_differs(a, #[trigger] b[j]);
        if sa == sb {
            assert(ids(b)[j] == b[j].id);
            assert(sb.contains(b[j].id));
            assert(ids(a).contains(b[j].id));
            let i = choose|i: int| 0 <= i < ids(a).len() && ids(a)[i] == b[j].id;
            assert(a[i].id == b[j].id);
            assert(find::last_such(a, has_id(b[j].id)) == Some(a[i]));
        }
    }
}

/// What a scan that finds nothing changed leaves alone: every Server stays in its place
/// with its id, process, command, ports, Kind, Project and owner.
pub proof fn lemma_refresh_keeps_identity(
    r: Refresh,
    answers: Seq<(usize, bool)>,
    found: Seq<Option<Seq<char>>>,
)
    ensures
        refresh_all(r, answers, found).servers.len() == r.servers.len(),
        forall|i: int|
            0 <= i < r.servers.len() ==> (ScannedView {
                health: r.servers[i].health,
                title: r.servers[i].title,
                ..(#[trigger] refresh_all(r, answers, found).servers[i])
            }) == r.servers[i],
    decreases answers.len(),
{
    if answers.len() > 0 {
        lemma_refresh_keeps_identity(r, answers.drop_last(), found.drop_last());
    }
}

/// Where every answer is what was known already, every Server's health stays: readings
/// alone are no reason to redraw.
pub proof fn lemma_steady_answers_change_nothing(
    r: Refresh,
    answers: Seq<(usize, bool)>,
    found: Seq<Option<Seq<char>>>,
)
    requires
        forall|k: int|
            0 <= k < answers.len() && (#[trigger] answers[k]).0 < r.servers.len()
                ==> r.servers[answers[k].0 as int].health == answer_health(answers[k].1),
    ensures
        refresh_all(r, answers, found).servers.len() == r.servers.len(),
        !health_differs(r.servers, refresh_all(r, answers, found).servers),
    decreases answers.len(),
{
    if answers.len() > 0 {
        let front = answers.drop_last();
        assert forall|k: int|
            0 <= k < front.len() && (#[trigger] front[k]).0
                < r.servers.len() implies r.servers[front[k].0 as int].health == answer_health(
            front[k].1,
        ) by {
            assert(front[k] == answers[k]);
        }
        lemma_steady_answers_change_nothing(r, front, found.drop_last());
        assert(answers.last() == answers[answers.len() - 1]);
        let mid = refresh_all(r, front, found.drop_last());
        let end = refresh_all(r, answers, found);
        assert forall|i: int| 0 <= i < r.servers.len() implies (#[trigger] r.servers[i]).health
            == end.servers[i].health by {
            assert(r.servers[i].health == mid.servers[i].health);
        }
    }
}

/// A process that took over another's number, ports and command does not inherit its
/// title: the Server has none, and nothing is remembered under its key.
pub proof fn lemma_replacement_loses_the_title(
    servers: Seq<ScannedView>,
    listeners: Seq<RawListenerView>,
    cache: Titles,
    i: int,
)
    requires
        0 <= i < servers.len(),
        replaced(servers[i], listeners),
        servers[i].ports.len() > 0,
    ensures
        reread_all(servers, listeners)[i].title is None,
        !titles_kept(servers, listeners, cache).contains_key(
            (servers[i].pid, servers[i].ports[0].port),
        ),
    decreases servers.len(),
{
    let front = servers.drop_last();
    if i < front.len() {
        assert(front[i] == servers[i]);
        lemma_replacement_loses_the_title(front, listeners, cache, i);
    }
}

/// Whether every reading of a Server's process is within the tolerance of the start time
/// that the Server is known by.
pub open spec fn starts_agree(servers: Seq<ScannedView>, listeners: Seq<RawListenerView>) -> bool {
    forall|i: int|
        0 <= i < servers.len() ==> (reading_of(listeners, (#[trigger] servers[i]).pid) matches Some(
            l,
        ) ==> pressure::same_start(servers[i].start_time, l.start_time))
}

/// Readings within the tolerance of the start times that the Servers are known by replace
/// nothing: every Server keeps its title and its start time, and every title that is
/// remembered stays.
pub proof fn lemma_same_process_keeps_the_title(
    servers: Seq<ScannedView>,
    listeners: Seq<RawListenerView>,
    cache: Titles,
)
    requires
        starts_agree(servers, listeners),
    ensures
        !any_replaced(servers, listeners),
        titles_kept(servers, listeners, cache) == cache,
        forall|i: int|
            0 <= i < servers.len() ==> (#[trigger] reread_all(servers, listeners)[i]).title
                == servers[i].title && reread_all(servers, listeners)[i].start_time
                == servers[i].start_time,
    decreases servers.len(),
{
    if servers.len() > 0 {
        let front = servers.drop_last();
        assert(starts_agree(front, listeners)) by {
            assert forall|i: int| 0 <= i < front.len() implies (reading_of(
                listeners,
                (#[trigger] front[i]).pid,
            ) matches Some(l) ==> pressure::same_start(front[i].start_time, l.start_time)) by {
                assert(front[i] == servers[i]);
            }
        }
        lemma_same_process_keeps_the_title(front, listeners, cache);
        assert(servers.last() == servers[servers.len() - 1]);
        assert(!replaced(servers.last(), listeners));
    }
}

/// The start time that a process is known by after it has been read again and again.
pub open spec fn start_after(stored: Timestamp, readings: Seq<Timestamp>) -> Timestamp
    decreases readings.len(),
{
    if readings.len() == 0 {
        stored
    } else {
        known_start(start_after(stored, readings.drop_last()), readings.last())
    }
}

/// However often a process is read, small differences never add up: as long as every
/// reading is within the tolerance of the first, the process is known by the first, and
/// no reading is taken for another process.
pub proof fn lemma_jitter_never_adds_up(stored: Timestamp, readings: Seq<Timestamp>)
    requires
        forall|k: int|
            0 <= k < readings.len() ==> pressure::same_start(stored, #[trigger] readings[k]),
    ensures
        start_after(stored, readings) == stored,
    decreases readings.len(),
{
    if readings.len() > 0 {
        let front = readings.drop_last();
        assert forall|k: int| 0 <= k < front.len() implies pressure::same_start(
            stored,
            #[trigger] front[k],
        ) by {
            assert(front[k] == readings[k]);
        }
        lemma_jitter_never_adds_up(stored, front);
        assert(readings.last() == readings[readings.len() - 1]);
    }
}

/// Whether a Server's title is remembered, and no other Server's is remembered under the
/// same process and port.
pub open spec fn title_is_remembered(r: Refresh, i: int) -> bool {
    let s = r.servers[i];
    &&& s.ports.len() > 0
    &&& r.titles.contains_key((s.pid, s.ports[0].port))
    &&& r.titles[(s.pid, s.ports[0].port)] == s.title
    &&& forall|j: int|
        0 <= j < r.servers.len() && j != i && (#[trigger] r.servers[j]).ports.len() > 0 ==> (
        r.servers[j].pid,
        r.servers[j].ports[0].port,
    ) != (s.pid, s.ports[0].port)
}

/// A development server that answers whenever it is checked keeps the title that is
/// remembered of it and is not asked for it again.
pub proof fn lemma_answering_server_keeps_its_title(
    r: Refresh,
    answers: Seq<(usize, bool)>,
    found: Seq<Option<Seq<char>>>,
    i: usize,
)
    requires
        0 <= i < r.servers.len(),
        title_is_remembered(r, i as int),
        forall|k: int| 0 <= k < answers.len() && (#[trigger] answers[k]).0 == i ==> answers[k].1,
    ensures
        refresh_all(r, answers, found).servers.len() == r.servers.len(),
        refresh_all(r, answers, found).servers[i as int].title == r.servers[i as int].title,
        title_is_remembered(refresh_all(r, answers, found), i as int),
        !asks(refresh_all(r, answers, found), (i, true)),
    decreases answers.len(),
{
    lemma_refresh_keeps_identity(r, answers, found);
    if answers.len() > 0 {
        let front = answers.drop_last();
        assert forall|k: int| 0 <= k < front.len() && (#[trigger] front[k]).0 == i implies front[k].1 by {
            assert(front[k] == answers[k]);
        }
        lemma_answering_server_keeps_its_title(r, front, found.drop_last(), i);
        lemma_refresh_keeps_identity(r, front, found.drop_last());
        let mid = refresh_all(r, front, found.drop_last());
        let end = refresh_all(r, answers, found);
        assert(answers.last() == answers[answers.len() - 1]);
        let at = answers.last().0 as int;
        let s = r.servers[i as int];
        if at < mid.servers.len() && at != i {
            assert(end.servers[i as int] == mid.servers[i as int]);
            assert(mid.servers[at].ports.len() > 0 ==> (
                mid.servers[at].pid,
                mid.servers[at].ports[0].port,
            ) != (s.pid, s.ports[0].port));
        }
        assert forall|j: int|
            0 <= j < end.servers.len() && j != i && (#[trigger] end.servers[j]).ports.len()
                > 0 implies (end.servers[j].pid, end.servers[j].ports[0].port) != (
            s.pid,
            s.ports[0].port,
        ) by {
            assert(mid.servers[j].ports == end.servers[j].ports);
            assert(mid.servers[j].pid == end.servers[j].pid);
        }
    }
}

/// Working answers in gives titles to development servers that answer only.
pub proof fn lemma_refresh_titles_rightly(
    r: Refresh,
    answers: Seq<(usize, bool)>,
    found: Seq<Option<Seq<char>>>,
)
    requires
        forall|i: int| 0 <= i < r.servers.len() ==> rightly_titled(#[trigger] r.servers[i]),
    ensures
        forall|i: int|
            0 <= i < r.servers.len() ==> rightly_titled(
                #[trigger] refresh_all(r, answers, found).servers[i],
            ),
    decreases answers.len(),
{
    lemma_refresh_keeps_identity(r, answers, found);
    if answers.len() > 0 {
        lemma_refresh_titles_rightly(r, answers.drop_last(), found.drop_last());
        lemma_refresh_keeps_identity(r, answers.drop_last(), found.drop_last());
    }
}

} // verus!
