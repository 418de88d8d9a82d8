//! What a scan does where the listeners have changed: it makes the Servers anew, and
//! knows again those that were there before.
use crate::domain::classify;
use crate::domain::model::SelfPids;
use crate::domain::project;
use crate::find;
use crate::platform::{listener_views, PortBinding, RawListener, RawListenerView};
use crate::probe::TitleCache;
use crate::scanner::pipeline;
use crate::scanner::pipeline::{ClassifyDeps, Judged, ProbeDeps};
use crate::scanner::pressure;
use crate::scanner::refresh;
use crate::scanner::refresh::{find_last, known_start, titles_kept};
use crate::scanner::server::{distinct_ids, has_id, server_views, ScannedServer, ScannedView};
use crate::scanner::titles::Titles;
use vstd::prelude::*;

verus! {

/// A Server with the start time it is known by, where it was there before.
pub open spec fn anchored(before: Seq<ScannedView>, s: ScannedView) -> ScannedView {
    match find::last_such(before, has_id(s.id)) {
        Some(p) => ScannedView { start_time: known_start(p.start_time, s.start_time), ..s },
        None => s,
    }
}

/// The Servers with the start times they are known by.
pub open spec fn anchored_all(before: Seq<ScannedView>, servers: Seq<ScannedView>) -> Seq<ScannedView> {
    servers.map_values(|s: ScannedView| anchored(before, s))
}

/// Give Servers that were there before the start times they are known by.
fn anchor(before: &Vec<ScannedServer>, servers: &mut Vec<ScannedServer>)
    ensures
        server_views(final(servers)@) == anchored_all(
            server_views(before@),
            server_views(old(servers)@),
        ),
{
    let ghost known = server_views(before@);
    let ghost fresh = server_views(servers@);
    let mut i: usize = 0;
    while i < servers.len()
        invariant
            0 <= i <= servers@.len(),
            known == server_views(before@),
            fresh == server_views(old(servers)@),
            servers@.len() == fresh.len(),
            forall|k: int|
                0 <= k < i ==> (#[trigger] server_views(servers@)[k]) == anchored(known, fresh[k]),
            forall|k: int|
                i <= k < fresh.len() ==> (#[trigger] server_views(servers@)[k]) == fresh[k],
        decreases servers@.len() - i,
    {
        let ghost shown = server_views(servers@);
        proof {
            assert(shown[i as int] == fresh[i as int]);
        }
        match find_last(before, servers[i].id.as_str()) {
            Some(p) => {
                if pressure::is_same_start(p.start_time, servers[i].start_time) {
                    servers[i].start_time = p.start_time;
                }
                proof {
                    assert(server_views(servers@)[i as int] == anchored(known, fresh[i as int]));
                    assert(server_views(servers@) =~= shown.update(
                        i as int,
                        anchored(known, fresh[i as int]),
                    ));
                }
            },
            None => {},
        }
        i = i + 1;
    }
    proof {
        assert(server_views(servers@) =~= anchored_all(known, fresh));
    }
}

/// Whether the listeners may be judged so and the network may give these answers about
/// them, and making the Servers anew then leads to `servers` and `titles`. The titles of
/// Servers that were replaced are forgotten first.
pub open spec fn renews<
    O: Fn(&str) -> Option<String>,
    F: Fn(&str) -> bool,
    L: Fn(&Vec<Vec<PortBinding>>) -> Vec<(usize, bool)>,
    B: Fn(&Vec<(usize, PortBinding)>) -> Vec<(usize, Option<String>)>,
    T: Fn(&PortBinding) -> Option<String>,
>(
    before: Seq<ScannedView>,
    listeners: Seq<RawListenerView>,
    self_pids: SelfPids,
    deps: ClassifyDeps<O, F>,
    probes: ProbeDeps<L, B, T>,
    cache: Titles,
    judged: Seq<Judged>,
    answers: Seq<(usize, bool)>,
    found: Seq<(usize, Option<Seq<char>>)>,
    servers: Seq<ScannedView>,
    titles: Titles,
) -> bool {
    let kept = titles_kept(before, listeners, cache);
    let fresh = pipeline::probed(listeners, judged, answers, found, kept).0;
    &&& pipeline::explains(
        listeners,
        self_pids,
        deps,
        probes,
        kept,
        judged,
        answers,
        found,
        fresh,
        titles,
    )
    &&& servers == anchored_all(before, fresh)
}

/// Make the Servers anew, where `before` are those of the last scan.
pub fn renew<
    O: Fn(&str) -> Option<String>,
    F: Fn(&str) -> bool,
    L: Fn(&Vec<Vec<PortBinding>>) -> Vec<(usize, bool)>,
    B: Fn(&Vec<(usize, PortBinding)>) -> Vec<(usize, Option<String>)>,
    T: Fn(&PortBinding) -> Option<String>,
>(
    before: &Vec<ScannedServer>,
    listeners: &Vec<RawListener>,
    self_pids: SelfPids,
    deps: &ClassifyDeps<O, F>,
    probes: &ProbeDeps<L, B, T>,
    title_cache: &mut TitleCache,
) -> (r: Vec<ScannedServer>)
    requires
        classify::nameable(deps.owning_app),
        project::askable(deps.path_exists),
        pipeline::probeable(*probes),
    ensures
        exists|
            judged: Seq<Judged>,
            answers: Seq<(usize, bool)>,
            found: Seq<(usize, Option<Seq<char>>)>,
        | #[trigger]
            renews(
                server_views(before@),
                listener_views(listeners@),
                self_pids,
                *deps,
                *probes,
                old(title_cache)@,
                judged,
                answers,
                found,
                server_views(r@),
                final(title_cache)@,
            ),
{
    let _ = refresh::forget_replaced(before, listeners, title_cache);
    let ghost kept = title_cache@;
    let mut servers = pipeline::classify_and_probe(
        listeners,
        self_pids,
        deps,
        probes,
        title_cache,
    );
    let ghost fresh = server_views(servers@);
    anchor(before, &mut servers);
    proof {
        let (judged, answers, found) = choose|
            judged: Seq<Judged>,
            answers: Seq<(usize, bool)>,
            found: Seq<(usize, Option<Seq<char>>)>,
        | #[trigger]
            pipeline::explains(
                listener_views(listeners@),
                self_pids,
                *deps,
                *probes,
                kept,
                judged,
                answers,
                found,
                fresh,
                title_cache@,
            );
        assert(renews(
            server_views(before@),
            listener_views(listeners@),
            self_pids,
            *deps,
            *probes,
            old(title_cache)@,
            judged,
            answers,
            found,
            server_views(servers@),
            title_cache@,
        ));
    }
    servers
}

// ---------------------------------------------------------------------------------
// What is known again.
// ---------------------------------------------------------------------------------

/// Start times are all that knowing Servers again changes of them.
pub proof fn lemma_anchoring_keeps_the_rest(before: Seq<ScannedView>, servers: Seq<ScannedView>)
    ensures
        anchored_all(before, servers).len() == servers.len(),
        forall|i: int|
            0 <= i < servers.len() ==> (ScannedView {
                start_time: servers[i].start_time,
                ..(#[trigger] anchored_all(before, servers)[i])
            }) == servers[i],
{
}

/// A Server that was there before and is the same process keeps the start time it is
/// known by; another process behind the same id has its own.
pub proof fn lemma_renewal_keeps_the_start(
    before: Seq<ScannedView>,
    servers: Seq<ScannedView>,
    i: int,
    j: int,
)
    requires
        distinct_ids(before),
        0 <= i < before.len(),
        0 <= j < servers.len(),
        before[i].id == servers[j].id,
    ensures
        anchored_all(before, servers)[j].start_time == known_start(
            before[i].start_time,
            servers[j].start_time,
        ),
{
    let id = servers[j].id;
    assert forall|k: int| i < k < before.len() implies !has_id(id)(#[trigger] before[k]) by {
        assert(before[i].id != before[k].id);
    }
    find::lemma_last_such_is(before, has_id(id), i);
}

} // verus!
