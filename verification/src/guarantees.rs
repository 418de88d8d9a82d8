//! What holds of stopping, opening and showing as a whole, whatever the user asks for
//! and whatever the operating system answers.
use crate::commands;
use crate::commands::{
    ActionView, EventView, Failures, FlowView, LaunchView, StartView, Step, StopMode,
    StopPhase,
};
use crate::domain::model::{Health, Kind};
use crate::find;
use crate::ipc::{GroupView, ServerRow, StopResult};
use crate::keeplist;
use crate::keeplist::MarkKey;
use crate::numeral;
use crate::scanner::server;
use crate::scanner::server::{distinct_ids, ScannedView};
use crate::scanner::snapshot;
use crate::scanner::stop;
use crate::text;
use crate::time::Timestamp;
use vstd::prelude::*;

verus! {

// ---------------------------------------------------------------------------------
// One stop, from its beginning to its end.
// ---------------------------------------------------------------------------------

/// Where a stop stands after the events, each with the time it happened at.
pub open spec fn after_events(
    flow: FlowView,
    failed: Failures,
    events: Seq<(EventView, Timestamp)>,
) -> Step
    decreases events.len(),
{
    if events.len() == 0 {
        Step { flow, action: commands::pending_action(flow), failed }
    } else {
        let before = after_events(flow, failed, events.drop_last());
        let (event, now) = events.last();
        commands::step(before.flow, event, before.failed, now)
    }
}

/// Whether an action signals a process.
pub open spec fn is_signal(action: ActionView) -> bool {
    action is RequestStop || action is ForceStop
}

/// A stop never changes what it is about, nor from a polite one into a forced one: every
/// signal goes to the process it was begun for, in the way it was begun.
pub proof fn lemma_stop_keeps_to_its_target(
    flow: FlowView,
    failed: Failures,
    events: Seq<(EventView, Timestamp)>,
)
    ensures
        ({
            let s = after_events(flow, failed, events);
            &&& s.flow.target == flow.target
            &&& s.flow.id == flow.id
            &&& s.flow.mode == flow.mode
            &&& s.action matches ActionView::RequestStop(p) ==> p == flow.target.pid && flow.mode
                == StopMode::Polite
            &&& s.action matches ActionView::ForceStop(p) ==> p == flow.target.pid && flow.mode
                == StopMode::Force
        }),
    decreases events.len(),
{
    if events.len() > 0 {
        lemma_stop_keeps_to_its_target(flow, failed, events.drop_last());
    }
}

/// Whether a fresh listing among the events showed the Server to be still itself.
pub open spec fn was_verified(target: ScannedView, events: Seq<(EventView, Timestamp)>) -> bool {
    exists|k: int|
        0 <= k < events.len() && ((#[trigger] events[k]).0 matches EventView::Listed(Some(fresh))
            && stop::still_itself(fresh, target))
}

/// Nothing is ever signalled before a fresh listing has shown the Server to be still the
/// one that was scanned.
pub proof fn lemma_signal_needs_verification(
    flow: FlowView,
    failed: Failures,
    events: Seq<(EventView, Timestamp)>,
)
    requires
        flow.phase == StopPhase::Verify,
    ensures
        ({
            let s = after_events(flow, failed, events);
            is_signal(s.action) || s.flow.phase == StopPhase::Signal || s.flow.phase
                == StopPhase::Wait || s.flow.phase == StopPhase::Check ==> was_verified(
                flow.target,
                events,
            )
        }),
    decreases events.len(),
{
    if events.len() > 0 {
        let front = events.drop_last();
        lemma_signal_needs_verification(flow, failed, front);
        lemma_stop_keeps_to_its_target(flow, failed, front);
        let before = after_events(flow, failed, front);
        if was_verified(flow.target, front) {
            let k = choose|k: int|
                0 <= k < front.len() && ((#[trigger] front[k]).0 matches EventView::Listed(
                    Some(fresh),
                ) && stop::still_itself(fresh, flow.target));
            assert(events[k] == front[k]);
        } else {
            assert(events[events.len() - 1] == events.last());
        }
    }
}

/// How far along a phase is.
pub open spec fn progress(phase: StopPhase) -> int {
    match phase {
        StopPhase::Verify => 0,
        StopPhase::Signal => 1,
        StopPhase::Wait => 2,
        StopPhase::Check => 3,
        StopPhase::Done => 4,
    }
}

/// A stop only ever goes forward, one phase at a time or to its end, so that a signal
/// that has been sent is not sent again.
pub proof fn lemma_stop_goes_forward(
    flow: FlowView,
    event: EventView,
    failed: Failures,
    now: Timestamp,
)
    ensures
        ({
            let next = commands::step(flow, event, failed, now).flow.phase;
            &&& progress(flow.phase) <= progress(next)
            &&& next == StopPhase::Done || progress(next) <= progress(flow.phase) + 1
            &&& flow.phase == StopPhase::Signal && event is Signalled ==> next == StopPhase::Wait
            &&& flow.phase == StopPhase::Done ==> next == StopPhase::Done
        }),
{
}

/// That a Server has stopped is said only where a listing taken after the wait shows
/// that nothing holds any address of it.
pub proof fn lemma_stopped_means_free(
    flow: FlowView,
    event: EventView,
    failed: Failures,
    now: Timestamp,
)
    ensures
        commands::step(flow, event, failed, now).action matches ActionView::Finish(o) ==> (
        o.result == StopResult::Stopped ==> flow.phase == StopPhase::Check && (
        event matches EventView::Listed(Some(listeners)) && !stop::any_holds(
            listeners,
            flow.target.ports,
        ))),
{
}

/// A stop that is refused has signalled nothing: a refusal comes from the listing before
/// the signal, and from nowhere else.
pub proof fn lemma_refusal_comes_before_the_signal(
    flow: FlowView,
    event: EventView,
    failed: Failures,
    now: Timestamp,
)
    ensures
        commands::step(flow, event, failed, now).action matches ActionView::Finish(o) ==> (
        o.result == StopResult::Refused ==> flow.phase == StopPhase::Verify),
{
}

/// The only thing that ever puts a failure on record is a polite stop that was signalled,
/// waited for, and found to be still running; and then it is on record under its own id,
/// with its own ports.
pub proof fn lemma_failure_is_earned(
    flow: FlowView,
    event: EventView,
    failed: Failures,
    now: Timestamp,
    id: Seq<char>,
)
    requires
        commands::step(flow, event, failed, now).failed.contains_key(id),
        !failed.contains_key(id) || commands::step(flow, event, failed, now).failed[id]
            != failed[id],
    ensures
        id == flow.id,
        flow.mode == StopMode::Polite,
        flow.phase == StopPhase::Check,
        commands::step(flow, event, failed, now).failed[id].ports == flow.target.ports,
        commands::step(flow, event, failed, now).failed[id].recorded_at == now,
        commands::step(flow, event, failed, now).action is Finish,
        commands::step(flow, event, failed, now).action->Finish_0.result
            == StopResult::StillRunning,
{
}

/// A stop touches no other Server's record.
pub proof fn lemma_other_records_stay(
    flow: FlowView,
    event: EventView,
    failed: Failures,
    now: Timestamp,
    other: Seq<char>,
)
    requires
        other != flow.id,
    ensures
        ({
            let after = commands::step(flow, event, failed, now).failed;
            after.contains_key(other) == failed.contains_key(other) && (failed.contains_key(other)
                ==> after[other] == failed[other])
        }),
{
}

/// A forced stop that was begun and ends with an answer has used its permission up, so
/// that a second one needs another polite stop that fails.
pub proof fn lemma_force_is_used_up(
    flow: FlowView,
    event: EventView,
    failed: Failures,
    now: Timestamp,
    servers: Seq<ScannedView>,
    later: Timestamp,
)
    requires
        flow.mode == StopMode::Force,
        commands::step(flow, event, failed, now).action is Finish,
    ensures
        ({
            let after = commands::step(flow, event, failed, now).failed;
            &&& !after.contains_key(flow.id)
            &&& commands::force_start(after, servers, flow.id, later).0 is Answer
        }),
{
}

// ---------------------------------------------------------------------------------
// Beginning a stop.
// ---------------------------------------------------------------------------------

/// Neither a polite nor a forced stop of a Server that is never stopped ever begins,
/// whatever is asked for.
pub proof fn lemma_watch_only_never_begins(
    failed: Failures,
    servers: Seq<ScannedView>,
    id: Seq<char>,
    now: Timestamp,
)
    ensures
        commands::start_for(StopMode::Polite, id, server::resolved(servers, id)) matches
            StartView::Begin(f) ==> !f.target.kind.watch_only() && servers.contains(f.target),
        commands::force_start(failed, servers, id, now).0 matches StartView::Begin(f)
            ==> !f.target.kind.watch_only() && servers.contains(f.target),
{
    find::lemma_first_such(servers, server::has_id(id));
    if stop::may_force(failed, id, now) {
        find::lemma_first_such(servers, stop::holds_one_of(failed[id].ports));
    }
}

/// A forced stop begins only for a Server of which a polite stop failed no more than two
/// minutes ago.
pub proof fn lemma_force_needs_a_failure(
    failed: Failures,
    servers: Seq<ScannedView>,
    id: Seq<char>,
    now: Timestamp,
)
    ensures
        commands::force_start(failed, servers, id, now).0 is Begin ==> stop::may_force(
            failed,
            id,
            now,
        ),
        !stop::may_force(failed, id, now) ==> !commands::force_start(
            failed,
            servers,
            id,
            now,
        ).1.contains_key(id),
{
}

/// A polite stop that ends with the Server still running allows it to be forced, for two
/// minutes.
pub proof fn lemma_failure_allows_force(
    flow: FlowView,
    event: EventView,
    failed: Failures,
    now: Timestamp,
    later: Timestamp,
)
    requires
        flow.mode == StopMode::Polite,
        commands::step(flow, event, failed, now).action is Finish,
        commands::step(flow, event, failed, now).action->Finish_0.result
            == StopResult::StillRunning,
    ensures
        stop::may_force(commands::step(flow, event, failed, now).failed, flow.id, later) == (0
            <= later.ns() - now.ns() <= 120 * 1_000_000_000),
{
}

/// The polite stop of a Server.
pub open spec fn polite_flow(s: ScannedView) -> FlowView {
    FlowView { mode: StopMode::Polite, id: s.id, target: s, phase: StopPhase::Verify }
}

/// Where no two Servers have the same id, stopping everything stops every development
/// server once, in order, and nothing else.
pub proof fn lemma_bulk_stops_dev_servers_only(servers: Seq<ScannedView>)
    requires
        distinct_ids(servers),
    ensures
        commands::bulk_flows(servers, stop::bulk_ids(servers)) == servers.filter(
            stop::is_dev(),
        ).map_values(|s: ScannedView| polite_flow(s)),
        forall|i: int|
            0 <= i < commands::bulk_flows(servers, stop::bulk_ids(servers)).len() ==> (
            #[trigger] commands::bulk_flows(
                servers,
                stop::bulk_ids(servers),
            )[i]).target.kind == Kind::DevServer,
{
    lemma_bulk_of_prefix(servers, servers.len() as int);
    assert(servers.take(servers.len() as int) =~= servers);
    let kept = servers.filter(stop::is_dev());
    let flows = commands::bulk_flows(servers, stop::bulk_ids(servers));
    assert forall|i: int| 0 <= i < flows.len() implies (#[trigger] flows[i]).target.kind
        == Kind::DevServer by {
        lemma_filter_satisfies(servers, stop::is_dev(), i);
        assert(flows[i] == polite_flow(kept[i]));
    }
}

/// Every entry that a filter keeps satisfies it.
proof fn lemma_filter_satisfies(
    s: Seq<ScannedView>,
    f: spec_fn(ScannedView) -> bool,
    i: int,
)
    requires
        0 <= i < s.filter(f).len(),
    ensures
        f(s.filter(f)[i]),
    decreases s.len(),
{
    reveal(Seq::filter);
    if s.len() > 0 {
        let front = s.drop_last();
        if i < front.filter(f).len() {
            lemma_filter_satisfies(front, f, i);
        }
    }
}

/// The flows for the development servers among the first `n` Servers.
proof fn lemma_bulk_of_prefix(servers: Seq<ScannedView>, n: int)
    requires
        distinct_ids(servers),
        0 <= n <= servers.len(),
    ensures
        commands::bulk_flows(servers, stop::bulk_ids(servers.take(n))) == servers.take(n).filter(
            stop::is_dev(),
        ).map_values(|s: ScannedView| polite_flow(s)),
    decreases n,
{
    reveal(Seq::filter);
    let f = |s: ScannedView| polite_flow(s);
    let g = |s: ScannedView| s.id;
    let part = servers.take(n);
    if n == 0 {
        assert(part.filter(stop::is_dev()).map_values(f) =~= Seq::<FlowView>::empty());
        assert(stop::bulk_ids(part) =~= Seq::<Seq<char>>::empty());
    } else {
        lemma_bulk_of_prefix(servers, n - 1);
        let front = servers.take(n - 1);
        assert(part.drop_last() =~= front);
        let s = servers[n - 1];
        assert(part.last() == s);
        if s.kind == Kind::DevServer {
            let kept = front.filter(stop::is_dev());
            assert(kept.push(s).map_values(f) =~= kept.map_values(f).push(f(s)));
            assert(kept.push(s).map_values(g) =~= kept.map_values(g).push(g(s)));
            let ids = stop::bulk_ids(part);
            assert(ids.drop_last() =~= stop::bulk_ids(front));
            assert(ids.last() == s.id);
            assert forall|j: int| 0 <= j < n - 1 implies !server::has_id(s.id)(
                #[trigger] servers[j],
            ) by {
                assert(servers[j].id != servers[n - 1].id);
            }
            find::lemma_first_such_is(servers, server::has_id(s.id), n - 1);
        }
    }
}

// ---------------------------------------------------------------------------------
// Opening.
// ---------------------------------------------------------------------------------

/// Whatever the user interface asks for, the programs that are run come from a closed
/// set, and the folder is handed to them as one argument, the last.
pub proof fn lemma_launches_are_closed(
    root: Seq<char>,
    how: Seq<char>,
    value: Option<Seq<char>>,
    i: int,
)
    requires
        0 <= i < commands::launches(root, how, commands::editor_named(value)).len(),
    ensures
        ({
            let l = commands::launches(root, how, commands::editor_named(value))[i];
            &&& l.program == "open"@ || l.program == "code"@ || l.program == "cursor"@ || l.program
                == "zed"@ || l.program == "subl"@
            &&& l.args.len() > 0
            &&& l.args.last() == root
        }),
{
}

/// A value that names no editor runs none: the folder is handed to Finder and nothing
/// else is tried.
pub proof fn lemma_unknown_editor_opens_finder(root: Seq<char>, how: Seq<char>, value: Seq<char>)
    requires
        how != "finder"@,
        value != "vscode"@,
        value != "cursor"@,
        value != "zed"@,
        value != "sublime"@,
    ensures
        commands::launches(root, how, commands::editor_named(Some(value))) == seq![
            LaunchView { program: "open"@, args: seq![root] },
        ],
{
}

/// Programs are tried in order up to the first that works, and none after it; the answer
/// is whether any of them works. Here `works` tells of each whether it would, and `k` is
/// the first that does, or the last where none does.
pub proof fn lemma_launches_stop_at_the_first_success(works: Seq<bool>, k: int)
    requires
        0 <= k < works.len(),
        forall|j: int| 0 <= j < k ==> !(#[trigger] works[j]),
        works[k] || k == works.len() - 1,
    ensures
        forall|j: int|
            0 <= j < k ==> commands::launch_answer(
                (j + 1) as nat,
                works.len(),
                #[trigger] works[j],
            ) is None,
        commands::launch_answer((k + 1) as nat, works.len(), works[k]) == Some(
            works.contains(true),
        ),
{
    if works[k] {
        assert(works.contains(true));
    } else if works.contains(true) {
        let j = choose|j: int| 0 <= j < works.len() && works[j] == true;
        assert(!works[j]);
    }
}

/// Only the folder of a development server is ever opened, and it is one that the scan
/// found, whatever id is asked for.
pub proof fn lemma_only_dev_folders_are_opened(servers: Seq<ScannedView>, id: Seq<char>)
    ensures
        commands::folder_of(servers, id) matches Some(root) ==> exists|i: int|
            0 <= i < servers.len() && (#[trigger] servers[i]).kind == Kind::DevServer
                && server::root_of(servers[i].attribution) == Some(root),
{
    find::lemma_first_such(servers, server::has_id(id));
    match server::resolved(servers, id) {
        Some(s) => {
            let i = choose|i: int| 0 <= i < servers.len() && servers[i] == s;
            assert(servers[i] == s);
        },
        None => {},
    }
}

// ---------------------------------------------------------------------------------
// Showing.
// ---------------------------------------------------------------------------------

/// What was marked is shown as marked, and what was cleared as not, until it is changed
/// again; other Servers' marks stay as they were.
pub proof fn lemma_mark_is_shown(
    servers: Seq<ScannedView>,
    id: Seq<char>,
    marks: Set<MarkKey>,
    keep: bool,
    other: ScannedView,
    now: Timestamp,
)
    requires
        commands::mark_of(servers, id) is Some,
    ensures
        ({
            let key = commands::mark_of(servers, id)->0;
            let after = keeplist::after_set(marks, key, keep);
            let s = server::resolved(servers, id)->0;
            &&& snapshot::dev_row(s, after, now).keep_running == keep
            &&& (server::root_of(other.attribution) matches Some(root) ==> keeplist::key_for(
                root,
                other.command,
            ) != key) ==> snapshot::dev_row(other, after, now).keep_running == snapshot::dev_row(
                other,
                marks,
                now,
            ).keep_running
        }),
{
}

/// Whether a Server is a development server that was found not to answer.
pub open spec fn is_silent_dev() -> spec_fn(ScannedView) -> bool {
    |s: ScannedView| s.kind == Kind::DevServer && s.health == Health::NotResponding
}

/// One more row is silent or not.
proof fn lemma_silent_row(groups: Seq<GroupView>, name: Seq<char>, row: ServerRow)
    ensures
        commands::any_silent(snapshot::with_row(groups, name, row)) == (commands::any_silent(groups)
            || commands::silent(row)),
    decreases groups.len(),
{
    let r = snapshot::with_row(groups, name, row);
    if groups.len() == 0 || text::before(name, groups[0].project) {
        let g = GroupView { project: name, servers: seq![row] };
        assert(r =~= seq![g] + groups);
        if commands::any_silent(groups) {
            let (a, i) = choose|a: int, i: int|
                0 <= a < groups.len() && 0 <= i < groups[a].servers.len() && commands::silent(
                    #[trigger] groups[a].servers[i],
                );
            assert(r[a + 1] == groups[a]);
            assert(commands::silent(r[a + 1].servers[i]));
        }
        if commands::silent(row) {
            assert(commands::silent(r[0].servers[0]));
        }
        if commands::any_silent(r) {
            let (a, i) = choose|a: int, i: int|
                0 <= a < r.len() && 0 <= i < r[a].servers.len() && commands::silent(
                    #[trigger] r[a].servers[i],
                );
            if a > 0 {
                assert(groups[a - 1] == r[a]);
                assert(commands::silent(groups[a - 1].servers[i]));
            }
        }
    } else if groups[0].project == name {
        let n = groups[0].servers.len() as int;
        if commands::any_silent(groups) {
            let (a, i) = choose|a: int, i: int|
                0 <= a < groups.len() && 0 <= i < groups[a].servers.len() && commands::silent(
                    #[trigger] groups[a].servers[i],
                );
            assert(r[a].servers[i] == groups[a].servers[i]);
            assert(commands::silent(r[a].servers[i]));
        }
        if commands::silent(row) {
            assert(r[0].servers[n] == row);
            assert(commands::silent(r[0].servers[n]));
        }
        if commands::any_silent(r) {
            let (a, i) = choose|a: int, i: int|
                0 <= a < r.len() && 0 <= i < r[a].servers.len() && commands::silent(
                    #[trigger] r[a].servers[i],
                );
            if a > 0 || i < n {
                assert(groups[a].servers[i] == r[a].servers[i]);
                assert(commands::silent(groups[a].servers[i]));
            }
        }
    } else {
        let rest = groups.skip(1);
        lemma_silent_row(rest, name, row);
        let rr = snapshot::with_row(rest, name, row);
        assert(r =~= seq![groups[0]] + rr);
        lemma_silent_split(groups);
        lemma_silent_split(r);
        assert(r.skip(1) =~= rr);
    }
}

/// A group is silent among groups where it is the first or among the rest.
proof fn lemma_silent_split(groups: Seq<GroupView>)
    requires
        groups.len() > 0,
    ensures
        commands::any_silent(groups) == (commands::any_silent(groups.skip(1)) || exists|i: int|
            0 <= i < groups[0].servers.len() && commands::silent(
                #[trigger] groups[0].servers[i],
            )),
{
    let rest = groups.skip(1);
    if commands::any_silent(groups) {
        let (a, i) = choose|a: int, i: int|
            0 <= a < groups.len() && 0 <= i < groups[a].servers.len() && commands::silent(
                #[trigger] groups[a].servers[i],
            );
        if a > 0 {
            assert(rest[a - 1] == groups[a]);
            assert(commands::silent(rest[a - 1].servers[i]));
        } else {
            assert(commands::silent(groups[0].servers[i]));
        }
    }
    if commands::any_silent(rest) {
        let (a, i) = choose|a: int, i: int|
            0 <= a < rest.len() && 0 <= i < rest[a].servers.len() && commands::silent(
                #[trigger] rest[a].servers[i],
            );
        assert(groups[a + 1] == rest[a]);
        assert(commands::silent(groups[a + 1].servers[i]));
    }
}

/// A development server that does not answer is silent among the groups.
proof fn lemma_silent_groups(servers: Seq<ScannedView>, marks: Set<MarkKey>, now: Timestamp)
    ensures
        commands::any_silent(snapshot::grouped(servers, marks, now)) == (servers.filter(
            is_silent_dev(),
        ).len() > 0),
    decreases servers.len(),
{
    reveal(Seq::filter);
    if servers.len() > 0 {
        let front = servers.drop_last();
        let s = servers.last();
        lemma_silent_groups(front, marks, now);
        if s.kind == Kind::DevServer {
            lemma_silent_row(
                snapshot::grouped(front, marks, now),
                snapshot::project_label(s.attribution),
                snapshot::dev_row(s, marks, now),
            );
        }
    }
}

/// The menu bar shows how many development servers there are, and an exclamation mark
/// exactly where one of them was found not to answer. One that could not be checked does
/// not count as silent.
pub proof fn lemma_tray_counts_dev_servers(
    servers: Seq<ScannedView>,
    marks: Set<MarkKey>,
    now: Timestamp,
)
    ensures
        ({
            let count = numeral::decimal(servers.filter(stop::is_dev()).len());
            commands::tray_text(snapshot::shown(servers, marks, now).projects) == (
            if servers.filter(is_silent_dev()).len() > 0 {
                count.push('!')
            } else {
                count
            })
        }),
{
    snapshot::lemma_projects_hold_dev_servers_only(servers, marks, now);
    lemma_silent_groups(servers, marks, now);
    assert(stop::is_dev() =~= (|s: ScannedView| s.kind == Kind::DevServer));
}

} // verus!
