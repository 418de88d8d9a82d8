//! Stopping and opening: what is asked for, what is done, and what is answered.
use super::kinds::lemma_found_by_id;
use crate::commands;
use crate::commands::{
    ActionView, Editor, EventView, Failures, FlowView, LaunchView, StartView, StopMode,
    StopPhase,
};
use crate::domain::model::{AttributionView, Kind};
use crate::find;
use crate::guarantees;
use crate::ipc::StopResult;
use crate::keeplist;
use crate::numeral;
use crate::path;
use crate::platform;
use crate::platform::macos;
use crate::platform::macos::SignalTarget;
use crate::platform::{PortBinding, RawListenerView};
use crate::scanner::server;
use crate::scanner::server::{distinct_ids, ScannedView};
use crate::scanner::stop;
use crate::scanner::stop::FailureView;
use crate::time::Timestamp;
use super::scans::{
    id_for, is_made_of, lemma_each_is_judged, lemma_servers_are_the_processes, with_ports,
};
use crate::commands::Launch;
use crate::domain::model::SelfPids;
use crate::scanner::pipeline;
use crate::scanner::pipeline::{ClassifyDeps, Judged, ProbeDeps};
use crate::scanner::refresh;
use crate::scanner::renew;
use crate::scanner::state;
use crate::scanner::state::ScannerState;
use vstd::prelude::*;

verus! {

/// Whether one of the ports has the number and the family of another list's.
pub open spec fn have_one_in_common(a: Seq<PortBinding>, b: Seq<PortBinding>) -> bool {
    exists|j: int, k: int|
        0 <= j < a.len() && 0 <= k < b.len() && (#[trigger] a[j]).port == (#[trigger] b[k]).port
            && a[j].family == b[k].family
}

/// Whether every port's number and family stand in another list too.
pub open spec fn all_found_in(a: Seq<PortBinding>, b: Seq<PortBinding>) -> bool {
    forall|j: int|
        0 <= j < a.len() ==> exists|k: int|
            0 <= k < b.len() && (#[trigger] b[k]).port == (#[trigger] a[j]).port && b[k].family
                == a[j].family
}

/// An address in common is one that both hold.
proof fn lemma_in_common(a: Seq<PortBinding>, b: Seq<PortBinding>)
    ensures
        platform::share_address(a, b) <==> have_one_in_common(a, b),
{
    if platform::share_address(a, b) {
        let j = choose|j: int| 0 <= j < a.len() && platform::holds(b, #[trigger] a[j]);
        let k = choose|k: int| 0 <= k < b.len() && platform::same_address(#[trigger] b[k], a[j]);
        assert(a[j].port == b[k].port && a[j].family == b[k].family);
    }
    if have_one_in_common(a, b) {
        let (j, k) = choose|j: int, k: int|
            0 <= j < a.len() && 0 <= k < b.len() && (#[trigger] a[j]).port == (
            #[trigger] b[k]).port && a[j].family == b[k].family;
        assert(platform::same_address(b[k], a[j]));
        assert(platform::holds(b, a[j]));
    }
}

/// Every address of one list stands in the other.
proof fn lemma_all_found(a: Seq<PortBinding>, b: Seq<PortBinding>)
    ensures
        (forall|j: int| 0 <= j < a.len() ==> platform::holds(b, #[trigger] a[j])) <==> all_found_in(
            a,
            b,
        ),
{
    if forall|j: int| 0 <= j < a.len() ==> platform::holds(b, #[trigger] a[j]) {
        assert forall|j: int| 0 <= j < a.len() implies exists|k: int|
            0 <= k < b.len() && (#[trigger] b[k]).port == (#[trigger] a[j]).port && b[k].family
                == a[j].family by {
            assert(platform::holds(b, a[j]));
            let k = choose|k: int| 0 <= k < b.len() && platform::same_address(#[trigger] b[k], a[j]);
            assert(b[k].port == a[j].port);
        }
    }
    if all_found_in(a, b) {
        assert forall|j: int| 0 <= j < a.len() implies platform::holds(b, #[trigger] a[j]) by {
            let k = choose|k: int|
                0 <= k < b.len() && (#[trigger] b[k]).port == a[j].port && b[k].family
                    == a[j].family;
            assert(platform::same_address(b[k], a[j]));
        }
    }
}

/// Whether any process holds the number and the family of one of the ports.
pub open spec fn still_taken(listeners: Seq<RawListenerView>, ports: Seq<PortBinding>) -> bool {
    exists|i: int|
        0 <= i < listeners.len() && have_one_in_common((#[trigger] listeners[i]).ports, ports)
}

/// A port is taken where a process that listens holds its number and family.
pub proof fn lemma_taken(listeners: Seq<RawListenerView>, ports: Seq<PortBinding>)
    ensures
        stop::any_holds(listeners, ports) <==> still_taken(listeners, ports),
{
    if stop::any_holds(listeners, ports) {
        let i = choose|i: int|
            0 <= i < listeners.len() && stop::listener_holds(ports)(#[trigger] listeners[i]);
        lemma_in_common(listeners[i].ports, ports);
        assert(have_one_in_common(listeners[i].ports, ports));
    }
    if still_taken(listeners, ports) {
        let i = choose|i: int|
            0 <= i < listeners.len() && have_one_in_common((#[trigger] listeners[i]).ports, ports);
        lemma_in_common(listeners[i].ports, ports);
        assert(stop::listener_holds(ports)(listeners[i]));
    }
}

/// After the wait, a stop has worked exactly where no process that listens holds a port of
/// the Server's, by number and family, however many other processes listen on other ports;
/// and the answer, the record of it and the words all follow from that alone.
pub proof fn lemma_stopped_iff_no_port_is_taken(
    flow: FlowView,
    listeners: Seq<RawListenerView>,
    failed: Failures,
    now: Timestamp,
)
    requires
        flow.phase == StopPhase::Check,
    ensures
        ({
            let s = commands::step(flow, EventView::Listed(Some(listeners)), failed, now);
            let words = server::stop_text(
                flow.target.kind,
                flow.target.attribution,
                flow.target.belongs_to,
            );
            &&& s.action matches ActionView::Finish(o) && {
                &&& o.id == flow.id
                &&& o.result == StopResult::Stopped <==> !still_taken(listeners, flow.target.ports)
                &&& o.result == StopResult::StillRunning <==> still_taken(
                    listeners,
                    flow.target.ports,
                )
                &&& o.result == StopResult::Stopped ==> o.message == words
                &&& o.result == StopResult::StillRunning ==> o.message == words
                    + " It did not stop — you can Force Stop it."@
            }
            &&& s.flow.phase == StopPhase::Done
            &&& s.failed == (if flow.mode == StopMode::Polite && still_taken(
                listeners,
                flow.target.ports,
            ) {
                failed.insert(
                    flow.id,
                    FailureView { ports: flow.target.ports, recorded_at: now },
                )
            } else {
                failed.remove(flow.id)
            })
        }),
{
    lemma_taken(listeners, flow.target.ports);
}

/// A listing that could not be taken after the wait does not show that a Server has
/// stopped.
pub proof fn lemma_no_listing_shows_no_stop(flow: FlowView, failed: Failures, now: Timestamp)
    requires
        flow.phase == StopPhase::Check,
    ensures
        ({
            let s = commands::step(flow, EventView::Listed(None), failed, now);
            &&& s.action matches ActionView::Finish(o) && o.result == StopResult::StillRunning
                && o.id == flow.id
            &&& flow.mode == StopMode::Polite ==> s.failed == failed.insert(
                flow.id,
                FailureView { ports: flow.target.ports, recorded_at: now },
            )
            &&& flow.mode == StopMode::Force ==> s.failed == failed.remove(flow.id)
        }),
{
}

/// Before the signal, a fresh listing in which the Server's process holds the very ports
/// it was found with, and began at the same time give or take two seconds, sends the
/// signal to it; anything else sends none and is answered with what was found instead.
#[verifier::rlimit(60)]
pub proof fn lemma_signalled_iff_unchanged(
    flow: FlowView,
    fresh: Seq<RawListenerView>,
    i: int,
    failed: Failures,
    now: Timestamp,
)
    requires
        flow.phase == StopPhase::Verify,
        0 <= i <= fresh.len(),
        i < fresh.len() ==> fresh[i].pid == flow.target.pid,
        forall|j: int| 0 <= j < i ==> (#[trigger] fresh[j]).pid != flow.target.pid,
    ensures
        ({
            let s = commands::step(flow, EventView::Listed(Some(fresh)), failed, now);
            let apart = fresh[i].start_time.ns() - flow.target.start_time.ns();
            let unchanged = i < fresh.len() && all_found_in(flow.target.ports, fresh[i].ports)
                && all_found_in(fresh[i].ports, flow.target.ports) && -2_000_000_000 <= apart
                <= 2_000_000_000;
            &&& unchanged && flow.mode == StopMode::Polite ==> s.action == ActionView::RequestStop(
                flow.target.pid,
            )
            &&& unchanged && flow.mode == StopMode::Force ==> s.action == ActionView::ForceStop(
                flow.target.pid,
            )
            &&& unchanged ==> s.failed == failed && s.flow == (FlowView {
                phase: StopPhase::Signal,
                ..flow
            })
            &&& !unchanged ==> s.flow.phase == StopPhase::Done && (s.action matches
                ActionView::Finish(o) && o.id == flow.id && o.result == StopResult::Refused
                && o.message == if i == fresh.len() {
                "This Server is no longer running — it may have already stopped."@
            } else {
                "This Server changed since it was last checked — nothing was stopped."@
            })
            &&& !unchanged && flow.mode == StopMode::Polite ==> s.failed == failed
            &&& !unchanged && flow.mode == StopMode::Force ==> s.failed == failed.remove(flow.id)
        }),
{
    find::lemma_first_such_is(fresh, stop::has_pid(flow.target.pid), i);
    if i < fresh.len() {
        lemma_all_found(flow.target.ports, fresh[i].ports);
        lemma_all_found(fresh[i].ports, flow.target.ports);
    }
}

/// Where no listing can be taken before the signal, nothing is signalled and no record
/// changes: a polite stop is refused, and a forced one fails.
pub proof fn lemma_no_listing_no_signal(flow: FlowView, failed: Failures, now: Timestamp)
    requires
        flow.phase == StopPhase::Verify,
    ensures
        ({
            let s = commands::step(flow, EventView::Listed(None), failed, now);
            &&& s.failed == failed
            &&& s.flow.phase == StopPhase::Done
            &&& flow.mode == StopMode::Polite ==> (s.action matches ActionView::Finish(o) && o.id
                == flow.id && o.result == StopResult::Refused && o.message
                == "Couldn't check this Server just now — nothing was stopped."@)
            &&& flow.mode == StopMode::Force ==> s.action == ActionView::Fail(
                "could not enumerate to verify force_stop target"@,
            )
        }),
{
}

/// After the signal a stop waits for three seconds and then takes a listing; what else
/// happens meanwhile, and what happens when it is over, changes nothing.
pub proof fn lemma_signal_then_wait_then_listing(
    flow: FlowView,
    event: EventView,
    failed: Failures,
    now: Timestamp,
)
    ensures
        ({
            let s = commands::step(flow, event, failed, now);
            &&& flow.phase == StopPhase::Signal && event is Signalled ==> s.action
                == ActionView::Wait(3) && s.flow.phase == StopPhase::Wait && s.failed == failed
            &&& flow.phase == StopPhase::Wait && event is Waited ==> s.action == ActionView::List
                && s.flow.phase == StopPhase::Check && s.failed == failed
            &&& flow.phase == StopPhase::Done ==> s.action == ActionView::Over && s.flow == flow
                && s.failed == failed
            &&& (flow.phase == StopPhase::Verify || flow.phase == StopPhase::Check) && !(
            event is Listed) ==> s.action == ActionView::List && s.flow == flow && s.failed
                == failed
            &&& flow.phase == StopPhase::Wait && !(event is Waited) ==> s.action
                == ActionView::Wait(3) && s.flow == flow && s.failed == failed
            &&& flow.phase == StopPhase::Signal && !(event is Signalled) && flow.mode
                == StopMode::Polite ==> s.action == ActionView::RequestStop(flow.target.pid)
                && s.flow == flow && s.failed == failed
            &&& flow.phase == StopPhase::Signal && !(event is Signalled) && flow.mode
                == StopMode::Force ==> s.action == ActionView::ForceStop(flow.target.pid) && s.flow
                == flow && s.failed == failed
        }),
{
}

/// A stop begins for a Server that is listed and is not to be watched only; otherwise the
/// answer says which of the two it is.
pub proof fn lemma_beginning_a_stop(mode: StopMode, id: Seq<char>, s: ScannedView)
    ensures
        s.kind == Kind::DevServer || s.kind == Kind::PartOfApp || s.kind == Kind::BackgroundService
            ==> commands::start_for(mode, id, Some(s)) == StartView::Begin(
            FlowView { mode, id, target: s, phase: StopPhase::Verify },
        ),
        s.kind == Kind::PartOfMacOS || s.kind == Kind::YourOwnTool ==> (commands::start_for(
            mode,
            id,
            Some(s),
        ) matches StartView::Answer(o) && o.id == id && o.result == StopResult::Refused
            && o.message == "This Server is Watch Only and is never stopped through this tool."@),
        commands::start_for(mode, id, None) matches StartView::Answer(o) && o.id == id && o.result
            == StopResult::Refused && o.message
            == "This Server is no longer listed — it may have already stopped."@,
{
}

/// A Server may be forced for two minutes after a polite stop of it has failed: then the
/// Server with that id is meant, or else the first that holds one of the ports that the
/// failed stop was about. At any other time the request is refused and its record, if it
/// has one, is dropped.
#[verifier::rlimit(60)]
pub proof fn lemma_beginning_a_forced_stop(
    failed: Failures,
    servers: Seq<ScannedView>,
    id: Seq<char>,
    now: Timestamp,
    i: int,
)
    requires
        0 <= i < servers.len(),
    ensures
        ({
            let (start, after) = commands::force_start(failed, servers, id, now);
            let age = now.ns() - failed[id].recorded_at.ns();
            let allowed = failed.contains_key(id) && 0 <= age <= 120_000_000_000;
            &&& allowed ==> after == failed
            &&& !allowed ==> after == failed.remove(id)
            &&& !allowed ==> (start matches StartView::Answer(o) && o.id == id && o.result
                == StopResult::Refused && o.message == if failed.contains_key(id) {
                "That stop attempt was a while ago. Try stopping this Server again before forcing it."@
            } else {
                "Force Stop is only available after a polite stop has been tried and the Server is still running."@
            })
            &&& allowed && servers[i].id == id && (forall|j: int|
                0 <= j < i ==> (#[trigger] servers[j]).id != id) ==> start == commands::start_for(
                StopMode::Force,
                id,
                Some(servers[i]),
            )
            &&& allowed && (forall|j: int| 0 <= j < servers.len() ==> (#[trigger] servers[j]).id != id)
                && have_one_in_common(servers[i].ports, failed[id].ports) && (forall|j: int|
                0 <= j < i ==> !have_one_in_common((#[trigger] servers[j]).ports, failed[id].ports))
                ==> start == commands::start_for(StopMode::Force, id, Some(servers[i]))
            &&& allowed && (forall|j: int|
                0 <= j < servers.len() ==> (#[trigger] servers[j]).id != id && !have_one_in_common(
                    servers[j].ports,
                    failed[id].ports,
                )) ==> start == commands::start_for(StopMode::Force, id, None)
        }),
{
    let ports = failed[id].ports;
    let f = stop::holds_one_of(ports);
    if forall|j: int| 0 <= j < i ==> (#[trigger] servers[j]).id != id {
        lemma_found_by_id(servers, i, id);
    }
    if forall|j: int| 0 <= j < servers.len() ==> (#[trigger] servers[j]).id != id {
        lemma_found_by_id(servers, servers.len() as int, id);
        if have_one_in_common(servers[i].ports, ports) && forall|j: int|
            0 <= j < i ==> !have_one_in_common((#[trigger] servers[j]).ports, ports) {
            lemma_in_common(servers[i].ports, ports);
            assert forall|j: int| 0 <= j < i implies !f(#[trigger] servers[j]) by {
                lemma_in_common(servers[j].ports, ports);
            }
            find::lemma_first_such_is(servers, f, i);
        }
        if forall|j: int|
            0 <= j < servers.len() ==> !have_one_in_common((#[trigger] servers[j]).ports, ports) {
            assert forall|j: int| 0 <= j < servers.len() implies !f(#[trigger] servers[j]) by {
                lemma_in_common(servers[j].ports, ports);
            }
            find::lemma_first_such_is(servers, f, servers.len() as int);
        }
    }
}

/// Stopping everything begins a polite stop of each development server and of nothing
/// else, in the order in which they are listed.
pub proof fn lemma_stopping_everything(servers: Seq<ScannedView>)
    requires
        distinct_ids(servers),
    ensures
        commands::bulk_flows(servers, stop::bulk_ids(servers)) == servers.filter(
            |s: ScannedView| s.kind == Kind::DevServer,
        ).map_values(
            |s: ScannedView|
                FlowView { mode: StopMode::Polite, id: s.id, target: s, phase: StopPhase::Verify },
        ),
{
    guarantees::lemma_bulk_stops_dev_servers_only(servers);
    assert(stop::is_dev() =~= (|s: ScannedView| s.kind == Kind::DevServer));
    assert((|s: ScannedView| guarantees::polite_flow(s)) =~= (|s: ScannedView|
        FlowView { mode: StopMode::Polite, id: s.id, target: s, phase: StopPhase::Verify }));
}

/// A signal goes to the whole group where the process leads it, to the process alone
/// where it does not, and nowhere where there is no group to speak of.
pub proof fn lemma_whom_a_signal_reaches(pid: u32, pgid: i32)
    requires
        pid <= i32::MAX,
    ensures
        pgid <= 1 ==> macos::target_of(pid, pgid) is None,
        pgid > 1 && pgid == pid ==> macos::target_of(pid, pgid) == Some(SignalTarget::Group(pgid)),
        pgid > 1 && pgid != pid ==> macos::target_of(pid, pgid) == Some(
            SignalTarget::JustThisProcess(pid as i32),
        ),
        pgid > 1 && pgid == pid ==> macos::argument_of(macos::target_of(pid, pgid)->0) == -pgid,
        pgid > 1 && pgid != pid ==> macos::argument_of(macos::target_of(pid, pgid)->0) == pid,
{
}

/// What is asked of the operating system for a signal, and what is answered: the group of
/// the process is asked for, the signal goes to that target, and a failure tells of it.
pub proof fn lemma_signal_and_its_answer<G: Fn(i32) -> i32, K: Fn(i32, i32) -> Result<(), String>>(
    pid: u32,
    signal: i32,
    group_of: G,
    kill: K,
    pgid: i32,
    killed: Result<(), String>,
    r: Result<(), String>,
)
    requires
        pid <= i32::MAX,
        macos::signalled(pid, signal, group_of, kill, pgid, killed, r),
    ensures
        call_ensures(group_of, (pid as i32,), pgid),
        pgid <= 1 ==> (r matches Err(e) && e@ == "refusing to signal pid "@ + numeral::decimal(
            pid as nat,
        ) + ": invalid process group "@ + numeral::signed_decimal(pgid as int)),
        pgid > 1 && pgid == pid ==> call_ensures(kill, ((-pgid) as i32, signal), killed),
        pgid > 1 && pgid != pid ==> call_ensures(kill, (pid as i32, signal), killed),
        pgid > 1 ==> (r is Ok <==> killed is Ok),
        pgid > 1 && pgid == pid && killed is Err ==> (r matches Err(e) && e@
            == "failed to signal "@ + ("process group "@ + numeral::decimal(pid as nat))
            + " for pid "@ + numeral::decimal(pid as nat) + ": "@ + killed->Err_0@),
        pgid > 1 && pgid != pid && killed is Err ==> (r matches Err(e) && e@
            == "failed to signal "@ + ("process "@ + numeral::decimal(pid as nat)
            + " (not a group leader)"@) + " for pid "@ + numeral::decimal(pid as nat) + ": "@
            + killed->Err_0@),
{
}

/// The folder that is opened for an id is the root of the Project of the first Server
/// with that id, where it is a development server.
pub proof fn lemma_folder_to_open(servers: Seq<ScannedView>, i: int, id: Seq<char>)
    requires
        0 <= i <= servers.len(),
        forall|j: int| 0 <= j < i ==> (#[trigger] servers[j]).id != id,
        i < servers.len() ==> servers[i].id == id,
    ensures
        i == servers.len() ==> commands::folder_of(servers, id) is None,
        i < servers.len() && servers[i].kind != Kind::DevServer ==> commands::folder_of(
            servers,
            id,
        ) is None,
        i < servers.len() && servers[i].kind == Kind::DevServer ==> commands::folder_of(servers, id)
            == match servers[i].attribution {
            AttributionView::Known(p, _) => Some(p.root),
            AttributionView::Guessed(p, _) => Some(p.root),
            AttributionView::NoProject => None,
        },
{
    lemma_found_by_id(servers, i, id);
}

/// A Server is marked by the components of its Project's root and by its command, and not
/// without a Project.
pub proof fn lemma_mark_to_keep(servers: Seq<ScannedView>, i: int, id: Seq<char>)
    requires
        0 <= i <= servers.len(),
        forall|j: int| 0 <= j < i ==> (#[trigger] servers[j]).id != id,
        i < servers.len() ==> servers[i].id == id,
    ensures
        i == servers.len() ==> commands::mark_of(servers, id) is None,
        i < servers.len() ==> commands::mark_of(servers, id) == match servers[i].attribution {
            AttributionView::Known(p, _) => Some((path::parts(p.root), servers[i].command)),
            AttributionView::Guessed(p, _) => Some((path::parts(p.root), servers[i].command)),
            AttributionView::NoProject => None,
        },
        i < servers.len() ==> commands::kept_by(servers, id) == match servers[i].attribution {
            AttributionView::Known(p, _) => Some((p.root, servers[i].command)),
            AttributionView::Guessed(p, _) => Some((p.root, servers[i].command)),
            AttributionView::NoProject => None,
        },
{
    lemma_found_by_id(servers, i, id);
}

/// The words by which the user interface names an editor, and what each editor's command
/// and application are called.
pub proof fn lemma_editors()
    ensures
        commands::editor_named(None) == Editor::VsCode,
        commands::editor_named(Some("vscode"@)) == Editor::VsCode,
        commands::editor_named(Some("cursor"@)) == Editor::Cursor,
        commands::editor_named(Some("zed"@)) == Editor::Zed,
        commands::editor_named(Some("sublime"@)) == Editor::Sublime,
        forall|v: Seq<char>|
            v != "vscode"@ && v != "cursor"@ && v != "zed"@ && v != "sublime"@
                ==> #[trigger] commands::editor_named(Some(v)) == Editor::FinderOnly,
{
    reveal_strlit("vscode");
    reveal_strlit("cursor");
    reveal_strlit("zed");
    reveal_strlit("sublime");
    assert("vscode"@[0] == 'v' && "cursor"@[0] == 'c' && "zed"@[0] == 'z' && "sublime"@[0] == 's');
}

/// What is tried to open a folder: for the Finder, to show it and then to open it; for an
/// editor its command, then its application, then the Finder.
pub proof fn lemma_what_is_tried(root: Seq<char>, how: Seq<char>)
    ensures
        ({
            let plain = LaunchView { program: "open"@, args: seq![root] };
            let tried = |cli: Seq<char>, app: Seq<char>|
                seq![
                    LaunchView { program: cli, args: seq![root] },
                    LaunchView { program: "open"@, args: seq!["-a"@, app, root] },
                    plain,
                ];
            &&& commands::launches(root, "finder"@, Editor::VsCode) == seq![
                LaunchView { program: "open"@, args: seq!["-R"@, root] },
                plain,
            ]
            &&& how == "finder"@ ==> commands::launches(root, how, Editor::Cursor)
                == commands::launches(root, how, Editor::VsCode)
            &&& how == "finder"@ ==> commands::launches(root, how, Editor::Zed)
                == commands::launches(root, how, Editor::VsCode)
            &&& how == "finder"@ ==> commands::launches(root, how, Editor::Sublime)
                == commands::launches(root, how, Editor::VsCode)
            &&& how == "finder"@ ==> commands::launches(root, how, Editor::FinderOnly)
                == commands::launches(root, how, Editor::VsCode)
            &&& how != "finder"@ ==> commands::launches(root, how, Editor::VsCode) == tried(
                "code"@,
                "Visual Studio Code"@,
            )
            &&& how != "finder"@ ==> commands::launches(root, how, Editor::Cursor) == tried(
                "cursor"@,
                "Cursor"@,
            )
            &&& how != "finder"@ ==> commands::launches(root, how, Editor::Zed) == tried(
                "zed"@,
                "Zed"@,
            )
            &&& how != "finder"@ ==> commands::launches(root, how, Editor::Sublime) == tried(
                "subl"@,
                "Sublime Text"@,
            )
            &&& how != "finder"@ ==> commands::launches(root, how, Editor::FinderOnly) == seq![plain]
        }),
{
}

/// What is said when a stop is over: what it stops, and that it can be forced where it did
/// not.
pub proof fn lemma_what_is_said(s: ScannedView)
    ensures
        ({
            let words = server::stop_text(s.kind, s.attribution, s.belongs_to);
            &&& commands::message_for(s, StopResult::Stopped) == words
            &&& commands::message_for(s, StopResult::Refused) == words
            &&& commands::message_for(s, StopResult::StillRunning) == words
                + " It did not stop — you can Force Stop it."@
        }),
{
}

/// A polite stop is on record exactly where the Server still runs after it, with the ports
/// it had and the time; no other Server's record changes.
pub proof fn lemma_what_is_recorded(
    failed: Failures,
    id: Seq<char>,
    other: Seq<char>,
    target: ScannedView,
    now: Timestamp,
)
    ensures
        ({
            let still = commands::recorded(failed, id, target, StopResult::StillRunning, now);
            let stopped = commands::recorded(failed, id, target, StopResult::Stopped, now);
            let refused = commands::recorded(failed, id, target, StopResult::Refused, now);
            &&& still.contains_key(id) && still[id].ports == target.ports && still[id].recorded_at
                == now
            &&& !stopped.contains_key(id) && !refused.contains_key(id)
            &&& other != id ==> still.contains_key(other) == failed.contains_key(other)
                && stopped.contains_key(other) == failed.contains_key(other)
                && refused.contains_key(other) == failed.contains_key(other)
            &&& other != id && failed.contains_key(other) ==> still[other] == failed[other]
                && stopped[other] == failed[other] && refused[other] == failed[other]
        }),
{
}

/// The listing that a stop ends with is taken over; one that it begins with is not.
pub proof fn lemma_listing_that_is_taken_over(
    flow: FlowView,
    listed: Option<Seq<RawListenerView>>,
)
    ensures
        flow.phase == StopPhase::Check ==> commands::final_listing(flow, EventView::Listed(listed))
            == listed,
        flow.phase != StopPhase::Check ==> commands::final_listing(
            flow,
            EventView::Listed(listed),
        ) is None,
        commands::final_listing(flow, EventView::Signalled) is None,
        commands::final_listing(flow, EventView::Waited) is None,
{
}

/// Programs are started in order up to the first that works, and the answer is whether one
/// of them does. Here `works` tells of each whether it does.
pub proof fn lemma_first_that_works<S: Fn(&Launch) -> bool>(
    start: S,
    works: spec_fn(Launch) -> bool,
    launches: Seq<Launch>,
    worked: Seq<bool>,
    answer: bool,
)
    requires
        forall|l: &Launch, b: bool| #[trigger] call_ensures(start, (l,), b) ==> b == works(*l),
        commands::launched_by(start, launches, worked, answer),
    ensures
        answer <==> exists|i: int| 0 <= i < launches.len() && works(#[trigger] launches[i]),
        forall|i: int| 0 <= i < worked.len() - 1 ==> !works(#[trigger] launches[i]),
{
    assert forall|i: int| 0 <= i < worked.len() implies #[trigger] worked[i] == works(
        launches[i],
    ) by {
        assert(call_ensures(start, (&launches[i],), worked[i]));
    }
    assert forall|i: int| 0 <= i < worked.len() - 1 implies !works(#[trigger] launches[i]) by {
        assert(!worked[i]);
    }
    if answer {
        let i = choose|i: int| 0 <= i < worked.len() && worked[i] == true;
        assert(works(launches[i]));
    } else {
        assert forall|i: int| 0 <= i < launches.len() implies !works(#[trigger] launches[i]) by {
            if worked[i] {
                assert(worked.contains(true));
            }
        }
    }
}

/// After a stop the Servers are those of the listing that it ended with: one for each
/// process that holds a port, in order, each what the listing says of it.
#[verifier::rlimit(60)]
pub proof fn lemma_servers_after_a_stop<
    O: Fn(&str) -> Option<String>,
    F: Fn(&str) -> bool,
    L: Fn(&Vec<Vec<PortBinding>>) -> Vec<(usize, bool)>,
    B: Fn(&Vec<(usize, PortBinding)>) -> Vec<(usize, Option<String>)>,
    T: Fn(&PortBinding) -> Option<String>,
>(
    before: ScannerState,
    after: ScannerState,
    listeners: Seq<RawListenerView>,
    self_pids: SelfPids,
    deps: ClassifyDeps<O, F>,
    probes: ProbeDeps<L, B, T>,
    i: int,
)
    requires
        commands::adopted(before, after, listeners, self_pids, deps, probes),
        0 <= i < with_ports(listeners).len(),
    ensures
        after.servers@.len() == with_ports(listeners).len(),
        after.servers@[i].id@ == id_for(with_ports(listeners)[i]),
        after.servers@[i].pid == with_ports(listeners)[i].pid,
        after.servers@[i].command@ == with_ports(listeners)[i].command,
        after.servers@[i].ports@ == with_ports(listeners)[i].ports,
        after.servers@[i].unattended <==> with_ports(listeners)[i].ppid <= 1,
        after.servers@[i].usage == with_ports(listeners)[i].usage,
        after.last_fingerprint == Some(state::fingerprint_of(listeners)),
        after.panel == before.panel,
        after.keeplist == before.keeplist,
        after.failed_polite_stops == before.failed_polite_stops,
        after.scan_failed == before.scan_failed,
{
    let old = server::server_views(before.servers@);
    let new = server::server_views(after.servers@);
    let (judged, answers, found) = choose|
        judged: Seq<Judged>,
        answers: Seq<(usize, bool)>,
        found: Seq<(usize, Option<Seq<char>>)>,
    | #[trigger]
        renew::renews(
            old,
            listeners,
            self_pids,
            deps,
            probes,
            before.title_cache@,
            judged,
            answers,
            found,
            new,
            after.title_cache@,
        );
    let kept = refresh::titles_kept(old, listeners, before.title_cache@);
    let fresh = pipeline::probed(listeners, judged, answers, found, kept).0;
    lemma_each_is_judged(listeners, self_pids, deps, judged);
    lemma_servers_are_the_processes(listeners, judged, answers, found, kept);
    renew::lemma_anchoring_keeps_the_rest(old, fresh);
    let anchored = renew::anchored_all(old, fresh)[i];
    assert((ScannedView { start_time: fresh[i].start_time, ..anchored }) == fresh[i]);
    assert(is_made_of(fresh[i], with_ports(listeners)[i], judged[i]));
    assert(new.len() == after.servers@.len());
    assert(new[i] == after.servers@[i]@);
}

} // verus!
