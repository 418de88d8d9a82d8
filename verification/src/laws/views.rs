//! What is said of a value is what it holds, field for field and unchanged.
use crate::commands;
use crate::commands::{
    ActionView, EventView, Launch, StartView, StopAction, StopEvent, StopFlow, StopStart,
};
use crate::domain::model::{AttributionView, Package, Project, ProjectAttribution};
use crate::ipc;
use crate::ipc::{
    OtherServer, ProjectGroup, ResourceSampleEntry, ServerWire, Snapshot, StopOutcome,
    WatchOnlyServer,
};
use crate::keeplist;
use crate::keeplist::KeepMark;
use crate::path;
use crate::platform;
use crate::platform::macos::{ProcessMeta, RawSockets};
use crate::platform::RawListener;
use crate::scanner::pipeline::Pending;
use crate::scanner::server;
use crate::scanner::server::ScannedServer;
use crate::scanner::stop::FailedPoliteStop;
use crate::time::Timestamp;
use vstd::prelude::*;

verus! {

/// A row of a development server is told as it is.
pub proof fn lemma_server_wire(x: ServerWire)
    ensures
        x@.id == x.id@,
        x@.pid == x.pid,
        x@.package == x.package.deep_view(),
        x@.project_path == x.project_path.deep_view(),
        x@.title == x.title.deep_view(),
        x@.command == x.command@,
        x@.ports == x.ports@,
        x@.uptime_seconds == x.uptime_seconds as int,
        x@.health == x.health,
        x@.unattended == x.unattended,
        x@.keep_running == x.keep_running,
        x@.usage == x.usage,
{
}

/// A row of a Server that is only watched is told as it is.
pub proof fn lemma_watch_only_server(x: WatchOnlyServer)
    ensures
        x@.id == x.id@,
        x@.label == x.label@,
        x@.reason == x.reason,
        x@.ports == x.ports@,
        x@.uptime_seconds == x.uptime_seconds as int,
        x@.usage == x.usage,
{
}

/// A row of any other Server is told as it is.
pub proof fn lemma_other_server(x: OtherServer)
    ensures
        x@.id == x.id@,
        x@.label == x.label@,
        x@.kind == x.kind,
        x@.guessed_project == x.guessed_project.deep_view(),
        x@.ports == x.ports@,
        x@.usage == x.usage,
{
}

/// What came of a stop is told as it is.
pub proof fn lemma_stop_outcome(x: StopOutcome)
    ensures
        x@.id == x.id@,
        x@.result == x.result,
        x@.message == x.message@,
{
}

/// A Server is told as it is.
pub proof fn lemma_scanned_server(x: ScannedServer)
    ensures
        x@.id == x.id@,
        x@.pid == x.pid,
        x@.command == x.command@,
        x@.ports == x.ports@,
        x@.start_time == x.start_time,
        x@.unattended == x.unattended,
        x@.kind == x.kind,
        x@.attribution == x.attribution@,
        x@.belongs_to == x.belongs_to.deep_view(),
        x@.health == x.health,
        x@.title == x.title.deep_view(),
        x@.usage == x.usage,
        x@.pressure == x.pressure,
{
}

/// A process that listens is told as it is.
pub proof fn lemma_raw_listener(x: RawListener)
    ensures
        x@.pid == x.pid,
        x@.ppid == x.ppid,
        x@.command == x.command@,
        x@.exe_path == x.exe_path@,
        x@.cwd == x.cwd.deep_view(),
        x@.ports == x.ports@,
        x@.start_time == x.start_time,
        x@.user == x.user@,
        x@.usage == x.usage,
{
}

/// What a process listens on is told as it is.
pub proof fn lemma_raw_sockets(x: RawSockets)
    ensures
        x@.pid == x.pid,
        x@.command == x.command@,
        x@.ports == x.ports@,
{
}

/// What a process is is told as it is.
pub proof fn lemma_process_meta(x: ProcessMeta)
    ensures
        x@.ppid == x.ppid,
        x@.user == x.user@,
        x@.start_time == x.start_time,
        x@.comm == x.comm@,
{
}

/// A Server in the making is told as it is.
pub proof fn lemma_pending(x: Pending)
    ensures
        x@.id == x.id@,
        x@.listener == x.listener@,
        x@.kind == x.kind,
        x@.attribution == x.attribution@,
        x@.belongs_to == x.belongs_to.deep_view(),
        x@.health == x.health,
        x@.title == x.title.deep_view(),
        x@.needs_fetch == x.needs_fetch,
{
}

/// A stop that failed is told as it is.
pub proof fn lemma_failed_polite_stop(x: FailedPoliteStop)
    ensures
        x@.ports == x.ports@,
        x@.recorded_at == x.recorded_at,
{
}

/// A Project is told as it is.
pub proof fn lemma_project(x: Project)
    ensures
        x@.root == x.root@,
        x@.name == x.name@,
{
}

/// A program to run is told as it is.
pub proof fn lemma_launch(x: Launch)
    ensures
        x@.program == x.program@,
        x@.args == crate::text::views(x.args@),
{
}

/// A stop is told as it is.
pub proof fn lemma_stop_flow(x: StopFlow)
    ensures
        x@.mode == x.mode,
        x@.id == x.id@,
        x@.target == x.target@,
        x@.phase == x.phase,
{
}

/// A snapshot is told as it is.
pub proof fn lemma_snapshot(x: Snapshot)
    ensures
        x@.projects == ipc::groups(x.projects@),
        x@.watch_only == ipc::watch_only_rows(x.watch_only@),
        x@.others == ipc::other_rows(x.others@),
        x@.scanned_at == x.scanned_at@,
        x@.scan_failed == x.scan_failed,
{
}

/// A group of rows is told as it is.
pub proof fn lemma_project_group(x: ProjectGroup)
    ensures
        x@.project == x.project@,
        x@.servers == ipc::rows(x.servers@),
{
}

/// The figures of a Server are told as they are.
pub proof fn lemma_sample(x: ResourceSampleEntry)
    ensures
        x@.0 == x.id@,
        x@.1 == x.usage,
{
}

/// What is known of a Project is told as it is, and a guess as a guess.
pub proof fn lemma_attribution(p: Project, k: Option<Package>)
    ensures
        ({
            let package = match k {
                Some(package) => Some(package.relative_path@),
                None => None,
            };
            &&& ProjectAttribution::Known(p, k)@ == AttributionView::Known(p@, package)
            &&& ProjectAttribution::Guessed(p, k)@ == AttributionView::Guessed(p@, package)
            &&& ProjectAttribution::NoProject@ == AttributionView::NoProject
        }),
{
}

/// What a stop asks for is told as it is.
pub proof fn lemma_action(pid: u32, seconds: u64, o: StopOutcome, why: String)
    ensures
        StopAction::List@ == ActionView::List,
        StopAction::RequestStop(pid)@ == ActionView::RequestStop(pid),
        StopAction::ForceStop(pid)@ == ActionView::ForceStop(pid),
        StopAction::Wait(seconds)@ == ActionView::Wait(seconds),
        StopAction::Finish(o)@ == ActionView::Finish(o@),
        StopAction::Fail(why)@ == ActionView::Fail(why@),
        StopAction::Over@ == ActionView::Over,
{
}

/// What a stop hears of is told as it is, but for why a listing failed.
pub proof fn lemma_event(listeners: Vec<RawListener>, why: String)
    ensures
        StopEvent::Listed(Ok(listeners))@ == EventView::Listed(
            Some(listeners@.map_values(|l: RawListener| l@)),
        ),
        StopEvent::Listed(Err(why))@ == EventView::Listed(None),
        StopEvent::Signalled@ == EventView::Signalled,
        StopEvent::Waited@ == EventView::Waited,
{
}

/// How a stop begins is told as it is.
pub proof fn lemma_start(o: StopOutcome, f: StopFlow)
    ensures
        StopStart::Answer(o)@ == StartView::Answer(o@),
        StopStart::Begin(f)@ == StartView::Begin(f@),
{
}

/// Lists are told entry by entry, all of them and in order.
pub proof fn lemma_lists(
    listeners: Seq<RawListener>,
    servers: Seq<ScannedServer>,
    rows: Seq<ServerWire>,
    groups: Seq<ProjectGroup>,
    watched: Seq<WatchOnlyServer>,
    others: Seq<OtherServer>,
    launches: Seq<Launch>,
    flows: Seq<StopFlow>,
)
    ensures
        platform::listener_views(listeners) == listeners.map_values(|l: RawListener| l@),
        server::server_views(servers) == servers.map_values(|s: ScannedServer| s@),
        ipc::rows(rows) == rows.map_values(|r: ServerWire| r@),
        ipc::groups(groups) == groups.map_values(|g: ProjectGroup| g@),
        ipc::watch_only_rows(watched) == watched.map_values(|r: WatchOnlyServer| r@),
        ipc::other_rows(others) == others.map_values(|r: OtherServer| r@),
        commands::launch_views(launches) == launches.map_values(|l: Launch| l@),
        commands::flow_views(flows) == flows.map_values(|f: StopFlow| f@),
{
}

/// What is remembered of failed stops is told entry by entry.
pub proof fn lemma_failures(m: Map<Seq<char>, FailedPoliteStop>, id: Seq<char>)
    ensures
        crate::scanner::stop::failures(m).contains_key(id) <==> m.contains_key(id),
        m.contains_key(id) ==> crate::scanner::stop::failures(m)[id] == m[id]@,
{
}

/// A mark is told by the components of its root and by its command.
pub proof fn lemma_mark(x: KeepMark)
    ensures
        x.key() == (path::parts(x.project_root@), x.command@),
{
}

/// Marks that were read are all there, and nothing else is; of marks that are the same the
/// first gives the spelling.
pub proof fn lemma_marks_that_were_read(marks: Seq<KeepMark>, i: int, key: keeplist::MarkKey)
    ensures
        keeplist::keys(marks).to_set().contains(key) <==> exists|k: int|
            0 <= k < marks.len() && #[trigger] marks[k].key() == key,
        keeplist::spellings_of(marks).contains_key(key) <==> exists|k: int|
            0 <= k < marks.len() && #[trigger] marks[k].key() == key,
        0 <= i < marks.len() && marks[i].key() == key && (forall|k: int|
            0 <= k < i ==> #[trigger] marks[k].key() != key) ==> keeplist::spellings_of(marks)[key]
            == marks[i].project_root@,
    decreases marks.len(),
{
    let keys = keeplist::keys(marks);
    if keys.contains(key) {
        let k = choose|k: int| 0 <= k < keys.len() && keys[k] == key;
        assert(marks[k].key() == key);
    }
    if exists|k: int| 0 <= k < marks.len() && #[trigger] marks[k].key() == key {
        let k = choose|k: int| 0 <= k < marks.len() && #[trigger] marks[k].key() == key;
        assert(keys[k] == key);
    }
    if marks.len() > 0 {
        let front = marks.drop_last();
        lemma_marks_that_were_read(front, i, key);
        let n = marks.len() - 1;
        if exists|k: int| 0 <= k < front.len() && #[trigger] front[k].key() == key {
            let k = choose|k: int| 0 <= k < front.len() && #[trigger] front[k].key() == key;
            assert(marks[k].key() == key);
        }
        if exists|k: int| 0 <= k < marks.len() && #[trigger] marks[k].key() == key {
            let k = choose|k: int| 0 <= k < marks.len() && #[trigger] marks[k].key() == key;
            if k < n {
                assert(front[k].key() == key);
            }
        }
        if marks.last().key() == key {
            assert(marks[n].key() == key);
        }
        if 0 <= i < front.len() && marks[i].key() == key && (forall|k: int|
            0 <= k < i ==> #[trigger] marks[k].key() != key) {
            assert(front[i] == marks[i]);
            assert forall|k: int| 0 <= k < i implies #[trigger] front[k].key() != key by {
                assert(marks[k].key() != key);
            }
        }
        if i == n && marks[i].key() == key && (forall|k: int|
            0 <= k < i ==> #[trigger] marks[k].key() != key) {
            assert forall|k: int| 0 <= k < front.len() implies #[trigger] front[k].key() != key by {
                assert(marks[k].key() != key);
            }
        }
    }
}

/// Marks stand in the order of their roots, and of their commands where the roots are the
/// same.
pub proof fn lemma_order_of_marks(
    root: Seq<Seq<char>>,
    command: Seq<char>,
    other: Seq<Seq<char>>,
    than: Seq<char>,
)
    ensures
        root != other ==> (keeplist::key_before((root, command), (other, than))
            <==> path::parts_before(root, other)),
        root == other ==> (keeplist::key_before((root, command), (other, than))
            <==> crate::text::before(command, than)),
{
    path::lemma_parts_before_irreflexive(root);
}

/// A moment is its seconds and its nanoseconds.
pub proof fn lemma_moment(t: Timestamp)
    ensures
        t.ns() == t.secs * 1_000_000_000 + t.nanos,
{
}

} // verus!
