//! What single calls answer.
use super::changes::close;
use super::kinds::{
    is_this_tool, lemma_found_by_id, lemma_verdict_has_its_reason, lies_in_the_system,
};
use super::panel::{
    lemma_dev_server_is_shown_as_it_is, lemma_figures_are_the_servers, lemma_ports_are_shown,
    shown_under, shows_ports, shows_usage, tells_of,
};
use super::prints::handed;
use super::stops::{have_one_in_common, lemma_stopping_everything, still_taken};
use super::tools::{lemma_output_is_read, processes_lines, Process};
use super::words::written;
use crate::commands;
use crate::commands::{Launch, LaunchStatus, StopFlow, StopMode, StopPhase, StopStart};
use crate::domain::classify;
use crate::domain::model::{Health, Kind, ProjectAttribution, SelfPids};
use crate::domain::project;
use crate::find;
use crate::ipc;
use crate::ipc::{
    HealthWire, OtherKind, Port, PortFamily, PortReachability, PressureWire, ResourceSamples,
    Snapshot, StopResult, WatchOnlyReason, WireSection,
};
use crate::keeplist::Keeplist;
use crate::numeral;
use crate::platform::macos;
use crate::platform::macos::{RawSockets, SignalTarget};
use crate::platform::{PortBinding, RawListener, Reachability};
use crate::probe;
use crate::scanner::fingerprint;
use crate::scanner::pressure;
use crate::scanner::pressure::Pressure;
use crate::scanner::server;
use crate::scanner::server::{distinct_ids, ScannedServer};
use crate::scanner::snapshot;
use crate::scanner::stop;
use crate::text;
use crate::time::Timestamp;
use std::collections::hash_map::DefaultHasher;
use vstd::prelude::*;
use vstd::std_specs::hash::DefaultHasherAdditionalSpecFns;

verus! {

/// A program that was started to open something has worked where it ended well, or still
/// runs when the time for it is over; it has not where it ended badly or nothing is known
/// of it; and before the time is over one that runs is waited for.
pub proof fn lemma_verdict_on_a_launch(status: LaunchStatus, past_deadline: bool, r: Option<bool>)
    requires
        call_ensures(commands::launch_verdict, (status, past_deadline), r),
    ensures
        r == Some(true) <==> status == LaunchStatus::Succeeded || (status == LaunchStatus::Running
            && past_deadline),
        r is None <==> status == LaunchStatus::Running && !past_deadline,
{
}

/// A title is asked for with a request for the first page of the port, that names it.
pub proof fn lemma_request_for_a_title(port: u16, r: String)
    requires
        call_ensures(probe::title_request, (port,), r),
    ensures
        r@ == "GET / HTTP/1.1\r\nHost: localhost:"@ + numeral::decimal(port as nat)
            + "\r\nConnection: close\r\n\r\n"@,
{
}

/// What is read of the output of the tool that lists listeners: each process with all of
/// its addresses.
pub proof fn lemma_listeners_that_are_read(raw: &str, v: Seq<Process>, r: Vec<RawSockets>, i: int)
    requires
        call_ensures(macos::parse_lsof_fields, (raw,), r),
        raw@ == written(processes_lines(v)),
        forall|k: int| 0 <= k < v.len() ==> (#[trigger] v[k]).addresses.len() > 0,
        forall|k: int|
            0 <= k < processes_lines(v).len() ==> !(#[trigger] processes_lines(v)[k]).contains('\n')
                && processes_lines(v)[k].last() != '\r',
        0 <= i < v.len(),
    ensures
        r@.len() == v.len(),
        r@[i].pid == v[i].pid,
        r@[i].command@ == v[i].command,
        r@[i].ports@ == super::tools::bindings(v[i].addresses),
{
    lemma_output_is_read(v);
    let views = macos::sockets_views(r@);
    assert(views.len() == r@.len());
    assert(views == macos::lsof_sockets(raw@));
    assert(views[i] == r@[i]@);
}

/// A process outside the system's directories, in no application and in a Project is a
/// development server of that Project, whatever its ports are.
pub proof fn lemma_dev_server_is_classified<F: Fn(&str) -> bool, O: Fn(&str) -> Option<String>>(
    raw: &RawListener,
    self_pids: SelfPids,
    owning_app: O,
    present: F,
    own: spec_fn(Seq<char>) -> Option<Seq<char>>,
    fs: spec_fn(Seq<char>) -> bool,
    r: (Kind, ProjectAttribution),
)
    requires
        call_ensures(classify::classify_listener::<F, O>, (raw, self_pids, owning_app, present), r),
        classify::names(owning_app, own),
        project::answers(present, fs),
        !is_this_tool(raw.pid, self_pids),
        !lies_in_the_system(raw.exe_path@),
    ensures
        own(raw.exe_path@) is None && raw.cwd is Some && project::project_of(
            raw.cwd->0@,
            fs,
        ) is Some ==> r.0 == Kind::DevServer && r.1 is Known,
        own(raw.exe_path@) is None && (raw.cwd is None || project::project_of(
            raw.cwd->0@,
            fs,
        ) is None) ==> r.0 == Kind::YourOwnTool && r.1 is NoProject,
        r.0 == Kind::BackgroundService <==> own(raw.exe_path@) is Some && exists|i: int|
            0 <= i < raw.ports@.len() && (#[trigger] raw.ports@[i]).reachability
                == Reachability::AllInterfaces,
        r.0 == Kind::PartOfApp <==> own(raw.exe_path@) is Some && forall|i: int|
            0 <= i < raw.ports@.len() ==> (#[trigger] raw.ports@[i]).reachability
                == Reachability::LocalhostOnly,
        r.1 is Guessed ==> r.0 == Kind::BackgroundService,
{
    lemma_verdict_has_its_reason(raw@, self_pids, owning_app, present, own, fs, (r.0, r.1@));
}

/// The fingerprint is the hash of all that is handed over of a listing.
pub proof fn lemma_fingerprint_of_a_listing(listeners: &Vec<RawListener>, r: u64)
    requires
        call_ensures(fingerprint::fingerprint, (listeners,), r),
    ensures
        r == DefaultHasher::spec_finish(
            handed(listeners@.map_values(|l: RawListener| l@)),
        ),
{
}

/// A snapshot has a row for each development server, under its Project, in which every
/// field is the Server's own.
pub proof fn lemma_row_of_a_server(
    servers: &Vec<ScannedServer>,
    kept: &Keeplist,
    now: Timestamp,
    r: Snapshot,
    i: int,
)
    requires
        call_ensures(snapshot::snapshot_from, (servers, kept, now), r),
        0 <= i < servers@.len(),
        servers@[i].kind == Kind::DevServer,
    ensures
        exists|g: int, k: int|
            0 <= g < r.projects@.len() && 0 <= k < r.projects@[g].servers@.len() && {
                let row = #[trigger] r.projects@[g].servers@[k];
                &&& row.id@ == servers@[i].id@
                &&& row.pid == servers@[i].pid
                &&& row.command@ == servers@[i].command@
                &&& row.title.deep_view() == servers@[i].title.deep_view()
                &&& row.unattended == servers@[i].unattended
                &&& shows_ports(row.ports@, servers@[i].ports@)
                &&& shows_usage(row.usage, servers@[i].usage, servers@[i].pressure)
                &&& row.health == HealthWire::Responding <==> servers@[i].health
                    == Health::Responding
                &&& row.health == HealthWire::NotResponding <==> servers@[i].health
                    == Health::NotResponding
            },
{
    let views = server::server_views(servers@);
    assert(views[i] == servers@[i]@);
    lemma_dev_server_is_shown_as_it_is(views, kept@, now, i);
    let groups = r@.projects;
    let (g, k) = choose|g: int, k: int|
        0 <= g < groups.len() && 0 <= k < groups[g].servers.len() && groups[g].project
            == shown_under(views[i]) && tells_of(
            #[trigger] groups[g].servers[k],
            views[i],
            kept@,
            now,
        );
    assert(groups[g] == r.projects@[g]@);
    assert(groups[g].servers[k] == r.projects@[g].servers@[k]@);
    let row = r.projects@[g].servers@[k];
    assert(row@.unattended == row.unattended);
}

/// The figures tell of every Server what was measured of it.
pub proof fn lemma_figures_of_the_servers(
    servers: &Vec<ScannedServer>,
    now: Timestamp,
    r: ResourceSamples,
    i: int,
)
    requires
        call_ensures(snapshot::resource_samples_from, (servers, now), r),
        0 <= i < servers@.len(),
    ensures
        r.samples@.len() == servers@.len(),
        r.samples@[i].id@ == servers@[i].id@,
        shows_usage(r.samples@[i].usage, servers@[i].usage, servers@[i].pressure),
        r.scanned_at@ == crate::time::iso8601(now),
{
    let views = server::server_views(servers@);
    assert(views[i] == servers@[i]@);
    lemma_figures_are_the_servers(views, i);
    let told = r.samples@.map_values(|e: ipc::ResourceSampleEntry| e@);
    assert(told[i] == r.samples@[i]@);
}

/// Whether a port is still held is asked of number and family, of every process.
pub proof fn lemma_port_is_still_held(
    listeners: &Vec<RawListener>,
    ports: &Vec<PortBinding>,
    r: bool,
)
    requires
        call_ensures(stop::still_held, (listeners, ports), r),
    ensures
        r <==> exists|i: int|
            0 <= i < listeners@.len() && have_one_in_common(
                (#[trigger] listeners@[i]).ports@,
                ports@,
            ),
{
    let views = crate::platform::listener_views(listeners@);
    super::stops::lemma_taken(views, ports@);
    if still_taken(views, ports@) {
        let i = choose|i: int|
            0 <= i < views.len() && have_one_in_common((#[trigger] views[i]).ports, ports@);
        assert(views[i] == listeners@[i]@);
    }
    if exists|i: int|
        0 <= i < listeners@.len() && have_one_in_common((#[trigger] listeners@[i]).ports@, ports@) {
        let i = choose|i: int|
            0 <= i < listeners@.len() && have_one_in_common(
                (#[trigger] listeners@[i]).ports@,
                ports@,
            );
        assert(views[i] == listeners@[i]@);
        assert(have_one_in_common(views[i].ports, ports@));
    }
}

/// What a Server that is only watched is refused with, and that no other is refused.
pub proof fn lemma_refusal_of_the_watched(kind: Kind, r: Option<&'static str>)
    requires
        call_ensures(stop::refuse_if_watch_only, (kind,), r),
    ensures
        r is Some <==> kind == Kind::PartOfMacOS || kind == Kind::YourOwnTool,
        r matches Some(s) ==> s@
            == "this Server is Watch Only and cannot be stopped through this tool"@,
{
}

/// Stopping everything is offered for the development servers, in order.
pub proof fn lemma_servers_to_stop_at_once(servers: &Vec<ScannedServer>, r: Vec<String>)
    requires
        call_ensures(stop::eligible_for_bulk_stop, (servers,), r),
    ensures
        text::views(r@) == servers@.map_values(|s: ScannedServer| s@).filter(
            |s: server::ScannedView| s.kind == Kind::DevServer,
        ).map_values(|s: server::ScannedView| s.id),
{
    assert(stop::is_dev() =~= (|s: server::ScannedView| s.kind == Kind::DevServer));
}

/// Stopping everything begins with a polite stop of each development server.
pub proof fn lemma_everything_is_stopped(servers: &Vec<ScannedServer>, r: Vec<StopFlow>)
    requires
        call_ensures(commands::stop_all_dev_servers, (servers,), r),
        distinct_ids(server::server_views(servers@)),
    ensures
        r@.len() == server::server_views(servers@).filter(
            |s: server::ScannedView| s.kind == Kind::DevServer,
        ).len(),
        forall|i: int|
            0 <= i < r@.len() ==> (#[trigger] r@[i]).mode == StopMode::Polite && r@[i].phase
                == StopPhase::Verify && r@[i].id@ == r@[i].target.id@,
{
    let views = server::server_views(servers@);
    lemma_stopping_everything(views);
    let flows = commands::flow_views(r@);
    assert(flows.len() == r@.len());
    assert forall|i: int| 0 <= i < r@.len() implies (#[trigger] r@[i]).mode == StopMode::Polite
        && r@[i].phase == StopPhase::Verify && r@[i].id@ == r@[i].target.id@ by {
        assert(flows[i] == r@[i]@);
    }
}

/// A stop of one Server is of the first that has the id.
pub proof fn lemma_one_server_is_stopped(
    servers: &Vec<ScannedServer>,
    id: &str,
    r: StopStart,
    i: int,
)
    requires
        call_ensures(commands::stop_server, (servers, id), r),
        0 <= i <= servers@.len(),
        forall|j: int| 0 <= j < i ==> (#[trigger] servers@[j]).id@ != id@,
        i < servers@.len() ==> servers@[i].id@ == id@,
    ensures
        i == servers@.len() ==> (r matches StopStart::Answer(o) && o.id@ == id@ && o.result
            == StopResult::Refused),
        i < servers@.len() && (servers@[i].kind == Kind::PartOfMacOS || servers@[i].kind
            == Kind::YourOwnTool) ==> (r matches StopStart::Answer(o) && o.id@ == id@ && o.result
            == StopResult::Refused),
        i < servers@.len() && servers@[i].kind != Kind::PartOfMacOS && servers@[i].kind
            != Kind::YourOwnTool ==> (r matches StopStart::Begin(f) && f.mode == StopMode::Polite
            && f.phase == StopPhase::Verify && f.id@ == id@ && f.target@ == servers@[i]@),
{
    let views = server::server_views(servers@);
    assert forall|j: int| 0 <= j < i implies (#[trigger] views[j]).id != id@ by {
        assert(servers@[j].id@ != id@);
    }
    lemma_found_by_id(views, i, id@);
    if i < servers@.len() {
        assert(views[i] == servers@[i]@);
    }
    match r {
        StopStart::Answer(o) => {
            assert(r@ == commands::StartView::Answer(o@));
        },
        StopStart::Begin(f) => {
            assert(r@ == commands::StartView::Begin(f@));
        },
    }
}

/// A Server is found by its id.
pub proof fn lemma_server_is_resolved(
    servers: &Vec<ScannedServer>,
    id: &str,
    r: Option<&ScannedServer>,
    i: int,
)
    requires
        call_ensures(server::resolve, (servers, id), r),
        0 <= i <= servers@.len(),
        forall|j: int| 0 <= j < i ==> (#[trigger] servers@[j]).id@ != id@,
        i < servers@.len() ==> servers@[i].id@ == id@,
    ensures
        i == servers@.len() ==> r is None,
        i < servers@.len() ==> (r matches Some(s) && s@ == servers@[i]@),
{
    let views = server::server_views(servers@);
    assert forall|j: int| 0 <= j < i implies (#[trigger] views[j]).id != id@ by {
        assert(servers@[j].id@ != id@);
    }
    lemma_found_by_id(views, i, id@);
}

/// Two processes with one number are the same where they began within two seconds.
pub proof fn lemma_same_beginning(a: Timestamp, b: Timestamp, r: bool)
    requires
        call_ensures(pressure::is_same_start, (a, b), r),
    ensures
        r <==> close(a, b),
{
}

/// What is under pressure is told of both, of one, or of none.
pub proof fn lemma_flags(cpu: bool, memory: bool, r: Pressure)
    requires
        call_ensures(Pressure::from_flags, (cpu, memory), r),
    ensures
        r == Pressure::Both <==> cpu && memory,
        r == Pressure::Cpu <==> cpu && !memory,
        r == Pressure::Memory <==> !cpu && memory,
        r == Pressure::Normal <==> !cpu && !memory,
{
}

/// A process number as the operating system takes it: its thirty-two bits, signed.
pub proof fn lemma_number_for_the_system(pid: u32, r: i32)
    requires
        call_ensures(macos::to_signed_pid, (pid,), r),
    ensures
        pid < 0x8000_0000 ==> r == pid,
        pid >= 0x8000_0000 ==> r == pid - 0x1_0000_0000,
{
}

/// Whom a signal would reach, and the words where it would reach nobody.
pub proof fn lemma_target_of_a_signal(pid: u32, pgid: i32, r: Result<SignalTarget, String>)
    requires
        call_ensures(macos::signal_target, (pid, pgid), r),
        pid < 0x8000_0000,
    ensures
        pgid <= 1 ==> (r matches Err(e) && e@ == "refusing to signal pid "@ + numeral::decimal(
            pid as nat,
        ) + ": invalid process group "@ + numeral::signed_decimal(pgid as int)),
        pgid > 1 && pgid == pid ==> r == Ok::<SignalTarget, String>(SignalTarget::Group(pgid)),
        pgid > 1 && pgid != pid ==> r == Ok::<SignalTarget, String>(
            SignalTarget::JustThisProcess(pid as i32),
        ),
{
}

/// The words on the wire: one for each thing that can be said, and no two the same.
pub proof fn lemma_words_of_ports(f: PortFamily, r: &'static str, p: PortReachability, s: &'static str)
    requires
        call_ensures(PortFamily::wire, (f,), r),
        call_ensures(PortReachability::wire, (p,), s),
    ensures
        f == PortFamily::V4 ==> r@ == "v4"@,
        f == PortFamily::V6 ==> r@ == "v6"@,
        p == PortReachability::Localhost ==> s@ == "localhost"@,
        p == PortReachability::AllInterfaces ==> s@ == "all_interfaces"@,
{
}

/// The words on the wire for health and pressure.
pub proof fn lemma_words_of_states(h: HealthWire, r: &'static str, p: PressureWire, s: &'static str)
    requires
        call_ensures(HealthWire::wire, (h,), r),
        call_ensures(PressureWire::wire, (p,), s),
    ensures
        h == HealthWire::Responding ==> r@ == "responding"@,
        h == HealthWire::NotResponding ==> r@ == "not_responding"@,
        h == HealthWire::Unknown ==> r@ == "unknown"@,
        p == PressureWire::Normal ==> s@ == "normal"@,
        p == PressureWire::Cpu ==> s@ == "cpu"@,
        p == PressureWire::Memory ==> s@ == "memory"@,
        p == PressureWire::Both ==> s@ == "both"@,
{
}

/// The words on the wire for why a Server is only watched, what else it is, and what came
/// of a stop.
pub proof fn lemma_words_of_rows(
    w: WatchOnlyReason,
    a: &'static str,
    o: OtherKind,
    b: &'static str,
    s: StopResult,
    c: &'static str,
)
    requires
        call_ensures(WatchOnlyReason::wire, (w,), a),
        call_ensures(OtherKind::wire, (o,), b),
        call_ensures(StopResult::wire, (s,), c),
    ensures
        w == WatchOnlyReason::YourOwnTool ==> a@ == "your_own_tool"@,
        w == WatchOnlyReason::PartOfMacos ==> a@ == "part_of_macos"@,
        o == OtherKind::PartOfApp ==> b@ == "part_of_app"@,
        o == OtherKind::BackgroundService ==> b@ == "background_service"@,
        s == StopResult::Stopped ==> c@ == "stopped"@,
        s == StopResult::StillRunning ==> c@ == "still_running"@,
        s == StopResult::Refused ==> c@ == "refused"@,
{
}

/// Which section each kind of Server is shown in.
pub proof fn lemma_sections(kind: Kind, r: WireSection)
    requires
        call_ensures(ipc::wire_section_for, (kind,), r),
    ensures
        kind == Kind::DevServer ==> r == WireSection::Project,
        kind == Kind::YourOwnTool ==> r == WireSection::WatchOnly(WatchOnlyReason::YourOwnTool),
        kind == Kind::PartOfMacOS ==> r == WireSection::WatchOnly(WatchOnlyReason::PartOfMacos),
        kind == Kind::PartOfApp ==> r == WireSection::Other(OtherKind::PartOfApp),
        kind == Kind::BackgroundService ==> r == WireSection::Other(OtherKind::BackgroundService),
{
}

/// Ports go on the wire one for one.
pub proof fn lemma_ports_on_the_wire(v: &Vec<PortBinding>, r: Vec<Port>)
    requires
        call_ensures(ipc::wire_ports, (v,), r),
    ensures
        shows_ports(r@, v@),
{
    lemma_ports_are_shown(v@);
}

/// Opening a Project runs nothing where there is no development server with that id.
pub proof fn lemma_nothing_is_opened(
    servers: &Vec<ScannedServer>,
    id: &str,
    how: &str,
    editor: Option<&str>,
    r: Vec<Launch>,
)
    requires
        call_ensures(commands::open_project, (servers, id, how, editor), r),
        forall|i: int|
            0 <= i < servers@.len() && (#[trigger] servers@[i]).id@ == id@ ==> servers@[i].kind
                != Kind::DevServer,
    ensures
        r@.len() == 0,
{
    let views = server::server_views(servers@);
    find::lemma_first_such(views, server::has_id(id@));
    match server::resolved(views, id@) {
        Some(s) => {
            let i = choose|i: int| 0 <= i < views.len() && views[i] == s;
            assert(servers@[i]@ == s);
            assert(servers@[i].id@ == id@);
        },
        None => {},
    }
    assert(commands::launch_views(r@).len() == r@.len());
}

/// Opening a Project hands its root to the programs that are tried.
pub proof fn lemma_project_is_opened(
    servers: &Vec<ScannedServer>,
    id: &str,
    how: &str,
    editor: Option<&str>,
    r: Vec<Launch>,
    i: int,
)
    requires
        call_ensures(commands::open_project, (servers, id, how, editor), r),
        0 <= i < servers@.len(),
        forall|j: int| 0 <= j < i ==> (#[trigger] servers@[j]).id@ != id@,
        servers@[i].id@ == id@,
        servers@[i].kind == Kind::DevServer,
        servers@[i].attribution is Known,
    ensures
        commands::launch_views(r@) == commands::launches(
            servers@[i].attribution->Known_0.root@,
            how@,
            commands::editor_named(
                (match editor {
                    Some(v) => Some(v@),
                    None => None,
                }),
            ),
        ),
{
    let views = server::server_views(servers@);
    assert(views[i] == servers@[i]@);
    assert forall|j: int| 0 <= j < i implies (#[trigger] views[j]).id != id@ by {
        assert(servers@[j].id@ != id@);
    }
    super::stops::lemma_folder_to_open(views, i, id@);
}

} // verus!
