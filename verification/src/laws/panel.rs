//! What the panel shows of the Servers.
use crate::commands;
use crate::domain::model::{AttributionView, Health, Kind};
use crate::guarantees;
use crate::ipc;
use crate::ipc::{
    GroupView, HealthWire, OtherKind, Port, PortFamily, PortReachability, PressureWire,
    ResourceUsageWire, ServerRow, WatchOnlyReason,
};
use crate::keeplist;
use crate::keeplist::MarkKey;
use crate::numeral;
use crate::path;
use crate::platform::{AddressFamily, PortBinding, Reachability, ResourceSample};
use crate::scanner::pressure::Pressure;
use crate::scanner::server::ScannedView;
use crate::scanner::snapshot;
use crate::scanner::stop;
use crate::text;
use crate::time;
use crate::time::Timestamp;
use vstd::prelude::*;

verus! {

/// The name under which a development server is shown.
pub open spec fn shown_under(s: ScannedView) -> Seq<char> {
    match s.attribution {
        AttributionView::Known(p, _) => p.name,
        AttributionView::Guessed(p, _) => p.name,
        AttributionView::NoProject => "(no project)"@,
    }
}

/// Whether ports are shown as they are, one for one and in order.
pub open spec fn shows_ports(shown: Seq<Port>, ports: Seq<PortBinding>) -> bool {
    &&& shown.len() == ports.len()
    &&& forall|i: int|
        0 <= i < ports.len() ==> {
            &&& (#[trigger] shown[i]).number == ports[i].port
            &&& shown[i].family == PortFamily::V4 <==> ports[i].family == AddressFamily::V4
            &&& shown[i].family == PortFamily::V6 <==> ports[i].family == AddressFamily::V6
            &&& shown[i].reachability == PortReachability::Localhost <==> ports[i].reachability
                == Reachability::LocalhostOnly
            &&& shown[i].reachability == PortReachability::AllInterfaces <==> ports[i].reachability
                == Reachability::AllInterfaces
        }
}

/// Whether the resources that are shown are those that were measured and judged.
pub open spec fn shows_usage(shown: ResourceUsageWire, usage: ResourceSample, pressure: Pressure) -> bool {
    &&& shown.cpu_tenths_percent == usage.cpu_tenths_percent
    &&& shown.memory_bytes == usage.memory_bytes
    &&& shown.pressure == PressureWire::Normal <==> pressure == Pressure::Normal
    &&& shown.pressure == PressureWire::Cpu <==> pressure == Pressure::Cpu
    &&& shown.pressure == PressureWire::Memory <==> pressure == Pressure::Memory
    &&& shown.pressure == PressureWire::Both <==> pressure == Pressure::Both
}

/// Whether a row tells of a Server, in every field what is the Server's own.
pub open spec fn tells_of(
    row: ServerRow,
    s: ScannedView,
    marks: Set<MarkKey>,
    now: Timestamp,
) -> bool {
    &&& row.id == s.id
    &&& row.pid == s.pid
    &&& row.title == s.title
    &&& row.command == s.command
    &&& row.unattended == s.unattended
    &&& shows_ports(row.ports, s.ports)
    &&& shows_usage(row.usage, s.usage, s.pressure)
    &&& row.health == HealthWire::Responding <==> s.health == Health::Responding
    &&& row.health == HealthWire::NotResponding <==> s.health == Health::NotResponding
    &&& row.health == HealthWire::Unknown <==> s.health == Health::Unknown
    &&& s.start_time.ns() <= now.ns() && (now.ns() - s.start_time.ns()) / 1_000_000_000 <= u64::MAX
        ==> row.uptime_seconds == (now.ns() - s.start_time.ns()) / 1_000_000_000
    &&& s.start_time.ns() > now.ns() ==> row.uptime_seconds == 0
    &&& match s.attribution {
        AttributionView::Known(p, k) => row.package == k && row.project_path == Some(p.root)
            && row.keep_running == marks.contains((path::parts(p.root), s.command)),
        AttributionView::Guessed(p, k) => row.package == k && row.project_path == Some(p.root)
            && row.keep_running == marks.contains((path::parts(p.root), s.command)),
        AttributionView::NoProject => row.package is None && row.project_path is None
            && !row.keep_running,
    }
}

/// Ports are shown one for one.
pub proof fn lemma_ports_are_shown(ports: Seq<PortBinding>)
    ensures
        shows_ports(ipc::ports_of(ports), ports),
{
}

/// Resources are shown as they are.
pub proof fn lemma_usage_is_shown(usage: ResourceSample, pressure: Pressure)
    ensures
        shows_usage(ipc::usage_of(usage, pressure), usage, pressure),
{
}

/// The row of a Server tells of it.
proof fn lemma_row_tells_of_its_server(s: ScannedView, marks: Set<MarkKey>, now: Timestamp)
    ensures
        tells_of(snapshot::dev_row(s, marks, now), s, marks, now),
{
    lemma_ports_are_shown(s.ports);
    lemma_usage_is_shown(s.usage, s.pressure);
}

/// What is under a name stands in the group of that name.
proof fn lemma_rows_stand_in_a_group(groups: Seq<GroupView>, name: Seq<char>, k: int)
    requires
        0 <= k < snapshot::rows_under(groups, name).len(),
    ensures
        exists|g: int|
            0 <= g < groups.len() && (#[trigger] groups[g]).project == name && groups[g].servers
                == snapshot::rows_under(groups, name),
    decreases groups.len(),
{
    if groups.len() > 0 {
        if groups[0].project == name {
            assert(groups[0].servers == snapshot::rows_under(groups, name));
        } else {
            let rest = groups.skip(1);
            lemma_rows_stand_in_a_group(rest, name, k);
            let g = choose|g: int|
                0 <= g < rest.len() && (#[trigger] rest[g]).project == name && rest[g].servers
                    == snapshot::rows_under(rest, name);
            assert(groups[g + 1] == rest[g]);
        }
    }
}

/// Every development server is shown: under the name of its Project there is a row that
/// has its id, and every field of it is the Server's own, whether it is looked after among
/// them.
pub proof fn lemma_dev_server_is_shown_as_it_is(
    servers: Seq<ScannedView>,
    marks: Set<MarkKey>,
    now: Timestamp,
    i: int,
)
    requires
        0 <= i < servers.len(),
        servers[i].kind == Kind::DevServer,
    ensures
        ({
            let groups = snapshot::shown(servers, marks, now).projects;
            exists|g: int, k: int|
                0 <= g < groups.len() && 0 <= k < groups[g].servers.len() && groups[g].project
                    == shown_under(servers[i]) && tells_of(
                    #[trigger] groups[g].servers[k],
                    servers[i],
                    marks,
                    now,
                )
        }),
{
    let groups = snapshot::shown(servers, marks, now).projects;
    let name = shown_under(servers[i]);
    snapshot::lemma_groups(servers, marks, now, name);
    let f = snapshot::is_dev_of(name);
    let kept = servers.filter(f);
    lemma_filter_keeps(servers, f, i);
    let k = choose|k: int| 0 <= k < kept.len() && kept[k] == servers[i];
    let rows = snapshot::rows_under(groups, name);
    assert(rows[k] == snapshot::dev_row(servers[i], marks, now));
    lemma_row_tells_of_its_server(servers[i], marks, now);
    lemma_rows_stand_in_a_group(groups, name, k);
    let g = choose|g: int|
        0 <= g < groups.len() && (#[trigger] groups[g]).project == name && groups[g].servers == rows;
    assert(tells_of(groups[g].servers[k], servers[i], marks, now));
}

/// A filter keeps what it is to keep.
proof fn lemma_filter_keeps<T>(s: Seq<T>, f: spec_fn(T) -> bool, i: int)
    requires
        0 <= i < s.len(),
        f(s[i]),
    ensures
        exists|k: int| 0 <= k < s.filter(f).len() && s.filter(f)[k] == s[i],
    decreases s.len(),
{
    reveal(Seq::filter);
    let front = s.drop_last();
    if i < front.len() {
        assert(front[i] == s[i]);
        lemma_filter_keeps(front, f, i);
        let k = choose|k: int| 0 <= k < front.filter(f).len() && front.filter(f)[k] == front[i];
        assert(s.filter(f)[k] == s[i]);
    } else {
        assert(s.filter(f)[front.filter(f).len() as int] == s[i]);
    }
}

/// What a filter keeps comes from the sequence and is what it is to keep.
proof fn lemma_filter_kept<T>(s: Seq<T>, f: spec_fn(T) -> bool, k: int)
    requires
        0 <= k < s.filter(f).len(),
    ensures
        f(s.filter(f)[k]),
        exists|i: int| 0 <= i < s.len() && s[i] == s.filter(f)[k],
    decreases s.len(),
{
    reveal(Seq::filter);
    if s.len() > 0 {
        let front = s.drop_last();
        if k < front.filter(f).len() {
            lemma_filter_kept(front, f, k);
            let i = choose|i: int| 0 <= i < front.len() && front[i] == front.filter(f)[k];
            assert(s[i] == s.filter(f)[k]);
        } else {
            assert(s[s.len() - 1] == s.filter(f)[k]);
        }
    }
}

/// Every row under a Project tells of a development server of that Project: nothing else
/// is shown there.
pub proof fn lemma_only_dev_servers_are_shown_under_projects(
    servers: Seq<ScannedView>,
    marks: Set<MarkKey>,
    now: Timestamp,
    g: int,
    k: int,
)
    requires
        0 <= g < snapshot::shown(servers, marks, now).projects.len(),
        0 <= k < snapshot::shown(servers, marks, now).projects[g].servers.len(),
    ensures
        ({
            let group = snapshot::shown(servers, marks, now).projects[g];
            exists|i: int|
                0 <= i < servers.len() && (#[trigger] servers[i]).kind == Kind::DevServer
                    && shown_under(servers[i]) == group.project && tells_of(
                    group.servers[k],
                    servers[i],
                    marks,
                    now,
                )
        }),
{
    let groups = snapshot::shown(servers, marks, now).projects;
    let name = groups[g].project;
    snapshot::lemma_groups(servers, marks, now, name);
    lemma_group_is_what_is_under_its_name(groups, g);
    let f = snapshot::is_dev_of(name);
    lemma_filter_kept(servers, f, k);
    let s = servers.filter(f)[k];
    let i = choose|i: int| 0 <= i < servers.len() && servers[i] == s;
    assert(servers[i] == s);
    assert(groups[g].servers[k] == snapshot::dev_row(s, marks, now));
    lemma_row_tells_of_its_server(s, marks, now);
}

/// In groups of different names, each is what is under its name.
proof fn lemma_group_is_what_is_under_its_name(groups: Seq<GroupView>, g: int)
    requires
        snapshot::in_order(groups),
        0 <= g < groups.len(),
    ensures
        snapshot::rows_under(groups, groups[g].project) == groups[g].servers,
    decreases groups.len(),
{
    if g > 0 {
        assert(text::before(groups[0].project, groups[g].project));
        text::lemma_before_irreflexive(groups[g].project);
        let rest = groups.skip(1);
        assert(snapshot::in_order(rest)) by {
            assert forall|i: int, j: int| 0 <= i < j < rest.len() implies text::before(
                (#[trigger] rest[i]).project,
                (#[trigger] rest[j]).project,
            ) by {
                assert(rest[i] == groups[i + 1] && rest[j] == groups[j + 1]);
            }
            assert forall|i: int| 0 <= i < rest.len() implies (#[trigger] rest[i]).servers.len()
                > 0 by {
                assert(rest[i] == groups[i + 1]);
            }
        }
        assert(rest[g - 1] == groups[g]);
        lemma_group_is_what_is_under_its_name(rest, g - 1);
    }
}

/// Projects are shown in the order of their names, each once.
pub proof fn lemma_projects_are_in_order(
    servers: Seq<ScannedView>,
    marks: Set<MarkKey>,
    now: Timestamp,
    g: int,
    h: int,
)
    requires
        0 <= g < h < snapshot::shown(servers, marks, now).projects.len(),
    ensures
        text::before(
            snapshot::shown(servers, marks, now).projects[g].project,
            snapshot::shown(servers, marks, now).projects[h].project,
        ),
{
    snapshot::lemma_groups(servers, marks, now, Seq::empty());
}

/// The Servers that are only watched, with the reason why: every one of them, in order,
/// and nothing else.
pub proof fn lemma_watched_servers_are_shown(
    servers: Seq<ScannedView>,
    marks: Set<MarkKey>,
    now: Timestamp,
    k: int,
)
    ensures
        ({
            let rows = snapshot::shown(servers, marks, now).watch_only;
            let watched = servers.filter(
                |s: ScannedView| s.kind == Kind::PartOfMacOS || s.kind == Kind::YourOwnTool,
            );
            &&& rows.len() == watched.len()
            &&& 0 <= k < rows.len() ==> {
                &&& rows[k].id == watched[k].id
                &&& rows[k].label == match watched[k].belongs_to {
                    Some(app) => app,
                    None => watched[k].command,
                }
                &&& rows[k].reason == WatchOnlyReason::PartOfMacos <==> watched[k].kind
                    == Kind::PartOfMacOS
                &&& rows[k].reason == WatchOnlyReason::YourOwnTool <==> watched[k].kind
                    == Kind::YourOwnTool
                &&& shows_ports(rows[k].ports, watched[k].ports)
                &&& shows_usage(rows[k].usage, watched[k].usage, watched[k].pressure)
                &&& rows[k].uptime_seconds == time::seconds_between(watched[k].start_time, now)
            }
        }),
{
    let f = |s: ScannedView| s.kind == Kind::PartOfMacOS || s.kind == Kind::YourOwnTool;
    assert(snapshot::in_watch_only() =~= f);
    let watched = servers.filter(f);
    if 0 <= k < watched.len() {
        lemma_filter_kept(servers, f, k);
        lemma_ports_are_shown(watched[k].ports);
    }
}

/// The Servers of applications: every one of them, in order, and nothing else, with the
/// Project that is guessed of it where there is a guess.
pub proof fn lemma_other_servers_are_shown(
    servers: Seq<ScannedView>,
    marks: Set<MarkKey>,
    now: Timestamp,
    k: int,
)
    ensures
        ({
            let rows = snapshot::shown(servers, marks, now).others;
            let others = servers.filter(
                |s: ScannedView| s.kind == Kind::PartOfApp || s.kind == Kind::BackgroundService,
            );
            &&& rows.len() == others.len()
            &&& 0 <= k < rows.len() ==> {
                &&& rows[k].id == others[k].id
                &&& rows[k].label == match others[k].belongs_to {
                    Some(app) => app,
                    None => others[k].command,
                }
                &&& rows[k].kind == OtherKind::PartOfApp <==> others[k].kind == Kind::PartOfApp
                &&& rows[k].kind == OtherKind::BackgroundService <==> others[k].kind
                    == Kind::BackgroundService
                &&& rows[k].guessed_project == match others[k].attribution {
                    AttributionView::Guessed(p, _) => Some(p.name),
                    _ => None,
                }
                &&& shows_ports(rows[k].ports, others[k].ports)
                &&& shows_usage(rows[k].usage, others[k].usage, others[k].pressure)
            }
        }),
{
    let f = |s: ScannedView| s.kind == Kind::PartOfApp || s.kind == Kind::BackgroundService;
    assert(snapshot::in_others() =~= f);
    let others = servers.filter(f);
    if 0 <= k < others.len() {
        lemma_filter_kept(servers, f, k);
        lemma_ports_are_shown(others[k].ports);
    }
}

/// The figures tell of every Server, in order, what is measured of it.
pub proof fn lemma_figures_are_the_servers(servers: Seq<ScannedView>, i: int)
    requires
        0 <= i < servers.len(),
    ensures
        snapshot::figures(servers).len() == servers.len(),
        snapshot::figures(servers)[i].0 == servers[i].id,
        shows_usage(snapshot::figures(servers)[i].1, servers[i].usage, servers[i].pressure),
{
}

/// A snapshot says when it was taken, and does not say that a scan has failed.
pub proof fn lemma_snapshot_is_dated(servers: Seq<ScannedView>, marks: Set<MarkKey>, now: Timestamp)
    ensures
        snapshot::shown(servers, marks, now).scanned_at == time::iso8601(now),
        !snapshot::shown(servers, marks, now).scan_failed,
{
}

/// The menu bar tells how many development servers there are, with an exclamation mark
/// where one of them does not answer.
pub proof fn lemma_menu_bar(servers: Seq<ScannedView>, marks: Set<MarkKey>, now: Timestamp)
    ensures
        ({
            let groups = snapshot::shown(servers, marks, now).projects;
            let count = numeral::decimal(
                servers.filter(|s: ScannedView| s.kind == Kind::DevServer).len(),
            );
            &&& (forall|i: int|
                0 <= i < servers.len() && (#[trigger] servers[i]).kind == Kind::DevServer
                    ==> servers[i].health != Health::NotResponding) ==> commands::tray_text(groups)
                == count
            &&& (exists|i: int|
                0 <= i < servers.len() && (#[trigger] servers[i]).kind == Kind::DevServer
                    && servers[i].health == Health::NotResponding) ==> commands::tray_text(groups)
                == count + "!"@
        }),
{
    reveal_strlit("!");
    guarantees::lemma_tray_counts_dev_servers(servers, marks, now);
    assert(stop::is_dev() =~= (|s: ScannedView| s.kind == Kind::DevServer));
    let f = guarantees::is_silent_dev();
    let count = numeral::decimal(servers.filter(stop::is_dev()).len());
    assert(count.push('!') =~= count + "!"@);
    if servers.filter(f).len() > 0 {
        lemma_filter_kept(servers, f, 0);
        let i = choose|i: int| 0 <= i < servers.len() && servers[i] == servers.filter(f)[0];
        assert(servers[i].kind == Kind::DevServer);
    }
    if exists|i: int|
        0 <= i < servers.len() && (#[trigger] servers[i]).kind == Kind::DevServer
            && servers[i].health == Health::NotResponding {
        let i = choose|i: int|
            0 <= i < servers.len() && (#[trigger] servers[i]).kind == Kind::DevServer
                && servers[i].health == Health::NotResponding;
        lemma_filter_keeps(servers, f, i);
    }
}

/// A mark is told by the components of the Project's root and by the command, so that it
/// is the same mark however the root is spelled, and another one for another command.
pub proof fn lemma_what_a_mark_is(root: Seq<char>, other: Seq<char>, command: Seq<char>, than: Seq<char>)
    ensures
        keeplist::key_for(root, command) == keeplist::key_for(other, than) <==> path::parts(root)
            == path::parts(other) && command == than,
{
}

/// To keep adds the mark and nothing else; not to keep takes it away and nothing else.
pub proof fn lemma_keeping(marks: Set<MarkKey>, key: MarkKey, other: MarkKey)
    ensures
        keeplist::after_set(marks, key, true).contains(other) <==> other == key || marks.contains(
            other,
        ),
        keeplist::after_set(marks, key, false).contains(other) <==> other != key
            && marks.contains(other),
{
}

} // verus!
