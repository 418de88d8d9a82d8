//! What is shown of the classified Servers.
use crate::domain::model::{AttributionView, Health, Kind, ProjectAttribution};
use crate::ipc;
use crate::ipc::{
    GroupView, HealthWire, OtherKind, OtherRow, OtherServer, ProjectGroup, ResourceSampleEntry,
    ResourceSamples, ResourceUsageWire, ServerRow, ServerWire, Snapshot, SnapshotView,
    WatchOnlyReason, WatchOnlyRow, WatchOnlyServer, WireSection,
};
use crate::keeplist;
use crate::keeplist::{Keeplist, MarkKey};
use crate::scanner::server::{
    attributed, attribution_root, root_of, server_views, ScannedServer, ScannedView,
};
use crate::text;
use crate::time;
use crate::time::Timestamp;
use vstd::prelude::*;

verus! {

// ---------------------------------------------------------------------------------
// Rows.
// ---------------------------------------------------------------------------------

/// How a Server's health is shown.
pub open spec fn health_shown(h: Health) -> HealthWire {
    match h {
        Health::Responding => HealthWire::Responding,
        Health::NotResponding => HealthWire::NotResponding,
        Health::Unknown => HealthWire::Unknown,
    }
}

/// How a Server's health is shown.
pub fn health_wire(health: Health) -> (r: HealthWire)
    ensures
        r == health_shown(health),
{
    match health {
        Health::Responding => HealthWire::Responding,
        Health::NotResponding => HealthWire::NotResponding,
        Health::Unknown => HealthWire::Unknown,
    }
}

/// The Project that a Server is shown under. A development server always has one; the
/// words in brackets only make the question answerable for any Server.
pub open spec fn project_label(a: AttributionView) -> Seq<char> {
    match attributed(a) {
        Some((p, _)) => p.name,
        None => "(no project)"@,
    }
}

/// The Package that a Server is shown with.
pub open spec fn package_label(a: AttributionView) -> Option<Seq<char>> {
    match attributed(a) {
        Some((_, k)) => k,
        None => None,
    }
}

/// Whether a Server is marked to be kept running: by its Project's root and its command.
pub open spec fn kept(a: AttributionView, command: Seq<char>, marks: Set<MarkKey>) -> bool {
    match root_of(a) {
        Some(root) => marks.contains(keeplist::key_for(root, command)),
        None => false,
    }
}

/// The row of a development server.
pub open spec fn dev_row(s: ScannedView, marks: Set<MarkKey>, now: Timestamp) -> ServerRow {
    ServerRow {
        id: s.id,
        pid: s.pid,
        package: package_label(s.attribution),
        project_path: root_of(s.attribution),
        title: s.title,
        command: s.command,
        ports: ipc::ports_of(s.ports),
        uptime_seconds: time::seconds_between(s.start_time, now),
        health: health_shown(s.health),
        unattended: s.unattended,
        keep_running: kept(s.attribution, s.command, marks),
        usage: ipc::usage_of(s.usage, s.pressure),
    }
}

/// What a Server outside the Projects is called: the application it belongs to, or its
/// command.
pub open spec fn label_of(s: ScannedView) -> Seq<char> {
    match s.belongs_to {
        Some(app) => app,
        None => s.command,
    }
}

/// Why a Server of this Kind is never stopped, where it never is.
pub open spec fn reason_of(kind: Kind) -> WatchOnlyReason {
    match kind {
        Kind::PartOfMacOS => WatchOnlyReason::PartOfMacos,
        _ => WatchOnlyReason::YourOwnTool,
    }
}

/// The row of a Server that is never stopped.
pub open spec fn watch_only_row(s: ScannedView, now: Timestamp) -> WatchOnlyRow {
    WatchOnlyRow {
        id: s.id,
        label: label_of(s),
        reason: reason_of(s.kind),
        ports: ipc::ports_of(s.ports),
        uptime_seconds: time::seconds_between(s.start_time, now),
        usage: ipc::usage_of(s.usage, s.pressure),
    }
}

/// Which sort of other Server one of this Kind is, where it is one.
pub open spec fn other_kind_of(kind: Kind) -> OtherKind {
    match kind {
        Kind::BackgroundService => OtherKind::BackgroundService,
        _ => OtherKind::PartOfApp,
    }
}

/// The row of a part of an application or of a background service.
pub open spec fn other_row(s: ScannedView) -> OtherRow {
    OtherRow {
        id: s.id,
        label: label_of(s),
        kind: other_kind_of(s.kind),
        guessed_project: ipc::guessed_name(s.attribution),
        ports: ipc::ports_of(s.ports),
        usage: ipc::usage_of(s.usage, s.pressure),
    }
}

// ---------------------------------------------------------------------------------
// Sections.
// ---------------------------------------------------------------------------------

/// Groups in the order of their Projects' names, with one more row in the group of
/// `name`. Where there is no such group it is added.
pub open spec fn with_row(groups: Seq<GroupView>, name: Seq<char>, row: ServerRow) -> Seq<GroupView>
    decreases groups.len(),
{
    if groups.len() == 0 || text::before(name, groups[0].project) {
        seq![GroupView { project: name, servers: seq![row] }] + groups
    } else if groups[0].project == name {
        groups.update(0, GroupView { project: name, servers: groups[0].servers.push(row) })
    } else {
        seq![groups[0]] + with_row(groups.skip(1), name, row)
    }
}

/// The development servers among `servers`, grouped by Project.
pub open spec fn grouped(servers: Seq<ScannedView>, marks: Set<MarkKey>, now: Timestamp) -> Seq<GroupView>
    decreases servers.len(),
{
    if servers.len() == 0 {
        Seq::empty()
    } else {
        let before = grouped(servers.drop_last(), marks, now);
        let s = servers.last();
        if ipc::section_of(s.kind) is Project {
            with_row(before, project_label(s.attribution), dev_row(s, marks, now))
        } else {
            before
        }
    }
}

/// Whether a Server is shown among those that are never stopped.
pub open spec fn in_watch_only() -> spec_fn(ScannedView) -> bool {
    |s: ScannedView| ipc::section_of(s.kind) is WatchOnly
}

/// Whether a Server is shown among the others.
pub open spec fn in_others() -> spec_fn(ScannedView) -> bool {
    |s: ScannedView| ipc::section_of(s.kind) is Other
}

/// The rows of the Servers that are never stopped.
pub open spec fn watch_only_section(servers: Seq<ScannedView>, now: Timestamp) -> Seq<WatchOnlyRow> {
    servers.filter(in_watch_only()).map_values(|s: ScannedView| watch_only_row(s, now))
}

/// The rows of the other Servers.
pub open spec fn others_section(servers: Seq<ScannedView>) -> Seq<OtherRow> {
    servers.filter(in_others()).map_values(|s: ScannedView| other_row(s))
}

/// What is shown of `servers` at `now`.
pub open spec fn shown(servers: Seq<ScannedView>, marks: Set<MarkKey>, now: Timestamp) -> SnapshotView {
    SnapshotView {
        projects: grouped(servers, marks, now),
        watch_only: watch_only_section(servers, now),
        others: others_section(servers),
        scanned_at: time::iso8601(now),
        scan_failed: false,
    }
}

/// Where a row comes to stand among the groups.
proof fn lemma_with_row_at(groups: Seq<GroupView>, name: Seq<char>, row: ServerRow, at: int)
    requires
        0 <= at <= groups.len(),
        forall|i: int|
            0 <= i < at ==> (#[trigger] groups[i]).project != name && !text::before(
                name,
                groups[i].project,
            ),
        at < groups.len() ==> groups[at].project == name || text::before(name, groups[at].project),
    ensures
        at < groups.len() && groups[at].project == name ==> with_row(groups, name, row)
            == groups.update(
            at,
            GroupView { project: name, servers: groups[at].servers.push(row) },
        ),
        !(at < groups.len() && groups[at].project == name) ==> with_row(groups, name, row)
            == groups.insert(at, GroupView { project: name, servers: seq![row] }),
    decreases groups.len(),
{
    text::lemma_before_irreflexive(name);
    if at == 0 {
        if !(at < groups.len() && groups[at].project == name) {
            assert(groups.insert(0, GroupView { project: name, servers: seq![row] }) =~= seq![
                GroupView { project: name, servers: seq![row] },
            ] + groups);
        }
    } else {
        let rest = groups.skip(1);
        assert(groups[0].project != name);
        assert forall|i: int| 0 <= i < at - 1 implies (#[trigger] rest[i]).project != name
            && !text::before(name, rest[i].project) by {
            assert(rest[i] == groups[i + 1]);
        }
        lemma_with_row_at(rest, name, row, at - 1);
        if at < groups.len() && groups[at].project == name {
            let g = GroupView { project: name, servers: groups[at].servers.push(row) };
            assert(seq![groups[0]] + rest.update(at - 1, g) =~= groups.update(at, g));
        } else {
            let g = GroupView { project: name, servers: seq![row] };
            assert(seq![groups[0]] + rest.insert(at - 1, g) =~= groups.insert(at, g));
        }
    }
}

/// Add a row to the group of `name`.
fn add_row(groups: &mut Vec<ProjectGroup>, name: String, row: ServerWire)
    ensures
        ipc::groups(final(groups)@) == with_row(ipc::groups(old(groups)@), name@, row@),
{
    let ghost all = ipc::groups(groups@);
    let ghost rv = row@;
    let mut at: usize = 0;
    while at < groups.len() && !text::same(groups[at].project.as_str(), name.as_str())
        && !text::is_before(name.as_str(), groups[at].project.as_str())
        invariant
            0 <= at <= groups@.len(),
            groups@ == old(groups)@,
            all == ipc::groups(groups@),
            forall|i: int|
                0 <= i < at ==> (#[trigger] all[i]).project != name@ && !text::before(
                    name@,
                    all[i].project,
                ),
        decreases groups@.len() - at,
    {
        proof {
            assert(all[at as int] == groups@[at as int]@);
        }
        at = at + 1;
    }
    proof {
        if at < groups@.len() {
            assert(all[at as int] == groups@[at as int]@);
        }
        lemma_with_row_at(all, name@, rv, at as int);
    }
    if at < groups.len() && text::same(groups[at].project.as_str(), name.as_str()) {
        let ghost rows_before = ipc::rows(groups@[at as int].servers@);
        groups[at].servers.push(row);
        proof {
            assert(ipc::rows(groups@[at as int].servers@) =~= rows_before.push(rv));
            assert(ipc::groups(groups@) =~= all.update(
                at as int,
                GroupView { project: name@, servers: rows_before.push(rv) },
            ));
        }
    } else {
        let mut servers: Vec<ServerWire> = Vec::new();
        servers.push(row);
        proof {
            assert(ipc::rows(servers@) =~= seq![rv]);
        }
        let group = ProjectGroup { project: name, servers };
        let ghost gv = group@;
        groups.insert(at, group);
        proof {
            assert(ipc::groups(groups@) =~= all.insert(at as int, gv));
        }
    }
}

/// Whether a Server is marked to be kept running.
fn is_kept(server: &ScannedServer, keeplist: &Keeplist) -> (r: bool)
    ensures
        r == kept(server@.attribution, server@.command, keeplist@),
{
    match attribution_root(&server.attribution) {
        Some(root) => keeplist.is_marked(root.as_str(), server.command.as_str()),
        None => false,
    }
}

/// The Project and Package that a Server is shown under.
fn project_and_package(attribution: &ProjectAttribution) -> (r: (String, Option<String>))
    ensures
        r.0@ == project_label(attribution@),
        r.1.deep_view() == package_label(attribution@),
{
    match attribution {
        ProjectAttribution::Known(project, package) => (
            project.name.clone(),
            match package {
                Some(k) => Some(k.relative_path.clone()),
                None => None,
            },
        ),
        ProjectAttribution::Guessed(project, package) => (
            project.name.clone(),
            match package {
                Some(k) => Some(k.relative_path.clone()),
                None => None,
            },
        ),
        ProjectAttribution::NoProject => ("(no project)".to_owned(), None),
    }
}

/// What a Server outside the Projects is called.
fn label(server: &ScannedServer) -> (r: String)
    ensures
        r@ == label_of(server@),
{
    match &server.belongs_to {
        Some(app) => app.clone(),
        None => server.command.clone(),
    }
}

/// Build what is shown of `servers` at `now`.
pub fn snapshot_from(servers: &Vec<ScannedServer>, keeplist: &Keeplist, now: Timestamp) -> (r:
    Snapshot)
    ensures
        r@ == shown(server_views(servers@), keeplist@, now),
{
    let mut projects: Vec<ProjectGroup> = Vec::new();
    let mut watch_only: Vec<WatchOnlyServer> = Vec::new();
    let mut others: Vec<OtherServer> = Vec::new();
    let ghost all = server_views(servers@);
    let ghost marks = keeplist@;
    let mut i: usize = 0;
    proof {
        reveal(Seq::filter);
        assert(all.take(0) =~= Seq::<ScannedView>::empty());
        assert(ipc::groups(projects@) =~= Seq::<GroupView>::empty());
        assert(ipc::watch_only_rows(watch_only@) =~= watch_only_section(all.take(0), now));
        assert(ipc::other_rows(others@) =~= others_section(all.take(0)));
    }
    while i < servers.len()
        invariant
            0 <= i <= servers@.len(),
            all == server_views(servers@),
            marks == keeplist@,
            ipc::groups(projects@) == grouped(all.take(i as int), marks, now),
            ipc::watch_only_rows(watch_only@) == watch_only_section(all.take(i as int), now),
            ipc::other_rows(others@) == others_section(all.take(i as int)),
        decreases servers@.len() - i,
    {
        let server = &servers[i];
        let ghost sv = server@;
        let ghost watch_before = ipc::watch_only_rows(watch_only@);
        let ghost others_before = ipc::other_rows(others@);
        proof {
            assert(all.take(i + 1).drop_last() =~= all.take(i as int));
            assert(all.take(i + 1).last() == sv);
            lemma_sections_step(all.take(i + 1), now);
        }
        let ports = ipc::wire_ports(&server.ports);
        let uptime_seconds: u64 = now.whole_seconds_since(server.start_time);
        let usage = ResourceUsageWire::new(&server.usage, server.pressure);
        match ipc::wire_section_for(server.kind) {
            WireSection::Project => {
                let (name, package) = project_and_package(&server.attribution);
                let row = ServerWire {
                    id: server.id.clone(),
                    pid: server.pid,
                    package,
                    project_path: attribution_root(&server.attribution),
                    title: text::copy_option(&server.title),
                    command: server.command.clone(),
                    ports,
                    uptime_seconds,
                    health: health_wire(server.health),
                    unattended: server.unattended,
                    keep_running: is_kept(server, keeplist),
                    usage,
                };
                proof {
                    assert(row@ == dev_row(sv, marks, now));
                }
                add_row(&mut projects, name, row);
            },
            WireSection::WatchOnly(reason) => {
                let row = WatchOnlyServer {
                    id: server.id.clone(),
                    label: label(server),
                    reason,
                    ports,
                    uptime_seconds,
                    usage,
                };
                let ghost rv = row@;
                watch_only.push(row);
                proof {
                    assert(ipc::watch_only_rows(watch_only@) =~= watch_before.push(rv));
                    assert(rv == watch_only_row(sv, now));
                }
            },
            WireSection::Other(kind) => {
                let row = OtherServer {
                    id: server.id.clone(),
                    label: label(server),
                    kind,
                    guessed_project: ipc::guessed_project_name(&server.attribution),
                    ports,
                    usage,
                };
                let ghost rv = row@;
                others.push(row);
                proof {
                    assert(ipc::other_rows(others@) =~= others_before.push(rv));
                    assert(rv == other_row(sv));
                }
            },
        }
        i = i + 1;
    }
    proof {
        assert(all.take(i as int) =~= all);
    }
    let scanned_at = time::format_iso8601(now);
    Snapshot { projects, watch_only, others, scanned_at, scan_failed: false }
}

/// What one more Server adds to the two sections that are plain lists.
proof fn lemma_sections_step(servers: Seq<ScannedView>, now: Timestamp)
    requires
        servers.len() > 0,
    ensures
        watch_only_section(servers, now) == (if in_watch_only()(servers.last()) {
            watch_only_section(servers.drop_last(), now).push(watch_only_row(servers.last(), now))
        } else {
            watch_only_section(servers.drop_last(), now)
        }),
        others_section(servers) == (if in_others()(servers.last()) {
            others_section(servers.drop_last()).push(other_row(servers.last()))
        } else {
            others_section(servers.drop_last())
        }),
{
    reveal(Seq::filter);
    let w = servers.drop_last().filter(in_watch_only());
    let o = servers.drop_last().filter(in_others());
    let f = |s: ScannedView| watch_only_row(s, now);
    let g = |s: ScannedView| other_row(s);
    assert(w.push(servers.last()).map_values(f) =~= w.map_values(f).push(f(servers.last())));
    assert(o.push(servers.last()).map_values(g) =~= o.map_values(g).push(g(servers.last())));
}

// ---------------------------------------------------------------------------------
// Figures alone.
// ---------------------------------------------------------------------------------

/// The latest figures of every Server, in the Servers' order.
pub open spec fn figures(servers: Seq<ScannedView>) -> Seq<(Seq<char>, ResourceUsageWire)> {
    servers.map_values(|s: ScannedView| (s.id, ipc::usage_of(s.usage, s.pressure)))
}

/// Build the latest figures of every Server, in every section.
pub fn resource_samples_from(servers: &Vec<ScannedServer>, now: Timestamp) -> (r: ResourceSamples)
    ensures
        r.samples@.map_values(|e: ResourceSampleEntry| e@) == figures(server_views(servers@)),
        r.scanned_at@ == time::iso8601(now),
{
    let mut samples: Vec<ResourceSampleEntry> = Vec::new();
    let ghost all = figures(server_views(servers@));
    let ghost f = |e: ResourceSampleEntry| e@;
    let mut i: usize = 0;
    while i < servers.len()
        invariant
            0 <= i <= servers@.len(),
            all == figures(server_views(servers@)),
            f == (|e: ResourceSampleEntry| e@),
            samples@.map_values(f) == all.take(i as int),
        decreases servers@.len() - i,
    {
        let s = &servers[i];
        let ghost before = samples@.map_values(f);
        let entry = ResourceSampleEntry {
            id: s.id.clone(),
            usage: ResourceUsageWire::new(&s.usage, s.pressure),
        };
        let ghost ev = entry@;
        samples.push(entry);
        i = i + 1;
        proof {
            assert(samples@.map_values(f) =~= before.push(ev));
            assert(all[i - 1] == ev);
            assert(all.take(i as int) =~= all.take(i - 1).push(all[i - 1]));
        }
    }
    proof {
        assert(all.take(i as int) =~= all);
    }
    ResourceSamples { samples, scanned_at: time::format_iso8601(now) }
}

// ---------------------------------------------------------------------------------
// What every snapshot keeps.
// ---------------------------------------------------------------------------------

/// Whether each group's name stands before those of the groups after it, so that no
/// Project has two groups, and none is empty.
pub open spec fn in_order(groups: Seq<GroupView>) -> bool {
    &&& forall|i: int, j: int|
        0 <= i < j < groups.len() ==> text::before(
            (#[trigger] groups[i]).project,
            (#[trigger] groups[j]).project,
        )
    &&& forall|i: int| 0 <= i < groups.len() ==> (#[trigger] groups[i]).servers.len() > 0
}

/// The rows in the group of a Project: none where it has no group.
pub open spec fn rows_under(groups: Seq<GroupView>, name: Seq<char>) -> Seq<ServerRow>
    decreases groups.len(),
{
    if groups.len() == 0 {
        Seq::empty()
    } else if groups[0].project == name {
        groups[0].servers
    } else {
        rows_under(groups.skip(1), name)
    }
}

/// How many rows the groups hold.
pub open spec fn row_count(groups: Seq<GroupView>) -> nat
    decreases groups.len(),
{
    if groups.len() == 0 {
        0
    } else {
        groups[0].servers.len() + row_count(groups.skip(1))
    }
}

/// Whether a Server is a development server of the Project `name`.
pub open spec fn is_dev_of(name: Seq<char>) -> spec_fn(ScannedView) -> bool {
    |s: ScannedView| s.kind == Kind::DevServer && project_label(s.attribution) == name
}

/// The rows of the development servers of the Project `name`.
pub open spec fn rows_of(
    servers: Seq<ScannedView>,
    name: Seq<char>,
    marks: Set<MarkKey>,
    now: Timestamp,
) -> Seq<ServerRow> {
    servers.filter(is_dev_of(name)).map_values(|s: ScannedView| dev_row(s, marks, now))
}

/// One more row keeps the groups in order, goes to its own group, and leaves the others
/// alone.
proof fn lemma_with_row(groups: Seq<GroupView>, name: Seq<char>, row: ServerRow, other: Seq<char>)
    requires
        in_order(groups),
    ensures
        in_order(with_row(groups, name, row)),
        row_count(with_row(groups, name, row)) == row_count(groups) + 1,
        rows_under(with_row(groups, name, row), other) == (if other == name {
            rows_under(groups, name).push(row)
        } else {
            rows_under(groups, other)
        }),
        with_row(groups, name, row).len() > 0,
        with_row(groups, name, row)[0].project == name || (groups.len() > 0 && with_row(
            groups,
            name,
            row,
        )[0].project == groups[0].project && text::before(groups[0].project, name)),
    decreases groups.len(),
{
    let r = with_row(groups, name, row);
    text::lemma_before_irreflexive(name);
    if groups.len() == 0 || text::before(name, groups[0].project) {
        let g = GroupView { project: name, servers: seq![row] };
        assert(r =~= seq![g] + groups);
        assert(r.skip(1) =~= groups);
        assert forall|i: int, j: int| 0 <= i < j < r.len() implies text::before(
            (#[trigger] r[i]).project,
            (#[trigger] r[j]).project,
        ) by {
            assert(r[j] == groups[j - 1]);
            if i > 0 {
                assert(r[i] == groups[i - 1]);
            } else if j > 1 {
                text::lemma_before_transitive(name, groups[0].project, groups[j - 1].project);
            }
        }
        assert forall|i: int| 0 <= i < r.len() implies (#[trigger] r[i]).servers.len() > 0 by {
            if i > 0 {
                assert(r[i] == groups[i - 1]);
            }
        }
        lemma_absent(groups, name);
        assert(rows_under(groups, name) =~= Seq::<ServerRow>::empty());
        assert(seq![row] =~= rows_under(groups, name).push(row));
    } else if groups[0].project == name {
        let g = GroupView { project: name, servers: groups[0].servers.push(row) };
        assert(r.skip(1) =~= groups.skip(1));
        assert forall|i: int, j: int| 0 <= i < j < r.len() implies text::before(
            (#[trigger] r[i]).project,
            (#[trigger] r[j]).project,
        ) by {
            assert(text::before(groups[i].project, groups[j].project));
        }
        assert forall|i: int| 0 <= i < r.len() implies (#[trigger] r[i]).servers.len() > 0 by {
            if i > 0 {
                assert(r[i] == groups[i]);
            }
        }
    } else {
        let rest = groups.skip(1);
        assert(in_order(rest)) by {
            assert forall|i: int, j: int| 0 <= i < j < rest.len() implies text::before(
                (#[trigger] rest[i]).project,
                (#[trigger] rest[j]).project,
            ) by {
                assert(rest[i] == groups[i + 1] && rest[j] == groups[j + 1]);
            }
            assert forall|i: int| 0 <= i < rest.len() implies (
            #[trigger] rest[i]).servers.len() > 0 by {
                assert(rest[i] == groups[i + 1]);
            }
        }
        lemma_with_row(rest, name, row, other);
        let rr = with_row(rest, name, row);
        assert(r =~= seq![groups[0]] + rr);
        assert(r.skip(1) =~= rr);
        text::lemma_before_total(name, groups[0].project);
        assert(text::before(groups[0].project, name));
        assert forall|i: int, j: int| 0 <= i < j < r.len() implies text::before(
            (#[trigger] r[i]).project,
            (#[trigger] r[j]).project,
        ) by {
            assert(r[j] == rr[j - 1]);
            if i > 0 {
                assert(r[i] == rr[i - 1]);
            } else {
                assert(r[0] == groups[0]);
                if rr[0].project != name {
                    assert(rest[0] == groups[1]);
                }
                assert(text::before(groups[0].project, rr[0].project));
                if j > 1 {
                    assert(text::before(rr[0].project, rr[j - 1].project));
                    text::lemma_before_transitive(
                        groups[0].project,
                        rr[0].project,
                        rr[j - 1].project,
                    );
                }
            }
        }
        assert forall|i: int| 0 <= i < r.len() implies (#[trigger] r[i]).servers.len() > 0 by {
            if i > 0 {
                assert(r[i] == rr[i - 1]);
            }
        }
    }
}

/// A name that stands before that of the first group has no group.
proof fn lemma_absent(groups: Seq<GroupView>, name: Seq<char>)
    requires
        in_order(groups),
        groups.len() > 0 ==> text::before(name, groups[0].project),
    ensures
        rows_under(groups, name) == Seq::<ServerRow>::empty(),
    decreases groups.len(),
{
    if groups.len() > 0 {
        text::lemma_before_irreflexive(name);
        let rest = groups.skip(1);
        assert(in_order(rest)) by {
            assert forall|i: int, j: int| 0 <= i < j < rest.len() implies text::before(
                (#[trigger] rest[i]).project,
                (#[trigger] rest[j]).project,
            ) by {
                assert(rest[i] == groups[i + 1] && rest[j] == groups[j + 1]);
            }
            assert forall|i: int| 0 <= i < rest.len() implies (
            #[trigger] rest[i]).servers.len() > 0 by {
                assert(rest[i] == groups[i + 1]);
            }
        }
        if rest.len() > 0 {
            assert(rest[0] == groups[1]);
            text::lemma_before_transitive(name, groups[0].project, groups[1].project);
        }
        lemma_absent(rest, name);
    }
}

/// The Projects are listed in the order of their names, each once and none without a
/// Server, and under each stand the rows of exactly its development servers, in the
/// order they were found.
pub proof fn lemma_groups(
    servers: Seq<ScannedView>,
    marks: Set<MarkKey>,
    now: Timestamp,
    name: Seq<char>,
)
    ensures
        in_order(grouped(servers, marks, now)),
        rows_under(grouped(servers, marks, now), name) == rows_of(servers, name, marks, now),
    decreases servers.len(),
{
    reveal(Seq::filter);
    let f = |s: ScannedView| dev_row(s, marks, now);
    if servers.len() == 0 {
        assert(rows_of(servers, name, marks, now) =~= Seq::<ServerRow>::empty());
    } else {
        let front = servers.drop_last();
        let s = servers.last();
        lemma_groups(front, marks, now, name);
        let kept_rows = front.filter(is_dev_of(name));
        assert(kept_rows.push(s).map_values(f) =~= kept_rows.map_values(f).push(f(s)));
        if s.kind == Kind::DevServer {
            lemma_with_row(
                grouped(front, marks, now),
                project_label(s.attribution),
                dev_row(s, marks, now),
                name,
            );
        }
    }
}

/// Every Server is shown exactly once: in a Project, among those never stopped, or among
/// the others.
pub proof fn lemma_every_server_is_shown_once(
    servers: Seq<ScannedView>,
    marks: Set<MarkKey>,
    now: Timestamp,
)
    ensures
        row_count(grouped(servers, marks, now)) + watch_only_section(servers, now).len()
            + others_section(servers).len() == servers.len(),
    decreases servers.len(),
{
    reveal(Seq::filter);
    if servers.len() > 0 {
        let front = servers.drop_last();
        let s = servers.last();
        lemma_every_server_is_shown_once(front, marks, now);
        lemma_sections_step(servers, now);
        lemma_groups(front, marks, now, project_label(s.attribution));
        if s.kind == Kind::DevServer {
            lemma_with_row(
                grouped(front, marks, now),
                project_label(s.attribution),
                dev_row(s, marks, now),
                project_label(s.attribution),
            );
        }
    }
}

/// A Server that is never stopped is never among the development servers: there are as
/// many rows in the Projects as there are development servers.
pub proof fn lemma_projects_hold_dev_servers_only(
    servers: Seq<ScannedView>,
    marks: Set<MarkKey>,
    now: Timestamp,
)
    ensures
        row_count(grouped(servers, marks, now)) == servers.filter(
            |s: ScannedView| s.kind == Kind::DevServer,
        ).len(),
    decreases servers.len(),
{
    reveal(Seq::filter);
    if servers.len() > 0 {
        let front = servers.drop_last();
        let s = servers.last();
        lemma_projects_hold_dev_servers_only(front, marks, now);
        lemma_groups(front, marks, now, project_label(s.attribution));
        if s.kind == Kind::DevServer {
            lemma_with_row(
                grouped(front, marks, now),
                project_label(s.attribution),
                dev_row(s, marks, now),
                project_label(s.attribution),
            );
        }
    }
}

/// The figures alone cover every Server of every section, once and in order.
pub proof fn lemma_figures_cover_every_server(servers: Seq<ScannedView>)
    ensures
        figures(servers).len() == servers.len(),
        forall|i: int|
            0 <= i < servers.len() ==> (#[trigger] figures(servers)[i]).0 == servers[i].id,
{
}

} // verus!
