//! What a Server is taken for, and what is said of it.
use super::words::{lemma_prefix_occurs, occurs};
use crate::domain::classify;
use crate::domain::model::{AttributionView, Health, Kind, ProjectView, SelfPids};
use crate::domain::project;
use crate::numeral;
use crate::platform::{PortBinding, RawListenerView, Reachability};
use crate::scanner::server;
use crate::scanner::server::ScannedView;
use vstd::prelude::*;

verus! {

/// Whether a program lies in one of the directories that belong to the operating system.
pub open spec fn lies_in_the_system(exe: Seq<char>) -> bool {
    occurs(exe, "/System"@, 0) || occurs(exe, "/usr/libexec"@, 0) || occurs(exe, "/usr/sbin"@, 0)
        || occurs(exe, "/sbin"@, 0)
}

/// Whether a process is this one, or the one that it runs under while it is developed.
pub open spec fn is_this_tool(pid: u32, self_pids: SelfPids) -> bool {
    self_pids.own == pid || self_pids.dev_parent == Some(pid)
}

/// The directories of the operating system are these four.
proof fn lemma_system_path(exe: Seq<char>)
    ensures
        classify::system_path(exe) <==> lies_in_the_system(exe),
{
    lemma_prefix_occurs(exe, "/System"@);
    lemma_prefix_occurs(exe, "/usr/libexec"@);
    lemma_prefix_occurs(exe, "/usr/sbin"@);
    lemma_prefix_occurs(exe, "/sbin"@);
}

/// A program outside the system's directories and in no application, whose working
/// directory belongs to a Project, is a development server of that Project, on whatever
/// addresses it listens.
pub proof fn lemma_project_makes_a_dev_server(
    raw: RawListenerView,
    self_pids: SelfPids,
    project: ProjectView,
    package: Option<Seq<char>>,
    ports: Seq<PortBinding>,
)
    requires
        !is_this_tool(raw.pid, self_pids),
        !lies_in_the_system(raw.exe_path),
    ensures
        classify::rated(raw, self_pids, false, Some((project, package))) == (
            Kind::DevServer,
            AttributionView::Known(project, package),
        ),
        classify::rated((RawListenerView { ports, ..raw }), self_pids, false, Some((project, package)))
            == (Kind::DevServer, AttributionView::Known(project, package)),
{
    lemma_system_path(raw.exe_path);
}

/// A program outside the system's directories, in no application and in no Project is
/// somebody's own tool.
pub proof fn lemma_nothing_known_makes_a_tool(raw: RawListenerView, self_pids: SelfPids)
    requires
        !lies_in_the_system(raw.exe_path),
    ensures
        classify::rated(raw, self_pids, false, None) == (
            Kind::YourOwnTool,
            AttributionView::NoProject,
        ),
{
    lemma_system_path(raw.exe_path);
}

/// A program in an application is a background service where one of its addresses can be
/// reached from other machines, and otherwise part of that application; and what Project
/// it stands in is only a guess in the first case.
pub proof fn lemma_bundle_makes_an_app(
    raw: RawListenerView,
    self_pids: SelfPids,
    found: Option<(ProjectView, Option<Seq<char>>)>,
)
    requires
        !is_this_tool(raw.pid, self_pids),
        !lies_in_the_system(raw.exe_path),
    ensures
        (exists|i: int|
            0 <= i < raw.ports.len() && (#[trigger] raw.ports[i]).reachability
                == Reachability::AllInterfaces) ==> classify::rated(raw, self_pids, true, found) == (
            Kind::BackgroundService,
            match found {
                Some((p, k)) => AttributionView::Guessed(p, k),
                None => AttributionView::NoProject,
            },
        ),
        (forall|i: int|
            0 <= i < raw.ports.len() ==> (#[trigger] raw.ports[i]).reachability
                == Reachability::LocalhostOnly) ==> classify::rated(raw, self_pids, true, found) == (
            Kind::PartOfApp,
            match found {
                Some((p, k)) => AttributionView::Known(p, k),
                None => AttributionView::NoProject,
            },
        ),
{
    lemma_system_path(raw.exe_path);
}

/// A program of the operating system is part of it, whatever else is known of it, unless
/// it is this tool.
pub proof fn lemma_system_comes_first(
    raw: RawListenerView,
    self_pids: SelfPids,
    in_bundle: bool,
    found: Option<(ProjectView, Option<Seq<char>>)>,
)
    requires
        lies_in_the_system(raw.exe_path),
        !is_this_tool(raw.pid, self_pids),
    ensures
        classify::rated(raw, self_pids, in_bundle, found) == (
            Kind::PartOfMacOS,
            match found {
                Some((p, k)) => AttributionView::Known(p, k),
                None => AttributionView::NoProject,
            },
        ),
{
    lemma_system_path(raw.exe_path);
}

/// This tool never offers itself to be stopped, wherever it lies and whatever it is
/// started from.
pub proof fn lemma_this_tool_is_a_tool(
    raw: RawListenerView,
    self_pids: SelfPids,
    in_bundle: bool,
    found: Option<(ProjectView, Option<Seq<char>>)>,
)
    requires
        is_this_tool(raw.pid, self_pids),
    ensures
        classify::rated(raw, self_pids, in_bundle, found) == (
            Kind::YourOwnTool,
            AttributionView::NoProject,
        ),
{
}

/// What the verdict on a program rests on: a development server is in no application and
/// in a Project; a background service is in an application and can be reached from other
/// machines; a part of an application is in one and cannot; a tool is in neither.
pub proof fn lemma_verdict_has_its_reason<F: Fn(&str) -> bool, O: Fn(&str) -> Option<String>>(
    raw: RawListenerView,
    self_pids: SelfPids,
    owning_app: O,
    present: F,
    own: spec_fn(Seq<char>) -> Option<Seq<char>>,
    fs: spec_fn(Seq<char>) -> bool,
    result: (Kind, AttributionView),
)
    requires
        classify::names(owning_app, own),
        project::answers(present, fs),
        classify::classified_by(raw, self_pids, owning_app, present, result),
        !is_this_tool(raw.pid, self_pids),
    ensures
        result.0 == Kind::PartOfMacOS <==> lies_in_the_system(raw.exe_path),
        result.0 == Kind::DevServer <==> !lies_in_the_system(raw.exe_path) && own(raw.exe_path) is None
            && raw.cwd is Some && project::project_of(raw.cwd->0, fs) is Some,
        result.0 == Kind::YourOwnTool <==> !lies_in_the_system(raw.exe_path) && own(
            raw.exe_path,
        ) is None && (raw.cwd is Some ==> project::project_of(raw.cwd->0, fs) is None),
        result.0 == Kind::BackgroundService <==> !lies_in_the_system(raw.exe_path) && own(
            raw.exe_path,
        ) is Some && exists|i: int|
            0 <= i < raw.ports.len() && (#[trigger] raw.ports[i]).reachability
                == Reachability::AllInterfaces,
        result.0 == Kind::PartOfApp <==> !lies_in_the_system(raw.exe_path) && own(raw.exe_path) is Some
            && forall|i: int|
            0 <= i < raw.ports.len() ==> (#[trigger] raw.ports[i]).reachability
                == Reachability::LocalhostOnly,
        match result.1 {
            AttributionView::Known(p, k) => result.0 != Kind::BackgroundService && raw.cwd is Some
                && project::project_of(raw.cwd->0, fs) == Some((p, k)),
            AttributionView::Guessed(p, k) => result.0 == Kind::BackgroundService && raw.cwd is Some
                && project::project_of(raw.cwd->0, fs) == Some((p, k)),
            AttributionView::NoProject => raw.cwd is Some ==> project::project_of(
                raw.cwd->0,
                fs,
            ) is None,
        },
{
    classify::lemma_steady_answers(raw, self_pids, owning_app, present, own, fs, result);
    lemma_system_path(raw.exe_path);
}

/// Of this tool nothing is asked, neither its application nor its Project.
pub proof fn lemma_this_tool_is_not_looked_at<F: Fn(&str) -> bool, O: Fn(&str) -> Option<String>>(
    raw: RawListenerView,
    self_pids: SelfPids,
    owning_app: O,
    present: F,
    result: (Kind, AttributionView),
)
    requires
        is_this_tool(raw.pid, self_pids),
        classify::classified_by(raw, self_pids, owning_app, present, result),
    ensures
        result == (Kind::YourOwnTool, AttributionView::NoProject),
{
}

/// The processes that are this tool: itself, and its parent while it is developed, unless
/// that is the process that adopts every orphan.
pub proof fn lemma_own_processes(own: u32, ppid: u32, development: bool, pid: u32)
    ensures
        server::own_pids(own, ppid, development).guards(pid) <==> pid == own || (development && ppid
            > 1 && pid == ppid),
{
}

/// A process is named by its number and the first port that it holds, and not without one.
pub proof fn lemma_name_of_a_server(pid: u32, first: PortBinding, more: Seq<PortBinding>)
    ensures
        server::id_of(pid, seq![first] + more) == Some(
            numeral::decimal(pid as nat) + ":"@ + numeral::decimal(first.port as nat),
        ),
        server::id_of(pid, Seq::empty()) is None,
{
    reveal_strlit(":");
    assert((seq![first] + more)[0] == first);
    assert(numeral::decimal(pid as nat).push(':') + numeral::decimal(first.port as nat)
        =~= numeral::decimal(pid as nat) + ":"@ + numeral::decimal(first.port as nat));
}

/// A Server is found by its id: the first that has it, and nothing where none has.
pub proof fn lemma_found_by_id(servers: Seq<ScannedView>, i: int, id: Seq<char>)
    requires
        0 <= i <= servers.len(),
        forall|j: int| 0 <= j < i ==> (#[trigger] servers[j]).id != id,
    ensures
        i < servers.len() && servers[i].id == id ==> server::resolved(servers, id) == Some(servers[i]),
        i == servers.len() ==> server::resolved(servers, id) is None,
    decreases i,
{
    if i > 0 {
        let rest = servers.skip(1);
        assert forall|j: int| 0 <= j < i - 1 implies (#[trigger] rest[j]).id != id by {
            assert(servers[j + 1].id != id);
        }
        assert(servers[0].id != id);
        lemma_found_by_id(rest, i - 1, id);
    }
}

/// A Server is healthy where it answered, not where it did not, and unknown where it was
/// not asked.
pub proof fn lemma_health_is_the_answer(answer: Option<bool>)
    ensures
        server::health_of(answer) == Health::Responding <==> answer == Some(true),
        server::health_of(answer) == Health::NotResponding <==> answer == Some(false),
        server::health_of(answer) == Health::Unknown <==> answer is None,
{
}

/// The root of a Project is known of a Server that is attributed to one, surely or by a
/// guess.
pub proof fn lemma_root_is_the_projects(p: ProjectView, k: Option<Seq<char>>)
    ensures
        server::root_of(AttributionView::Known(p, k)) == Some(p.root),
        server::root_of(AttributionView::Guessed(p, k)) == Some(p.root),
        server::root_of(AttributionView::NoProject) is None,
{
}

/// What stopping a Server is said to do: a development server is named by its Project, a
/// guess is called one, and everything else by its application where it has one.
pub proof fn lemma_words_for_stopping(
    p: ProjectView,
    k: Option<Seq<char>>,
    app: Option<Seq<char>>,
    a: AttributionView,
    kind: Kind,
)
    ensures
        server::stop_text(Kind::DevServer, AttributionView::Known(p, k), app)
            == "This stops the \""@ + p.name + "\" development server."@,
        server::stop_text(Kind::BackgroundService, AttributionView::Guessed(p, k), app)
            == "This may affect \""@ + p.name
            + "\" and anything else this background service holds up — the project link is uncertain."@,
        kind == Kind::PartOfApp || kind == Kind::PartOfMacOS || kind == Kind::YourOwnTool || a
            == AttributionView::NoProject || (kind == Kind::BackgroundService && a is Known)
            ==> server::stop_text(kind, a, app) == match app {
            Some(name) => "This stops \""@ + name + "\"."@,
            None => "This stops this program."@,
        },
{
}

} // verus!
