//! Assigning a Kind to a listener.
use super::model::{
    AttributionView, Kind, Package, Project, ProjectAttribution, ProjectView, SelfPids,
};
use super::project;
use crate::platform::{PortBinding, RawListener, RawListenerView, Reachability};
use crate::text;
use vstd::prelude::*;

verus! {

/// How the application's own row is labelled.
pub const SELF_LABEL: &'static str = "Portside — this app";

/// Whether an executable belongs to the operating system itself.
///
/// `/usr/bin` is not among these places: it also holds interpreters that users run
/// their own servers with.
pub open spec fn system_path(exe: Seq<char>) -> bool {
    text::has_prefix(exe, "/System"@) || text::has_prefix(exe, "/usr/libexec"@)
        || text::has_prefix(exe, "/usr/sbin"@) || text::has_prefix(exe, "/sbin"@)
}

/// Whether one of the bindings can be reached from the whole network.
pub open spec fn open_to_network(ports: Seq<PortBinding>) -> bool {
    exists|i: int|
        0 <= i < ports.len() && (#[trigger] ports[i]).reachability == Reachability::AllInterfaces
}

/// The Kind of a listener. The order of the rules matters.
///
/// 1. An executable of the system is part of macOS.
/// 2. One inside an application bundle that is open to the network is a background
///    service: it holds ports on behalf of other things.
/// 3. Any other one inside a bundle is part of that application.
/// 4. One that belongs to a Project is a development server.
/// 5. What is left is a tool that the user runs on purpose.
pub open spec fn kind_of(
    exe: Seq<char>,
    ports: Seq<PortBinding>,
    in_bundle: bool,
    has_project: bool,
) -> Kind {
    if system_path(exe) {
        Kind::PartOfMacOS
    } else if in_bundle && open_to_network(ports) {
        Kind::BackgroundService
    } else if in_bundle {
        Kind::PartOfApp
    } else if has_project {
        Kind::DevServer
    } else {
        Kind::YourOwnTool
    }
}

/// How surely the Project of a listener of this Kind is known: a background service's
/// working directory tells where it was started long ago, not what it serves now.
pub open spec fn attribution_of(
    kind: Kind,
    found: Option<(ProjectView, Option<Seq<char>>)>,
) -> AttributionView {
    match found {
        Some((p, k)) => if kind == Kind::BackgroundService {
            AttributionView::Guessed(p, k)
        } else {
            AttributionView::Known(p, k)
        },
        None => AttributionView::NoProject,
    }
}

/// Whether `owning_app` answers as `own` does.
pub open spec fn names<O: Fn(&str) -> Option<String>>(
    owning_app: O,
    own: spec_fn(Seq<char>) -> Option<Seq<char>>,
) -> bool {
    forall|p: &str, r: Option<String>| #[trigger]
        call_ensures(owning_app, (p,), r) ==> r.deep_view() == own(p@)
}

/// Whether `owning_app` may be asked about any executable.
pub open spec fn nameable<O: Fn(&str) -> Option<String>>(owning_app: O) -> bool {
    forall|p: &str| #[trigger] call_requires(owning_app, (p,))
}

/// The Project of a listener: that of its working directory, where that is known.
pub open spec fn project_found(raw: RawListenerView, fs: spec_fn(Seq<char>) -> bool) -> Option<
    (ProjectView, Option<Seq<char>>),
> {
    match raw.cwd {
        Some(cwd) => project::project_of(cwd, fs),
        None => None,
    }
}

/// The Kind of a listener, and how surely its Project is known, where it is found to lie
/// in an application bundle or not and to have this Project. The application's own
/// processes come before every rule: they are never offered to be stopped.
pub open spec fn rated(
    raw: RawListenerView,
    self_pids: SelfPids,
    in_bundle: bool,
    found: Option<(ProjectView, Option<Seq<char>>)>,
) -> (Kind, AttributionView) {
    if self_pids.guards(raw.pid) {
        (Kind::YourOwnTool, AttributionView::NoProject)
    } else {
        let kind = kind_of(raw.exe_path, raw.ports, in_bundle, found is Some);
        (kind, attribution_of(kind, found))
    }
}

/// The Kind of a listener, and how surely its Project is known, where `own` says which
/// bundle an executable lives in and `fs` what exists.
pub open spec fn classified(
    raw: RawListenerView,
    self_pids: SelfPids,
    own: spec_fn(Seq<char>) -> Option<Seq<char>>,
    fs: spec_fn(Seq<char>) -> bool,
) -> (Kind, AttributionView) {
    rated(raw, self_pids, own(raw.exe_path) is Some, project_found(raw, fs))
}

/// Whether `owning_app` may name this bundle for the executable `p`.
pub open spec fn may_name<O: Fn(&str) -> Option<String>>(
    owning_app: O,
    p: Seq<char>,
    named: Option<Seq<char>>,
) -> bool {
    exists|q: &str, r: Option<String>| #[trigger]
        call_ensures(owning_app, (q,), r) && q@ == p && r.deep_view() == named
}

/// Whether asking `present` may find this to be the Project of a listener.
pub open spec fn may_have_project<F: Fn(&str) -> bool>(
    present: F,
    raw: RawListenerView,
    found: Option<(ProjectView, Option<Seq<char>>)>,
) -> bool {
    match raw.cwd {
        Some(cwd) => project::found_by(present, cwd, found),
        None => found is None,
    }
}

/// Whether asking about a listener may find this bundle and this Project.
pub open spec fn may_find<F: Fn(&str) -> bool, O: Fn(&str) -> Option<String>>(
    raw: RawListenerView,
    owning_app: O,
    present: F,
    named: Option<Seq<char>>,
    found: Option<(ProjectView, Option<Seq<char>>)>,
) -> bool {
    may_name(owning_app, raw.exe_path, named) && may_have_project(present, raw, found)
}

/// Whether asking about a listener may lead to this Kind and Project. Nothing is asked
/// about the application's own processes.
pub open spec fn classified_by<F: Fn(&str) -> bool, O: Fn(&str) -> Option<String>>(
    raw: RawListenerView,
    self_pids: SelfPids,
    owning_app: O,
    present: F,
    result: (Kind, AttributionView),
) -> bool {
    if self_pids.guards(raw.pid) {
        result == rated(raw, self_pids, false, None)
    } else {
        exists|
            named: Option<Seq<char>>,
            found: Option<(ProjectView, Option<Seq<char>>)>,
        | #[trigger]
            may_find(raw, owning_app, present, named, found) && result == rated(
                raw,
                self_pids,
                named is Some,
                found,
            )
    }
}

/// Whether an executable belongs to the operating system itself.
fn is_system_path(exe: &str) -> (r: bool)
    ensures
        r == system_path(exe@),
{
    text::starts_with(exe, "/System") || text::starts_with(exe, "/usr/libexec")
        || text::starts_with(exe, "/usr/sbin") || text::starts_with(exe, "/sbin")
}

/// Whether one of the bindings can be reached from the whole network.
fn is_open_to_network(ports: &Vec<PortBinding>) -> (r: bool)
    ensures
        r == open_to_network(ports@),
{
    let mut i: usize = 0;
    while i < ports.len()
        invariant
            0 <= i <= ports@.len(),
            forall|k: int|
                0 <= k < i ==> (#[trigger] ports@[k]).reachability != Reachability::AllInterfaces,
        decreases ports@.len() - i,
    {
        if ports[i].reachability == Reachability::AllInterfaces {
            return true;
        }
        i = i + 1;
    }
    false
}

/// The Kind of a listener.
fn classify(exe: &str, ports: &Vec<PortBinding>, in_bundle: bool, has_project: bool) -> (r: Kind)
    ensures
        r == kind_of(exe@, ports@, in_bundle, has_project),
{
    if is_system_path(exe) {
        return Kind::PartOfMacOS;
    }
    if in_bundle && is_open_to_network(ports) {
        return Kind::BackgroundService;
    }
    if in_bundle {
        return Kind::PartOfApp;
    }
    if has_project {
        Kind::DevServer
    } else {
        Kind::YourOwnTool
    }
}

/// How surely the Project of a listener of this Kind is known.
fn attribution_for(kind: Kind, found: Option<(Project, Option<Package>)>) -> (r: ProjectAttribution)
    ensures
        r@ == attribution_of(kind, project::found_view(found)),
{
    match found {
        Some((p, k)) => if kind == Kind::BackgroundService {
            ProjectAttribution::Guessed(p, k)
        } else {
            ProjectAttribution::Known(p, k)
        },
        None => ProjectAttribution::NoProject,
    }
}

/// Classify one listener.
///
/// `owning_app` names the application bundle that an executable lives in, and `present`
/// tells whether a path exists. Both come in as arguments because finding out needs the
/// operating system. Leaving `owning_app` without an answer would let a helper of an
/// application whose working directory happens to have a project marker pass for the
/// user's own server.
pub fn classify_listener<F: Fn(&str) -> bool, O: Fn(&str) -> Option<String>>(
    raw: &RawListener,
    self_pids: SelfPids,
    owning_app: O,
    present: F,
) -> (r: (Kind, ProjectAttribution))
    requires
        nameable(owning_app),
        project::askable(present),
    ensures
        classified_by(raw@, self_pids, owning_app, present, (r.0, r.1@)),
        forall|own: spec_fn(Seq<char>) -> Option<Seq<char>>, fs: spec_fn(Seq<char>) -> bool|
            #[trigger] names(owning_app, own) && #[trigger] project::answers(present, fs) ==> (
            r.0,
            r.1@,
        ) == classified(raw@, self_pids, own, fs),
{
    let r = classify_with(raw, self_pids, &owning_app, &present);
    proof {
        assert forall|own: spec_fn(Seq<char>) -> Option<Seq<char>>, fs: spec_fn(Seq<char>) -> bool|
            #[trigger] names(owning_app, own) && #[trigger] project::answers(present, fs) implies (
        r.0, r.1@) == classified(raw@, self_pids, own, fs) by {
            lemma_steady_answers(raw@, self_pids, owning_app, present, own, fs, (r.0, r.1@));
        }
    }
    r
}

/// Classify one listener.
pub fn classify_with<F: Fn(&str) -> bool, O: Fn(&str) -> Option<String>>(
    raw: &RawListener,
    self_pids: SelfPids,
    owning_app: &O,
    present: &F,
) -> (r: (Kind, ProjectAttribution))
    requires
        nameable(*owning_app),
        project::askable(*present),
    ensures
        classified_by(raw@, self_pids, *owning_app, *present, (r.0, r.1@)),
{
    if self_pids.covers(raw.pid) {
        return (Kind::YourOwnTool, ProjectAttribution::NoProject);
    }
    let belongs_to = owning_app(raw.exe_path.as_str());
    let found = match &raw.cwd {
        Some(cwd) => project::locate_project(cwd.as_str(), present),
        None => None,
    };
    let ghost named = belongs_to.deep_view();
    let ghost located = project::found_view(found);
    let kind = classify(
        raw.exe_path.as_str(),
        &raw.ports,
        belongs_to.is_some(),
        found.is_some(),
    );
    let attribution = attribution_for(kind, found);
    proof {
        assert(may_name(*owning_app, raw@.exe_path, named));
        assert(may_find(raw@, *owning_app, *present, named, located));
    }
    (kind, attribution)
}

// ---------------------------------------------------------------------------------
// What every classification keeps.
// ---------------------------------------------------------------------------------

/// Where the two questions have one answer each, classifying may lead to one Kind and
/// Project only.
pub proof fn lemma_steady_answers<F: Fn(&str) -> bool, O: Fn(&str) -> Option<String>>(
    raw: RawListenerView,
    self_pids: SelfPids,
    owning_app: O,
    present: F,
    own: spec_fn(Seq<char>) -> Option<Seq<char>>,
    fs: spec_fn(Seq<char>) -> bool,
    result: (Kind, AttributionView),
)
    requires
        names(owning_app, own),
        project::answers(present, fs),
        classified_by(raw, self_pids, owning_app, present, result),
    ensures
        result == classified(raw, self_pids, own, fs),
{
    if !self_pids.guards(raw.pid) {
        let (named, found) = choose|
            named: Option<Seq<char>>,
            found: Option<(ProjectView, Option<Seq<char>>)>,
        | #[trigger]
            may_find(raw, owning_app, present, named, found) && result == rated(
                raw,
                self_pids,
                named is Some,
                found,
            );
        match raw.cwd {
            Some(cwd) => {
                project::lemma_steady_disk(present, fs, cwd, found);
            },
            None => {},
        }
    }
}

/// A listener without a Project is never a development server: every development
/// server's Project is known for a fact.
pub proof fn lemma_dev_server_has_project(
    raw: RawListenerView,
    self_pids: SelfPids,
    in_bundle: bool,
    found: Option<(ProjectView, Option<Seq<char>>)>,
)
    ensures
        rated(raw, self_pids, in_bundle, found).0 == Kind::DevServer ==> rated(
            raw,
            self_pids,
            in_bundle,
            found,
        ).1 is Known,
{
}

/// A Project is shown as a guess exactly for the background services that have one.
pub proof fn lemma_guess_iff_background_service(
    raw: RawListenerView,
    self_pids: SelfPids,
    in_bundle: bool,
    found: Option<(ProjectView, Option<Seq<char>>)>,
)
    ensures
        rated(raw, self_pids, in_bundle, found).1 is Guessed <==> rated(
            raw,
            self_pids,
            in_bundle,
            found,
        ).0 == Kind::BackgroundService && found is Some,
{
}

/// The application's own processes are never offered to be stopped, wherever they run.
pub proof fn lemma_self_is_watch_only(
    raw: RawListenerView,
    self_pids: SelfPids,
    in_bundle: bool,
    found: Option<(ProjectView, Option<Seq<char>>)>,
)
    requires
        self_pids.guards(raw.pid),
    ensures
        rated(raw, self_pids, in_bundle, found).0.watch_only(),
        rated(raw, self_pids, in_bundle, found).1 is NoProject,
{
}

/// A program of the system is part of macOS, whatever it binds and wherever it runs, and
/// so never offered to be stopped.
pub proof fn lemma_system_is_watch_only(
    raw: RawListenerView,
    self_pids: SelfPids,
    in_bundle: bool,
    found: Option<(ProjectView, Option<Seq<char>>)>,
)
    requires
        system_path(raw.exe_path),
    ensures
        rated(raw, self_pids, in_bundle, found).0.watch_only(),
        !self_pids.guards(raw.pid) ==> rated(raw, self_pids, in_bundle, found).0
            == Kind::PartOfMacOS,
{
}

/// A program inside an application bundle is never taken for the user's own server,
/// whatever project markers its working directory has.
pub proof fn lemma_bundled_is_never_dev_server(
    raw: RawListenerView,
    self_pids: SelfPids,
    found: Option<(ProjectView, Option<Seq<char>>)>,
)
    ensures
        rated(raw, self_pids, true, found).0 != Kind::DevServer,
{
}

} // verus!
