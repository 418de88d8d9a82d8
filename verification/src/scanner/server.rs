//! One classified Server, and the small questions asked of it.
use crate::domain::model::{
    AttributionView, Health, Kind, ProjectAttribution, ProjectView, SelfPids,
};
use crate::find;
use crate::numeral;
use crate::platform::{copy_ports, PortBinding, ResourceSample};
use crate::scanner::pressure::Pressure;
use crate::text;
use crate::time::Timestamp;
use vstd::prelude::*;

verus! {

/// One Server after classification: the platform's facts, the domain's verdict, and
/// what the probe found this time.
#[derive(Debug)]
pub struct ScannedServer {
    pub id: String,
    pub pid: u32,
    pub command: String,
    pub ports: Vec<PortBinding>,
    pub start_time: Timestamp,
    pub unattended: bool,
    pub kind: Kind,
    pub attribution: ProjectAttribution,
    pub belongs_to: Option<String>,
    pub health: Health,
    pub title: Option<String>,
    /// What the process itself was using at the latest scan.
    pub usage: ResourceSample,
    /// Whether it has been heavy on a resource for a while.
    pub pressure: Pressure,
}

/// What a [`ScannedServer`] holds.
#[verifier::ext_equal]
pub struct ScannedView {
    pub id: Seq<char>,
    pub pid: u32,
    pub command: Seq<char>,
    pub ports: Seq<PortBinding>,
    pub start_time: Timestamp,
    pub unattended: bool,
    pub kind: Kind,
    pub attribution: AttributionView,
    pub belongs_to: Option<Seq<char>>,
    pub health: Health,
    pub title: Option<Seq<char>>,
    pub usage: ResourceSample,
    pub pressure: Pressure,
}

impl View for ScannedServer {
    type V = ScannedView;

    open spec fn view(&self) -> ScannedView {
        ScannedView {
            id: self.id@,
            pid: self.pid,
            command: self.command@,
            ports: self.ports@,
            start_time: self.start_time,
            unattended: self.unattended,
            kind: self.kind,
            attribution: self.attribution@,
            belongs_to: self.belongs_to.deep_view(),
            health: self.health,
            title: self.title.deep_view(),
            usage: self.usage,
            pressure: self.pressure,
        }
    }
}

impl Clone for ScannedServer {
    fn clone(&self) -> (r: ScannedServer)
        ensures
            r@ == self@,
    {
        ScannedServer {
            id: self.id.clone(),
            pid: self.pid,
            command: self.command.clone(),
            ports: copy_ports(&self.ports),
            start_time: self.start_time,
            unattended: self.unattended,
            kind: self.kind,
            attribution: self.attribution.clone(),
            belongs_to: text::copy_option(&self.belongs_to),
            health: self.health,
            title: text::copy_option(&self.title),
            usage: self.usage,
            pressure: self.pressure,
        }
    }
}

impl ScannedServer {
    /// A copy to work on while the scanner's state is released, as it must be for the
    /// seconds that a stop takes.
    pub fn clone_for_stop(&self) -> (r: ScannedServer)
        ensures
            r@ == self@,
    {
        self.clone()
    }
}

/// What each Server of a list holds.
pub open spec fn server_views(v: Seq<ScannedServer>) -> Seq<ScannedView> {
    v.map_values(|s: ScannedServer| s@)
}

// ---------------------------------------------------------------------------------
// Ids.
// ---------------------------------------------------------------------------------

/// The id of a process with this first port.
pub open spec fn id_text(pid: u32, port: u16) -> Seq<char> {
    numeral::decimal(pid as nat).push(':') + numeral::decimal(port as nat)
}

/// The id of a Server: process number and first port, which stay the same from scan to
/// scan. A process without a port has none.
pub open spec fn id_of(pid: u32, ports: Seq<PortBinding>) -> Option<Seq<char>> {
    if ports.len() > 0 {
        Some(id_text(pid, ports[0].port))
    } else {
        None
    }
}

/// The id of a Server.
pub fn server_id(pid: u32, ports: &Vec<PortBinding>) -> (r: Option<String>)
    ensures
        r.deep_view() == id_of(pid, ports@),
{
    if ports.len() == 0 {
        return None;
    }
    let mut id = numeral::to_decimal(pid as u128);
    id.push(':');
    id.append(numeral::to_decimal(ports[0].port as u128).as_str());
    Some(id)
}

/// Two Servers with the same id are the same process with the same first port.
pub proof fn lemma_id_tells_apart(pid1: u32, port1: u16, pid2: u32, port2: u16)
    requires
        id_text(pid1, port1) == id_text(pid2, port2),
    ensures
        pid1 == pid2,
        port1 == port2,
{
    let a = numeral::decimal(pid1 as nat);
    let b = numeral::decimal(pid2 as nat);
    let c = numeral::decimal(port1 as nat);
    let d = numeral::decimal(port2 as nat);
    numeral::lemma_decimal(pid1 as nat);
    numeral::lemma_decimal(pid2 as nat);
    let s = id_text(pid1, port1);
    let t = id_text(pid2, port2);
    assert(s[a.len() as int] == ':');
    assert(t[b.len() as int] == ':');
    if a.len() < b.len() {
        assert(t[a.len() as int] == b[a.len() as int]);
        assert(numeral::is_digit(b[a.len() as int]));
    }
    if b.len() < a.len() {
        assert(s[b.len() as int] == a[b.len() as int]);
        assert(numeral::is_digit(a[b.len() as int]));
    }
    assert(a =~= s.take(a.len() as int));
    assert(b =~= t.take(b.len() as int));
    assert(c =~= s.skip(a.len() as int + 1));
    assert(d =~= t.skip(b.len() as int + 1));
    numeral::lemma_decimal_injective(pid1 as nat, pid2 as nat);
    numeral::lemma_decimal_injective(port1 as nat, port2 as nat);
}

// ---------------------------------------------------------------------------------
// The application itself.
// ---------------------------------------------------------------------------------

/// The processes that are the application: its own, and in a development build its
/// direct parent where that says anything. A parent of zero is none, and one means that
/// the launching process is gone.
pub open spec fn own_pids(own: u32, ppid: u32, development: bool) -> SelfPids {
    SelfPids {
        own,
        dev_parent: if development && ppid > 1 {
            Some(ppid)
        } else {
            None
        },
    }
}

/// The processes that are the application.
pub fn self_pids(own: u32, ppid: u32, development: bool) -> (r: SelfPids)
    ensures
        r == own_pids(own, ppid, development),
{
    let dev_parent = if development && ppid > 1 {
        Some(ppid)
    } else {
        None
    };
    SelfPids { own, dev_parent }
}

// ---------------------------------------------------------------------------------
// Health and attribution.
// ---------------------------------------------------------------------------------

/// What a liveness check means. One that never completed says nothing, which is not
/// the same as having failed.
pub open spec fn health_of(result: Option<bool>) -> Health {
    match result {
        Some(true) => Health::Responding,
        Some(false) => Health::NotResponding,
        None => Health::Unknown,
    }
}

/// What a liveness check means.
pub fn health_from_liveness_result(result: Option<bool>) -> (r: Health)
    ensures
        r == health_of(result),
{
    match result {
        Some(true) => Health::Responding,
        Some(false) => Health::NotResponding,
        None => Health::Unknown,
    }
}

/// The Project of an attribution, known or guessed.
pub open spec fn attributed(a: AttributionView) -> Option<(ProjectView, Option<Seq<char>>)> {
    match a {
        AttributionView::Known(p, k) => Some((p, k)),
        AttributionView::Guessed(p, k) => Some((p, k)),
        AttributionView::NoProject => None,
    }
}

/// The root of an attribution's Project.
pub open spec fn root_of(a: AttributionView) -> Option<Seq<char>> {
    match attributed(a) {
        Some((p, _)) => Some(p.root),
        None => None,
    }
}

/// The root of an attribution's Project.
pub fn attribution_root(attribution: &ProjectAttribution) -> (r: Option<String>)
    ensures
        r.deep_view() == root_of(attribution@),
{
    match attribution {
        ProjectAttribution::Known(project, _) => Some(project.root.clone()),
        ProjectAttribution::Guessed(project, _) => Some(project.root.clone()),
        ProjectAttribution::NoProject => None,
    }
}

/// What stopping a Server does, where the application it belongs to is all there is to
/// name.
pub open spec fn app_text(belongs_to: Option<Seq<char>>) -> Seq<char> {
    match belongs_to {
        Some(app) => "This stops \""@ + app + "\"."@,
        None => "This stops this program."@,
    }
}

/// What stopping a development server of this Project does.
pub open spec fn dev_text(project: Seq<char>) -> Seq<char> {
    "This stops the \""@ + project + "\" development server."@
}

/// What stopping a background service that may serve this Project does.
pub open spec fn guess_text(project: Seq<char>) -> Seq<char> {
    "This may affect \""@ + project
        + "\" and anything else this background service holds up — the project link is uncertain."@
}

/// What stopping a Server does, in words for the user. A development server is named by
/// its Project, and a background service by what it may hold up. Anything else goes by
/// the application it belongs to, whatever the directory it runs in: that is the name
/// the user knows, and the application is what would quit.
pub open spec fn stop_text(kind: Kind, a: AttributionView, belongs_to: Option<Seq<char>>) -> Seq<char> {
    if kind == Kind::PartOfApp || kind.watch_only() {
        app_text(belongs_to)
    } else {
        match a {
            AttributionView::Known(p, _) => if kind == Kind::DevServer {
                dev_text(p.name)
            } else {
                app_text(belongs_to)
            },
            AttributionView::Guessed(p, _) => guess_text(p.name),
            AttributionView::NoProject => app_text(belongs_to),
        }
    }
}

/// What stopping a Server does, where the application it belongs to is all there is to
/// name.
fn name_app(belongs_to: &Option<String>) -> (r: String)
    ensures
        r@ == app_text(belongs_to.deep_view()),
{
    match belongs_to {
        Some(app) => {
            let mut r = "This stops \"".to_owned();
            r.append(app.as_str());
            r.append("\".");
            r
        },
        None => "This stops this program.".to_owned(),
    }
}

/// What stopping a Server does, in words for the user. Neither the process nor a port
/// has a part in them.
pub fn what_this_stops(server: &ScannedServer) -> (r: String)
    ensures
        r@ == stop_text(server@.kind, server@.attribution, server@.belongs_to),
{
    if server.kind == Kind::PartOfApp || server.kind.is_watch_only() {
        return name_app(&server.belongs_to);
    }
    match &server.attribution {
        ProjectAttribution::Known(project, _) => {
            if server.kind == Kind::DevServer {
                let mut r = "This stops the \"".to_owned();
                r.append(project.name.as_str());
                r.append("\" development server.");
                r
            } else {
                name_app(&server.belongs_to)
            }
        },
        ProjectAttribution::Guessed(project, _) => {
            let mut r = "This may affect \"".to_owned();
            r.append(project.name.as_str());
            r.append(
                "\" and anything else this background service holds up — the project link is uncertain.",
            );
            r
        },
        ProjectAttribution::NoProject => name_app(&server.belongs_to),
    }
}

/// Servers of the same Kind that belong to the same Project and application are spoken
/// of alike, whatever their processes, commands and ports.
pub proof fn lemma_words_name_no_process(a: ScannedView, b: ScannedView)
    requires
        a.kind == b.kind,
        a.attribution == b.attribution,
        a.belongs_to == b.belongs_to,
    ensures
        stop_text(a.kind, a.attribution, a.belongs_to) == stop_text(
            b.kind,
            b.attribution,
            b.belongs_to,
        ),
{
}

/// A part of an application is announced by the application that would quit, whatever
/// Project its directory is in.
pub proof fn lemma_application_is_named(a: AttributionView, app: Seq<char>)
    ensures
        stop_text(Kind::PartOfApp, a, Some(app)) == "This stops \""@ + app + "\"."@,
{
}

/// Only a development server whose Project is known is announced as one.
pub proof fn lemma_only_dev_servers_are_called_so(
    kind: Kind,
    a: AttributionView,
    belongs_to: Option<Seq<char>>,
)
    requires
        kind != Kind::DevServer || !(a is Known),
    ensures
        stop_text(kind, a, belongs_to) == app_text(belongs_to) || (a is Guessed && stop_text(
            kind,
            a,
            belongs_to,
        ) == guess_text(a->Guessed_0.name)),
{
}

// ---------------------------------------------------------------------------------
// Looking Servers up.
// ---------------------------------------------------------------------------------

/// Whether a Server has this id.
pub open spec fn has_id(id: Seq<char>) -> spec_fn(ScannedView) -> bool {
    |s: ScannedView| s.id == id
}

/// Whether no two Servers have the same id.
pub open spec fn distinct_ids(servers: Seq<ScannedView>) -> bool {
    forall|i: int, j: int|
        0 <= i < j < servers.len() ==> (#[trigger] servers[i]).id != (#[trigger] servers[j]).id
}

/// The first Server with this id.
pub open spec fn resolved(servers: Seq<ScannedView>, id: Seq<char>) -> Option<ScannedView> {
    find::first_such(servers, has_id(id))
}

/// Find a Server by its id. The id is looked up as it is and never taken apart, so that
/// a stale or made-up one leads to no process.
pub fn resolve<'a>(servers: &'a Vec<ScannedServer>, id: &str) -> (r: Option<&'a ScannedServer>)
    ensures
        match r {
            Some(s) => resolved(server_views(servers@), id@) == Some(s@),
            None => resolved(server_views(servers@), id@) is None,
        },
{
    let ghost all = server_views(servers@);
    let mut i: usize = 0;
    while i < servers.len()
        invariant
            0 <= i <= servers@.len(),
            all == server_views(servers@),
            forall|j: int| 0 <= j < i ==> !has_id(id@)(#[trigger] all[j]),
        decreases servers@.len() - i,
    {
        proof {
            assert(all[i as int] == servers@[i as int]@);
        }
        if text::same(servers[i].id.as_str(), id) {
            proof {
                find::lemma_first_such_is(all, has_id(id@), i as int);
            }
            return Some(&servers[i]);
        }
        i = i + 1;
    }
    proof {
        find::lemma_first_such_is(all, has_id(id@), i as int);
    }
    None
}

} // verus!
