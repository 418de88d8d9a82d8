//! What is handed to the user interface.
//!
//! These types are apart from the domain's on purpose: the words on the wire are a
//! contract of their own, and a change of the domain must not change them unnoticed.
//! Each enumeration has a `wire` method that gives its word.
use crate::domain::model::{AttributionView, Kind, ProjectAttribution};
use crate::platform::{AddressFamily, PortBinding, Reachability, ResourceSample};
use crate::scanner::pressure::Pressure;
use vstd::prelude::*;

verus! {

#[derive(Debug, Clone, Copy, PartialEq, Eq, Structural)]
pub enum PortFamily {
    V4,
    V6,
}

impl PortFamily {
    /// The word on the wire.
    pub fn wire(self) -> (r: &'static str)
        ensures
            r@ == (match self {
                PortFamily::V4 => "v4"@,
                PortFamily::V6 => "v6"@,
            }),
    {
        match self {
            PortFamily::V4 => "v4",
            PortFamily::V6 => "v6",
        }
    }
}

#[derive(Debug, Clone, Copy, PartialEq, Eq, Structural)]
pub enum PortReachability {
    Localhost,
    AllInterfaces,
}

impl PortReachability {
    /// The word on the wire.
    pub fn wire(self) -> (r: &'static str)
        ensures
            r@ == (match self {
                PortReachability::Localhost => "localhost"@,
                PortReachability::AllInterfaces => "all_interfaces"@,
            }),
    {
        match self {
            PortReachability::Localhost => "localhost",
            PortReachability::AllInterfaces => "all_interfaces",
        }
    }
}

/// A binding as the user interface sees it.
#[derive(Debug, Clone, Copy, PartialEq, Eq, Structural)]
pub struct Port {
    pub number: u16,
    pub family: PortFamily,
    pub reachability: PortReachability,
}

/// How a binding is shown.
pub open spec fn port_of(b: PortBinding) -> Port {
    Port {
        number: b.port,
        family: match b.family {
            AddressFamily::V4 => PortFamily::V4,
            AddressFamily::V6 => PortFamily::V6,
        },
        reachability: match b.reachability {
            Reachability::LocalhostOnly => PortReachability::Localhost,
            Reachability::AllInterfaces => PortReachability::AllInterfaces,
        },
    }
}

/// How bindings are shown.
pub open spec fn ports_of(v: Seq<PortBinding>) -> Seq<Port> {
    v.map_values(|b: PortBinding| port_of(b))
}

impl<'a> vstd::std_specs::convert::FromSpecImpl<&'a PortBinding> for Port {
    open spec fn obeys_from_spec() -> bool {
        true
    }

    open spec fn from_spec(b: &'a PortBinding) -> Port {
        port_of(*b)
    }
}

impl<'a> From<&'a PortBinding> for Port {
    fn from(b: &'a PortBinding) -> (r: Port) {
        Port {
            number: b.port,
            family: match b.family {
                AddressFamily::V4 => PortFamily::V4,
                AddressFamily::V6 => PortFamily::V6,
            },
            reachability: match b.reachability {
                Reachability::LocalhostOnly => PortReachability::Localhost,
                Reachability::AllInterfaces => PortReachability::AllInterfaces,
            },
        }
    }
}

/// How bindings are shown.
pub fn wire_ports(v: &Vec<PortBinding>) -> (r: Vec<Port>)
    ensures
        r@ == ports_of(v@),
{
    let mut r: Vec<Port> = Vec::new();
    let mut i: usize = 0;
    while i < v.len()
        invariant
            0 <= i <= v@.len(),
            r@ == ports_of(v@).take(i as int),
        decreases v@.len() - i,
    {
        r.push(Port::from(&v[i]));
        i = i + 1;
        proof {
            assert(ports_of(v@).take(i as int) =~= ports_of(v@).take(i - 1).push(
                port_of(v@[i - 1]),
            ));
        }
    }
    proof {
        assert(ports_of(v@).take(i as int) =~= ports_of(v@));
    }
    r
}

#[derive(Debug, Clone, Copy, PartialEq, Eq, Structural)]
pub enum HealthWire {
    Responding,
    NotResponding,
    Unknown,
}

impl HealthWire {
    /// The word on the wire.
    pub fn wire(self) -> (r: &'static str)
        ensures
            r@ == (match self {
                HealthWire::Responding => "responding"@,
                HealthWire::NotResponding => "not_responding"@,
                HealthWire::Unknown => "unknown"@,
            }),
    {
        match self {
            HealthWire::Responding => "responding",
            HealthWire::NotResponding => "not_responding",
            HealthWire::Unknown => "unknown",
        }
    }
}

#[derive(Debug, Clone, Copy, PartialEq, Eq, Structural)]
pub enum PressureWire {
    Normal,
    Cpu,
    Memory,
    Both,
}

impl PressureWire {
    /// The word on the wire.
    pub fn wire(self) -> (r: &'static str)
        ensures
            r@ == (match self {
                PressureWire::Normal => "normal"@,
                PressureWire::Cpu => "cpu"@,
                PressureWire::Memory => "memory"@,
                PressureWire::Both => "both"@,
            }),
    {
        match self {
            PressureWire::Normal => "normal",
            PressureWire::Cpu => "cpu",
            PressureWire::Memory => "memory",
            PressureWire::Both => "both",
        }
    }
}

/// What one Server was using at the latest scan. A missing figure was not available,
/// which is not the same as zero.
///
/// The CPU figure is in tenths of a percent. The user interface is given a percentage
/// with one decimal place; that division is made where the value is written out.
#[derive(Debug, Clone, Copy, PartialEq, Eq, Structural)]
pub struct ResourceUsageWire {
    pub cpu_tenths_percent: Option<u32>,
    pub memory_bytes: Option<u64>,
    pub pressure: PressureWire,
}

/// How a pressure is shown.
pub open spec fn pressure_of(p: Pressure) -> PressureWire {
    match p {
        Pressure::Normal => PressureWire::Normal,
        Pressure::Cpu => PressureWire::Cpu,
        Pressure::Memory => PressureWire::Memory,
        Pressure::Both => PressureWire::Both,
    }
}

/// How a reading and a pressure are shown.
pub open spec fn usage_of(sample: ResourceSample, pressure: Pressure) -> ResourceUsageWire {
    ResourceUsageWire {
        cpu_tenths_percent: sample.cpu_tenths_percent,
        memory_bytes: sample.memory_bytes,
        pressure: pressure_of(pressure),
    }
}

impl ResourceUsageWire {
    /// How a reading and a pressure are shown.
    pub fn new(sample: &ResourceSample, pressure: Pressure) -> (r: ResourceUsageWire)
        ensures
            r == usage_of(*sample, pressure),
    {
        ResourceUsageWire {
            cpu_tenths_percent: sample.cpu_tenths_percent,
            memory_bytes: sample.memory_bytes,
            pressure: match pressure {
                Pressure::Normal => PressureWire::Normal,
                Pressure::Cpu => PressureWire::Cpu,
                Pressure::Memory => PressureWire::Memory,
                Pressure::Both => PressureWire::Both,
            },
        }
    }
}

/// The row of a development server.
#[derive(Debug, PartialEq, Eq)]
pub struct ServerWire {
    /// The same from scan to scan: process number and first port. The user interface
    /// hands it back as it is; it is looked up, never taken apart.
    pub id: String,
    pub pid: u32,
    pub package: Option<String>,
    /// The Project's root, where the Project is known.
    pub project_path: Option<String>,
    pub title: Option<String>,
    pub command: String,
    pub ports: Vec<Port>,
    pub uptime_seconds: u64,
    pub health: HealthWire,
    pub unattended: bool,
    pub keep_running: bool,
    pub usage: ResourceUsageWire,
}

/// What a [`ServerWire`] holds.
#[verifier::ext_equal]
pub struct ServerRow {
    pub id: Seq<char>,
    pub pid: u32,
    pub package: Option<Seq<char>>,
    pub project_path: Option<Seq<char>>,
    pub title: Option<Seq<char>>,
    pub command: Seq<char>,
    pub ports: Seq<Port>,
    pub uptime_seconds: int,
    pub health: HealthWire,
    pub unattended: bool,
    pub keep_running: bool,
    pub usage: ResourceUsageWire,
}

impl View for ServerWire {
    type V = ServerRow;

    open spec fn view(&self) -> ServerRow {
        ServerRow {
            id: self.id@,
            pid: self.pid,
            package: self.package.deep_view(),
            project_path: self.project_path.deep_view(),
            title: self.title.deep_view(),
            command: self.command@,
            ports: self.ports@,
            uptime_seconds: self.uptime_seconds as int,
            health: self.health,
            unattended: self.unattended,
            keep_running: self.keep_running,
            usage: self.usage,
        }
    }
}

/// The latest figures of one Server.
#[derive(Debug, PartialEq, Eq)]
pub struct ResourceSampleEntry {
    pub id: String,
    pub usage: ResourceUsageWire,
}

impl View for ResourceSampleEntry {
    type V = (Seq<char>, ResourceUsageWire);

    open spec fn view(&self) -> (Seq<char>, ResourceUsageWire) {
        (self.id@, self.usage)
    }
}

/// The latest figures of every Server, to be put into rows that are already drawn.
#[derive(Debug, PartialEq, Eq)]
pub struct ResourceSamples {
    pub samples: Vec<ResourceSampleEntry>,
    /// When, as in [`Snapshot`].
    pub scanned_at: String,
}

/// The development servers of one Project.
#[derive(Debug, PartialEq, Eq)]
pub struct ProjectGroup {
    pub project: String,
    pub servers: Vec<ServerWire>,
}

/// What a [`ProjectGroup`] holds.
#[verifier::ext_equal]
pub struct GroupView {
    pub project: Seq<char>,
    pub servers: Seq<ServerRow>,
}

/// What each row of a list holds.
pub open spec fn rows(v: Seq<ServerWire>) -> Seq<ServerRow> {
    v.map_values(|s: ServerWire| s@)
}

impl View for ProjectGroup {
    type V = GroupView;

    open spec fn view(&self) -> GroupView {
        GroupView { project: self.project@, servers: rows(self.servers@) }
    }
}

#[derive(Debug, Clone, Copy, PartialEq, Eq, Structural)]
pub enum WatchOnlyReason {
    YourOwnTool,
    PartOfMacos,
}

impl WatchOnlyReason {
    /// The word on the wire.
    pub fn wire(self) -> (r: &'static str)
        ensures
            r@ == (match self {
                WatchOnlyReason::YourOwnTool => "your_own_tool"@,
                WatchOnlyReason::PartOfMacos => "part_of_macos"@,
            }),
    {
        match self {
            WatchOnlyReason::YourOwnTool => "your_own_tool",
            WatchOnlyReason::PartOfMacos => "part_of_macos",
        }
    }
}

/// The row of a Server that is shown but never stopped.
#[derive(Debug, PartialEq, Eq)]
pub struct WatchOnlyServer {
    pub id: String,
    pub label: String,
    pub reason: WatchOnlyReason,
    pub ports: Vec<Port>,
    pub uptime_seconds: u64,
    pub usage: ResourceUsageWire,
}

/// What a [`WatchOnlyServer`] holds.
#[verifier::ext_equal]
pub struct WatchOnlyRow {
    pub id: Seq<char>,
    pub label: Seq<char>,
    pub reason: WatchOnlyReason,
    pub ports: Seq<Port>,
    pub uptime_seconds: int,
    pub usage: ResourceUsageWire,
}

impl View for WatchOnlyServer {
    type V = WatchOnlyRow;

    open spec fn view(&self) -> WatchOnlyRow {
        WatchOnlyRow {
            id: self.id@,
            label: self.label@,
            reason: self.reason,
            ports: self.ports@,
            uptime_seconds: self.uptime_seconds as int,
            usage: self.usage,
        }
    }
}

#[derive(Debug, Clone, Copy, PartialEq, Eq, Structural)]
pub enum OtherKind {
    PartOfApp,
    BackgroundService,
}

impl OtherKind {
    /// The word on the wire.
    pub fn wire(self) -> (r: &'static str)
        ensures
            r@ == (match self {
                OtherKind::PartOfApp => "part_of_app"@,
                OtherKind::BackgroundService => "background_service"@,
            }),
    {
        match self {
            OtherKind::PartOfApp => "part_of_app",
            OtherKind::BackgroundService => "background_service",
        }
    }
}

/// The row of a part of an application or of a background service.
#[derive(Debug, PartialEq, Eq)]
pub struct OtherServer {
    pub id: String,
    pub label: String,
    pub kind: OtherKind,
    pub guessed_project: Option<String>,
    pub ports: Vec<Port>,
    pub usage: ResourceUsageWire,
}

/// What an [`OtherServer`] holds.
#[verifier::ext_equal]
pub struct OtherRow {
    pub id: Seq<char>,
    pub label: Seq<char>,
    pub kind: OtherKind,
    pub guessed_project: Option<Seq<char>>,
    pub ports: Seq<Port>,
    pub usage: ResourceUsageWire,
}

impl View for OtherServer {
    type V = OtherRow;

    open spec fn view(&self) -> OtherRow {
        OtherRow {
            id: self.id@,
            label: self.label@,
            kind: self.kind,
            guessed_project: self.guessed_project.deep_view(),
            ports: self.ports@,
            usage: self.usage,
        }
    }
}

/// Everything that is shown.
#[derive(Debug, PartialEq, Eq)]
pub struct Snapshot {
    pub projects: Vec<ProjectGroup>,
    pub watch_only: Vec<WatchOnlyServer>,
    pub others: Vec<OtherServer>,
    /// When, as `2026-09-02T08:42:21Z`.
    pub scanned_at: String,
    /// Whether the latest scan failed, in which case all else is what the last good
    /// one found. A failed scan and a quiet machine would look alike without it.
    pub scan_failed: bool,
}

/// What a [`Snapshot`] holds.
#[verifier::ext_equal]
pub struct SnapshotView {
    pub projects: Seq<GroupView>,
    pub watch_only: Seq<WatchOnlyRow>,
    pub others: Seq<OtherRow>,
    pub scanned_at: Seq<char>,
    pub scan_failed: bool,
}

/// What each group of a list holds.
pub open spec fn groups(v: Seq<ProjectGroup>) -> Seq<GroupView> {
    v.map_values(|g: ProjectGroup| g@)
}

/// What each row of a list holds.
pub open spec fn watch_only_rows(v: Seq<WatchOnlyServer>) -> Seq<WatchOnlyRow> {
    v.map_values(|s: WatchOnlyServer| s@)
}

/// What each row of a list holds.
pub open spec fn other_rows(v: Seq<OtherServer>) -> Seq<OtherRow> {
    v.map_values(|s: OtherServer| s@)
}

impl View for Snapshot {
    type V = SnapshotView;

    open spec fn view(&self) -> SnapshotView {
        SnapshotView {
            projects: groups(self.projects@),
            watch_only: watch_only_rows(self.watch_only@),
            others: other_rows(self.others@),
            scanned_at: self.scanned_at@,
            scan_failed: self.scan_failed,
        }
    }
}

#[derive(Debug, Clone, Copy, PartialEq, Eq, Structural)]
pub enum StopResult {
    Stopped,
    StillRunning,
    Refused,
}

impl StopResult {
    /// The word on the wire.
    pub fn wire(self) -> (r: &'static str)
        ensures
            r@ == (match self {
                StopResult::Stopped => "stopped"@,
                StopResult::StillRunning => "still_running"@,
                StopResult::Refused => "refused"@,
            }),
    {
        match self {
            StopResult::Stopped => "stopped",
            StopResult::StillRunning => "still_running",
            StopResult::Refused => "refused",
        }
    }
}

/// What came of a stop.
#[derive(Debug, PartialEq, Eq)]
pub struct StopOutcome {
    pub id: String,
    pub result: StopResult,
    /// For the user: what the stop is about in plain words, never a process name or a
    /// port number.
    pub message: String,
}

/// What a [`StopOutcome`] holds.
#[verifier::ext_equal]
pub struct OutcomeView {
    pub id: Seq<char>,
    pub result: StopResult,
    pub message: Seq<char>,
}

impl View for StopOutcome {
    type V = OutcomeView;

    open spec fn view(&self) -> OutcomeView {
        OutcomeView { id: self.id@, result: self.result, message: self.message@ }
    }
}

/// Which section of the display a Server belongs in.
#[derive(Debug, Clone, Copy, PartialEq, Eq, Structural)]
pub enum WireSection {
    Project,
    WatchOnly(WatchOnlyReason),
    Other(OtherKind),
}

/// The section for a Kind.
pub open spec fn section_of(kind: Kind) -> WireSection {
    match kind {
        Kind::DevServer => WireSection::Project,
        Kind::YourOwnTool => WireSection::WatchOnly(WatchOnlyReason::YourOwnTool),
        Kind::PartOfMacOS => WireSection::WatchOnly(WatchOnlyReason::PartOfMacos),
        Kind::PartOfApp => WireSection::Other(OtherKind::PartOfApp),
        Kind::BackgroundService => WireSection::Other(OtherKind::BackgroundService),
    }
}

/// The section for a Kind.
pub fn wire_section_for(kind: Kind) -> (r: WireSection)
    ensures
        r == section_of(kind),
{
    match kind {
        Kind::DevServer => WireSection::Project,
        Kind::YourOwnTool => WireSection::WatchOnly(WatchOnlyReason::YourOwnTool),
        Kind::PartOfMacOS => WireSection::WatchOnly(WatchOnlyReason::PartOfMacos),
        Kind::PartOfApp => WireSection::Other(OtherKind::PartOfApp),
        Kind::BackgroundService => WireSection::Other(OtherKind::BackgroundService),
    }
}

/// A Server is in the section of those never stopped exactly where its Kind is one that
/// is never stopped.
pub proof fn lemma_watch_only_section(kind: Kind)
    ensures
        section_of(kind) is WatchOnly <==> kind.watch_only(),
        section_of(kind) is Project <==> kind == Kind::DevServer,
{
}

/// The name of a Project that is only guessed at. One that is known has none here, so
/// that a guess is never shown as a fact.
pub open spec fn guessed_name(a: AttributionView) -> Option<Seq<char>> {
    match a {
        AttributionView::Guessed(p, _) => Some(p.name),
        _ => None,
    }
}

/// The name of a Project that is only guessed at.
pub fn guessed_project_name(attribution: &ProjectAttribution) -> (r: Option<String>)
    ensures
        r.deep_view() == guessed_name(attribution@),
{
    match attribution {
        ProjectAttribution::Guessed(project, _) => Some(project.name.clone()),
        _ => None,
    }
}

} // verus!
